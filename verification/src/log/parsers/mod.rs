pub mod nginx_error;
pub mod apache_error;
pub mod nginx_access;
pub mod apache_access;
pub mod generic;
pub mod php;
pub mod symfony;
