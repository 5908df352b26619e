pub mod app;
pub mod clipboard;
pub mod daterange;
pub mod detail;
pub mod events_panel;
pub mod export_menu;
pub mod facets_panel;
pub mod input_box;
pub mod keys;
pub mod layout;
pub mod picker;
pub mod prompt;
pub mod statusbar;
