//! The log formats the viewer knows.
use vstd::prelude::*;
use crate::text::{chars_eq_str, chars_of, lower_seq, push_str, to_lower_chars};

verus! {

#[derive(Debug, Clone, Copy, PartialEq, Eq, Structural, Hash)]
pub enum LogFormat {
    SymfonyMonolog,
    PhpError,
    NginxAccess,
    NginxError,
    ApacheAccess,
    ApacheError,
    Generic,
}

pub open spec fn format_label(f: LogFormat) -> Seq<char> {
    match f {
        LogFormat::SymfonyMonolog => "Symfony (Monolog)"@,
        LogFormat::PhpError => "PHP error"@,
        LogFormat::NginxAccess => "Nginx access"@,
        LogFormat::NginxError => "Nginx error"@,
        LogFormat::ApacheAccess => "Apache access"@,
        LogFormat::ApacheError => "Apache error"@,
        LogFormat::Generic => "Generic"@,
    }
}

/// Every format, in the order detection tries them.
pub open spec fn all_formats() -> Seq<LogFormat> {
    seq![
        LogFormat::SymfonyMonolog,
        LogFormat::PhpError,
        LogFormat::NginxAccess,
        LogFormat::NginxError,
        LogFormat::ApacheAccess,
        LogFormat::ApacheError,
        LogFormat::Generic,
    ]
}

/// The format a lower-case name stands for.
pub open spec fn format_of_lower(n: Seq<char>) -> Option<LogFormat> {
    if n == "symfony"@ || n == "monolog"@ || n == "symfony-monolog"@ {
        Some(LogFormat::SymfonyMonolog)
    } else if n == "php"@ || n == "php-error"@ {
        Some(LogFormat::PhpError)
    } else if n == "nginx-access"@ {
        Some(LogFormat::NginxAccess)
    } else if n == "nginx-error"@ {
        Some(LogFormat::NginxError)
    } else if n == "apache-access"@ {
        Some(LogFormat::ApacheAccess)
    } else if n == "apache-error"@ {
        Some(LogFormat::ApacheError)
    } else if n == "generic"@ {
        Some(LogFormat::Generic)
    } else {
        None
    }
}

impl LogFormat {
    pub fn label(&self) -> (r: &'static str)
        ensures
            r@ == format_label(*self),
    {
        match self {
            LogFormat::SymfonyMonolog => "Symfony (Monolog)",
            LogFormat::PhpError => "PHP error",
            LogFormat::NginxAccess => "Nginx access",
            LogFormat::NginxError => "Nginx error",
            LogFormat::ApacheAccess => "Apache access",
            LogFormat::ApacheError => "Apache error",
            LogFormat::Generic => "Generic",
        }
    }

    pub fn all() -> (r: [LogFormat; 7])
        ensures
            r@ == all_formats(),
    {
        let r = [
            LogFormat::SymfonyMonolog,
            LogFormat::PhpError,
            LogFormat::NginxAccess,
            LogFormat::NginxError,
            LogFormat::ApacheAccess,
            LogFormat::ApacheError,
            LogFormat::Generic,
        ];
        assert(r@ =~= all_formats());
        r
    }

    /// Reads a format name given on the command line (ASCII case ignored).
    /// An unknown name is refused with `unknown format: <name>`, the name as
    /// given in lower case.
    pub fn from_name(s: &str) -> (r: Result<LogFormat, String>)
        ensures
            match r {
                Ok(f) => format_of_lower(lower_seq(s@)) == Some(f),
                Err(e) => format_of_lower(lower_seq(s@)) is None && e@ == "unknown format: "@
                    + lower_seq(s@),
            },
    {
        let cs = chars_of(s);
        let n = to_lower_chars(&cs);
        if chars_eq_str(&n, "symfony") || chars_eq_str(&n, "monolog") || chars_eq_str(
            &n,
            "symfony-monolog",
        ) {
            Ok(LogFormat::SymfonyMonolog)
        } else if chars_eq_str(&n, "php") || chars_eq_str(&n, "php-error") {
            Ok(LogFormat::PhpError)
        } else if chars_eq_str(&n, "nginx-access") {
            Ok(LogFormat::NginxAccess)
        } else if chars_eq_str(&n, "nginx-error") {
            Ok(LogFormat::NginxError)
        } else if chars_eq_str(&n, "apache-access") {
            Ok(LogFormat::ApacheAccess)
        } else if chars_eq_str(&n, "apache-error") {
            Ok(LogFormat::ApacheError)
        } else if chars_eq_str(&n, "generic") {
            Ok(LogFormat::Generic)
        } else {
            let mut e = String::new();
            push_str(&mut e, "unknown format: ");
            let tail = crate::text::string_of_all(&n);
            push_str(&mut e, tail.as_str());
            assert(e@ == "unknown format: "@ + lower_seq(s@));
            Err(e)
        }
    }
}

impl std::str::FromStr for LogFormat {
    type Err = String;

    fn from_str(s: &str) -> (r: Result<LogFormat, String>)
        ensures
            match r {
                Ok(f) => format_of_lower(lower_seq(s@)) == Some(f),
                Err(e) => format_of_lower(lower_seq(s@)) is None && e@ == "unknown format: "@
                    + lower_seq(s@),
            },
    {
        LogFormat::from_name(s)
    }
}

/// Format names are read without regard to ASCII case: a name and its
/// upper-case spelling stand for the same format.
pub proof fn law_format_name_ignores_case(s: Seq<char>)
    ensures
        format_of_lower(lower_seq(crate::text::upper_seq(s))) == format_of_lower(lower_seq(s)),
{
    crate::text::lemma_lower_of_upper(s);
}

} // verus!
