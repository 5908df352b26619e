//! Severity levels and the compact event record.
use vstd::prelude::*;
use crate::log::fields::{FieldMap, Pairs};
use crate::text::{chars_eq_str, chars_of, str_to_string, to_upper_chars, upper_seq};
use crate::time::Timestamp;

verus! {

#[derive(Debug, Clone, Copy, PartialEq, Eq, Structural, Hash, PartialOrd, Ord)]
pub enum Level {
    Debug,
    Info,
    Notice,
    Warning,
    Error,
    Critical,
    Alert,
    Emergency,
    Unknown,
}

/// The upper-case name of a level.
pub open spec fn level_name(l: Level) -> Seq<char> {
    match l {
        Level::Debug => "DEBUG"@,
        Level::Info => "INFO"@,
        Level::Notice => "NOTICE"@,
        Level::Warning => "WARNING"@,
        Level::Error => "ERROR"@,
        Level::Critical => "CRITICAL"@,
        Level::Alert => "ALERT"@,
        Level::Emergency => "EMERGENCY"@,
        Level::Unknown => "UNKNOWN"@,
    }
}

/// The level an upper-case name stands for, aliases included.
pub open spec fn level_of_upper(u: Seq<char>) -> Level {
    if u == "DEBUG"@ {
        Level::Debug
    } else if u == "INFO"@ || u == "INFORMATIONAL"@ {
        Level::Info
    } else if u == "NOTICE"@ {
        Level::Notice
    } else if u == "WARN"@ || u == "WARNING"@ {
        Level::Warning
    } else if u == "ERR"@ || u == "ERROR"@ {
        Level::Error
    } else if u == "CRIT"@ || u == "CRITICAL"@ || u == "FATAL"@ {
        Level::Critical
    } else if u == "ALERT"@ {
        Level::Alert
    } else if u == "EMERG"@ || u == "EMERGENCY"@ {
        Level::Emergency
    } else {
        Level::Unknown
    }
}

/// The level a name stands for, whatever the case of its ASCII letters.
pub open spec fn level_of_name(s: Seq<char>) -> Level {
    level_of_upper(upper_seq(s))
}

impl Level {
    pub fn as_str(&self) -> (r: &'static str)
        ensures
            r@ == level_name(*self),
    {
        match self {
            Level::Debug => "DEBUG",
            Level::Info => "INFO",
            Level::Notice => "NOTICE",
            Level::Warning => "WARNING",
            Level::Error => "ERROR",
            Level::Critical => "CRITICAL",
            Level::Alert => "ALERT",
            Level::Emergency => "EMERGENCY",
            Level::Unknown => "UNKNOWN",
        }
    }

    /// Reads a level name, ignoring the case of ASCII letters; anything not
    /// recognised is `Unknown`.
    pub fn from_str_ci(s: &str) -> (l: Level)
        ensures
            l == level_of_name(s@),
    {
        let cs = chars_of(s);
        let u = to_upper_chars(&cs);
        if chars_eq_str(&u, "DEBUG") {
            Level::Debug
        } else if chars_eq_str(&u, "INFO") || chars_eq_str(&u, "INFORMATIONAL") {
            Level::Info
        } else if chars_eq_str(&u, "NOTICE") {
            Level::Notice
        } else if chars_eq_str(&u, "WARN") || chars_eq_str(&u, "WARNING") {
            Level::Warning
        } else if chars_eq_str(&u, "ERR") || chars_eq_str(&u, "ERROR") {
            Level::Error
        } else if chars_eq_str(&u, "CRIT") || chars_eq_str(&u, "CRITICAL") || chars_eq_str(
            &u,
            "FATAL",
        ) {
            Level::Critical
        } else if chars_eq_str(&u, "ALERT") {
            Level::Alert
        } else if chars_eq_str(&u, "EMERG") || chars_eq_str(&u, "EMERGENCY") {
            Level::Emergency
        } else {
            Level::Unknown
        }
    }
}

/// Level names are read whatever their case, with their usual short and
/// long forms: `warn` and `warning` are warnings, `err` and `error`
/// errors, `crit`, `critical` and `fatal` critical, `emerg` and
/// `emergency` emergencies, `info` and `informational` infos.
#[verifier::spinoff_prover]
#[verifier::rlimit(50)]
pub proof fn law_level_aliases(s: Seq<char>)
    ensures
        upper_seq(s) == "WARN"@ || upper_seq(s) == "WARNING"@ ==> level_of_name(s) == Level::Warning,
        upper_seq(s) == "ERR"@ || upper_seq(s) == "ERROR"@ ==> level_of_name(s) == Level::Error,
        upper_seq(s) == "CRIT"@ || upper_seq(s) == "CRITICAL"@ || upper_seq(s) == "FATAL"@
            ==> level_of_name(s) == Level::Critical,
        upper_seq(s) == "EMERG"@ || upper_seq(s) == "EMERGENCY"@ ==> level_of_name(s)
            == Level::Emergency,
        upper_seq(s) == "INFO"@ || upper_seq(s) == "INFORMATIONAL"@ ==> level_of_name(s)
            == Level::Info,
        upper_seq(s) == "DEBUG"@ ==> level_of_name(s) == Level::Debug,
        upper_seq(s) == "NOTICE"@ ==> level_of_name(s) == Level::Notice,
        upper_seq(s) == "ALERT"@ ==> level_of_name(s) == Level::Alert,
{
    reveal_strlit("DEBUG");
    reveal_strlit("INFO");
    reveal_strlit("INFORMATIONAL");
    reveal_strlit("NOTICE");
    reveal_strlit("WARN");
    reveal_strlit("WARNING");
    reveal_strlit("ERR");
    reveal_strlit("ERROR");
    reveal_strlit("CRIT");
    reveal_strlit("CRITICAL");
    reveal_strlit("FATAL");
    reveal_strlit("ALERT");
    reveal_strlit("EMERG");
    reveal_strlit("EMERGENCY");
    let u = upper_seq(s);
    if u == "WARN"@ || u == "WARNING"@ {
        assert(u[0] != "DEBUG"@[0] && u[0] != "INFO"@[0] && u[0] != "INFORMATIONAL"@[0] && u[0]
            != "NOTICE"@[0]);
    }
    if u == "ERR"@ || u == "ERROR"@ {
        assert(u[0] != "DEBUG"@[0] && u[0] != "INFO"@[0] && u[0] != "INFORMATIONAL"@[0] && u[0]
            != "NOTICE"@[0] && u[0] != "WARN"@[0] && u[0] != "WARNING"@[0]);
    }
    if u == "CRIT"@ || u == "CRITICAL"@ || u == "FATAL"@ {
        assert(u[0] != "DEBUG"@[0] && u[0] != "INFO"@[0] && u[0] != "INFORMATIONAL"@[0] && u[0]
            != "NOTICE"@[0] && u[0] != "WARN"@[0] && u[0] != "WARNING"@[0] && u[0] != "ERR"@[0]
            && u[0] != "ERROR"@[0]);
    }
    if u == "EMERG"@ || u == "EMERGENCY"@ {
        assert(u[0] != "DEBUG"@[0] && u[0] != "INFO"@[0] && u[0] != "INFORMATIONAL"@[0] && u[0]
            != "NOTICE"@[0] && u[0] != "WARN"@[0] && u[0] != "WARNING"@[0] && u[0] != "CRIT"@[0]
            && u[0] != "CRITICAL"@[0] && u[0] != "FATAL"@[0] && u[0] != "ALERT"@[0]);
        assert(u[1] != "ERR"@[1] && u[1] != "ERROR"@[1]);
    }
    if u == "ALERT"@ {
        assert(u[0] != "DEBUG"@[0] && u[0] != "INFO"@[0] && u[0] != "INFORMATIONAL"@[0] && u[0]
            != "NOTICE"@[0] && u[0] != "WARN"@[0] && u[0] != "WARNING"@[0] && u[0] != "ERR"@[0]
            && u[0] != "ERROR"@[0] && u[0] != "CRIT"@[0] && u[0] != "CRITICAL"@[0] && u[0]
            != "FATAL"@[0]);
    }
    if u == "NOTICE"@ || u == "INFO"@ || u == "INFORMATIONAL"@ {
        assert(u[0] != "DEBUG"@[0]);
        assert(u[0] != "INFO"@[0] || u[0] != "NOTICE"@[0]);
    }
}

/// Reading back the name of a level gives the level again.
#[verifier::spinoff_prover]
#[verifier::rlimit(50)]
pub proof fn law_level_name_roundtrip(l: Level)
    ensures
        level_of_name(level_name(l)) == l,
{
    reveal_strlit("DEBUG");
    reveal_strlit("INFO");
    reveal_strlit("INFORMATIONAL");
    reveal_strlit("NOTICE");
    reveal_strlit("WARN");
    reveal_strlit("WARNING");
    reveal_strlit("ERR");
    reveal_strlit("ERROR");
    reveal_strlit("CRIT");
    reveal_strlit("CRITICAL");
    reveal_strlit("FATAL");
    reveal_strlit("ALERT");
    reveal_strlit("EMERG");
    reveal_strlit("EMERGENCY");
    reveal_strlit("UNKNOWN");
    let n = level_name(l);
    assert(upper_seq(n) =~= n);
    match l {
        Level::Debug => assert(level_of_upper(n) == Level::Debug),
        Level::Info => assert(level_of_upper(n) == Level::Info),
        Level::Notice => assert(level_of_upper(n) == Level::Notice),
        Level::Warning => {
            assert(n != "DEBUG"@ && n != "INFO"@ && n != "INFORMATIONAL"@ && n != "NOTICE"@ && n
                != "WARN"@);
            assert(level_of_upper(n) == Level::Warning);
        },
        Level::Error => {
            assert(n[0] != "DEBUG"@[0]);
            assert(level_of_upper(n) == Level::Error);
        },
        Level::Critical => {
            assert(n != "DEBUG"@ && n != "INFO"@ && n != "INFORMATIONAL"@ && n != "NOTICE"@ && n
                != "WARN"@ && n != "WARNING"@ && n != "ERR"@ && n != "ERROR"@ && n != "CRIT"@);
            assert(level_of_upper(n) == Level::Critical);
        },
        Level::Alert => {
            assert(n[0] != "DEBUG"@[0] && n[0] != "ERROR"@[0] && n[0] != "FATAL"@[0]);
            assert(level_of_upper(n) == Level::Alert);
        },
        Level::Emergency => assert(level_of_upper(n) == Level::Emergency),
        Level::Unknown => {
            assert(n[0] != "DEBUG"@[0] && n[0] != "INFO"@[0] && n[0] != "NOTICE"@[0] && n[0]
                != "WARN"@[0] && n[0] != "ERR"@[0] && n[0] != "CRIT"@[0] && n[0] != "FATAL"@[0]
                && n[0] != "ALERT"@[0] && n[0] != "EMERG"@[0]);
            assert(n[0] != "INFORMATIONAL"@[0] && n[0] != "WARNING"@[0] && n[0] != "ERROR"@[0]
                && n[0] != "CRITICAL"@[0] && n[0] != "EMERGENCY"@[0]);
            assert(level_of_upper(n) == Level::Unknown);
        },
    }
}

/// An event as text and numbers.
pub struct EventView {
    pub line_no: u32,
    pub offset: u64,
    pub len: u32,
    pub timestamp: Option<Timestamp>,
    pub level: Level,
    pub source: Option<Seq<char>>,
    pub message: Seq<char>,
    pub fields: Pairs,
}

/// Compact event record. The line text is not stored: the caller keeps the
/// source bytes and finds the line again through `offset` / `len`.
#[derive(Debug, Clone)]
pub struct LogEvent {
    pub line_no: u32,
    pub offset: u64,
    pub len: u32,
    pub timestamp: Option<Timestamp>,
    pub level: Level,
    pub source: Option<String>,
    pub message: String,
    pub fields: FieldMap,
}

pub open spec fn opt_view(s: Option<String>) -> Option<Seq<char>> {
    match s {
        Some(x) => Some(x@),
        None => None,
    }
}

impl View for LogEvent {
    type V = EventView;

    open spec fn view(&self) -> EventView {
        EventView {
            line_no: self.line_no,
            offset: self.offset,
            len: self.len,
            timestamp: self.timestamp,
            level: self.level,
            source: opt_view(self.source),
            message: self.message@,
            fields: self.fields.pairs(),
        }
    }
}

impl LogEvent {
    /// Well formed: the fields hold each name once, the timestamp is in range.
    pub open spec fn wf(&self) -> bool {
        &&& self.fields.wf()
        &&& (self.timestamp matches Some(t) ==> t.wf())
    }

    /// An event that carries the whole line as its message and nothing else.
    pub fn unparsed(line_no: u32, offset: u64, len: u32, text: &str) -> (ev: Self)
        ensures
            ev@ == unparsed_view(line_no, offset, len, text@),
            ev.wf(),
    {
        LogEvent {
            line_no,
            offset,
            len,
            timestamp: None,
            level: Level::Unknown,
            source: None,
            message: str_to_string(text),
            fields: FieldMap::new(),
        }
    }
}

pub open spec fn unparsed_view(line_no: u32, offset: u64, len: u32, text: Seq<char>) -> EventView {
    EventView {
        line_no,
        offset,
        len,
        timestamp: None,
        level: Level::Unknown,
        source: None,
        message: text,
        fields: Seq::empty(),
    }
}

} // verus!
