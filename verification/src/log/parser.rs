//! The contract every line grammar meets.
use vstd::prelude::*;
use crate::log::event::{EventView, LogEvent};
use crate::log::format::LogFormat;
use crate::log::parsers::apache_access::ApacheAccessParser;
use crate::log::parsers::apache_error::ApacheErrorParser;
use crate::log::parsers::generic::GenericParser;
use crate::log::parsers::nginx_access::NginxAccessParser;
use crate::log::parsers::nginx_error::NginxErrorParser;
use crate::log::parsers::php::PhpErrorParser;
use crate::log::parsers::symfony::SymfonyParser;

verus! {

/// The view of an optional event.
pub open spec fn opt_event_view(r: Option<LogEvent>) -> Option<EventView> {
    match r {
        Some(ev) => Some(ev@),
        None => None,
    }
}

/// Reads one line of a log format into an event.
pub trait LogParser {
    /// What `parse` returns for a line, as text.
    spec fn spec_parse(&self, line_no: u32, offset: u64, len: u32, text: Seq<char>) -> Option<EventView>;

    fn parse(&self, line_no: u32, offset: u64, len: u32, text: &str) -> (r: Option<LogEvent>)
        ensures
            opt_event_view(r) == self.spec_parse(line_no, offset, len, text@),
            r matches Some(ev) ==> ev.wf(),
    ;
}

/// The grammar of one log format.
pub struct FormatParser {
    pub format: LogFormat,
}

/// What the grammar of `format` reads from a line.
pub open spec fn format_parse(format: LogFormat, line_no: u32, offset: u64, len: u32, text: Seq<char>) -> Option<EventView> {
    match format {
        LogFormat::SymfonyMonolog => SymfonyParser.spec_parse(line_no, offset, len, text),
        LogFormat::PhpError => PhpErrorParser.spec_parse(line_no, offset, len, text),
        LogFormat::NginxAccess => NginxAccessParser.spec_parse(line_no, offset, len, text),
        LogFormat::NginxError => NginxErrorParser.spec_parse(line_no, offset, len, text),
        LogFormat::ApacheAccess => ApacheAccessParser.spec_parse(line_no, offset, len, text),
        LogFormat::ApacheError => ApacheErrorParser.spec_parse(line_no, offset, len, text),
        LogFormat::Generic => GenericParser.spec_parse(line_no, offset, len, text),
    }
}

/// The parser of a format.
pub fn parser_for(format: LogFormat) -> (p: FormatParser)
    ensures
        p.format == format,
{
    FormatParser { format }
}

impl LogParser for FormatParser {
    open spec fn spec_parse(&self, line_no: u32, offset: u64, len: u32, text: Seq<char>) -> Option<EventView> {
        format_parse(self.format, line_no, offset, len, text)
    }

    fn parse(&self, line_no: u32, offset: u64, len: u32, text: &str) -> (r: Option<LogEvent>) {
        match self.format {
            LogFormat::SymfonyMonolog => SymfonyParser.parse(line_no, offset, len, text),
            LogFormat::PhpError => PhpErrorParser.parse(line_no, offset, len, text),
            LogFormat::NginxAccess => NginxAccessParser.parse(line_no, offset, len, text),
            LogFormat::NginxError => NginxErrorParser.parse(line_no, offset, len, text),
            LogFormat::ApacheAccess => ApacheAccessParser.parse(line_no, offset, len, text),
            LogFormat::ApacheError => ApacheErrorParser.parse(line_no, offset, len, text),
            LogFormat::Generic => GenericParser.parse(line_no, offset, len, text),
        }
    }
}

} // verus!
