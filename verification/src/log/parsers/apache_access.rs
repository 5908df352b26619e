//! Apache access log lines: the nginx access layouts, told apart only by the
//! source they are attributed to.
use vstd::prelude::*;
use crate::log::event::{EventView, LogEvent};
use crate::log::parser::LogParser;
use crate::log::parsers::nginx_access::{nginx_access_event, parse_access};

verus! {

pub struct ApacheAccessParser;

impl LogParser for ApacheAccessParser {
    open spec fn spec_parse(&self, line_no: u32, offset: u64, len: u32, text: Seq<char>) -> Option<
        EventView,
    > {
        match nginx_access_event(line_no, offset, len, text) {
            Some(ev) => Some(EventView { source: Some("apache"@), ..ev }),
            None => None,
        }
    }

    fn parse(&self, line_no: u32, offset: u64, len: u32, line: &str) -> (r: Option<LogEvent>) {
        parse_access(line_no, offset, len, line, "apache")
    }
}

} // verus!
