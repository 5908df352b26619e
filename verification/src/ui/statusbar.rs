//! The status line's content.
use vstd::prelude::*;
use crate::log::format::LogFormat;
use crate::text::{decimal, decimal_string, push_char, push_str};

verus! {

/// What the status line shows: the format, how many events are visible of
/// how many, the file name, the load state and a passing message (text and
/// whether it reports an error).
pub struct StatusLine<'a> {
    pub format: LogFormat,
    pub total: usize,
    pub visible: usize,
    pub path: &'a str,
    pub loading: bool,
    pub cancelled: bool,
    pub toast: Option<(&'a str, bool)>,
}

impl<'a> StatusLine<'a> {
    /// `visible/total`.
    pub fn counts(&self) -> (r: String)
        ensures
            r@ == decimal(self.visible as nat) + seq!['/'] + decimal(self.total as nat),
    {
        let mut r = decimal_string(self.visible as u64);
        push_char(&mut r, '/');
        let t = decimal_string(self.total as u64);
        push_str(&mut r, t.as_str());
        r
    }

    /// The note on the load: still loading, or stopped early.
    pub fn load_note(&self) -> (r: Option<&'static str>)
        ensures
            self.loading ==> (r matches Some(s) && s@ == "loading… (Esc to stop)"@),
            !self.loading && self.cancelled ==> (r matches Some(s) && s@ == "partial (stopped)"@),
            !self.loading && !self.cancelled ==> r is None,
    {
        if self.loading {
            Some("loading… (Esc to stop)")
        } else if self.cancelled {
            Some("partial (stopped)")
        } else {
            None
        }
    }
}

} // verus!
