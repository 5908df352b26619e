//! A one-line text input.
use vstd::prelude::*;
use crate::text::{pop_char, push_char, str_to_string};

verus! {

#[derive(Debug, Clone)]
pub struct InputBox {
    pub title: String,
    pub buffer: String,
    pub active: bool,
}

impl InputBox {
    /// An empty, inactive input with the given title.
    pub fn new(title: &str) -> (r: InputBox)
        ensures
            r.title@ == title@,
            r.buffer@.len() == 0,
            !r.active,
    {
        InputBox { title: str_to_string(title), buffer: String::new(), active: false }
    }

    /// Types one character at the end.
    pub fn push(&mut self, c: char)
        ensures
            final(self).buffer@ == old(self).buffer@.push(c),
            final(self).title == old(self).title,
            final(self).active == old(self).active,
    {
        push_char(&mut self.buffer, c);
    }

    /// Erases the last character, if any.
    pub fn backspace(&mut self)
        ensures
            final(self).buffer@ == if old(self).buffer@.len() == 0 {
                old(self).buffer@
            } else {
                old(self).buffer@.drop_last()
            },
            final(self).title == old(self).title,
            final(self).active == old(self).active,
    {
        let _ = pop_char(&mut self.buffer);
    }

    /// Empties the input.
    pub fn clear(&mut self)
        ensures
            final(self).buffer@.len() == 0,
            final(self).title == old(self).title,
            final(self).active == old(self).active,
    {
        self.buffer = String::new();
    }
}

} // verus!
