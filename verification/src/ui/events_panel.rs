//! The events panel: which visible events fit on screen around the cursor.
use vstd::prelude::*;
use crate::ui::facets_panel::{window, window_spec};

verus! {

pub struct EventsPanel;

impl EventsPanel {
    /// The slice `start..end` of the `len` visible events that a list
    /// `capacity` rows high shows, the cursor kept near its middle.
    pub fn rows(len: usize, capacity: usize, cursor: usize) -> (r: (usize, usize))
        ensures
            r.0 as nat == window_spec(len as nat, capacity as nat, Some(cursor as nat)).0,
            r.1 as nat == window_spec(len as nat, capacity as nat, Some(cursor as nat)).1,
            r.0 <= r.1 <= len,
    {
        window(len, capacity, Some(cursor))
    }
}

} // verus!
