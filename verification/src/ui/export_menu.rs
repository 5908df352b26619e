//! The export menu: what to export.
use vstd::prelude::*;

verus! {

#[derive(Debug, Clone, Copy, PartialEq, Eq, Structural)]
pub enum ExportChoice {
    FacetGroup,
    FilteredLog,
}

pub open spec fn choice_label(c: ExportChoice) -> Seq<char> {
    match c {
        ExportChoice::FacetGroup => "Focused facet group (value\\tcount)"@,
        ExportChoice::FilteredLog => "Filtered log lines (raw)"@,
    }
}

/// The choices, in menu order.
pub open spec fn choices() -> Seq<ExportChoice> {
    seq![ExportChoice::FacetGroup, ExportChoice::FilteredLog]
}

impl ExportChoice {
    pub fn label(self) -> (r: &'static str)
        ensures
            r@ == choice_label(self),
    {
        match self {
            ExportChoice::FacetGroup => "Focused facet group (value\\tcount)",
            ExportChoice::FilteredLog => "Filtered log lines (raw)",
        }
    }

    /// The choices, in menu order.
    pub fn all() -> (r: [ExportChoice; 2])
        ensures
            r@ == choices(),
    {
        let r = [ExportChoice::FacetGroup, ExportChoice::FilteredLog];
        assert(r@ =~= choices());
        r
    }
}

/// The menu's cursor.
#[derive(Debug, Clone, Copy)]
pub struct ExportMenu {
    pub cursor: usize,
}

impl Default for ExportMenu {
    fn default() -> (r: ExportMenu)
        ensures
            r.cursor == 0,
    {
        ExportMenu { cursor: 0 }
    }
}

impl ExportMenu {
    pub fn up(&mut self)
        ensures
            final(self).cursor == if old(self).cursor > 0 {
                (old(self).cursor - 1) as usize
            } else {
                old(self).cursor
            },
    {
        if self.cursor > 0 {
            self.cursor = self.cursor - 1;
        }
    }

    pub fn down(&mut self)
        ensures
            final(self).cursor == if old(self).cursor + 1 < 2 {
                (old(self).cursor + 1) as usize
            } else {
                old(self).cursor
            },
    {
        if self.cursor < 1 {
            self.cursor = self.cursor + 1;
        }
    }

    /// The choice under the cursor (the last one if the cursor is past it).
    pub fn selected(&self) -> (r: ExportChoice)
        ensures
            r == choices()[if self.cursor < 1 {
                self.cursor as int
            } else {
                1
            }],
    {
        let all = ExportChoice::all();
        let i = if self.cursor < 1 {
            self.cursor
        } else {
            1
        };
        all[i]
    }
}

} // verus!
