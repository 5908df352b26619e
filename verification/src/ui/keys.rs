//! Key presses and the actions they stand for.
use vstd::prelude::*;

verus! {

/// The keys the viewer tells apart.
#[derive(Debug, Clone, Copy, PartialEq, Eq, Structural)]
pub enum KeyCode {
    Char(char),
    Enter,
    Esc,
    Backspace,
    Tab,
    BackTab,
    Up,
    Down,
    Left,
    Right,
    PageUp,
    PageDown,
    Other,
}

/// A key press: the key, and whether Control was held.
#[derive(Debug, Clone, Copy, PartialEq, Eq, Structural)]
pub struct KeyEvent {
    pub code: KeyCode,
    pub ctrl: bool,
}

#[derive(Debug, Clone, Copy, PartialEq, Eq, Structural)]
pub enum Action {
    Quit,
    Help,
    Up,
    Down,
    PageUp,
    PageDown,
    Top,
    Bottom,
    FocusFacets,
    FocusEvents,
    ToggleSelection,
    OpenSearch,
    OpenDateRange,
    OpenDetail,
    CloseOverlay,
    ResetFilters,
    ExportFacet,
    /// Move the focus to the other pane.
    SwitchFocus,
    /// Start or stop following the newest event.
    ToggleFollow,
    /// Search for the selected event's correlation id.
    Correlate,
    /// Copy the selected line to the clipboard.
    Yank,
    /// Enter the mode where arrows resize the panes.
    Resize,
}

/// The action a key press stands for outside any overlay.
pub open spec fn key_action(ev: KeyEvent) -> Option<Action> {
    match ev.code {
        KeyCode::Char(c) => if c == 'q' {
            Some(Action::Quit)
        } else if c == 'c' && ev.ctrl {
            Some(Action::Quit)
        } else if c == '?' {
            Some(Action::Help)
        } else if c == 'j' {
            Some(Action::Down)
        } else if c == 'k' {
            Some(Action::Up)
        } else if c == 'g' {
            Some(Action::Top)
        } else if c == 'G' {
            Some(Action::Bottom)
        } else if c == 'f' {
            Some(Action::FocusFacets)
        } else if c == 'e' {
            Some(Action::FocusEvents)
        } else if c == ' ' {
            Some(Action::ToggleSelection)
        } else if c == '/' {
            Some(Action::OpenSearch)
        } else if c == 'd' {
            Some(Action::OpenDateRange)
        } else if c == 'r' {
            Some(Action::ResetFilters)
        } else if c == 'x' {
            Some(Action::ExportFacet)
        } else if c == 'h' || c == 'l' {
            Some(Action::SwitchFocus)
        } else if c == 'F' {
            Some(Action::ToggleFollow)
        } else if c == '*' {
            Some(Action::Correlate)
        } else if c == 'y' {
            Some(Action::Yank)
        } else if c == 'n' && ev.ctrl {
            Some(Action::Resize)
        } else {
            None
        },
        KeyCode::Down => Some(Action::Down),
        KeyCode::Up => Some(Action::Up),
        KeyCode::PageDown => Some(Action::PageDown),
        KeyCode::PageUp => Some(Action::PageUp),
        KeyCode::Left | KeyCode::Right => Some(Action::SwitchFocus),
        KeyCode::Enter => Some(Action::OpenDetail),
        KeyCode::Esc => Some(Action::CloseOverlay),
        _ => None,
    }
}

pub struct KeyMap;

impl KeyMap {
    pub fn map(ev: KeyEvent) -> (r: Option<Action>)
        ensures
            r == key_action(ev),
    {
        match ev.code {
            KeyCode::Char(c) => {
                if c == 'q' {
                    Some(Action::Quit)
                } else if c == 'c' && ev.ctrl {
                    Some(Action::Quit)
                } else if c == '?' {
                    Some(Action::Help)
                } else if c == 'j' {
                    Some(Action::Down)
                } else if c == 'k' {
                    Some(Action::Up)
                } else if c == 'g' {
                    Some(Action::Top)
                } else if c == 'G' {
                    Some(Action::Bottom)
                } else if c == 'f' {
                    Some(Action::FocusFacets)
                } else if c == 'e' {
                    Some(Action::FocusEvents)
                } else if c == ' ' {
                    Some(Action::ToggleSelection)
                } else if c == '/' {
                    Some(Action::OpenSearch)
                } else if c == 'd' {
                    Some(Action::OpenDateRange)
                } else if c == 'r' {
                    Some(Action::ResetFilters)
                } else if c == 'x' {
                    Some(Action::ExportFacet)
                } else if c == 'h' || c == 'l' {
                    Some(Action::SwitchFocus)
                } else if c == 'F' {
                    Some(Action::ToggleFollow)
                } else if c == '*' {
                    Some(Action::Correlate)
                } else if c == 'y' {
                    Some(Action::Yank)
                } else if c == 'n' && ev.ctrl {
                    Some(Action::Resize)
                } else {
                    None
                }
            },
            KeyCode::Down => Some(Action::Down),
            KeyCode::Up => Some(Action::Up),
            KeyCode::PageDown => Some(Action::PageDown),
            KeyCode::PageUp => Some(Action::PageUp),
            KeyCode::Left | KeyCode::Right => Some(Action::SwitchFocus),
            KeyCode::Enter => Some(Action::OpenDetail),
            KeyCode::Esc => Some(Action::CloseOverlay),
            _ => None,
        }
    }
}

/// One line of the help overlay: keys and what they do.
#[derive(Debug, Clone, Copy)]
pub struct Binding {
    pub keys: &'static str,
    pub desc: &'static str,
}

/// The help overlay's lines.
pub open spec fn help_lines() -> Seq<(Seq<char>, Seq<char>)> {
    seq![
        ("q / Ctrl-C"@, "quit"@),
        ("?"@, "toggle help"@),
        ("j / k, ↓ / ↑"@, "move cursor"@),
        ("g / G"@, "top / bottom"@),
        ("PgUp / PgDn"@, "page"@),
        ("f / e"@, "focus Facets / Events"@),
        ("h / l, ← / →"@, "switch focus"@),
        ("Space"@, "toggle facet value"@),
        ("/"@, "text search"@),
        ("d"@, "date range modal"@),
        ("Enter"@, "open event detail"@),
        ("r"@, "reset filters"@),
        ("x"@, "export menu (facet group or filtered log)"@),
        ("F"@, "toggle follow mode"@),
        ("*"@, "correlate on the selected event's trace id"@),
        ("y"@, "yank the selected line to the clipboard"@),
        ("Ctrl-N"@, "resize mode (arrows to adjust, Esc to exit)"@),
        ("Esc"@, "close overlay / clear search"@),
    ]
}

pub open spec fn bindings_view(bs: Seq<Binding>) -> Seq<(Seq<char>, Seq<char>)> {
    bs.map_values(|b: Binding| (b.keys@, b.desc@))
}

fn bind(keys: &'static str, desc: &'static str) -> (b: Binding)
    ensures
        b.keys@ == keys@,
        b.desc@ == desc@,
{
    Binding { keys, desc }
}

/// The help overlay's lines, in order.
pub fn help() -> (r: Vec<Binding>)
    ensures
        bindings_view(r@) == help_lines(),
{
    let mut v: Vec<Binding> = Vec::new();
    v.push(bind("q / Ctrl-C", "quit"));
    v.push(bind("?", "toggle help"));
    v.push(bind("j / k, ↓ / ↑", "move cursor"));
    v.push(bind("g / G", "top / bottom"));
    v.push(bind("PgUp / PgDn", "page"));
    v.push(bind("f / e", "focus Facets / Events"));
    v.push(bind("h / l, ← / →", "switch focus"));
    v.push(bind("Space", "toggle facet value"));
    v.push(bind("/", "text search"));
    v.push(bind("d", "date range modal"));
    v.push(bind("Enter", "open event detail"));
    v.push(bind("r", "reset filters"));
    v.push(bind("x", "export menu (facet group or filtered log)"));
    v.push(bind("F", "toggle follow mode"));
    v.push(bind("*", "correlate on the selected event's trace id"));
    v.push(bind("y", "yank the selected line to the clipboard"));
    v.push(bind("Ctrl-N", "resize mode (arrows to adjust, Esc to exit)"));
    v.push(bind("Esc", "close overlay / clear search"));
    assert(bindings_view(v@) =~= help_lines());
    v
}

} // verus!
