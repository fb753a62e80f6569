//! Desktop floating ball: which edges it is docked to, the ring-menu buttons
//! it keeps, when it is shown and what a ring action does. Window geometry
//! (physical pixels at the live DPI scale) is handled by the host.
use vstd::prelude::*;
use crate::text::str_eq;

verus! {

/// At most this many ring buttons (more would overlap).
pub const MAX_BUTTONS: usize = 8;

/// Screen edges the ball is docked to (half hidden beyond that edge).
#[derive(Clone, Copy, Debug, PartialEq, Eq, Structural)]
pub struct DockState {
    pub left: bool,
    pub right: bool,
    pub top: bool,
    pub bottom: bool,
}

impl Default for DockState {
    fn default() -> (r: Self)
        ensures
            r == (DockState { left: false, right: false, top: false, bottom: false }),
    {
        DockState { left: false, right: false, top: false, bottom: false }
    }
}

/// The distinct button ids in order of first occurrence.
pub open spec fn distinct_in_order(s: Seq<Seq<char>>) -> Seq<Seq<char>>
    decreases s.len(),
{
    if s.len() == 0 {
        Seq::empty()
    } else {
        let prefix = distinct_in_order(s.drop_last());
        if prefix.contains(s.last()) {
            prefix
        } else {
            prefix.push(s.last())
        }
    }
}

/// At most the first `MAX_BUTTONS` entries.
pub open spec fn capped(s: Seq<Seq<char>>) -> Seq<Seq<char>> {
    if s.len() <= MAX_BUTTONS { s } else { s.take(MAX_BUTTONS as int) }
}

pub open spec fn views(v: Seq<String>) -> Seq<Seq<char>> {
    v.map_values(|s: String| s@)
}

fn contains_str(v: &Vec<String>, x: &str) -> (r: bool)
    ensures
        r == views(v@).contains(x@),
{
    let ghost w = views(v@);
    let mut i: usize = 0;
    while i < v.len()
        invariant
            i <= v@.len(),
            w == views(v@),
            forall|j: int| 0 <= j < i ==> w[j] != x@,
        decreases v@.len() - i,
    {
        if str_eq(v[i].as_str(), x) {
            assert(w[i as int] == x@);
            return true;
        }
        i = i + 1;
    }
    assert(!w.contains(x@));
    false
}

proof fn lemma_capped_stable(p: Seq<Seq<char>>, x: Seq<char>)
    requires
        p.len() >= MAX_BUTTONS,
    ensures
        capped(p.push(x)) == capped(p),
{
    assert(capped(p.push(x)) =~= capped(p));
}

/// Ring buttons as saved: duplicates dropped (first occurrence kept, order
/// kept), then at most `MAX_BUTTONS`.
pub fn normalize_buttons(buttons: Vec<String>) -> (r: Vec<String>)
    ensures
        views(r@) == capped(distinct_in_order(views(buttons@))),
{
    let ghost src = views(buttons@);
    let mut out: Vec<String> = Vec::new();
    let mut i: usize = 0;
    while i < buttons.len()
        invariant
            i <= buttons@.len(),
            src == views(buttons@),
            views(out@) == capped(distinct_in_order(src.take(i as int))),
            out@.len() <= MAX_BUTTONS,
            out@.len() < MAX_BUTTONS ==> views(out@) == distinct_in_order(src.take(i as int)),
        decreases buttons@.len() - i,
    {
        let ghost before = distinct_in_order(src.take(i as int));
        assert(src.take(i + 1).drop_last() =~= src.take(i as int));
        assert(src.take(i + 1).last() == buttons@[i as int]@);
        if out.len() < MAX_BUTTONS {
            if !contains_str(&out, buttons[i].as_str()) {
                out.push(buttons[i].clone());
                assert(views(out@) =~= before.push(buttons@[i as int]@));
            }
        } else {
            proof {
                if !before.contains(buttons@[i as int]@) {
                    lemma_capped_stable(before, buttons@[i as int]@);
                }
            }
        }
        i = i + 1;
    }
    assert(src.take(buttons@.len() as int) =~= src);
    out
}

/// Whether the ball is shown: whenever the main window is not visible
/// (hidden to the tray or minimised), or always when set to show with it.
pub fn ball_visible(main_window_shown: bool, main_minimized: bool, with_main: bool) -> (r: bool)
    ensures
        r == (!(main_window_shown && !main_minimized) || with_main),
{
    let main_visible = main_window_shown && !main_minimized;
    !main_visible || with_main
}

/// What a ring-menu / double-click action does.
#[derive(Clone, Copy, Debug, PartialEq, Eq, Structural)]
pub enum TriggerAction {
    /// toggle the clipboard overlay, leaving the main window alone
    ToggleClipboard,
    /// show the main window, or hide it when it is showing
    ToggleMainWindow,
    /// show the main window and hand it the action id
    ShowMainAndDispatch,
}

pub fn trigger_action(id: &str) -> (r: TriggerAction)
    ensures
        id@ == "act:clipboard"@ ==> r == TriggerAction::ToggleClipboard,
        id@ == "act:main"@ ==> r == TriggerAction::ToggleMainWindow,
        id@ != "act:clipboard"@ && id@ != "act:main"@ ==> r == TriggerAction::ShowMainAndDispatch,
{
    proof {
        reveal_strlit("act:clipboard");
        reveal_strlit("act:main");
        assert("act:clipboard"@ != "act:main"@ ) by {
            assert("act:clipboard"@.len() != "act:main"@.len());
        }
    }
    if str_eq(id, "act:clipboard") {
        TriggerAction::ToggleClipboard
    } else if str_eq(id, "act:main") {
        TriggerAction::ToggleMainWindow
    } else {
        TriggerAction::ShowMainAndDispatch
    }
}

} // verus!
