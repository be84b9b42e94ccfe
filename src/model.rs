//! The snapshot data that navigation reads.
use vstd::prelude::*;

verus! {

/// A workspace as reported by the window manager.
pub struct Workspace {
    /// Stable numeric id of the workspace.
    pub num: i64,
    /// Name of the output that owns the workspace.
    pub output: String,
    /// Whether the workspace is currently shown on its output.
    pub visible: bool,
    /// Whether the workspace has input focus.
    pub focused: bool,
}

/// The origin of an output in the global layout.
#[derive(Clone, Copy, PartialEq, Eq, Structural)]
pub struct Rect {
    pub x: u64,
    pub y: u64,
}

/// A physical output (monitor).
pub struct Output {
    pub rect: Rect,
    /// Textual number of the workspace currently shown on the output.
    pub current_workspace: String,
    /// Whether the output has input focus.
    pub focused: bool,
}

/// Why a navigation target could not be computed.
#[derive(Clone, Copy, PartialEq, Eq, Structural, Debug)]
pub enum NavError {
    /// No workspace in the snapshot is focused.
    NoFocusedWorkspace,
    /// The current workspace is not among the workspaces of the current output.
    NotOnOutput,
    /// No output in the snapshot is focused.
    NoFocusedOutput,
    /// A move inside the current output's workspace list left the list.
    IndexOutOfRange,
    /// An output's current workspace is not a decimal `i64`.
    BadWorkspaceNumber,
}

impl Workspace {
    pub fn new(num: i64, output: String, visible: bool, focused: bool) -> (r: Workspace)
        ensures
            r.num == num,
            r.output@ == output@,
            r.visible == visible,
            r.focused == focused,
    {
        Workspace { num, output, visible, focused }
    }
}

impl Output {
    pub fn new(x: u64, y: u64, current_workspace: String, focused: bool) -> (r: Output)
        ensures
            r.rect == (Rect { x, y }),
            r.current_workspace@ == current_workspace@,
            r.focused == focused,
    {
        Output { rect: Rect { x, y }, current_workspace, focused }
    }
}

/// The largest workspace number in `ws`; zero for an empty sequence.
pub open spec fn max_num(ws: Seq<Workspace>) -> int
    decreases ws.len(),
{
    if ws.len() == 0 {
        0
    } else if ws.len() == 1 {
        ws[0].num as int
    } else {
        let rest = max_num(ws.drop_last());
        if ws.last().num > rest {
            ws.last().num as int
        } else {
            rest
        }
    }
}

/// Every number in a non-empty `ws` is at most `max_num(ws)`, and some number
/// equals it.
pub proof fn lemma_max_num_bounds(ws: Seq<Workspace>)
    requires
        ws.len() > 0,
    ensures
        forall|k: int| 0 <= k < ws.len() ==> ws[k].num <= max_num(ws),
        exists|k: int| 0 <= k < ws.len() && ws[k].num == max_num(ws),
    decreases ws.len(),
{
    if ws.len() > 1 {
        lemma_max_num_bounds(ws.drop_last());
        let k0 = choose|k: int| 0 <= k < ws.drop_last().len() && ws.drop_last()[k].num == max_num(ws.drop_last());
        assert(ws[k0] == ws.drop_last()[k0]);
        assert forall|k: int| 0 <= k < ws.len() implies ws[k].num <= max_num(ws) by {
            if k < ws.len() - 1 {
                assert(ws[k] == ws.drop_last()[k]);
            }
        }
    } else {
        assert(ws[0].num == max_num(ws));
    }
}

} // verus!
