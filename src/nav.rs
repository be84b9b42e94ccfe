//! One navigation request: find the focused workspace and pick the target.
use vstd::prelude::*;
use crate::model::{Workspace, Output, NavError, lemma_max_num_bounds};
use crate::order::{sort_outputs, sorted_outputs};
use crate::select::{
    find_by, find_by_spec, find_on_output, find_on_output_spec, find_output, find_output_spec,
    layout_aware, layout_aware_spec,
};

verus! {

/// The navigation modes.
#[derive(Clone, Copy, PartialEq, Eq, Structural, Debug)]
pub enum Action {
    Next,
    Prev,
    NextOutput,
    PrevOutput,
    NextOnOutput,
    PrevOnOutput,
    NextLayoutAware,
    PrevLayoutAware,
}

impl Action {
    /// Whether the mode needs the list of outputs.
    pub fn needs_outputs(&self) -> (r: bool)
        ensures
            r <==> (*self == Action::NextLayoutAware || *self == Action::PrevLayoutAware),
    {
        match self {
            Action::NextLayoutAware | Action::PrevLayoutAware => true,
            _ => false,
        }
    }
}

/// Index of the first focused workspace; `s.len()` when none is focused.
pub open spec fn first_focused_workspace(s: Seq<Workspace>) -> int
    decreases s.len(),
{
    if s.len() == 0 {
        0
    } else if s[0].focused {
        0
    } else {
        1 + first_focused_workspace(s.drop_first())
    }
}

proof fn lemma_first_focused_workspace(s: Seq<Workspace>, i: int)
    requires
        0 <= i <= s.len(),
        forall|k: int| 0 <= k < i ==> !s[k].focused,
        i == s.len() || s[i].focused,
    ensures
        first_focused_workspace(s) == i,
    decreases i,
{
    if i > 0 {
        assert forall|k: int| 0 <= k < i - 1 implies !s.drop_first()[k].focused by {
            assert(s.drop_first()[k] == s[k + 1]);
        }
        if i < s.len() {
            assert(s.drop_first()[i - 1] == s[i]);
        }
        lemma_first_focused_workspace(s.drop_first(), i - 1);
    }
}

/// The target of `action` from the first focused workspace of `ws`; the
/// layout-aware modes see `outputs` in position order.
pub open spec fn navigate_spec(action: Action, ws: Seq<Workspace>, outputs: Seq<Output>) -> Result<
    i64,
    NavError,
> {
    let f = first_focused_workspace(ws);
    if f >= ws.len() {
        Err(NavError::NoFocusedWorkspace)
    } else {
        let c = ws[f].num;
        let out = ws[f].output@;
        match action {
            Action::Next => Ok(find_by_spec(ws, c as int, 1) as i64),
            Action::Prev => Ok(find_by_spec(ws, c as int, -1) as i64),
            Action::NextOutput => Ok(find_output_spec(ws, c as int, 1, out) as i64),
            Action::PrevOutput => Ok(find_output_spec(ws, c as int, -1, out) as i64),
            Action::NextOnOutput => Ok(find_on_output_spec(ws, c as int, 1, out) as i64),
            Action::PrevOnOutput => Ok(find_on_output_spec(ws, c as int, -1, out) as i64),
            Action::NextLayoutAware => layout_aware_spec(ws, c, out, 1, sorted_outputs(outputs)),
            Action::PrevLayoutAware => layout_aware_spec(ws, c, out, -1, sorted_outputs(outputs)),
        }
    }
}

/// Computes the workspace number that `action` leads to. `outputs` is read
/// only by the layout-aware modes, which put it in position order first.
pub fn navigate(action: Action, workspaces: &Vec<Workspace>, outputs: Vec<Output>) -> (r: Result<
    i64,
    NavError,
>)
    requires
        forall|k: int|
            0 <= k < workspaces@.len() ==> i64::MIN < #[trigger] workspaces@[k].num < i64::MAX,
    ensures
        r == navigate_spec(action, workspaces@, outputs@),
{
    let mut f: usize = 0;
    while f < workspaces.len() && !workspaces[f].focused
        invariant
            0 <= f <= workspaces@.len(),
            forall|k: int| 0 <= k < f ==> !workspaces@[k].focused,
        decreases workspaces@.len() - f,
    {
        f = f + 1;
    }
    proof {
        lemma_first_focused_workspace(workspaces@, f as int);
    }
    if f == workspaces.len() {
        return Err(NavError::NoFocusedWorkspace);
    }
    let current: i64 = workspaces[f].num;
    let output: &String = &workspaces[f].output;
    proof {
        lemma_max_num_bounds(workspaces@);
    }
    match action {
        Action::Next => Ok(find_by(workspaces, current, 1)),
        Action::Prev => Ok(find_by(workspaces, current, -1)),
        Action::NextOutput => Ok(find_output(workspaces, current, 1, output)),
        Action::PrevOutput => Ok(find_output(workspaces, current, -1, output)),
        Action::NextOnOutput => Ok(find_on_output(workspaces, current, 1, output)),
        Action::PrevOnOutput => Ok(find_on_output(workspaces, current, -1, output)),
        Action::NextLayoutAware => {
            let mut ordered = outputs;
            sort_outputs(&mut ordered);
            layout_aware(workspaces, current, output, 1, &ordered)
        },
        Action::PrevLayoutAware => {
            let mut ordered = outputs;
            sort_outputs(&mut ordered);
            layout_aware(workspaces, current, output, -1, &ordered)
        },
    }
}

} // verus!
