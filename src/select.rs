//! Choosing the target workspace for each navigation mode.
use vstd::prelude::*;
use vstd::relations::{sorted_by, total_ordering};
use crate::model::{Workspace, Output, NavError, max_num};
use crate::number::{parse_i64, parse_i64_spec};

verus! {

/// Target of a linear move: `current + step`, clamped to `[1, last]`, except
/// that a forward move from the highest number goes one past it.
pub open spec fn find_by_spec(ws: Seq<Workspace>, current: int, step: int) -> int {
    let last = max_num(ws);
    let next = current + step;
    if current == last && step > 0 {
        last + step
    } else if next < 1 {
        1
    } else if next > last {
        last
    } else {
        next
    }
}

/// Linear navigation over all workspace numbers, ignoring outputs.
pub fn find_by(workspaces: &Vec<Workspace>, current: i64, step: i64) -> (r: i64)
    requires
        workspaces@.len() > 0,
        i64::MIN <= current + step <= i64::MAX,
        i64::MIN <= max_num(workspaces@) + step <= i64::MAX,
    ensures
        r == find_by_spec(workspaces@, current as int, step as int),
{
    let mut last: i64 = workspaces[0].num;
    let mut i: usize = 1;
    while i < workspaces.len()
        invariant
            1 <= i <= workspaces@.len(),
            last == max_num(workspaces@.subrange(0, i as int)),
        decreases workspaces@.len() - i,
    {
        proof {
            assert(workspaces@.subrange(0, i as int + 1).drop_last() =~= workspaces@.subrange(0, i as int));
        }
        if workspaces[i].num > last {
            last = workspaces[i].num;
        }
        i = i + 1;
    }
    proof {
        assert(workspaces@.subrange(0, workspaces@.len() as int) =~= workspaces@);
    }
    let first: i64 = 1;
    let next: i64 = current + step;
    if current == last && step > 0 {
        last + step
    } else if next < first {
        first
    } else if next > last {
        last
    } else {
        next
    }
}


/// One past the nearest number below `current` held by a workspace of
/// another output, or `1` when there is none (the maximum of `{0}` and those
/// numbers, plus one).
pub open spec fn floor_other(ws: Seq<Workspace>, output: Seq<char>, current: int) -> int
    decreases ws.len(),
{
    if ws.len() == 0 {
        1
    } else {
        let rest = floor_other(ws.drop_last(), output, current);
        let w = ws.last();
        if w.output@ != output && w.num < current && w.num + 1 > rest {
            w.num + 1
        } else {
            rest
        }
    }
}

/// The smallest number above `current` held by a workspace of another
/// output, if any.
pub open spec fn ceil_other(ws: Seq<Workspace>, output: Seq<char>, current: int) -> Option<int>
    decreases ws.len(),
{
    if ws.len() == 0 {
        None
    } else {
        let rest = ceil_other(ws.drop_last(), output, current);
        let w = ws.last();
        if w.output@ != output && w.num > current {
            match rest {
                Some(m) => if (w.num as int) < m { Some(w.num as int) } else { Some(m) },
                None => Some(w.num as int),
            }
        } else {
            rest
        }
    }
}

/// Target of a per-output linear move: `current + step` clamped to the gap
/// between the numbers of the other outputs' workspaces; the gap is open
/// upwards when no other output holds a higher number.
pub open spec fn find_on_output_spec(ws: Seq<Workspace>, current: int, step: int, output: Seq<char>) -> int {
    let next = current + step;
    let first = floor_other(ws, output, current);
    let last = match ceil_other(ws, output, current) {
        Some(m) => m - 1,
        None => next,
    };
    if next < first {
        first
    } else if next > last {
        last
    } else {
        next
    }
}

/// Per-output linear navigation: stays within the range of numbers that no
/// other output claims.
pub fn find_on_output(workspaces: &Vec<Workspace>, current: i64, step: i64, output: &String) -> (r: i64)
    requires
        i64::MIN <= current + step <= i64::MAX,
    ensures
        r == find_on_output_spec(workspaces@, current as int, step as int, output@),
{
    let mut first: i64 = 1;
    let mut above: Option<i64> = None;
    let mut i: usize = 0;
    while i < workspaces.len()
        invariant
            0 <= i <= workspaces@.len(),
            first == floor_other(workspaces@.subrange(0, i as int), output@, current as int),
            1 <= first <= (if current >= 1 { current as int } else { 1 }),
            above.is_some() <==> ceil_other(workspaces@.subrange(0, i as int), output@, current as int).is_some(),
            above.is_some() ==> above.unwrap() as int == ceil_other(workspaces@.subrange(0, i as int), output@, current as int).unwrap(),
            above.is_some() ==> above.unwrap() > current,
        decreases workspaces@.len() - i,
    {
        proof {
            assert(workspaces@.subrange(0, i as int + 1).drop_last() =~= workspaces@.subrange(0, i as int));
        }
        let w = &workspaces[i];
        if w.output != *output {
            if w.num < current && w.num + 1 > first {
                first = w.num + 1;
            }
            if w.num > current {
                match above {
                    Some(m) => {
                        if w.num < m {
                            above = Some(w.num);
                        }
                    },
                    None => {
                        above = Some(w.num);
                    },
                }
            }
        }
        i = i + 1;
    }
    proof {
        assert(workspaces@.subrange(0, workspaces@.len() as int) =~= workspaces@);
    }
    let next: i64 = current + step;
    let last: i64 = match above {
        Some(m) => m - 1,
        None => next,
    };
    if next < first {
        first
    } else if next > last {
        last
    } else {
        next
    }
}

/// The largest number below `current` among the visible workspaces of other
/// outputs, if any.
pub open spec fn visible_below(ws: Seq<Workspace>, output: Seq<char>, current: int) -> Option<int>
    decreases ws.len(),
{
    if ws.len() == 0 {
        None
    } else {
        let rest = visible_below(ws.drop_last(), output, current);
        let w = ws.last();
        if w.output@ != output && w.visible && w.num < current {
            match rest {
                Some(m) => if (w.num as int) > m { Some(w.num as int) } else { Some(m) },
                None => Some(w.num as int),
            }
        } else {
            rest
        }
    }
}

/// The smallest number above `current` among the visible workspaces of other
/// outputs, if any.
pub open spec fn visible_above(ws: Seq<Workspace>, output: Seq<char>, current: int) -> Option<int>
    decreases ws.len(),
{
    if ws.len() == 0 {
        None
    } else {
        let rest = visible_above(ws.drop_last(), output, current);
        let w = ws.last();
        if w.output@ != output && w.visible && w.num > current {
            match rest {
                Some(m) => if (w.num as int) < m { Some(w.num as int) } else { Some(m) },
                None => Some(w.num as int),
            }
        } else {
            rest
        }
    }
}

/// Target of a cross-output jump: the nearest visible workspace of another
/// output in the direction of `step`, or `current` when there is none.
pub open spec fn find_output_spec(ws: Seq<Workspace>, current: int, step: int, output: Seq<char>) -> int {
    if step < 0 {
        match visible_below(ws, output, current) {
            Some(m) => m,
            None => current,
        }
    } else if step > 0 {
        match visible_above(ws, output, current) {
            Some(m) => m,
            None => current,
        }
    } else {
        current
    }
}

/// Cross-output navigation: jumps to a workspace already shown on another
/// output.
pub fn find_output(workspaces: &Vec<Workspace>, current: i64, step: i64, output: &String) -> (r: i64)
    ensures
        r == find_output_spec(workspaces@, current as int, step as int, output@),
{
    let mut below: Option<i64> = None;
    let mut above: Option<i64> = None;
    let mut i: usize = 0;
    while i < workspaces.len()
        invariant
            0 <= i <= workspaces@.len(),
            below.is_some() <==> visible_below(workspaces@.subrange(0, i as int), output@, current as int).is_some(),
            below.is_some() ==> below.unwrap() as int == visible_below(workspaces@.subrange(0, i as int), output@, current as int).unwrap(),
            above.is_some() <==> visible_above(workspaces@.subrange(0, i as int), output@, current as int).is_some(),
            above.is_some() ==> above.unwrap() as int == visible_above(workspaces@.subrange(0, i as int), output@, current as int).unwrap(),
        decreases workspaces@.len() - i,
    {
        proof {
            assert(workspaces@.subrange(0, i as int + 1).drop_last() =~= workspaces@.subrange(0, i as int));
        }
        let w = &workspaces[i];
        if w.output != *output && w.visible {
            if w.num < current {
                match below {
                    Some(m) => {
                        if w.num > m {
                            below = Some(w.num);
                        }
                    },
                    None => {
                        below = Some(w.num);
                    },
                }
            }
            if w.num > current {
                match above {
                    Some(m) => {
                        if w.num < m {
                            above = Some(w.num);
                        }
                    },
                    None => {
                        above = Some(w.num);
                    },
                }
            }
        }
        i = i + 1;
    }
    proof {
        assert(workspaces@.subrange(0, workspaces@.len() as int) =~= workspaces@);
    }
    if step < 0 {
        match below {
            Some(m) => m,
            None => current,
        }
    } else if step > 0 {
        match above {
            Some(m) => m,
            None => current,
        }
    } else {
        current
    }
}

/// Ascending order on workspace numbers.
pub open spec fn num_le() -> spec_fn(i64, i64) -> bool {
    |a: i64, b: i64| a <= b
}

/// `num_le` is a total order, as the sorting lemmas of vstd require.
proof fn lemma_num_le_total()
    ensures
        total_ordering(num_le()),
{
}

/// The numbers of the workspaces of `output`, in snapshot order.
pub open spec fn same_nums(ws: Seq<Workspace>, output: Seq<char>) -> Seq<i64>
    decreases ws.len(),
{
    if ws.len() == 0 {
        Seq::empty()
    } else {
        let rest = same_nums(ws.drop_last(), output);
        if ws.last().output@ == output {
            rest.push(ws.last().num)
        } else {
            rest
        }
    }
}

/// The numbers of the workspaces of `output`, ascending.
pub open spec fn output_nums(ws: Seq<Workspace>, output: Seq<char>) -> Seq<i64> {
    same_nums(ws, output).sort_by(num_le())
}

/// Index of the first `v` in `s`; `s.len()` when `v` does not occur.
pub open spec fn first_index_of(s: Seq<i64>, v: i64) -> int
    decreases s.len(),
{
    if s.len() == 0 {
        0
    } else if s[0] == v {
        0
    } else {
        1 + first_index_of(s.drop_first(), v)
    }
}

/// Index of the first focused output; `s.len()` when none is focused.
pub open spec fn first_focused(s: Seq<Output>) -> int
    decreases s.len(),
{
    if s.len() == 0 {
        0
    } else if s[0].focused {
        0
    } else {
        1 + first_focused(s.drop_first())
    }
}

proof fn lemma_first_index_of(s: Seq<i64>, v: i64, i: int)
    requires
        0 <= i <= s.len(),
        forall|k: int| 0 <= k < i ==> s[k] != v,
        i == s.len() || s[i] == v,
    ensures
        first_index_of(s, v) == i,
    decreases i,
{
    if i > 0 {
        assert forall|k: int| 0 <= k < i - 1 implies s.drop_first()[k] != v by {
            assert(s.drop_first()[k] == s[k + 1]);
        }
        if i < s.len() {
            assert(s.drop_first()[i - 1] == s[i]);
        }
        lemma_first_index_of(s.drop_first(), v, i - 1);
    }
}

proof fn lemma_first_index_of_bounds(s: Seq<i64>, v: i64)
    ensures
        0 <= first_index_of(s, v) <= s.len(),
    decreases s.len(),
{
    if s.len() > 0 {
        lemma_first_index_of_bounds(s.drop_first(), v);
    }
}

proof fn lemma_first_focused(s: Seq<Output>, i: int)
    requires
        0 <= i <= s.len(),
        forall|k: int| 0 <= k < i ==> !s[k].focused,
        i == s.len() || s[i].focused,
    ensures
        first_focused(s) == i,
    decreases i,
{
    if i > 0 {
        assert forall|k: int| 0 <= k < i - 1 implies !s.drop_first()[k].focused by {
            assert(s.drop_first()[k] == s[k + 1]);
        }
        if i < s.len() {
            assert(s.drop_first()[i - 1] == s[i]);
        }
        lemma_first_focused(s.drop_first(), i - 1);
    }
}

/// Whether a layout-aware move from position `i` of a list of `len`
/// numbers leaves the current output.
pub open spec fn at_output_edge(i: int, len: int, step: int) -> bool {
    (i == 0 && step < 0) || (i == len - 1 && step > 0)
}

/// Target of a layout-aware move. Inside the current output's ascending list
/// of numbers the move goes `step` places; from its first place backwards, or
/// from its last place forwards, it goes to the output `step` places away in
/// `outputs` (saturating at both ends) and takes the workspace shown there.
pub open spec fn layout_aware_spec(
    ws: Seq<Workspace>,
    current: i64,
    output: Seq<char>,
    step: int,
    outputs: Seq<Output>,
) -> Result<i64, NavError> {
    let s = output_nums(ws, output);
    let i = first_index_of(s, current);
    if i >= s.len() {
        Err(NavError::NotOnOutput)
    } else if at_output_edge(i, s.len() as int, step) {
        let f = first_focused(outputs);
        if f >= outputs.len() {
            Err(NavError::NoFocusedOutput)
        } else {
            let j = if f + step < 0 {
                0
            } else if f + step > outputs.len() - 1 {
                outputs.len() - 1
            } else {
                f + step
            };
            match parse_i64_spec(outputs[j].current_workspace@) {
                Some(n) => Ok(n),
                None => Err(NavError::BadWorkspaceNumber),
            }
        }
    } else if 0 <= i + step < s.len() {
        Ok(s[i + step])
    } else {
        Err(NavError::IndexOutOfRange)
    }
}

/// Relies on `slice::sort` for `i64`: the result holds the same numbers, in
/// ascending order.
#[verifier::external_body]
fn sort_nums(v: &mut Vec<i64>)
    ensures
        sorted_by(final(v)@, num_le()),
        final(v)@.to_multiset() == old(v)@.to_multiset(),
{
    v.sort();
}

/// Layout-aware navigation: moves within the current output's workspaces and
/// falls through to the neighbouring output, in the order of `outputs`, at
/// either end.
pub fn layout_aware(
    workspaces: &Vec<Workspace>,
    current_ws_num: i64,
    current_output: &String,
    step: i64,
    outputs: &Vec<Output>,
) -> (r: Result<i64, NavError>)
    ensures
        r == layout_aware_spec(workspaces@, current_ws_num, current_output@, step as int, outputs@),
{
    let mut nums: Vec<i64> = Vec::new();
    let mut i: usize = 0;
    while i < workspaces.len()
        invariant
            0 <= i <= workspaces@.len(),
            nums@ == same_nums(workspaces@.subrange(0, i as int), current_output@),
        decreases workspaces@.len() - i,
    {
        proof {
            assert(workspaces@.subrange(0, i as int + 1).drop_last() =~= workspaces@.subrange(0, i as int));
        }
        if workspaces[i].output == *current_output {
            nums.push(workspaces[i].num);
        }
        i = i + 1;
    }
    proof {
        assert(workspaces@.subrange(0, workspaces@.len() as int) =~= workspaces@);
    }
    let ghost unsorted = nums@;
    sort_nums(&mut nums);
    proof {
        lemma_num_le_total();
        unsorted.lemma_sort_by_ensures(num_le());
        vstd::seq_lib::lemma_sorted_unique(nums@, unsorted.sort_by(num_le()), num_le());
    }
    let mut idx: usize = 0;
    while idx < nums.len() && nums[idx] != current_ws_num
        invariant
            0 <= idx <= nums@.len(),
            forall|k: int| 0 <= k < idx ==> nums@[k] != current_ws_num,
        decreases nums@.len() - idx,
    {
        idx = idx + 1;
    }
    proof {
        lemma_first_index_of(nums@, current_ws_num, idx as int);
    }
    if idx == nums.len() {
        return Err(NavError::NotOnOutput);
    }
    if (idx == 0 && step < 0) || (idx == nums.len() - 1 && step > 0) {
        let mut f: usize = 0;
        while f < outputs.len() && !outputs[f].focused
            invariant
                0 <= f <= outputs@.len(),
                forall|k: int| 0 <= k < f ==> !outputs@[k].focused,
            decreases outputs@.len() - f,
        {
            f = f + 1;
        }
        proof {
            lemma_first_focused(outputs@, f as int);
        }
        if f == outputs.len() {
            return Err(NavError::NoFocusedOutput);
        }
        let target: i128 = f as i128 + step as i128;
        let last: i128 = outputs.len() as i128 - 1;
        let j: usize = if target < 0 {
            0
        } else if target > last {
            (outputs.len() - 1) as usize
        } else {
            target as usize
        };
        match parse_i64(&outputs[j].current_workspace) {
            Some(n) => Ok(n),
            None => Err(NavError::BadWorkspaceNumber),
        }
    } else {
        let k: i128 = idx as i128 + step as i128;
        if 0 <= k && k < nums.len() as i128 {
            Ok(nums[k as usize])
        } else {
            Err(NavError::IndexOutOfRange)
        }
    }
}

/// A linear move forward and then back returns to the start, for every start
/// between `1` and the highest number; from the highest number the forward
/// move goes one past it.
pub proof fn lemma_next_then_prev(ws: Seq<Workspace>, current: int)
    requires
        ws.len() > 0,
        1 <= current <= max_num(ws),
    ensures
        find_by_spec(ws, find_by_spec(ws, current, 1), -1) == current,
        find_by_spec(ws, current, 1) == current + 1,
        current == max_num(ws) <==> find_by_spec(ws, current, 1) > max_num(ws),
{
}

/// A linear move back and then forward returns to the start, for every start
/// above `1` up to the highest number.
pub proof fn lemma_prev_then_next(ws: Seq<Workspace>, current: int)
    requires
        ws.len() > 0,
        1 < current <= max_num(ws),
    ensures
        find_by_spec(ws, find_by_spec(ws, current, -1), 1) == current,
{
}

/// A linear move backwards from the highest number stops at `1`, and no
/// linear move goes below `1` while the highest number is at least `1`.
pub proof fn lemma_find_by_clamps(ws: Seq<Workspace>, current: int, step: int)
    requires
        ws.len() > 0,
    ensures
        step <= 0 ==> find_by_spec(ws, max_num(ws), step) == if max_num(ws) + step < 1 {
            1
        } else {
            max_num(ws) + step
        },
        max_num(ws) >= 1 ==> find_by_spec(ws, current, step) >= 1,
{
}

/// Away from the edges of the current output's list, a layout-aware move
/// returns a number of that output's own workspaces; a single step there
/// never leaves the list.
pub proof fn lemma_layout_aware_within(
    ws: Seq<Workspace>,
    current: i64,
    output: Seq<char>,
    step: int,
    outputs: Seq<Output>,
)
    requires
        first_index_of(output_nums(ws, output), current) < output_nums(ws, output).len(),
        !at_output_edge(
            first_index_of(output_nums(ws, output), current),
            output_nums(ws, output).len() as int,
            step,
        ),
    ensures
        layout_aware_spec(ws, current, output, step, outputs) is Ok ==> same_nums(ws, output).contains(
            layout_aware_spec(ws, current, output, step, outputs)->Ok_0,
        ),
        (step == 1 || step == -1) ==> layout_aware_spec(ws, current, output, step, outputs) == Ok::<i64, NavError>(
            output_nums(ws, output)[first_index_of(output_nums(ws, output), current) + step],
        ),
{
    lemma_num_le_total();
    same_nums(ws, output).lemma_sort_by_ensures(num_le());
    let s = output_nums(ws, output);
    let i = first_index_of(s, current);
    lemma_first_index_of_bounds(s, current);
    if 0 <= i + step < s.len() {
        assert(s.contains(s[i + step]));
    }
}

} // verus!
