use workspace_nav::model::{NavError, Output, Workspace};
use workspace_nav::nav::{navigate, Action};
use workspace_nav::select::{find_by, find_on_output, find_output, layout_aware};

fn ws(num: i64, output: &str, visible: bool, focused: bool) -> Workspace {
    Workspace::new(num, output.to_string(), visible, focused)
}

fn out(x: u64, y: u64, current: &str, focused: bool) -> Output {
    Output::new(x, y, current.to_string(), focused)
}

fn three_workspaces() -> Vec<Workspace> {
    vec![
        ws(1, "outputA", true, true),
        ws(2, "outputA", false, false),
        ws(3, "outputB", true, false),
    ]
}

#[test]
fn linear_next_and_prev_from_first() {
    let w = three_workspaces();
    assert_eq!(find_by(&w, 1, 1), 2);
    assert_eq!(find_by(&w, 1, -1), 1);
    assert_eq!(navigate(Action::Next, &w, vec![]), Ok(2));
    assert_eq!(navigate(Action::Prev, &w, vec![]), Ok(1));
}

#[test]
fn linear_single_workspace() {
    let w = vec![ws(5, "outputA", true, true)];
    assert_eq!(find_by(&w, 5, 1), 6);
    assert_eq!(find_by(&w, 5, -1), 4);
    assert_eq!(navigate(Action::Next, &w, vec![]), Ok(6));
}

#[test]
fn linear_single_workspace_at_one() {
    let w = vec![ws(1, "outputA", true, true)];
    assert_eq!(find_by(&w, 1, 1), 2);
    assert_eq!(find_by(&w, 1, -1), 1);
}

#[test]
fn linear_round_trip() {
    let w = vec![
        ws(3, "a", true, false),
        ws(1, "a", false, false),
        ws(4, "b", true, true),
        ws(2, "b", false, false),
    ];
    for c in 1..=4 {
        let next = find_by(&w, c, 1);
        assert_eq!(find_by(&w, next, -1), c);
    }
    assert_eq!(find_by(&w, 4, 1), 5);
    assert_eq!(find_by(&w, 3, 1), 4);
}

#[test]
fn linear_clamps_large_steps() {
    let w = vec![ws(8, "a", true, true), ws(2, "a", false, false)];
    assert_eq!(find_by(&w, 8, -5), 3);
    let small = vec![ws(3, "a", true, true)];
    assert_eq!(find_by(&small, 3, -5), 1);
    assert_eq!(find_by(&w, 2, 20), 8);
}

#[test]
fn cross_output_jump() {
    let w = three_workspaces();
    assert_eq!(find_output(&w, 1, 1, &"outputA".to_string()), 3);
    assert_eq!(find_output(&w, 1, -1, &"outputA".to_string()), 1);
    assert_eq!(navigate(Action::NextOutput, &w, vec![]), Ok(3));
    assert_eq!(navigate(Action::PrevOutput, &w, vec![]), Ok(1));
}

#[test]
fn cross_output_picks_nearest() {
    let w = vec![
        ws(9, "c", true, false),
        ws(2, "b", true, false),
        ws(6, "a", true, true),
        ws(5, "d", true, false),
        ws(7, "d", false, false),
        ws(12, "e", true, false),
    ];
    let a = "a".to_string();
    assert_eq!(find_output(&w, 6, 1, &a), 9);
    assert_eq!(find_output(&w, 6, -1, &a), 5);
    assert_eq!(find_output(&w, 6, 0, &a), 6);
}

#[test]
fn cross_output_ignores_own_output() {
    let w = vec![ws(1, "a", true, true), ws(4, "a", false, false)];
    assert_eq!(find_output(&w, 1, 1, &"a".to_string()), 1);
}

#[test]
fn per_output_gap() {
    let w = vec![
        ws(1, "A", false, false),
        ws(2, "A", true, true),
        ws(5, "B", true, false),
        ws(8, "A", false, false),
    ];
    let a = "A".to_string();
    assert_eq!(find_on_output(&w, 2, 1, &a), 3);
    assert_eq!(find_on_output(&w, 2, -1, &a), 1);
    assert_eq!(find_on_output(&w, 4, 1, &a), 4);
    assert_eq!(find_on_output(&w, 8, 1, &a), 9);
    assert_eq!(find_on_output(&w, 8, -1, &a), 7);
    assert_eq!(find_on_output(&w, 6, -1, &a), 6);
    assert_eq!(navigate(Action::NextOnOutput, &w, vec![]), Ok(3));
    assert_eq!(navigate(Action::PrevOnOutput, &w, vec![]), Ok(1));
}

#[test]
fn per_output_closed_gap() {
    let w = vec![
        ws(3, "B", true, false),
        ws(4, "A", true, true),
        ws(5, "C", true, false),
    ];
    let a = "A".to_string();
    assert_eq!(find_on_output(&w, 4, 1, &a), 4);
    assert_eq!(find_on_output(&w, 4, -1, &a), 4);
}

fn layout_workspaces() -> Vec<Workspace> {
    vec![
        ws(7, "mid", false, false),
        ws(1, "mid", false, false),
        ws(4, "mid", true, true),
        ws(2, "left", true, false),
        ws(9, "right", true, false),
    ]
}

fn layout_outputs() -> Vec<Output> {
    vec![
        out(0, 0, "2", false),
        out(1920, 0, "4", true),
        out(3840, 0, "+9", false),
    ]
}

#[test]
fn layout_aware_inside_output() {
    let w = layout_workspaces();
    let o = layout_outputs();
    let mid = "mid".to_string();
    assert_eq!(layout_aware(&w, 4, &mid, 1, &o), Ok(7));
    assert_eq!(layout_aware(&w, 4, &mid, -1, &o), Ok(1));
    assert_eq!(layout_aware(&w, 1, &mid, 1, &o), Ok(4));
    assert_eq!(navigate(Action::NextLayoutAware, &w, layout_outputs()), Ok(7));
    assert_eq!(navigate(Action::PrevLayoutAware, &w, layout_outputs()), Ok(1));
}

#[test]
fn layout_aware_switches_output_at_edges() {
    let w = layout_workspaces();
    let o = layout_outputs();
    let mid = "mid".to_string();
    assert_eq!(layout_aware(&w, 7, &mid, 1, &o), Ok(9));
    assert_eq!(layout_aware(&w, 1, &mid, -1, &o), Ok(2));
}

#[test]
fn layout_aware_saturates_at_outer_outputs() {
    let w = vec![ws(3, "left", true, true), ws(8, "right", true, false)];
    let o = vec![out(0, 0, "3", true), out(1920, 0, "8", false)];
    let left = "left".to_string();
    assert_eq!(layout_aware(&w, 3, &left, -1, &o), Ok(3));
    let w2 = vec![ws(3, "left", true, false), ws(8, "right", true, true)];
    let o2 = vec![out(0, 0, "3", false), out(1920, 0, "-8", true)];
    assert_eq!(layout_aware(&w2, 8, &"right".to_string(), 1, &o2), Ok(-8));
}

#[test]
fn layout_aware_errors() {
    let w = layout_workspaces();
    let o = layout_outputs();
    let mid = "mid".to_string();
    assert_eq!(layout_aware(&w, 9, &mid, 1, &o), Err(NavError::NotOnOutput));
    let unfocused = vec![out(0, 0, "2", false), out(1920, 0, "4", false)];
    assert_eq!(layout_aware(&w, 7, &mid, 1, &unfocused), Err(NavError::NoFocusedOutput));
    assert_eq!(layout_aware(&w, 4, &mid, 2, &o), Err(NavError::IndexOutOfRange));
    let named = vec![out(0, 0, "2", true), out(1920, 0, "web", false)];
    assert_eq!(layout_aware(&w, 7, &mid, 1, &named), Err(NavError::BadWorkspaceNumber));
}

#[test]
fn layout_aware_reads_workspace_numbers() {
    let w = vec![ws(1, "a", true, true)];
    let cases: Vec<(&str, Result<i64, NavError>)> = vec![
        ("007", Ok(7)),
        ("+12", Ok(12)),
        ("-3", Ok(-3)),
        ("", Err(NavError::BadWorkspaceNumber)),
        ("-", Err(NavError::BadWorkspaceNumber)),
        ("1 ", Err(NavError::BadWorkspaceNumber)),
        ("99999999999999999999", Err(NavError::BadWorkspaceNumber)),
    ];
    for (text, expected) in cases {
        let o = vec![out(0, 0, "1", true), out(1920, 0, text, false)];
        assert_eq!(layout_aware(&w, 1, &"a".to_string(), 1, &o), expected);
    }
}

#[test]
fn navigate_without_focus() {
    let w = vec![ws(1, "a", true, false)];
    assert_eq!(navigate(Action::Next, &w, vec![]), Err(NavError::NoFocusedWorkspace));
    assert_eq!(navigate(Action::Next, &vec![], vec![]), Err(NavError::NoFocusedWorkspace));
}

#[test]
fn modes_that_read_outputs() {
    assert!(Action::NextLayoutAware.needs_outputs());
    assert!(Action::PrevLayoutAware.needs_outputs());
    assert!(!Action::Next.needs_outputs());
    assert!(!Action::PrevOnOutput.needs_outputs());
}

#[test]
fn navigate_orders_outputs_by_position() {
    let w = layout_workspaces();
    let shuffled = vec![
        out(3840, 0, "9", false),
        out(0, 0, "2", false),
        out(1920, 0, "4", true),
    ];
    let w2 = layout_workspaces();
    let shuffled2 = vec![
        out(3840, 0, "9", false),
        out(1920, 0, "4", true),
        out(0, 0, "2", false),
    ];
    let mut edge = w;
    edge[0].focused = true;
    edge[2].focused = false;
    assert_eq!(navigate(Action::NextLayoutAware, &edge, shuffled), Ok(9));
    let mut low = w2;
    low[1].focused = true;
    low[2].focused = false;
    assert_eq!(navigate(Action::PrevLayoutAware, &low, shuffled2), Ok(2));
}
