use alfred::layout::{PaneTree, PhysRect, SplitDir};
use alfred::manager::WorkspaceManager;

fn window() -> PhysRect {
    PhysRect { x: 0, y: 0, w: 1000, h: 800 }
}

type Mgr = WorkspaceManager<String>;

fn mgr() -> Mgr {
    WorkspaceManager::new("pane 0".to_string())
}

/// Split the focused pane, giving the new pane a value naming its id.
fn split(m: &mut Mgr, dir: SplitDir) -> u32 {
    let id = m.next_pane_id();
    let got = m.split_active_pane(dir, format!("pane {id}"));
    assert_eq!(got, id);
    got
}

fn pane_keys(m: &Mgr, ws: usize) -> Vec<u32> {
    let mut keys: Vec<u32> = m.workspaces[ws].panes.keys().copied().collect();
    keys.sort();
    keys
}

#[test]
fn new_manager_has_one_workspace_with_pane_zero() {
    let mgr = mgr();
    assert_eq!(mgr.workspaces.len(), 1);
    assert_eq!(mgr.active, 0);
    let ws = mgr.active_workspace();
    assert_eq!(ws.name, "Workspace 1");
    assert_eq!(ws.active_pane, 0);
    assert_eq!(ws.tree.leaves(), vec![0]);
    assert_eq!(ws.panes[&0], "pane 0");
    assert_eq!(mgr.next_pane_id(), 1);
}

#[test]
fn new_workspace_allocates_fresh_id_and_keeps_active() {
    let mut mgr = mgr();
    let id = mgr.new_workspace("Workspace 2", "second".to_string());
    assert_eq!(id, 1);
    assert_eq!(mgr.workspaces[1].panes[&1], "second");
    assert_eq!(mgr.workspaces.len(), 2);
    assert_eq!(mgr.active, 0);
    assert_eq!(mgr.workspaces[1].name, "Workspace 2");
    assert_eq!(mgr.workspaces[1].active_pane, 1);
    assert_eq!(mgr.workspaces[1].tree.leaves(), vec![1]);
}

#[test]
fn next_and_prev_workspace_wrap() {
    let mut mgr = mgr();
    mgr.new_workspace("b", String::new());
    mgr.new_workspace("c", String::new());
    mgr.next_workspace();
    assert_eq!(mgr.active, 1);
    mgr.next_workspace();
    mgr.next_workspace();
    assert_eq!(mgr.active, 0);
    mgr.prev_workspace();
    assert_eq!(mgr.active, 2);
    mgr.next_workspace();
    assert_eq!(mgr.active, 0);
}

#[test]
fn split_active_pane_focuses_new_pane() {
    let mut mgr = mgr();
    let rect = mgr.active_pane_rect(window());
    let id = split(&mut mgr, SplitDir::Vertical);
    assert_eq!(id, 1);
    // The pane that was split filled the window.
    assert_eq!((rect.x, rect.y, rect.w, rect.h), (0, 0, 1000, 800));
    let ws = mgr.active_workspace();
    assert_eq!(ws.active_pane, 1);
    assert_eq!(ws.tree.leaves(), vec![0, 1]);
    let rect2 = mgr.active_pane_rect(window());
    let id2 = split(&mut mgr, SplitDir::Horizontal);
    assert_eq!(id2, 2);
    assert_eq!(pane_keys(&mgr, 0), vec![0, 1, 2]);
    assert_eq!(mgr.workspaces[0].panes[&2], "pane 2");
    assert_eq!((rect2.x, rect2.w), (501, 499));
    assert_eq!(mgr.active_workspace().tree.leaves(), vec![0, 1, 2]);
}

#[test]
fn focus_cycles_through_leaves() {
    let mut mgr = mgr();
    assert!(!mgr.focus_next_pane());
    assert!(!mgr.focus_prev_pane());
    split(&mut mgr, SplitDir::Vertical);
    split(&mut mgr, SplitDir::Vertical);
    assert_eq!(mgr.active_workspace().active_pane, 2);
    assert!(mgr.focus_next_pane());
    assert_eq!(mgr.active_workspace().active_pane, 0);
    assert!(mgr.focus_prev_pane());
    assert_eq!(mgr.active_workspace().active_pane, 2);
    assert!(mgr.focus_prev_pane());
    assert_eq!(mgr.active_workspace().active_pane, 1);
}

#[test]
fn remove_pane_moves_focus_to_neighbour() {
    let mut mgr = mgr();
    split(&mut mgr, SplitDir::Vertical);
    split(&mut mgr, SplitDir::Vertical);
    // Leaves [0, 1, 2]; removing 1 focuses 2 (the next one).
    assert!(!mgr.remove_pane(1));
    assert_eq!(mgr.active_workspace().tree.leaves(), vec![0, 2]);
    assert_eq!(pane_keys(&mgr, 0), vec![0, 2]);
    assert_eq!(mgr.active_workspace().active_pane, 2);
    // Removing the last leaf focuses the previous one.
    assert!(!mgr.remove_pane(2));
    assert_eq!(mgr.active_workspace().active_pane, 0);
    // The last pane is kept and reported.
    assert!(mgr.remove_pane(0));
    assert_eq!(mgr.active_workspace().tree.leaves(), vec![0]);
    assert_eq!(pane_keys(&mgr, 0), vec![0]);
}

#[test]
fn remove_unknown_pane_is_ignored() {
    let mut mgr = mgr();
    split(&mut mgr, SplitDir::Vertical);
    assert!(!mgr.remove_pane(42));
    assert_eq!(mgr.active_workspace().tree.leaves(), vec![0, 1]);
    assert_eq!(mgr.active_workspace().active_pane, 1);
}

#[test]
fn operations_act_on_active_workspace_only() {
    let mut mgr = mgr();
    let id = mgr.new_workspace("Workspace 2", String::new());
    mgr.next_workspace();
    let new_id = split(&mut mgr, SplitDir::Horizontal);
    assert_eq!(new_id, 2);
    assert_eq!(mgr.workspaces[1].tree.leaves(), vec![id, 2]);
    assert_eq!(mgr.workspaces[0].tree.leaves(), vec![0]);
    // Pane 0 is not in the active workspace.
    assert!(!mgr.remove_pane(0));
}

#[test]
fn active_workspace_mut_edits_active() {
    let mut mgr = mgr();
    mgr.active_workspace_mut().name = String::from("renamed");
    assert_eq!(mgr.workspaces[0].name, "renamed");
    mgr.active_workspace_mut().tree = PaneTree::new_leaf(0);
    assert_eq!(mgr.workspaces[0].tree.leaves(), vec![0]);
}

#[test]
fn pane_ids_stay_unique_and_focus_stays_on_a_pane() {
    let mut mgr = mgr();
    split(&mut mgr, SplitDir::Vertical);
    mgr.new_workspace("b", String::new());
    mgr.next_workspace();
    split(&mut mgr, SplitDir::Horizontal);
    mgr.remove_pane(2);
    split(&mut mgr, SplitDir::Vertical);
    mgr.focus_prev_pane();
    let mut all: Vec<u32> = Vec::new();
    for (i, ws) in mgr.workspaces.iter().enumerate() {
        let mut leaves = ws.tree.leaves();
        assert!(leaves.contains(&ws.active_pane));
        leaves.sort();
        assert_eq!(pane_keys(&mgr, i), leaves);
        all.extend(leaves);
    }
    let mut sorted = all.clone();
    sorted.sort();
    sorted.dedup();
    assert_eq!(sorted.len(), all.len());
    assert_eq!(sorted, vec![0, 1, 3, 4]);
}

#[test]
fn open_workspace_names_and_focuses_it() {
    let mut mgr = mgr();
    let id = mgr.open_workspace("opened".to_string());
    assert_eq!(id, 1);
    assert_eq!(mgr.active, 1);
    assert_eq!(mgr.workspaces[1].name, "Workspace 2");
    for _ in 0..10 {
        mgr.open_workspace(String::new());
    }
    assert_eq!(mgr.workspaces.len(), 12);
    assert_eq!(mgr.active, 11);
    assert_eq!(mgr.workspaces[11].name, "Workspace 12");
    assert_eq!(mgr.active_workspace().tree.leaves(), vec![11]);
}

#[test]
fn next_workspace_with_no_workspaces_does_nothing() {
    let mut mgr = mgr();
    mgr.workspaces.clear();
    mgr.next_workspace();
    mgr.prev_workspace();
    assert_eq!(mgr.active, 0);
}
