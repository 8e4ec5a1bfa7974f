use alfred::layout::{PaneTree, PhysRect, SplitDir};

fn rect(x: u32, y: u32, w: u32, h: u32) -> PhysRect {
    PhysRect { x, y, w, h }
}

// ── layout ───────────────────────────────────────────────────────────────

#[test]
fn single_leaf_fills_rect() {
    let tree = PaneTree::new_leaf(0);
    let r = rect(0, 0, 1200, 800);
    let layout = tree.layout(r);
    assert_eq!(layout.len(), 1);
    let (id, got) = layout[0];
    assert_eq!(id, 0);
    assert_eq!(got.x, 0);
    assert_eq!(got.y, 0);
    assert_eq!(got.w, 1200);
    assert_eq!(got.h, 800);
}

#[test]
fn vertical_split_sums_to_full_width() {
    let mut tree = PaneTree::new_leaf(0);
    tree.split(0, SplitDir::Vertical, 1);
    let r = rect(0, 0, 1000, 800);
    let layout = tree.layout(r);
    assert_eq!(layout.len(), 2);
    let (_, l) = layout[0];
    let (_, r2) = layout[1];
    // Both halves must be inside the original rect.
    assert_eq!(l.x, 0);
    assert_eq!(l.y, 0);
    assert_eq!(l.h, 800);
    assert_eq!(r2.y, 0);
    assert_eq!(r2.h, 800);
    // Right pane starts after left pane + 2px divider.
    assert_eq!(r2.x, l.x + l.w + 2);
    // Together they consume all pixels (minus divider).
    assert_eq!(l.w + 2 + r2.w, 1000);
}

#[test]
fn horizontal_split_sums_to_full_height() {
    let mut tree = PaneTree::new_leaf(0);
    tree.split(0, SplitDir::Horizontal, 1);
    let r = rect(0, 0, 800, 600);
    let layout = tree.layout(r);
    assert_eq!(layout.len(), 2);
    let (_, top) = layout[0];
    let (_, bot) = layout[1];
    assert_eq!(top.h + 2 + bot.h, 600);
    assert_eq!(bot.y, top.y + top.h + 2);
}

#[test]
fn vertical_split_default_ratio_is_even() {
    let mut tree = PaneTree::new_leaf(0);
    tree.split(0, SplitDir::Vertical, 1);
    let r = rect(0, 0, 1000, 800);
    let layout = tree.layout(r);
    let (_, l) = layout[0];
    let (_, r2) = layout[1];
    // At ratio=0.5 and 1000px: left gets 499px, right gets 499px.
    // (1000 * 0.5 = 500 → 500 - divider/2 = 499, right = 1000 - 499 - 2 = 499)
    assert!((l.w as i32 - r2.w as i32).abs() <= 1, "halves should be nearly equal");
}

#[test]
fn non_zero_origin_preserved() {
    let mut tree = PaneTree::new_leaf(0);
    tree.split(0, SplitDir::Vertical, 1);
    let r = rect(100, 50, 800, 600);
    let layout = tree.layout(r);
    let (_, l) = layout[0];
    let (_, r2) = layout[1];
    // Left pane starts at the rect origin.
    assert_eq!(l.x, 100);
    assert_eq!(l.y, 50);
    // Right pane y unchanged.
    assert_eq!(r2.y, 50);
}

// ── leaves ───────────────────────────────────────────────────────────────

#[test]
fn leaves_single() {
    let tree = PaneTree::new_leaf(7);
    assert_eq!(tree.leaves(), vec![7]);
}

#[test]
fn leaves_after_two_splits() {
    let mut tree = PaneTree::new_leaf(0);
    tree.split(0, SplitDir::Vertical, 1);
    tree.split(1, SplitDir::Horizontal, 2);
    // Left-to-right, top-to-bottom: [0, 1, 2]
    let leaves = tree.leaves();
    assert_eq!(leaves.len(), 3);
    assert!(leaves.contains(&0));
    assert!(leaves.contains(&1));
    assert!(leaves.contains(&2));
    // 0 is the first (leftmost/topmost).
    assert_eq!(leaves[0], 0);
}

// ── split ────────────────────────────────────────────────────────────────

#[test]
fn split_returns_false_for_missing_id() {
    let mut tree = PaneTree::new_leaf(0);
    assert!(!tree.split(99, SplitDir::Vertical, 1));
}

#[test]
fn split_returns_true_for_existing_id() {
    let mut tree = PaneTree::new_leaf(0);
    assert!(tree.split(0, SplitDir::Vertical, 1));
}

#[test]
fn split_twice_yields_three_leaves() {
    let mut tree = PaneTree::new_leaf(0);
    tree.split(0, SplitDir::Vertical, 1);
    tree.split(0, SplitDir::Horizontal, 2);
    assert_eq!(tree.leaves().len(), 3);
}

// ── remove_leaf ──────────────────────────────────────────────────────────

#[test]
fn remove_left_child_leaves_right() {
    let mut tree = PaneTree::new_leaf(0);
    tree.split(0, SplitDir::Vertical, 1);
    tree.remove_leaf(0);
    assert_eq!(tree.leaves(), vec![1]);
}

#[test]
fn remove_right_child_leaves_left() {
    let mut tree = PaneTree::new_leaf(0);
    tree.split(0, SplitDir::Vertical, 1);
    tree.remove_leaf(1);
    assert_eq!(tree.leaves(), vec![0]);
}

#[test]
fn remove_middle_child_in_three_pane_tree() {
    // Tree: Split(0, Split(1, 2))
    let mut tree = PaneTree::new_leaf(0);
    tree.split(0, SplitDir::Vertical, 1);
    tree.split(1, SplitDir::Vertical, 2);
    // Remove 1 → remaining leaves should be [0, 2]
    tree.remove_leaf(1);
    let leaves = tree.leaves();
    assert_eq!(leaves.len(), 2);
    assert!(leaves.contains(&0));
    assert!(leaves.contains(&2));
}

// ── layout order ────────────────────────────────────────────────────────

#[test]
fn layout_order_left_before_right() {
    let mut tree = PaneTree::new_leaf(0);
    tree.split(0, SplitDir::Vertical, 1);
    let layout = tree.layout(rect(0, 0, 800, 600));
    assert_eq!(layout[0].0, 0);
    assert_eq!(layout[1].0, 1);
    // Left rect x < right rect x.
    assert!(layout[0].1.x < layout[1].1.x);
}

#[test]
fn layout_order_top_before_bottom() {
    let mut tree = PaneTree::new_leaf(0);
    tree.split(0, SplitDir::Horizontal, 1);
    let layout = tree.layout(rect(0, 0, 800, 600));
    assert_eq!(layout[0].0, 0);
    assert_eq!(layout[1].0, 1);
    // Top rect y < bottom rect y.
    assert!(layout[0].1.y < layout[1].1.y);
}
