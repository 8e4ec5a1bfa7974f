use alfred::layout::{PaneTree, PhysRect, Ratio, SplitDir};

fn rect(x: u32, y: u32, w: u32, h: u32) -> PhysRect {
    PhysRect { x, y, w, h }
}

#[test]
fn split_inserts_new_pane_right_after_target() {
    let mut tree = PaneTree::new_leaf(0);
    tree.split(0, SplitDir::Vertical, 1);
    tree.split(1, SplitDir::Horizontal, 2);
    tree.split(0, SplitDir::Horizontal, 3);
    assert_eq!(tree.leaves(), vec![0, 3, 1, 2]);
}

#[test]
fn split_of_missing_pane_changes_nothing() {
    let mut tree = PaneTree::new_leaf(0);
    tree.split(0, SplitDir::Vertical, 1);
    assert!(!tree.split(5, SplitDir::Vertical, 9));
    assert_eq!(tree.leaves(), vec![0, 1]);
}

#[test]
fn removing_lone_leaf_is_noop() {
    let mut tree = PaneTree::new_leaf(4);
    tree.remove_leaf(4);
    assert_eq!(tree.leaves(), vec![4]);
}

#[test]
fn removing_missing_leaf_is_noop() {
    let mut tree = PaneTree::new_leaf(0);
    tree.split(0, SplitDir::Vertical, 1);
    tree.remove_leaf(7);
    assert_eq!(tree.leaves(), vec![0, 1]);
}

#[test]
fn remove_deep_leaf_keeps_order() {
    let mut tree = PaneTree::new_leaf(0);
    tree.split(0, SplitDir::Vertical, 1);
    tree.split(0, SplitDir::Horizontal, 2);
    tree.split(1, SplitDir::Horizontal, 3);
    assert_eq!(tree.leaves(), vec![0, 2, 1, 3]);
    tree.remove_leaf(2);
    assert_eq!(tree.leaves(), vec![0, 1, 3]);
}

#[test]
fn layout_lists_every_leaf_in_order() {
    let mut tree = PaneTree::new_leaf(0);
    tree.split(0, SplitDir::Vertical, 1);
    tree.split(1, SplitDir::Horizontal, 2);
    let layout = tree.layout(rect(0, 0, 1000, 800));
    let ids: Vec<u32> = layout.iter().map(|(id, _)| *id).collect();
    assert_eq!(ids, tree.leaves());
    // Right half is 499 wide starting at 501, split into 399 + 2 + 399.
    assert_eq!(layout[1].1.x, 501);
    assert_eq!(layout[1].1.h, 399);
    assert_eq!(layout[2].1.y, 401);
    assert_eq!(layout[2].1.h, 399);
}

#[test]
fn tiny_rect_parts_are_one_pixel() {
    let mut tree = PaneTree::new_leaf(0);
    tree.split(0, SplitDir::Vertical, 1);
    let layout = tree.layout(rect(10, 0, 1, 5));
    assert_eq!(layout[0].1.w, 1);
    assert_eq!(layout[1].1.x, 13);
    assert_eq!(layout[1].1.w, 1);
}

#[test]
fn layout_fits_detects_overflow() {
    let mut tree = PaneTree::new_leaf(0);
    tree.split(0, SplitDir::Vertical, 1);
    assert!(tree.layout_fits(rect(0, 0, 1000, 800)));
    assert!(!tree.layout_fits(rect(u32::MAX - 3, 0, 10, 800)));
    assert!(PaneTree::new_leaf(0).layout_fits(rect(u32::MAX, u32::MAX, u32::MAX, u32::MAX)));
}

#[test]
fn half_ratio_is_one_over_two() {
    let r = Ratio::half();
    assert_eq!((r.num, r.den), (1, 2));
}

#[test]
fn uneven_ratio_layout() {
    let tree = PaneTree::Split {
        dir: SplitDir::Vertical,
        ratio: Ratio { num: 1, den: 4 },
        left: Box::new(PaneTree::Leaf(0)),
        right: Box::new(PaneTree::Leaf(1)),
    };
    let layout = tree.layout(rect(0, 0, 1000, 10));
    assert_eq!(layout[0].1.w, 249);
    assert_eq!(layout[1].1.x, 251);
    assert_eq!(layout[1].1.w, 749);
}

#[test]
fn removing_new_pane_undoes_split() {
    let mut tree = PaneTree::new_leaf(0);
    tree.split(0, SplitDir::Vertical, 1);
    tree.split(1, SplitDir::Horizontal, 2);
    let before = tree.layout(rect(0, 0, 900, 700));
    tree.split(2, SplitDir::Vertical, 3);
    tree.remove_leaf(3);
    let after = tree.layout(rect(0, 0, 900, 700));
    assert_eq!(tree.leaves(), vec![0, 1, 2]);
    let key = |l: &Vec<(u32, PhysRect)>| -> Vec<(u32, u32, u32, u32, u32)> {
        l.iter().map(|(id, r)| (*id, r.x, r.y, r.w, r.h)).collect()
    };
    assert_eq!(key(&before), key(&after));
}

#[test]
fn layout_fits_with_four_pixels_per_pane_of_room() {
    let mut tree = PaneTree::new_leaf(0);
    tree.split(0, SplitDir::Vertical, 1);
    tree.split(1, SplitDir::Vertical, 2);
    tree.split(2, SplitDir::Horizontal, 3);
    // Four leaves: 16 pixels of room past the right and bottom edges.
    let r = rect(u32::MAX - 16 - 3, u32::MAX - 16 - 3, 3, 3);
    assert!(tree.layout_fits(r));
    assert_eq!(tree.layout(r).len(), 4);
}
