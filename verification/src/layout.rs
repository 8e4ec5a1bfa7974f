use vstd::prelude::*;

use crate::pane::{PaneId, position_of, lemma_position_of, lemma_position_of_concat, lemma_position_of_unique};

verus! {

/// Width in physical pixels of the divider drawn between two split panes.
pub const DIVIDER: u32 = 2;

/// Physical-pixel rectangle — all coordinates in physical (not logical) pixels.
#[derive(Clone, Copy, Debug, Default)]
pub struct PhysRect {
    pub x: u32,
    pub y: u32,
    pub w: u32,
    pub h: u32,
}

/// Direction of a pane split.
#[derive(Clone, Copy, PartialEq, Eq, Debug, Structural)]
pub enum SplitDir {
    /// Left | Right — a vertical divider.
    Vertical,
    /// Top / Bottom — a horizontal divider.
    Horizontal,
}

/// Position of a divider as the exact fraction `num / den` of the split
/// rectangle's extent.
#[derive(Clone, Copy, Debug)]
pub struct Ratio {
    pub num: u32,
    pub den: u32,
}

impl Ratio {
    /// A ratio is a fraction in `[0, 1]`.
    pub open spec fn valid(self) -> bool {
        0 < self.den && self.num <= self.den
    }

    pub open spec fn spec_half() -> Ratio {
        Ratio { num: 1, den: 2 }
    }

    /// The even split `1/2`, used for every new split.
    pub fn half() -> (r: Ratio)
        ensures
            r == Ratio::spec_half(),
            r.valid(),
    {
        Ratio { num: 1, den: 2 }
    }
}

// ── Geometry specification ──────────────────────────────────────────────────

/// `floor(len * ratio)`.
pub open spec fn scaled(len: u32, ratio: Ratio) -> int {
    (len as int * ratio.num as int) / (ratio.den as int)
}

/// `a.saturating_sub(b).max(1)` on mathematical integers.
pub open spec fn sat_sub_at_least_one(a: int, b: int) -> int {
    if a - b >= 1 {
        a - b
    } else {
        1
    }
}

/// Extent of the first (left or top) part of a split of `len` pixels.
pub open spec fn first_extent(len: u32, ratio: Ratio, divider: u32) -> int {
    sat_sub_at_least_one(scaled(len, ratio), divider as int / 2)
}

/// Extent of the second (right or bottom) part of a split of `len` pixels.
pub open spec fn second_extent(len: u32, ratio: Ratio, divider: u32) -> int {
    sat_sub_at_least_one(len as int, first_extent(len, ratio, divider) + divider)
}

/// The split's arithmetic stays inside `u32`: the second part's origin
/// `origin + first + divider` is representable.
pub open spec fn split_fits(rect: PhysRect, dir: SplitDir, ratio: Ratio, divider: u32) -> bool {
    match dir {
        SplitDir::Vertical => rect.x + first_extent(rect.w, ratio, divider) + divider <= u32::MAX,
        SplitDir::Horizontal => rect.y + first_extent(rect.h, ratio, divider) + divider
            <= u32::MAX,
    }
}

/// The two rectangles a split of `rect` produces: left/right for a vertical
/// divider, top/bottom for a horizontal one.
pub open spec fn split_rect_spec(rect: PhysRect, dir: SplitDir, ratio: Ratio, divider: u32) -> (
    PhysRect,
    PhysRect,
) {
    match dir {
        SplitDir::Vertical => {
            let lw = first_extent(rect.w, ratio, divider);
            (
                PhysRect { x: rect.x, y: rect.y, w: lw as u32, h: rect.h },
                PhysRect {
                    x: (rect.x + lw + divider) as u32,
                    y: rect.y,
                    w: second_extent(rect.w, ratio, divider) as u32,
                    h: rect.h,
                },
            )
        },
        SplitDir::Horizontal => {
            let th = first_extent(rect.h, ratio, divider);
            (
                PhysRect { x: rect.x, y: rect.y, w: rect.w, h: th as u32 },
                PhysRect {
                    x: rect.x,
                    y: (rect.y + th + divider) as u32,
                    w: rect.w,
                    h: second_extent(rect.h, ratio, divider) as u32,
                },
            )
        },
    }
}

proof fn lemma_first_extent_bounds(len: u32, ratio: Ratio, divider: u32)
    requires
        ratio.valid(),
    ensures
        0 <= scaled(len, ratio) <= len,
        1 <= first_extent(len, ratio, divider),
        first_extent(len, ratio, divider) <= if len >= 1 { len as int } else { 1 },
        1 <= second_extent(len, ratio, divider) <= if len >= 1 { len as int } else { 1 },
{
    let s = scaled(len, ratio);
    assert(0 <= s <= len) by (nonlinear_arith)
        requires
            s == (len as int * ratio.num as int) / (ratio.den as int),
            0 < ratio.den,
            ratio.num <= ratio.den,
    {
        assert(len as int * ratio.num as int <= len as int * ratio.den as int);
        vstd::arithmetic::div_mod::lemma_div_is_ordered(
            len as int * ratio.num as int,
            len as int * ratio.den as int,
            ratio.den as int,
        );
        vstd::arithmetic::div_mod::lemma_div_multiples_vanish(len as int, ratio.den as int);
    }
}

/// Split `rect` in direction `dir` at `ratio`, leaving `divider` pixels
/// between the two parts; each part is at least one pixel wide (tall).
fn split_rect(rect: PhysRect, dir: SplitDir, ratio: Ratio, divider: u32) -> (res: (
    PhysRect,
    PhysRect,
))
    requires
        ratio.valid(),
        split_fits(rect, dir, ratio, divider),
    ensures
        res == split_rect_spec(rect, dir, ratio, divider),
{
    proof {
        lemma_first_extent_bounds(rect.w, ratio, divider);
        lemma_first_extent_bounds(rect.h, ratio, divider);
    }
    match dir {
        SplitDir::Vertical => {
            let scaled_w = scale(rect.w, ratio);
            let left_w = at_least_one(scaled_w.saturating_sub(divider / 2));
            let right_x = rect.x + left_w + divider;
            let right_w = at_least_one(rect.w.saturating_sub(left_w + divider));
            (
                PhysRect { x: rect.x, y: rect.y, w: left_w, h: rect.h },
                PhysRect { x: right_x, y: rect.y, w: right_w, h: rect.h },
            )
        },
        SplitDir::Horizontal => {
            let scaled_h = scale(rect.h, ratio);
            let top_h = at_least_one(scaled_h.saturating_sub(divider / 2));
            let bottom_y = rect.y + top_h + divider;
            let bottom_h = at_least_one(rect.h.saturating_sub(top_h + divider));
            (
                PhysRect { x: rect.x, y: rect.y, w: rect.w, h: top_h },
                PhysRect { x: rect.x, y: bottom_y, w: rect.w, h: bottom_h },
            )
        },
    }
}

/// `floor(len * ratio)`, computed without overflow.
fn scale(len: u32, ratio: Ratio) -> (r: u32)
    requires
        ratio.valid(),
    ensures
        r == scaled(len, ratio),
{
    proof {
        lemma_first_extent_bounds(len, ratio, 0);
        assert(len as int * ratio.num as int <= 0xffff_ffff * 0xffff_ffff) by (nonlinear_arith)
            requires
                len <= 0xffff_ffff,
                ratio.num <= 0xffff_ffff,
        ;
    }
    let product: u64 = len as u64 * ratio.num as u64;
    (product / ratio.den as u64) as u32
}

fn at_least_one(v: u32) -> (r: u32)
    ensures
        r == if v >= 1 { v } else { 1 },
{
    if v == 0 {
        1
    } else {
        v
    }
}

// ── Pane tree ───────────────────────────────────────────────────────────────

/// Binary split tree. Each leaf holds a pane; each interior node splits a rect.
pub enum PaneTree {
    Leaf(PaneId),
    Split {
        dir: SplitDir,
        /// Fraction `[0,1]` where the divider sits.
        ratio: Ratio,
        left: Box<PaneTree>,
        right: Box<PaneTree>,
    },
}

impl PaneTree {
    /// Every divider ratio in the tree is a fraction in `[0, 1]`.
    pub open spec fn wf(self) -> bool
        decreases self,
    {
        match self {
            PaneTree::Leaf(_) => true,
            PaneTree::Split { ratio, left, right, .. } => ratio.valid() && left.wf() && right.wf(),
        }
    }

    /// Leaf pane ids in left-to-right / top-to-bottom order.
    pub open spec fn leaf_ids(self) -> Seq<PaneId>
        decreases self,
    {
        match self {
            PaneTree::Leaf(id) => seq![id],
            PaneTree::Split { left, right, .. } => left.leaf_ids() + right.leaf_ids(),
        }
    }

    /// The tree holds a leaf with pane `id`.
    pub open spec fn has_leaf(self, id: PaneId) -> bool
        decreases self,
    {
        match self {
            PaneTree::Leaf(x) => x == id,
            PaneTree::Split { left, right, .. } => left.has_leaf(id) || right.has_leaf(id),
        }
    }

    /// `(pane, rect)` for every leaf when the tree is laid out in `rect`.
    pub open spec fn layout_of(self, rect: PhysRect) -> Seq<(PaneId, PhysRect)>
        decreases self,
    {
        match self {
            PaneTree::Leaf(id) => seq![(id, rect)],
            PaneTree::Split { dir, ratio, left, right } => {
                let parts = split_rect_spec(rect, dir, ratio, DIVIDER);
                left.layout_of(parts.0) + right.layout_of(parts.1)
            },
        }
    }

    /// Laying the tree out in `rect` keeps every coordinate inside `u32`.
    pub open spec fn fits(self, rect: PhysRect) -> bool
        decreases self,
    {
        match self {
            PaneTree::Leaf(_) => true,
            PaneTree::Split { dir, ratio, left, right } => {
                let parts = split_rect_spec(rect, dir, ratio, DIVIDER);
                split_fits(rect, dir, ratio, DIVIDER) && left.fits(parts.0) && right.fits(parts.1)
            },
        }
    }

    /// The tree after splitting the first leaf `target` (in leaf order) into
    /// `target | new_id` (or `target / new_id`) at an even ratio.
    pub open spec fn after_split(self, target: PaneId, dir: SplitDir, new_id: PaneId) -> PaneTree
        decreases self,
    {
        match self {
            PaneTree::Leaf(id) => if id == target {
                PaneTree::Split {
                    dir,
                    ratio: Ratio::spec_half(),
                    left: Box::new(PaneTree::Leaf(id)),
                    right: Box::new(PaneTree::Leaf(new_id)),
                }
            } else {
                self
            },
            PaneTree::Split { dir: d, ratio, left, right } => if left.has_leaf(target) {
                PaneTree::Split {
                    dir: d,
                    ratio,
                    left: Box::new(left.after_split(target, dir, new_id)),
                    right,
                }
            } else {
                PaneTree::Split {
                    dir: d,
                    ratio,
                    left,
                    right: Box::new(right.after_split(target, dir, new_id)),
                }
            },
        }
    }

    /// The tree after removing leaf `target`: a split with a `target` leaf
    /// as a direct child is replaced by the other child; otherwise both
    /// subtrees are searched. A lone leaf is never removed.
    pub open spec fn after_remove(self, target: PaneId) -> PaneTree
        decreases self,
    {
        match self {
            PaneTree::Leaf(_) => self,
            PaneTree::Split { dir, ratio, left, right } => if *left == PaneTree::Leaf(target) {
                *right
            } else if *right == PaneTree::Leaf(target) {
                *left
            } else {
                PaneTree::Split {
                    dir,
                    ratio,
                    left: Box::new(left.after_remove(target)),
                    right: Box::new(right.after_remove(target)),
                }
            },
        }
    }

    /// Splitting a pane the tree does not hold changes nothing.
    pub proof fn lemma_split_absent(self, target: PaneId, dir: SplitDir, new_id: PaneId)
        ensures
            !self.has_leaf(target) ==> self.after_split(target, dir, new_id) == self,
        decreases self,
    {
        if let PaneTree::Split { left, right, .. } = self {
            left.lemma_split_absent(target, dir, new_id);
            right.lemma_split_absent(target, dir, new_id);
        }
    }

    pub fn new_leaf(id: PaneId) -> (tree: Self)
        ensures
            tree == PaneTree::Leaf(id),
            tree.wf(),
    {
        PaneTree::Leaf(id)
    }

    // ── Layout ─────────────────────────────────────────────────────────────

    /// Walk the tree and return `(pane_id, rect)` for every leaf, in
    /// left-to-right / top-to-bottom order.
    pub fn layout(&self, rect: PhysRect) -> (out: Vec<(PaneId, PhysRect)>)
        requires
            self.wf(),
            self.fits(rect),
        ensures
            out@ == self.layout_of(rect),
    {
        let mut out = Vec::new();
        self.layout_inner(rect, &mut out);
        assert(out@ =~= self.layout_of(rect));
        out
    }

    fn layout_inner(&self, rect: PhysRect, out: &mut Vec<(PaneId, PhysRect)>)
        requires
            self.wf(),
            self.fits(rect),
        ensures
            final(out)@ == old(out)@ + self.layout_of(rect),
        decreases self,
    {
        match self {
            PaneTree::Leaf(id) => {
                out.push((*id, rect));
            },
            PaneTree::Split { dir, ratio, left, right } => {
                let (l, r) = split_rect(rect, *dir, *ratio, DIVIDER);
                left.layout_inner(l, out);
                right.layout_inner(r, out);
                assert(final(out)@ =~= old(out)@ + self.layout_of(rect));
            },
        }
    }

    /// `true` when laying the tree out in `rect` stays inside `u32`, that is
    /// when `layout(rect)` may be called.
    pub fn layout_fits(&self, rect: PhysRect) -> (ok: bool)
        requires
            self.wf(),
        ensures
            ok == self.fits(rect),
        decreases self,
    {
        match self {
            PaneTree::Leaf(_) => true,
            PaneTree::Split { dir, ratio, left, right } => {
                if !split_fits_exec(rect, *dir, *ratio, DIVIDER) {
                    return false;
                }
                let (l, r) = split_rect(rect, *dir, *ratio, DIVIDER);
                left.layout_fits(l) && right.layout_fits(r)
            },
        }
    }

    // ── Mutation ────────────────────────────────────────────────────────────

    /// Insert `new_id` as the right/bottom sibling of the leaf `target_id`.
    /// Returns `true` if the leaf was found.
    pub fn split(&mut self, target_id: PaneId, dir: SplitDir, new_id: PaneId) -> (found: bool)
        ensures
            found == old(self).has_leaf(target_id),
            *final(self) == old(self).after_split(target_id, dir, new_id),
            old(self).wf() ==> final(self).wf(),
        decreases *old(self),
    {
        proof {
            law_split_inserts_after_target(*old(self), target_id, dir, new_id);
        }
        let mut old_tree = PaneTree::Leaf(0);
        std::mem::swap(&mut old_tree, self);
        let (new_tree, found) = match old_tree {
            PaneTree::Leaf(id) => {
                if id == target_id {
                    let split = PaneTree::Split {
                        dir,
                        ratio: Ratio::half(),
                        left: Box::new(PaneTree::Leaf(id)),
                        right: Box::new(PaneTree::Leaf(new_id)),
                    };
                    (split, true)
                } else {
                    (PaneTree::Leaf(id), false)
                }
            },
            PaneTree::Split { dir: d, ratio, mut left, mut right } => {
                proof {
                    left.lemma_split_absent(target_id, dir, new_id);
                }
                let found = if (&mut *left).split(target_id, dir, new_id) {
                    true
                } else {
                    (&mut *right).split(target_id, dir, new_id)
                };
                (PaneTree::Split { dir: d, ratio, left, right }, found)
            },
        };
        *self = new_tree;
        found
    }

    /// Remove the leaf `target_id` from the tree. When a Split has one child
    /// removed, the Split node is replaced by the surviving child.
    ///
    /// A tree that is a single leaf is left as it is: the last pane is
    /// never removed.
    pub fn remove_leaf(&mut self, target_id: PaneId)
        ensures
            *final(self) == old(self).after_remove(target_id),
            old(self).wf() ==> final(self).wf(),
        decreases *old(self),
    {
        proof {
            lemma_remove_wf(*old(self), target_id);
        }
        let mut old_tree = PaneTree::Leaf(PaneId::MAX);
        std::mem::swap(&mut old_tree, self);
        let new_tree = match old_tree {
            PaneTree::Leaf(id) => PaneTree::Leaf(id),
            PaneTree::Split { dir, ratio, mut left, mut right } => {
                let left_is_target = match &*left {
                    PaneTree::Leaf(id) => *id == target_id,
                    _ => false,
                };
                let right_is_target = match &*right {
                    PaneTree::Leaf(id) => *id == target_id,
                    _ => false,
                };
                if left_is_target {
                    *right
                } else if right_is_target {
                    *left
                } else {
                    (&mut *left).remove_leaf(target_id);
                    (&mut *right).remove_leaf(target_id);
                    PaneTree::Split { dir, ratio, left, right }
                }
            },
        };
        *self = new_tree;
    }

    // ── Queries ─────────────────────────────────────────────────────────────

    /// All leaf pane IDs in left-to-right / top-to-bottom order.
    pub fn leaves(&self) -> (out: Vec<PaneId>)
        ensures
            out@ == self.leaf_ids(),
    {
        let mut out = Vec::new();
        self.leaves_inner(&mut out);
        assert(out@ =~= self.leaf_ids());
        out
    }

    fn leaves_inner(&self, out: &mut Vec<PaneId>)
        ensures
            final(out)@ == old(out)@ + self.leaf_ids(),
        decreases self,
    {
        match self {
            PaneTree::Leaf(id) => {
                out.push(*id);
            },
            PaneTree::Split { left, right, .. } => {
                left.leaves_inner(out);
                right.leaves_inner(out);
                assert(final(out)@ =~= old(out)@ + self.leaf_ids());
            },
        }
    }
}

/// Decides `split_fits` without overflowing.
fn split_fits_exec(rect: PhysRect, dir: SplitDir, ratio: Ratio, divider: u32) -> (ok: bool)
    requires
        ratio.valid(),
    ensures
        ok == split_fits(rect, dir, ratio, divider),
{
    proof {
        lemma_first_extent_bounds(rect.w, ratio, divider);
        lemma_first_extent_bounds(rect.h, ratio, divider);
    }
    let (origin, len) = match dir {
        SplitDir::Vertical => (rect.x, rect.w),
        SplitDir::Horizontal => (rect.y, rect.h),
    };
    let first = at_least_one(scale(len, ratio).saturating_sub(divider / 2));
    let origin64: u64 = origin as u64;
    origin64 + first as u64 + divider as u64 <= u32::MAX as u64
}

// ── Laws of the tree ────────────────────────────────────────────────────────

/// A tree holds a pane exactly when the pane is among its leaves, and every
/// tree has at least one leaf.
pub proof fn lemma_has_leaf_iff_listed(t: PaneTree, id: PaneId)
    ensures
        t.has_leaf(id) == t.leaf_ids().contains(id),
        t.leaf_ids().len() >= 1,
    decreases t,
{
    match t {
        PaneTree::Leaf(x) => {
            assert(t.leaf_ids()[0] == x);
        },
        PaneTree::Split { left, right, .. } => {
            lemma_has_leaf_iff_listed(*left, id);
            lemma_has_leaf_iff_listed(*right, id);
            let a = left.leaf_ids();
            let b = right.leaf_ids();
            if a.contains(id) {
                let i = choose|i: int| 0 <= i < a.len() && a[i] == id;
                assert((a + b)[i] == id);
            }
            if b.contains(id) {
                let i = choose|i: int| 0 <= i < b.len() && b[i] == id;
                assert((a + b)[i + a.len()] == id);
            }
            if (a + b).contains(id) {
                let i = choose|i: int| 0 <= i < (a + b).len() && (a + b)[i] == id;
                if i < a.len() {
                    assert(a[i] == id);
                } else {
                    assert(b[i - a.len()] == id);
                }
            }
        },
    }
}

/// Splitting pane `target` inserts `new_id` directly after the first
/// occurrence of `target` in the leaf order; splitting a pane the tree does
/// not hold changes nothing. Splitting keeps every ratio valid.
pub proof fn law_split_inserts_after_target(
    t: PaneTree,
    target: PaneId,
    dir: SplitDir,
    new_id: PaneId,
)
    ensures
        t.wf() ==> t.after_split(target, dir, new_id).wf(),
        match position_of(t.leaf_ids(), target) {
            Some(i) => t.after_split(target, dir, new_id).leaf_ids() == t.leaf_ids().insert(
                i + 1,
                new_id,
            ),
            None => t.after_split(target, dir, new_id) == t,
        },
    decreases t,
{
    lemma_has_leaf_iff_listed(t, target);
    lemma_position_of(t.leaf_ids(), target);
    t.lemma_split_absent(target, dir, new_id);
    match t {
        PaneTree::Leaf(x) => {
            if x == target {
                assert(PaneTree::Leaf(x).leaf_ids() == seq![x]);
                assert(PaneTree::Leaf(new_id).leaf_ids() == seq![new_id]);
                assert(PaneTree::Leaf(x).wf() && PaneTree::Leaf(new_id).wf());
                assert(t.after_split(target, dir, new_id).leaf_ids() =~= t.leaf_ids().insert(
                    1,
                    new_id,
                ));
            }
        },
        PaneTree::Split { left, right, .. } => {
            law_split_inserts_after_target(*left, target, dir, new_id);
            law_split_inserts_after_target(*right, target, dir, new_id);
            lemma_has_leaf_iff_listed(*left, target);
            lemma_has_leaf_iff_listed(*right, target);
            let a = left.leaf_ids();
            let b = right.leaf_ids();
            lemma_position_of_concat(a, b, target);
            lemma_position_of(a, target);
            lemma_position_of(b, target);
            if left.has_leaf(target) {
                let i = position_of(a, target)->0;
                assert(a.insert(i + 1, new_id) + b =~= (a + b).insert(i + 1, new_id));
            } else if right.has_leaf(target) {
                let i = position_of(b, target)->0;
                assert(a + b.insert(i + 1, new_id) =~= (a + b).insert(i + a.len() + 1, new_id));
            }
        },
    }
}

/// Removing a pane the tree does not hold changes nothing.
pub proof fn lemma_remove_absent(t: PaneTree, target: PaneId)
    ensures
        !t.has_leaf(target) ==> t.after_remove(target) == t,
    decreases t,
{
    if let PaneTree::Split { left, right, .. } = t {
        assert(PaneTree::Leaf(target).has_leaf(target));
        lemma_remove_absent(*left, target);
        lemma_remove_absent(*right, target);
    }
}

/// Removing keeps every ratio valid.
pub proof fn lemma_remove_wf(t: PaneTree, target: PaneId)
    ensures
        t.wf() ==> t.after_remove(target).wf(),
    decreases t,
{
    if let PaneTree::Split { left, right, .. } = t {
        lemma_remove_wf(*left, target);
        lemma_remove_wf(*right, target);
    }
}

/// When pane ids are unique and the tree has more than one leaf, removing a
/// pane it holds deletes exactly that pane from the leaf order (and keeps the
/// order of the others); a lone leaf is never removed.
pub proof fn law_remove_deletes_leaf(t: PaneTree, target: PaneId)
    requires
        t.leaf_ids().no_duplicates(),
    ensures
        t.wf() ==> t.after_remove(target).wf(),
        !t.has_leaf(target) ==> t.after_remove(target) == t,
        t is Leaf ==> t.after_remove(target) == t,
        t.has_leaf(target) && t.leaf_ids().len() > 1 ==> t.after_remove(target).leaf_ids()
            == t.leaf_ids().remove(position_of(t.leaf_ids(), target)->0),
    decreases t,
{
    lemma_remove_wf(t, target);
    lemma_remove_absent(t, target);
    lemma_has_leaf_iff_listed(t, target);
    lemma_position_of(t.leaf_ids(), target);
    if let PaneTree::Split { left, right, .. } = t {
        let a = left.leaf_ids();
        let b = right.leaf_ids();
        lemma_has_leaf_iff_listed(*left, target);
        lemma_has_leaf_iff_listed(*right, target);
        lemma_position_of_concat(a, b, target);
        assert forall|i: int, j: int|
            0 <= i < a.len() && 0 <= j < a.len() && i != j implies a[i] != a[j] by {
            assert((a + b)[i] == a[i] && (a + b)[j] == a[j]);
        }
        assert forall|i: int, j: int|
            0 <= i < b.len() && 0 <= j < b.len() && i != j implies b[i] != b[j] by {
            assert((a + b)[i + a.len()] == b[i] && (a + b)[j + a.len()] == b[j]);
        }
        if t.has_leaf(target) {
            if *left == PaneTree::Leaf(target) {
                assert(a =~= seq![target]);
                assert((a + b).remove(0) =~= b);
            } else if *right == PaneTree::Leaf(target) {
                assert(b =~= seq![target]);
                if a.contains(target) {
                    let i = choose|i: int| 0 <= i < a.len() && a[i] == target;
                    assert((a + b)[i] == (a + b)[a.len() as int]);
                }
                assert((a + b).remove(a.len() as int) =~= a);
            } else if left.has_leaf(target) {
                if let PaneTree::Split { left: ll, right: lr, .. } = *left {
                    lemma_has_leaf_iff_listed(*ll, target);
                    lemma_has_leaf_iff_listed(*lr, target);
                }
                law_remove_deletes_leaf(*left, target);
                lemma_remove_absent(*right, target);
                if b.contains(target) {
                    let i = choose|i: int| 0 <= i < a.len() && a[i] == target;
                    let j = choose|j: int| 0 <= j < b.len() && b[j] == target;
                    assert((a + b)[i] == (a + b)[j + a.len()]);
                }
                lemma_position_of(a, target);
                let i = position_of(a, target)->0;
                assert(a.remove(i) + b =~= (a + b).remove(i));
            } else {
                if let PaneTree::Split { left: rl, right: rr, .. } = *right {
                    lemma_has_leaf_iff_listed(*rl, target);
                    lemma_has_leaf_iff_listed(*rr, target);
                }
                law_remove_deletes_leaf(*right, target);
                lemma_remove_absent(*left, target);
                lemma_position_of(b, target);
                let i = position_of(b, target)->0;
                assert(a + b.remove(i) =~= (a + b).remove(i + a.len()));
            }
        }
    }
}

/// Closing a pane that is a direct child of a split puts its sibling
/// subtree in the split's place exactly as it was: the survivor keeps its own
/// directions, ratios and panes, and the removed split's direction and ratio
/// disappear with it.
pub proof fn law_remove_promotes_sibling(
    dir: SplitDir,
    ratio: Ratio,
    x: PaneId,
    sibling: PaneTree,
)
    ensures
        (PaneTree::Split {
            dir,
            ratio,
            left: Box::new(PaneTree::Leaf(x)),
            right: Box::new(sibling),
        }).after_remove(x) == sibling,
        (PaneTree::Split {
            dir,
            ratio,
            left: Box::new(sibling),
            right: Box::new(PaneTree::Leaf(x)),
        }).after_remove(x) == sibling,
{
}

/// Removing a pane inside one side of a split leaves the split's direction
/// and ratio, and the other side when it does not hold the pane, as they
/// were.
pub proof fn law_remove_keeps_split_node(
    dir: SplitDir,
    ratio: Ratio,
    left: PaneTree,
    right: PaneTree,
    x: PaneId,
)
    requires
        left != PaneTree::Leaf(x),
        right != PaneTree::Leaf(x),
    ensures
        ({
            let t = PaneTree::Split { dir, ratio, left: Box::new(left), right: Box::new(right) };
            &&& t.after_remove(x) matches PaneTree::Split { dir: d, ratio: r, left: l, right: rr }
            &&& d == dir && r == ratio
            &&& !left.has_leaf(x) ==> *l == left
            &&& !right.has_leaf(x) ==> *rr == right
        }),
{
    lemma_remove_absent(left, x);
    lemma_remove_absent(right, x);
}

/// Removing the pane a split just created restores the tree exactly, when
/// that pane's id was not in the tree before.
pub proof fn law_remove_undoes_split(t: PaneTree, target: PaneId, dir: SplitDir, new_id: PaneId)
    requires
        t.has_leaf(target),
        !t.has_leaf(new_id),
    ensures
        t.after_split(target, dir, new_id).after_remove(new_id) == t,
    decreases t,
{
    assert(PaneTree::Leaf(new_id).has_leaf(new_id));
    match t {
        PaneTree::Leaf(x) => {},
        PaneTree::Split { left, right, .. } => {
            if left.has_leaf(target) {
                law_remove_undoes_split(*left, target, dir, new_id);
                lemma_remove_absent(*right, new_id);
            } else {
                law_remove_undoes_split(*right, target, dir, new_id);
                lemma_remove_absent(*left, new_id);
            }
        },
    }
}

/// A layout rectangle with room for four pixels per pane beyond its right
/// and bottom edges can be laid out without overflow: dividers and one-pixel
/// minimum parts push a pane at most four pixels past its parent's edge.
pub proof fn law_layout_fits_within(t: PaneTree, rect: PhysRect)
    requires
        t.wf(),
        rect.x + rect.w + 4 * t.leaf_ids().len() <= u32::MAX,
        rect.y + rect.h + 4 * t.leaf_ids().len() <= u32::MAX,
    ensures
        t.fits(rect),
    decreases t,
{
    if let PaneTree::Split { dir, ratio, left, right } = t {
        lemma_has_leaf_iff_listed(*left, 0);
        lemma_has_leaf_iff_listed(*right, 0);
        let nl = left.leaf_ids().len();
        let nr = right.leaf_ids().len();
        assert(t.leaf_ids().len() == nl + nr);
        lemma_first_extent_bounds(rect.w, ratio, DIVIDER);
        lemma_first_extent_bounds(rect.h, ratio, DIVIDER);
        let (a, b) = split_rect_spec(rect, dir, ratio, DIVIDER);
        law_layout_fits_within(*left, a);
        law_layout_fits_within(*right, b);
    }
}

/// Layout lists exactly the leaves, in leaf order: one rectangle per pane.
pub proof fn law_layout_follows_leaves(t: PaneTree, rect: PhysRect)
    ensures
        t.layout_of(rect).len() == t.leaf_ids().len(),
        forall|i: int| 0 <= i < t.leaf_ids().len() ==> #[trigger] t.layout_of(rect)[i].0
            == t.leaf_ids()[i],
    decreases t,
{
    if let PaneTree::Split { dir, ratio, left, right } = t {
        let parts = split_rect_spec(rect, dir, ratio, DIVIDER);
        law_layout_follows_leaves(*left, parts.0);
        law_layout_follows_leaves(*right, parts.1);
        let la = left.layout_of(parts.0);
        let lb = right.layout_of(parts.1);
        let a = left.leaf_ids();
        let b = right.leaf_ids();
        assert forall|i: int| 0 <= i < t.leaf_ids().len() implies #[trigger] t.layout_of(
            rect,
        )[i].0 == t.leaf_ids()[i] by {
            if i < a.len() {
                assert((la + lb)[i] == la[i]);
                assert((a + b)[i] == a[i]);
            } else {
                assert((la + lb)[i] == lb[i - a.len()]);
                assert((a + b)[i] == b[i - a.len()]);
            }
        }
    }
}

/// The first pane of a layout starts at the layout rectangle's origin.
pub proof fn law_layout_starts_at_origin(t: PaneTree, rect: PhysRect)
    ensures
        t.layout_of(rect)[0].1.x == rect.x,
        t.layout_of(rect)[0].1.y == rect.y,
    decreases t,
{
    law_layout_follows_leaves(t, rect);
    lemma_has_leaf_iff_listed(t, 0);
    if let PaneTree::Split { dir, ratio, left, right } = t {
        let parts = split_rect_spec(rect, dir, ratio, DIVIDER);
        law_layout_starts_at_origin(*left, parts.0);
        law_layout_follows_leaves(*left, parts.0);
        lemma_has_leaf_iff_listed(*left, 0);
        assert((left.layout_of(parts.0) + right.layout_of(parts.1))[0] == left.layout_of(
            parts.0,
        )[0]);
    }
}

/// A split partitions its rectangle: the first part starts at the origin,
/// the second starts `divider` pixels after the first ends, both keep the
/// other extent, each is at least one pixel, and together with the divider
/// they span the whole extent (or one pixel beyond it when it is too small
/// for two one-pixel parts).
pub proof fn law_split_rect_partition(rect: PhysRect, dir: SplitDir, ratio: Ratio, divider: u32)
    requires
        ratio.valid(),
        split_fits(rect, dir, ratio, divider),
    ensures
        ({
            let (a, b) = split_rect_spec(rect, dir, ratio, divider);
            &&& a.x == rect.x && a.y == rect.y
            &&& dir == SplitDir::Vertical ==> {
                &&& a.h == rect.h && b.h == rect.h && b.y == rect.y
                &&& b.x == a.x + a.w + divider
                &&& a.w >= 1 && b.w >= 1
                &&& a.w + divider + b.w == if rect.w >= a.w + divider + 1 {
                    rect.w as int
                } else {
                    a.w + divider + 1
                }
            }
            &&& dir == SplitDir::Horizontal ==> {
                &&& a.w == rect.w && b.w == rect.w && b.x == rect.x
                &&& b.y == a.y + a.h + divider
                &&& a.h >= 1 && b.h >= 1
                &&& a.h + divider + b.h == if rect.h >= a.h + divider + 1 {
                    rect.h as int
                } else {
                    a.h + divider + 1
                }
            }
        }),
{
    lemma_first_extent_bounds(rect.w, ratio, divider);
    lemma_first_extent_bounds(rect.h, ratio, divider);
}

/// Splitting a single pane turns it into a split in the requested
/// direction at an even ratio, the old pane first (left or top) and the new
/// pane second; splitting inside an existing split keeps that split's
/// direction and ratio.
pub proof fn law_split_shape(t: PaneTree, target: PaneId, dir: SplitDir, new_id: PaneId)
    ensures
        t == PaneTree::Leaf(target) ==> t.after_split(target, dir, new_id) == (PaneTree::Split {
            dir,
            ratio: Ratio { num: 1, den: 2 },
            left: Box::new(PaneTree::Leaf(target)),
            right: Box::new(PaneTree::Leaf(new_id)),
        }),
        t matches PaneTree::Split { dir: d, ratio: r, .. } ==> (t.after_split(
            target,
            dir,
            new_id,
        ) matches PaneTree::Split { dir: d2, ratio: r2, .. } && d2 == d && r2 == r),
{
}

/// The first (left or top) part of a split gets the ratio's share of the
/// extent less half the divider: at most the share, and within one pixel
/// plus half the divider of it, unless that would leave it empty.
pub proof fn law_first_part_follows_ratio(len: u32, ratio: Ratio, divider: u32)
    requires
        ratio.valid(),
    ensures
        ({
            let share = (len as int * ratio.num as int) / (ratio.den as int);
            let first = first_extent(len, ratio, divider);
            &&& 0 <= share <= len
            &&& share * (ratio.den as int) <= (len as int * ratio.num as int) && (len as int * ratio.num as int) < (share + 1) * (ratio.den as int)
            &&& share >= divider as int / 2 + 1 ==> first == share - divider as int / 2
            &&& share < divider as int / 2 + 1 ==> first == 1
        }),
{
    lemma_first_extent_bounds(len, ratio, divider);
    let share = (len as int * ratio.num as int) / (ratio.den as int);
    vstd::arithmetic::div_mod::lemma_fundamental_div_mod(len as int * ratio.num as int, ratio.den as int);
    assert(0 <= share <= len);
    assert(first_extent(len, ratio, divider) == sat_sub_at_least_one(share, divider as int / 2));
    assert(share * (ratio.den as int) <= (len as int * ratio.num as int) && (len as int * ratio.num as int) < (share + 1) * (ratio.den as int)) by (nonlinear_arith)
        requires
            ratio.den > 0,
            len as int * ratio.num as int == ratio.den * share + (len as int * ratio.num as int) % (ratio.den as int),
            0 <= (len as int * ratio.num as int) % (ratio.den as int) < ratio.den,
    ;
}

/// An even split of at least four pixels with the standard divider leaves
/// no pixel unused and gives both parts the same size up to one pixel.
pub proof fn law_even_split_balanced(len: u32)
    requires
        len >= 4,
    ensures
        first_extent(len, Ratio::spec_half(), DIVIDER) + DIVIDER + second_extent(
            len,
            Ratio::spec_half(),
            DIVIDER,
        ) == len,
        first_extent(len, Ratio::spec_half(), DIVIDER) <= second_extent(
            len,
            Ratio::spec_half(),
            DIVIDER,
        ) <= first_extent(len, Ratio::spec_half(), DIVIDER) + 1,
{
    assert(scaled(len, Ratio::spec_half()) == len as int / 2);
}

} // verus!
