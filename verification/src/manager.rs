use vstd::prelude::*;

use std::collections::HashMap;

use crate::layout::{
    PaneTree, PhysRect, SplitDir, law_remove_deletes_leaf, law_split_inserts_after_target,
    lemma_has_leaf_iff_listed, lemma_remove_wf,
};
use crate::text::{decimal, push_decimal};
use crate::pane::{PaneId, position_of, lemma_position_of, lemma_position_of_unique};

verus! {

// ── Workspace ─────────────────────────────────────────────────────────────────

/// A named workspace: a split tree of panes, the pane that has focus, and
/// what each pane holds (its terminal, for the application), keyed by id.
pub struct Workspace<P> {
    pub name: String,
    pub tree: PaneTree,
    pub active_pane: PaneId,
    pub panes: HashMap<PaneId, P>,
}

// ── Specifications of the focus and workspace cycling ───────────────────────

/// The workspace after `active` when cycling through `n` workspaces.
pub open spec fn next_index(active: int, n: int) -> int {
    if n > 0 {
        (active + 1) % n
    } else {
        active
    }
}

/// The workspace before `active` when cycling through `n` workspaces.
pub open spec fn prev_index(active: int, n: int) -> int {
    if n > 0 {
        (active + n - 1) % n
    } else {
        active
    }
}

/// Position used for focus cycling: the first occurrence of `current`, or
/// the start when it is not a leaf.
pub open spec fn focus_position(ids: Seq<PaneId>, current: PaneId) -> int {
    match position_of(ids, current) {
        Some(i) => i,
        None => 0,
    }
}

/// The pane focused after `current` in leaf order, wrapping around.
pub open spec fn next_focus(ids: Seq<PaneId>, current: PaneId) -> PaneId {
    ids[(focus_position(ids, current) + 1) % (ids.len() as int)]
}

/// The pane focused before `current` in leaf order, wrapping around.
pub open spec fn prev_focus(ids: Seq<PaneId>, current: PaneId) -> PaneId {
    let n = ids.len() as int;
    ids[(focus_position(ids, current) + n - 1) % n]
}

/// The pane that takes the focus when pane `removed` is closed: the one
/// after it in leaf order, or the one before it when it was the last.
pub open spec fn focus_after_removal(ids: Seq<PaneId>, removed: PaneId) -> PaneId {
    let pos = focus_position(ids, removed);
    if pos + 1 < ids.len() {
        ids[pos + 1]
    } else {
        ids[pos - 1]
    }
}

/// The rectangle of the first layout entry for pane `id`, or `default`.
pub open spec fn rect_of(layout: Seq<(PaneId, PhysRect)>, id: PaneId, default: PhysRect) -> PhysRect
    decreases layout.len(),
{
    if layout.len() == 0 {
        default
    } else if layout[0].0 == id {
        layout[0].1
    } else {
        rect_of(layout.drop_first(), id, default)
    }
}

/// Counter value after handing out one pane id (wrapping like `u32`).
pub open spec fn bump(id: PaneId) -> PaneId {
    if id < u32::MAX {
        (id + 1) as PaneId
    } else {
        0
    }
}

// ── WorkspaceManager ─────────────────────────────────────────────────────────

pub struct WorkspaceManager<P> {
    pub workspaces: Vec<Workspace<P>>,
    pub active: usize,
    next_id: PaneId,
}

impl<P> WorkspaceManager<P> {
    /// The workspaces, in order.
    pub closed spec fn spaces(self) -> Seq<Workspace<P>> {
        self.workspaces@
    }

    /// Index of the active workspace.
    pub closed spec fn active_idx(self) -> int {
        self.active as int
    }

    /// The active index is a `usize`: never negative, never above `usize::MAX`.
    pub proof fn lemma_active_idx_range(self)
        ensures
            0 <= self.active_idx() <= usize::MAX,
    {
    }

    /// The id the next new pane receives.
    pub closed spec fn pending_id(self) -> PaneId {
        self.next_id
    }

    /// The manager can be operated on: there is an active workspace, and
    /// every split tree's ratios are valid.
    pub open spec fn wf(self) -> bool {
        &&& 0 < self.spaces().len()
        &&& 0 <= self.active_idx() < self.spaces().len()
        &&& forall|i: int| 0 <= i < self.spaces().len() ==> #[trigger] self.spaces()[i].tree.wf()
    }

    /// Pane ids are unique across all workspaces and below the counter,
    /// every workspace's focus is one of its panes, and each workspace holds
    /// a value for exactly its panes.
    pub open spec fn consistent(self) -> bool {
        let ws = self.spaces();
        &&& forall|i: int| 0 <= i < ws.len() ==> (#[trigger] ws[i]).panes@.dom() == ws[i].tree.leaf_ids().to_set()
        &&& forall|i: int| 0 <= i < ws.len() ==> (#[trigger] ws[i]).tree.leaf_ids().no_duplicates()
        &&& forall|i: int| 0 <= i < ws.len() ==> (#[trigger] ws[i]).tree.has_leaf(ws[i].active_pane)
        &&& forall|i: int, j: int|
            0 <= i < ws.len() && 0 <= j < ws.len() && i != j ==> (#[trigger] ws[i]).tree.leaf_ids().disjoint(
                (#[trigger] ws[j]).tree.leaf_ids(),
            )
        &&& forall|i: int, k: int|
            0 <= i < ws.len() && 0 <= k < ws[i].tree.leaf_ids().len() ==> #[trigger] ws[i].tree.leaf_ids()[k]
                < self.pending_id()
    }

    /// The active workspace with its focus moved to `pane`.
    pub open spec fn with_focus(self, pane: PaneId) -> Seq<Workspace<P>> {
        let w = self.spaces()[self.active_idx()];
        self.spaces().update(
            self.active_idx(),
            Workspace { name: w.name, tree: w.tree, active_pane: pane, panes: w.panes },
        )
    }

    /// `after` is the workspaces with only the active one changed: to tree
    /// `tree`, focus `pane` and pane values `panes`, its name kept.
    pub open spec fn active_becomes(
        self,
        after: Seq<Workspace<P>>,
        tree: PaneTree,
        pane: PaneId,
        panes: Map<PaneId, P>,
    ) -> bool {
        let a = self.active_idx();
        &&& after.len() == self.spaces().len()
        &&& forall|i: int| 0 <= i < after.len() && i != a ==> #[trigger] after[i] == self.spaces()[i]
        &&& after[a].name == self.spaces()[a].name
        &&& after[a].tree == tree
        &&& after[a].active_pane == pane
        &&& after[a].panes@ == panes
    }

    /// The id the next new pane receives.
    pub fn next_pane_id(&self) -> (id: PaneId)
        ensures
            id == self.pending_id(),
    {
        self.next_id
    }

    /// Create a manager with one initial workspace containing one pane,
    /// pane `0`, which holds `first`.
    pub fn new(first: P) -> (mgr: Self)
        ensures
            mgr.wf(),
            mgr.consistent(),
            mgr.active_idx() == 0,
            mgr.spaces().len() == 1,
            mgr.spaces()[0].name@ == "Workspace 1"@,
            mgr.spaces()[0].tree == PaneTree::Leaf(0),
            mgr.spaces()[0].active_pane == 0,
            mgr.spaces()[0].panes@ == Map::<PaneId, P>::empty().insert(0, first),
            mgr.pending_id() == 1,
    {
        let mut mgr = Self { workspaces: Vec::new(), active: 0, next_id: 0 };
        proof {
            assert(mgr.consistent());
        }
        mgr.new_workspace("Workspace 1", first);
        mgr
    }

    // ── Workspace operations ────────────────────────────────────────────────

    /// Add a new workspace with a single pane, which holds `pane`, and
    /// return that pane's id. The active workspace does not change.
    pub fn new_workspace(&mut self, name: &str, pane: P) -> (id: PaneId)
        ensures
            id == old(self).pending_id(),
            final(self).pending_id() == bump(id),
            final(self).active_idx() == old(self).active_idx(),
            final(self).spaces().len() == old(self).spaces().len() + 1,
            forall|i: int|
                0 <= i < old(self).spaces().len() ==> #[trigger] final(self).spaces()[i]
                    == old(self).spaces()[i],
            final(self).spaces().last().name@ == name@,
            final(self).spaces().last().tree == PaneTree::Leaf(id),
            final(self).spaces().last().active_pane == id,
            final(self).spaces().last().panes@ == Map::<PaneId, P>::empty().insert(id, pane),
            old(self).wf() ==> final(self).wf(),
            old(self).consistent() && old(self).pending_id() < u32::MAX ==> final(self).consistent(),
    {
        broadcast use vstd::std_specs::hash::group_hash_axioms;

        let id = self.alloc_id();
        let ghost old_ws = self.workspaces@;
        let mut panes: HashMap<PaneId, P> = HashMap::new();
        let _ = panes.insert(id, pane);
        self.workspaces.push(
            Workspace { name: name.to_owned(), tree: PaneTree::new_leaf(id), active_pane: id, panes },
        );
        proof {
            let ws = self.workspaces@;
            assert(ws.last().tree.leaf_ids() == seq![id]);
            assert(PaneTree::Leaf(id).wf());
            if old(self).wf() {
                assert forall|i: int| 0 <= i < ws.len() implies #[trigger] ws[i].tree.wf() by {
                    if i < old_ws.len() {
                        assert(ws[i] == old_ws[i]);
                    }
                }
            }
            if old(self).consistent() && id < u32::MAX {
                assert forall|x: PaneId| seq![id].contains(x) <==> x == id by {
                    assert(seq![id][0] == id);
                }
                assert(seq![id].to_set() =~= Set::<PaneId>::empty().insert(id));
                lemma_consistent_push(*old(self), *self);
            }
        }
        id
    }

    /// Open a new workspace named `Workspace <n>`, `n` being the number of
    /// workspaces it makes, and make it the active one. Returns its pane's
    /// id (the caller starts its terminal).
    pub fn open_workspace(&mut self, pane: P) -> (id: PaneId)
        requires
            old(self).spaces().len() < usize::MAX,
        ensures
            id == old(self).pending_id(),
            final(self).pending_id() == bump(id),
            final(self).spaces().len() == old(self).spaces().len() + 1,
            forall|i: int|
                0 <= i < old(self).spaces().len() ==> #[trigger] final(self).spaces()[i]
                    == old(self).spaces()[i],
            final(self).spaces().last().name@ == "Workspace "@ + decimal(
                (old(self).spaces().len() + 1) as nat,
            ),
            final(self).spaces().last().tree == PaneTree::Leaf(id),
            final(self).spaces().last().active_pane == id,
            final(self).spaces().last().panes@ == Map::<PaneId, P>::empty().insert(id, pane),
            final(self).active_idx() == old(self).spaces().len(),
            old(self).wf() ==> final(self).wf(),
            old(self).consistent() && old(self).pending_id() < u32::MAX ==> final(self).consistent(),
    {
        let n = self.workspaces.len() + 1;
        let mut name = String::from_str("Workspace ");
        push_decimal(&mut name, n);
        let id = self.new_workspace(name.as_str(), pane);
        self.active = self.workspaces.len() - 1;
        id
    }

    pub fn next_workspace(&mut self)
        requires
            old(self).spaces().len() > 0 ==> old(self).active_idx() < usize::MAX,
        ensures
            final(self).active_idx() == next_index(old(self).active_idx() as int, old(self).spaces().len() as int),
            final(self).spaces() == old(self).spaces(),
            final(self).pending_id() == old(self).pending_id(),
            old(self).wf() ==> final(self).wf(),
            old(self).consistent() ==> final(self).consistent(),
    {
        if !self.workspaces.is_empty() {
            self.active = (self.active + 1) % self.workspaces.len();
        }
    }

    pub fn prev_workspace(&mut self)
        requires
            old(self).spaces().len() > 0 ==> old(self).active_idx() + old(self).spaces().len()
                <= usize::MAX,
        ensures
            final(self).active_idx() == prev_index(old(self).active_idx() as int, old(self).spaces().len() as int),
            final(self).spaces() == old(self).spaces(),
            final(self).pending_id() == old(self).pending_id(),
            old(self).wf() ==> final(self).wf(),
            old(self).consistent() ==> final(self).consistent(),
    {
        if !self.workspaces.is_empty() {
            let n = self.workspaces.len();
            self.active = (self.active + n - 1) % n;
        }
    }


    // ── Pane operations ─────────────────────────────────────────────────────

    /// The rectangle, within `window_rect`, of the focused pane of the
    /// active workspace (the whole window when it is not laid out): the
    /// caller sizes a new pane from it before splitting.
    pub fn active_pane_rect(&self, window_rect: PhysRect) -> (rect: PhysRect)
        requires
            self.wf(),
            self.spaces()[self.active_idx()].tree.fits(window_rect),
        ensures
            ({
                let w = self.spaces()[self.active_idx()];
                rect == rect_of(w.tree.layout_of(window_rect), w.active_pane, window_rect)
            }),
    {
        let ws = &self.workspaces[self.active];
        let layout = ws.tree.layout(window_rect);
        find_rect(&layout, ws.active_pane, window_rect)
    }

    /// Split the focused pane of the active workspace in direction `dir`,
    /// give the new pane the value `pane`, and focus it. Returns the new
    /// pane's id, the one `next_pane_id` reported.
    pub fn split_active_pane(&mut self, dir: SplitDir, pane: P) -> (new_id: PaneId)
        requires
            old(self).wf(),
        ensures
            ({
                let w = old(self).spaces()[old(self).active_idx()];
                &&& new_id == old(self).pending_id()
                &&& old(self).active_becomes(
                    final(self).spaces(),
                    w.tree.after_split(w.active_pane, dir, new_id),
                    new_id,
                    w.panes@.insert(new_id, pane),
                )
            }),
            final(self).pending_id() == bump(new_id),
            final(self).active_idx() == old(self).active_idx(),
            final(self).wf(),
            old(self).consistent() && old(self).pending_id() < u32::MAX ==> final(self).consistent(),
    {
        broadcast use vstd::std_specs::hash::group_hash_axioms;

        let new_id = self.alloc_id();
        let idx = self.active;
        let active_id = self.workspaces[idx].active_pane;
        let ghost old_tree = self.workspaces@[idx as int].tree;
        proof {
            law_split_inserts_after_target(old_tree, active_id, dir, new_id);
        }
        self.workspaces[idx].tree.split(active_id, dir, new_id);
        self.workspaces[idx].active_pane = new_id;
        let _ = self.workspaces[idx].panes.insert(new_id, pane);
        proof {
            let ws = self.workspaces@;
            let old_ws = old(self).spaces();
            assert forall|i: int| 0 <= i < ws.len() implies #[trigger] ws[i].tree.wf() by {
                if i != idx {
                    assert(ws[i] == old_ws[i]);
                }
            }
            if old(self).consistent() && new_id < u32::MAX {
                let ids = old_tree.leaf_ids();
                let p = position_of(ids, active_id)->0;
                lemma_has_leaf_iff_listed(old_tree, active_id);
                lemma_position_of(ids, active_id);
                let new_ids = ids.insert(p + 1, new_id);
                assert(old_ws[idx as int].tree.leaf_ids() == ids);
                assert forall|k: int| 0 <= k < ids.len() implies ids[k] != new_id by {
                    assert(old_ws[idx as int].tree.leaf_ids()[k] < new_id);
                }
                lemma_insert_fresh_no_duplicates(ids, p + 1, new_id);
                assert(new_ids[p + 1] == new_id);
                lemma_has_leaf_iff_listed(ws[idx as int].tree, new_id);
                assert forall|k: int| 0 <= k < new_ids.len() implies ids.contains(
                    #[trigger] new_ids[k],
                ) || new_ids[k] == old(self).pending_id() by {
                    if k <= p {
                        assert(new_ids[k] == ids[k]);
                    } else if k > p + 1 {
                        assert(new_ids[k] == ids[k - 1]);
                    }
                }
                assert forall|x: PaneId| new_ids.contains(x) <==> ids.contains(x) || x == new_id by {
                    if ids.contains(x) {
                        let k = choose|k: int| 0 <= k < ids.len() && ids[k] == x;
                        if k <= p {
                            assert(new_ids[k] == x);
                        } else {
                            assert(new_ids[k + 1] == x);
                        }
                    }
                }
                assert(ws[idx as int].panes@.dom() =~= new_ids.to_set());
                lemma_consistent_update(*old(self), *self, idx as int);
            }
        }
        new_id
    }

    /// Focus the next pane (wraps around). Returns `true` when the focus
    /// moved, that is when the active workspace has at least two panes (the
    /// caller then redraws every pane).
    pub fn focus_next_pane(&mut self) -> (moved: bool)
        requires
            old(self).wf(),
        ensures
            ({
                let w = old(self).spaces()[old(self).active_idx()];
                let ids = w.tree.leaf_ids();
                &&& moved == (ids.len() >= 2)
                &&& final(self).spaces() == if moved {
                    old(self).with_focus(next_focus(ids, w.active_pane))
                } else {
                    old(self).spaces()
                }
            }),
            final(self).active_idx() == old(self).active_idx(),
            final(self).pending_id() == old(self).pending_id(),
            final(self).wf(),
            old(self).consistent() ==> final(self).consistent(),
    {
        self.step_focus(true)
    }

    /// Focus the previous pane (wraps around). Returns `true` when the focus
    /// moved, that is when the active workspace has at least two panes.
    pub fn focus_prev_pane(&mut self) -> (moved: bool)
        requires
            old(self).wf(),
        ensures
            ({
                let w = old(self).spaces()[old(self).active_idx()];
                let ids = w.tree.leaf_ids();
                &&& moved == (ids.len() >= 2)
                &&& final(self).spaces() == if moved {
                    old(self).with_focus(prev_focus(ids, w.active_pane))
                } else {
                    old(self).spaces()
                }
            }),
            final(self).active_idx() == old(self).active_idx(),
            final(self).pending_id() == old(self).pending_id(),
            final(self).wf(),
            old(self).consistent() ==> final(self).consistent(),
    {
        self.step_focus(false)
    }

    /// Move the focus one pane forward or backward in leaf order.
    fn step_focus(&mut self, forward: bool) -> (moved: bool)
        requires
            old(self).wf(),
        ensures
            ({
                let w = old(self).spaces()[old(self).active_idx()];
                let ids = w.tree.leaf_ids();
                &&& moved == (ids.len() >= 2)
                &&& final(self).spaces() == if moved {
                    old(self).with_focus(
                        if forward {
                            next_focus(ids, w.active_pane)
                        } else {
                            prev_focus(ids, w.active_pane)
                        },
                    )
                } else {
                    old(self).spaces()
                }
            }),
            final(self).active_idx() == old(self).active_idx(),
            final(self).pending_id() == old(self).pending_id(),
            final(self).wf(),
            old(self).consistent() ==> final(self).consistent(),
    {
        let idx = self.active;
        let leaves = self.workspaces[idx].tree.leaves();
        let n = leaves.len();
        if n < 2 {
            return false;
        }
        let pos = match find_position(&leaves, self.workspaces[idx].active_pane) {
            Some(p) => p,
            None => 0,
        };
        proof {
            lemma_position_of(leaves@, self.workspaces@[idx as int].active_pane);
        }
        // `(pos + n - 1) % n` written without the intermediate sum.
        let target = if forward {
            (pos + 1) % n
        } else if pos == 0 {
            n - 1
        } else {
            pos - 1
        };
        proof {
            let nn = n as int;
            let pp = pos as int;
            if forward {
                assert(target as int == (pp + 1) % nn);
            } else if pos == 0 {
                assert((pp + nn - 1) % nn == nn - 1) by (nonlinear_arith)
                    requires pp == 0, nn >= 2;
            } else {
                assert((pp + nn - 1) % nn == pp - 1) by (nonlinear_arith)
                    requires 0 < pp < nn;
            }
        }
        let next = leaves[target];
        self.workspaces[idx].active_pane = next;
        proof {
            let ws = self.workspaces@;
            let old_ws = old(self).spaces();
            assert(ws =~= old(self).with_focus(next));
            assert forall|i: int| 0 <= i < ws.len() implies #[trigger] ws[i].tree.wf() by {
                if i != idx {
                    assert(ws[i] == old_ws[i]);
                }
            }
            if old(self).consistent() {
                let ids = leaves@;
                lemma_has_leaf_iff_listed(ws[idx as int].tree, next);
                assert(ids[target as int] == next);
                assert forall|k: int| 0 <= k < ids.len() implies ids.contains(#[trigger] ids[k])
                    || ids[k] == old(self).pending_id() by {}
                lemma_consistent_update(*old(self), *self, idx as int);
            }
        }
        true
    }

    /// Remove a pane of the active workspace (e.g. when its terminal exits or
    /// the user closes it); the pane after it in leaf order (or before it, if
    /// it was last) takes the focus. Returns `true` if it is the workspace's
    /// last pane, which is then kept (the application should exit). A pane
    /// that is not in the active workspace is ignored. The removed pane's
    /// value is dropped.
    pub fn remove_pane(&mut self, pane_id: PaneId) -> (last: bool)
        requires
            old(self).wf(),
        ensures
            ({
                let w = old(self).spaces()[old(self).active_idx()];
                let ids = w.tree.leaf_ids();
                &&& last == (ids.contains(pane_id) && ids.len() == 1)
                &&& if ids.contains(pane_id) && ids.len() > 1 {
                    old(self).active_becomes(
                        final(self).spaces(),
                        w.tree.after_remove(pane_id),
                        focus_after_removal(ids, pane_id),
                        w.panes@.remove(pane_id),
                    )
                } else {
                    final(self).spaces() == old(self).spaces()
                }
            }),
            final(self).active_idx() == old(self).active_idx(),
            final(self).pending_id() == old(self).pending_id(),
            final(self).wf(),
            old(self).consistent() ==> final(self).consistent(),
    {
        let idx = self.active;
        let leaves = self.workspaces[idx].tree.leaves();
        let pos = match find_position(&leaves, pane_id) {
            Some(p) => p,
            None => {
                proof {
                    lemma_position_of(leaves@, pane_id);
                }
                return false;
            },
        };
        proof {
            lemma_position_of(leaves@, pane_id);
        }
        if leaves.len() == 1 {
            return true;
        }
        let next_active = if pos + 1 < leaves.len() {
            leaves[pos + 1]
        } else {
            leaves[pos - 1]
        };
        let ghost old_tree = self.workspaces@[idx as int].tree;
        self.workspaces[idx].tree.remove_leaf(pane_id);
        self.workspaces[idx].active_pane = next_active;
        let _ = self.workspaces[idx].panes.remove(&pane_id);
        proof {
            broadcast use vstd::std_specs::hash::group_hash_axioms;
            let ws = self.workspaces@;
            let old_ws = old(self).spaces();
            lemma_remove_wf(old_tree, pane_id);
            assert forall|i: int| 0 <= i < ws.len() implies #[trigger] ws[i].tree.wf() by {
                if i != idx {
                    assert(ws[i] == old_ws[i]);
                }
            }
            if old(self).consistent() {
                let ids = leaves@;
                assert(old_ws[idx as int].tree.leaf_ids().no_duplicates());
                law_remove_deletes_leaf(old_tree, pane_id);
                lemma_has_leaf_iff_listed(old_tree, pane_id);
                let new_ids = ids.remove(pos as int);
                assert(ws[idx as int].tree.leaf_ids() == new_ids);
                lemma_remove_no_duplicates(ids, pos as int);
                assert forall|k: int| 0 <= k < new_ids.len() implies ids.contains(
                    #[trigger] new_ids[k],
                ) || new_ids[k] == old(self).pending_id() by {
                    if k < pos {
                        assert(new_ids[k] == ids[k]);
                    } else {
                        assert(new_ids[k] == ids[k + 1]);
                    }
                }
                if pos + 1 < ids.len() {
                    assert(new_ids[pos as int] == next_active);
                } else {
                    assert(new_ids[pos - 1] == next_active);
                }
                lemma_has_leaf_iff_listed(ws[idx as int].tree, next_active);
                assert forall|x: PaneId| new_ids.contains(x) <==> ids.contains(x) && x != pane_id by {
                    if new_ids.contains(x) {
                        let k = choose|k: int| 0 <= k < new_ids.len() && new_ids[k] == x;
                        if k < pos {
                            assert(new_ids[k] == ids[k] && k != pos);
                        } else {
                            assert(new_ids[k] == ids[k + 1] && k + 1 != pos);
                        }
                    }
                    if ids.contains(x) && x != pane_id {
                        let k = choose|k: int| 0 <= k < ids.len() && ids[k] == x;
                        assert(k != pos);
                        if k < pos {
                            assert(new_ids[k] == x);
                        } else {
                            assert(new_ids[k - 1] == x);
                        }
                    }
                }
                assert(ws[idx as int].panes@.dom() =~= new_ids.to_set());
                lemma_consistent_update(*old(self), *self, idx as int);
            }
        }
        false
    }

    // ── Accessors ───────────────────────────────────────────────────────────

    pub fn active_workspace(&self) -> (ws: &Workspace<P>)
        requires
            self.wf(),
        ensures
            *ws == self.spaces()[self.active_idx()],
    {
        &self.workspaces[self.active]
    }

    pub fn active_workspace_mut(&mut self) -> (ws: &mut Workspace<P>)
        requires
            old(self).wf(),
        ensures
            *ws == old(self).spaces()[old(self).active_idx()],
            final(self).spaces() == old(self).spaces().update(old(self).active_idx(), *final(ws)),
            final(self).active_idx() == old(self).active_idx(),
            final(self).pending_id() == old(self).pending_id(),
    {
        &mut self.workspaces[self.active]
    }

    // ── Internal helpers ────────────────────────────────────────────────────

    fn alloc_id(&mut self) -> (id: PaneId)
        ensures
            id == old(self).next_id,
            final(self).next_id == bump(id),
            final(self).workspaces == old(self).workspaces,
            final(self).active_idx() == old(self).active_idx(),
    {
        let id = self.next_id;
        self.next_id = self.next_id.wrapping_add(1);
        id
    }
}

// ── Laws ────────────────────────────────────────────────────────────────────

/// Cycling to the next workspace and back to the previous one returns to the
/// workspace one started from, and the other way round.
pub proof fn law_workspace_cycle_inverse(active: int, n: int)
    requires
        0 <= active < n,
    ensures
        prev_index(next_index(active, n), n) == active,
        next_index(prev_index(active, n), n) == active,
        0 <= next_index(active, n) < n,
        0 <= prev_index(active, n) < n,
{
    assert(((active + 1) % n + n - 1) % n == active) by (nonlinear_arith)
        requires 0 <= active < n;
    assert(((active + n - 1) % n + 1) % n == active) by (nonlinear_arith)
        requires 0 <= active < n;
    assert(0 <= (active + 1) % n < n) by (nonlinear_arith)
        requires 0 <= active < n;
    assert(0 <= (active + n - 1) % n < n) by (nonlinear_arith)
        requires 0 <= active < n;
}

/// With unique pane ids, focusing the next pane and then the previous one
/// (or the other way round) gives the focus back to the pane one started
/// from, and the focus always lands on a pane of the workspace.
pub proof fn law_focus_cycle_inverse(ids: Seq<PaneId>, current: PaneId)
    requires
        ids.no_duplicates(),
        ids.contains(current),
        ids.len() >= 2,
    ensures
        prev_focus(ids, next_focus(ids, current)) == current,
        next_focus(ids, prev_focus(ids, current)) == current,
        ids.contains(next_focus(ids, current)),
        ids.contains(prev_focus(ids, current)),
{
    let n = ids.len() as int;
    lemma_position_of(ids, current);
    let p = focus_position(ids, current);
    law_workspace_cycle_inverse(p, n);
    let q = (p + 1) % n;
    let r = (p + n - 1) % n;
    lemma_position_of_unique(ids, q);
    lemma_position_of_unique(ids, r);
    assert(ids[q] == next_focus(ids, current));
    assert(ids[r] == prev_focus(ids, current));
}

/// The pane that takes the focus when the pane at position `p` (its first
/// occurrence) is closed is the one directly after it in leaf order, or,
/// when it was the last pane, the one directly before it.
pub proof fn law_removal_focus_is_neighbour(ids: Seq<PaneId>, removed: PaneId, p: int)
    requires
        0 <= p < ids.len(),
        ids.len() >= 2,
        ids[p] == removed,
        forall|j: int| 0 <= j < p ==> ids[j] != removed,
    ensures
        p + 1 < ids.len() ==> focus_after_removal(ids, removed) == ids[p + 1],
        p + 1 == ids.len() ==> focus_after_removal(ids, removed) == ids[p - 1],
{
    crate::pane::lemma_position_of_index(ids, removed, p);
}

/// Focus cycling moves to the neighbour in leaf order: with `current` first
/// found at `p`, the next focus is the pane at `p + 1` (the first pane after
/// the last) and the previous focus the pane at `p - 1` (the last pane before
/// the first).
pub proof fn law_focus_moves_to_neighbour(ids: Seq<PaneId>, current: PaneId, p: int)
    requires
        0 <= p < ids.len(),
        ids[p] == current,
        forall|j: int| 0 <= j < p ==> ids[j] != current,
    ensures
        next_focus(ids, current) == if p + 1 < ids.len() { ids[p + 1] } else { ids[0] },
        prev_focus(ids, current) == if p > 0 { ids[p - 1] } else { ids[ids.len() - 1] },
{
    crate::pane::lemma_position_of_index(ids, current, p);
    let n = ids.len() as int;
    if p + 1 < n {
        assert((p + 1) % n == p + 1) by (nonlinear_arith) requires 0 <= p + 1 < n;
    } else {
        assert((p + 1) % n == 0) by (nonlinear_arith) requires p + 1 == n, n > 0;
    }
    if p > 0 {
        assert((p + n - 1) % n == p - 1) by (nonlinear_arith) requires 0 < p < n;
    } else {
        assert((p + n - 1) % n == n - 1) by (nonlinear_arith) requires p == 0, n > 0;
    }
}

/// Cycling through workspaces moves to the neighbouring index, wrapping
/// from the last to the first and back.
pub proof fn law_workspace_moves_to_neighbour(active: int, n: int)
    requires
        0 <= active < n,
    ensures
        next_index(active, n) == if active + 1 < n { active + 1 } else { 0 },
        prev_index(active, n) == if active > 0 { active - 1 } else { n - 1 },
{
    if active + 1 < n {
        assert((active + 1) % n == active + 1) by (nonlinear_arith) requires 0 <= active + 1 < n;
    } else {
        assert((active + 1) % n == 0) by (nonlinear_arith) requires active + 1 == n, n > 0;
    }
    if active > 0 {
        assert((active + n - 1) % n == active - 1) by (nonlinear_arith) requires 0 < active < n;
    } else {
        assert((active + n - 1) % n == n - 1) by (nonlinear_arith) requires active == 0, n > 0;
    }
}

/// With unique pane ids, the pane that takes the focus after a removal is
/// another pane of the workspace, so it survives the removal.
pub proof fn law_removal_focus_survives(ids: Seq<PaneId>, removed: PaneId)
    requires
        ids.no_duplicates(),
        ids.contains(removed),
        ids.len() >= 2,
    ensures
        focus_after_removal(ids, removed) != removed,
        ids.remove(focus_position(ids, removed)).contains(focus_after_removal(ids, removed)),
{
    lemma_position_of(ids, removed);
    let p = focus_position(ids, removed);
    let rest = ids.remove(p);
    if p + 1 < ids.len() {
        assert(rest[p] == ids[p + 1]);
    } else {
        assert(rest[p - 1] == ids[p - 1]);
    }
}

/// Index of the first occurrence of `x` in `ids`.
fn find_position(ids: &Vec<PaneId>, x: PaneId) -> (r: Option<usize>)
    ensures
        match r {
            Some(i) => position_of(ids@, x) == Some(i as int),
            None => position_of(ids@, x) is None,
        },
{
    let n = ids.len();
    let mut i: usize = 0;
    while i < n
        invariant
            n == ids@.len(),
            i <= n,
            forall|j: int| 0 <= j < i ==> ids@[j] != x,
        decreases n - i,
    {
        if ids[i] == x {
            proof {
                crate::pane::lemma_position_of_index(ids@, x, i as int);
            }
            return Some(i);
        }
        i = i + 1;
    }
    proof {
        lemma_position_of(ids@, x);
        if position_of(ids@, x) is Some {
            let k = position_of(ids@, x)->0;
            assert(ids@[k] != x);
        }
    }
    None
}

/// The rectangle of the first layout entry for pane `id`, or `default`.
fn find_rect(layout: &Vec<(PaneId, PhysRect)>, id: PaneId, default: PhysRect) -> (r: PhysRect)
    ensures
        r == rect_of(layout@, id, default),
{
    let n = layout.len();
    let mut i: usize = 0;
    assert(layout@.skip(0) =~= layout@);
    while i < n
        invariant
            n == layout@.len(),
            i <= n,
            rect_of(layout@, id, default) == rect_of(layout@.skip(i as int), id, default),
        decreases n - i,
    {
        let (pid, rect) = layout[i];
        assert(layout@.skip(i as int).drop_first() =~= layout@.skip(i + 1));
        if pid == id {
            return rect;
        }
        i = i + 1;
    }
    default
}

/// Inserting a value that does not occur keeps a sequence duplicate-free.
proof fn lemma_insert_fresh_no_duplicates(s: Seq<PaneId>, i: int, x: PaneId)
    requires
        s.no_duplicates(),
        0 <= i <= s.len(),
        !s.contains(x),
    ensures
        s.insert(i, x).no_duplicates(),
{
    let t = s.insert(i, x);
    assert forall|a: int, b: int| 0 <= a < t.len() && 0 <= b < t.len() && a != b implies t[a]
        != t[b] by {
        let ia = if a < i { a } else { a - 1 };
        let ib = if b < i { b } else { b - 1 };
        if a != i && b != i {
            assert(t[a] == s[ia] && t[b] == s[ib]);
        } else if a == i {
            assert(t[b] == s[ib]);
        } else {
            assert(t[a] == s[ia]);
        }
    }
}

/// Removing an element keeps a sequence duplicate-free.
proof fn lemma_remove_no_duplicates(s: Seq<PaneId>, i: int)
    requires
        s.no_duplicates(),
        0 <= i < s.len(),
    ensures
        s.remove(i).no_duplicates(),
{
    let t = s.remove(i);
    assert forall|a: int, b: int| 0 <= a < t.len() && 0 <= b < t.len() && a != b implies t[a]
        != t[b] by {
        let ia = if a < i { a } else { a + 1 };
        let ib = if b < i { b } else { b + 1 };
        assert(t[a] == s[ia] && t[b] == s[ib]);
    }
}

/// Appending a workspace whose only pane is the freshly allocated one keeps
/// the manager consistent.
proof fn lemma_consistent_push<P>(before: WorkspaceManager<P>, after: WorkspaceManager<P>)
    requires
        before.consistent(),
        after.spaces().len() == before.spaces().len() + 1,
        forall|i: int| 0 <= i < before.spaces().len() ==> #[trigger] after.spaces()[i] == before.spaces()[i],
        after.spaces().last().tree.leaf_ids() == seq![before.pending_id()],
        after.spaces().last().active_pane == before.pending_id(),
        after.spaces().last().panes@.dom() == seq![before.pending_id()].to_set(),
        after.spaces().last().tree.has_leaf(before.pending_id()),
        before.pending_id() < after.pending_id(),
    ensures
        after.consistent(),
{
    let ws = after.spaces();
    let old_ws = before.spaces();
    let id = before.pending_id();
    let n = old_ws.len();
    assert(ws.last() == ws[n as int]);
    assert forall|i: int, k: int|
        0 <= i < ws.len() && 0 <= k < ws[i].tree.leaf_ids().len() implies #[trigger] ws[i].tree.leaf_ids()[k]
            < after.pending_id() by {
        if i < n {
            assert(ws[i] == old_ws[i]);
            assert(old_ws[i].tree.leaf_ids()[k] < id);
        }
    }
    assert forall|i: int, j: int|
        0 <= i < ws.len() && 0 <= j < ws.len() && i != j implies (#[trigger] ws[i]).tree.leaf_ids().disjoint(
            (#[trigger] ws[j]).tree.leaf_ids(),
        ) by {
        if i < n && j < n {
            assert(ws[i] == old_ws[i] && ws[j] == old_ws[j]);
        } else if i < n {
            assert(ws[i] == old_ws[i]);
            assert forall|k: int, m: int| 0 <= k < ws[i].tree.leaf_ids().len() && 0 <= m < ws[j].tree.leaf_ids().len() implies ws[i].tree.leaf_ids()[k] != ws[j].tree.leaf_ids()[m] by {
                assert(old_ws[i].tree.leaf_ids()[k] < id);
            }
        } else {
            assert(ws[j] == old_ws[j]);
            assert forall|k: int, m: int| 0 <= k < ws[i].tree.leaf_ids().len() && 0 <= m < ws[j].tree.leaf_ids().len() implies ws[i].tree.leaf_ids()[k] != ws[j].tree.leaf_ids()[m] by {
                assert(old_ws[j].tree.leaf_ids()[m] < id);
            }
        }
    }
    assert forall|i: int| 0 <= i < ws.len() implies (#[trigger] ws[i]).tree.leaf_ids().no_duplicates() by {
        if i < n {
            assert(ws[i] == old_ws[i]);
        }
    }
    assert forall|i: int| 0 <= i < ws.len() implies (#[trigger] ws[i]).tree.has_leaf(ws[i].active_pane) by {
        if i < n {
            assert(ws[i] == old_ws[i]);
        }
    }
    assert forall|i: int| 0 <= i < ws.len() implies (#[trigger] ws[i]).panes@.dom() == ws[i].tree.leaf_ids().to_set() by {
        if i < n {
            assert(ws[i] == old_ws[i]);
        }
    }
}

/// Replacing the active workspace by one whose panes are old panes of that
/// workspace or the freshly allocated pane keeps the manager consistent.
proof fn lemma_consistent_update<P>(before: WorkspaceManager<P>, after: WorkspaceManager<P>, a: int)
    requires
        before.consistent(),
        0 <= a < before.spaces().len(),
        after.spaces().len() == before.spaces().len(),
        forall|i: int| 0 <= i < before.spaces().len() && i != a ==> after.spaces()[i] == before.spaces()[i],
        after.spaces()[a].tree.leaf_ids().no_duplicates(),
        after.spaces()[a].tree.has_leaf(after.spaces()[a].active_pane),
        after.spaces()[a].panes@.dom() == after.spaces()[a].tree.leaf_ids().to_set(),
        forall|k: int|
            0 <= k < after.spaces()[a].tree.leaf_ids().len() ==> before.spaces()[a].tree.leaf_ids().contains(
                #[trigger] after.spaces()[a].tree.leaf_ids()[k],
            ) || after.spaces()[a].tree.leaf_ids()[k] == before.pending_id(),
        before.pending_id() <= after.pending_id(),
        after.spaces()[a].tree.leaf_ids().contains(before.pending_id()) ==> before.pending_id()
            < after.pending_id(),
    ensures
        after.consistent(),
{
    let bw = before.spaces();
    let aw = after.spaces();
    let na = aw[a].tree.leaf_ids();
    let oa = bw[a].tree.leaf_ids();
    assert forall|i: int| 0 <= i < aw.len() implies (#[trigger] aw[i]).tree.leaf_ids().no_duplicates() by {
        if i != a {
            assert(aw[i] == bw[i]);
        }
    }
    assert forall|i: int| 0 <= i < aw.len() implies (#[trigger] aw[i]).tree.has_leaf(aw[i].active_pane) by {
        if i != a {
            assert(aw[i] == bw[i]);
        }
    }
    assert forall|i: int| 0 <= i < aw.len() implies (#[trigger] aw[i]).panes@.dom() == aw[i].tree.leaf_ids().to_set() by {
        if i != a {
            assert(aw[i] == bw[i]);
        }
    }
    assert forall|i: int, k: int|
        0 <= i < aw.len() && 0 <= k < aw[i].tree.leaf_ids().len() implies #[trigger] aw[i].tree.leaf_ids()[k]
            < after.pending_id() by {
        if i != a {
            assert(aw[i] == bw[i]);
        } else {
            if oa.contains(na[k]) {
                let j = choose|j: int| 0 <= j < oa.len() && oa[j] == na[k];
                assert(bw[a].tree.leaf_ids()[j] < before.pending_id());
            } else {
                assert(na[k] == before.pending_id());
                assert(na.contains(before.pending_id()));
            }
        }
    }
    assert forall|i: int, j: int|
        0 <= i < aw.len() && 0 <= j < aw.len() && i != j implies (#[trigger] aw[i]).tree.leaf_ids().disjoint(
            (#[trigger] aw[j]).tree.leaf_ids(),
        ) by {
        if i != a && j != a {
            assert(aw[i] == bw[i] && aw[j] == bw[j]);
        } else {
            let other = if i == a { j } else { i };
            assert(aw[other] == bw[other]);
            let ot = bw[other].tree.leaf_ids();
            assert forall|k: int, m: int| 0 <= k < na.len() && 0 <= m < ot.len() implies na[k] != ot[m] by {
                assert(bw[other].tree.leaf_ids()[m] < before.pending_id());
                if oa.contains(na[k]) {
                    let q = choose|q: int| 0 <= q < oa.len() && oa[q] == na[k];
                    assert(bw[a].tree.leaf_ids().disjoint(bw[other].tree.leaf_ids()));
                    assert(oa[q] != ot[m]);
                }
            }
            if i == a {
                assert(na.disjoint(ot));
            } else {
                assert forall|k: int, m: int| 0 <= k < ot.len() && 0 <= m < na.len() implies ot[k] != na[m] by {
                    assert(na[m] != ot[k]);
                }
            }
        }
    }
}

} // verus!
