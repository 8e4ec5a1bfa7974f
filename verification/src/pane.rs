use vstd::prelude::*;

verus! {

/// Identifier of a pane; unique while the allocating counter has not wrapped.
pub type PaneId = u32;

/// Index of the first occurrence of `x` in `s`, if any.
pub open spec fn position_of(s: Seq<PaneId>, x: PaneId) -> Option<int>
    decreases s.len(),
{
    if s.len() == 0 {
        None
    } else if s[0] == x {
        Some(0)
    } else {
        match position_of(s.drop_first(), x) {
            Some(i) => Some(i + 1),
            None => None,
        }
    }
}

/// `position_of` finds exactly the first occurrence.
pub proof fn lemma_position_of(s: Seq<PaneId>, x: PaneId)
    ensures
        match position_of(s, x) {
            Some(i) => 0 <= i < s.len() && s[i] == x && forall|j: int| 0 <= j < i ==> s[j] != x,
            None => !s.contains(x),
        },
    decreases s.len(),
{
    if s.len() > 0 && s[0] != x {
        lemma_position_of(s.drop_first(), x);
        if position_of(s.drop_first(), x) is None {
            assert forall|j: int| 0 <= j < s.len() implies s[j] != x by {
                if j > 0 {
                    assert(s[j] == s.drop_first()[j - 1]);
                }
            }
        } else {
            let i = position_of(s.drop_first(), x)->0;
            assert forall|j: int| 0 <= j < i + 1 implies s[j] != x by {
                if j > 0 {
                    assert(s[j] == s.drop_first()[j - 1]);
                }
            }
        }
    }
}

/// The first occurrence is characterised by its index.
pub proof fn lemma_position_of_index(s: Seq<PaneId>, x: PaneId, i: int)
    requires
        0 <= i < s.len(),
        s[i] == x,
        forall|j: int| 0 <= j < i ==> s[j] != x,
    ensures
        position_of(s, x) == Some(i),
{
    lemma_position_of(s, x);
    match position_of(s, x) {
        Some(k) => {
            if k < i {
                assert(s[k] != x);
            } else if k > i {
                assert(s[i] != x);
            }
        },
        None => {
            assert(s.contains(x));
        },
    }
}

/// In a sequence without duplicates, the element at `i` is first found at `i`.
pub proof fn lemma_position_of_unique(s: Seq<PaneId>, i: int)
    requires
        s.no_duplicates(),
        0 <= i < s.len(),
    ensures
        position_of(s, s[i]) == Some(i),
{
    lemma_position_of_index(s, s[i], i);
}

/// Searching a concatenation searches the first part, then the second.
pub proof fn lemma_position_of_concat(a: Seq<PaneId>, b: Seq<PaneId>, x: PaneId)
    ensures
        position_of(a + b, x) == if a.contains(x) {
            position_of(a, x)
        } else {
            match position_of(b, x) {
                Some(i) => Some(i + a.len()),
                None => None,
            }
        },
{
    lemma_position_of(a, x);
    lemma_position_of(b, x);
    lemma_position_of(a + b, x);
    if a.contains(x) {
        let i = position_of(a, x)->0;
        lemma_position_of_index(a + b, x, i);
    } else {
        match position_of(b, x) {
            Some(i) => {
                assert forall|j: int| 0 <= j < i + a.len() implies (a + b)[j] != x by {
                    if j < a.len() {
                        assert(a[j] == (a + b)[j]);
                    }
                }
                lemma_position_of_index(a + b, x, i + a.len());
            },
            None => {
                if (a + b).contains(x) {
                    let j = choose|j: int| 0 <= j < (a + b).len() && (a + b)[j] == x;
                    if j < a.len() {
                        assert(a[j] == x);
                    } else {
                        assert(b[j - a.len()] == x);
                    }
                }
            },
        }
    }
}

} // verus!
