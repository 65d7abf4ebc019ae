//! The open list of a best-first search: a binary heap with exact contents.
use vstd::prelude::*;
use vstd::multiset::Multiset;

use crate::pos;
use crate::pos::BlockPos;
use crate::types::Cost;

verus! {

/// One queued node. Entries compare by estimate, then tie-break, then
/// position, then the cost they were queued with.
#[derive(Clone, Copy, PartialEq, Eq, Structural, Debug)]
pub struct OpenEntry {
    pub f: Cost,
    pub tie: Cost,
    pub pos: BlockPos,
    pub g: Cost,
}

pub open spec fn entry_le(a: OpenEntry, b: OpenEntry) -> bool {
    a.f < b.f || (a.f == b.f && (a.tie < b.tie || (a.tie == b.tie && (pos::pos_before(a.pos, b.pos)
        || (a.pos == b.pos && a.g <= b.g)))))
}

fn le(a: &OpenEntry, b: &OpenEntry) -> (r: bool)
    ensures
        r == entry_le(*a, *b),
{
    a.f < b.f || (a.f == b.f && (a.tie < b.tie || (a.tie == b.tie && (a.pos.before(b.pos)
        || (a.pos == b.pos && a.g <= b.g)))))
}

spec fn parent(i: int) -> int {
    (i - 1) / 2
}

/// Every entry but possibly the one at `hole` is no smaller than its parent,
/// and the children of `hole` are no smaller than the parent of `hole`.
spec fn ordered_except_up(s: Seq<OpenEntry>, hole: int) -> bool {
    &&& forall|i: int|
        0 < i < s.len() && i != hole ==> #[trigger] entry_le(s[parent(i)], s[i])
    &&& forall|i: int|
        0 < hole && 0 < i < s.len() && #[trigger] parent(i) == hole ==> entry_le(
            s[parent(hole)],
            s[i],
        )
}

/// Every entry is no smaller than its parent, except that children of `hole`
/// may be smaller than `hole`; they are still no smaller than its parent.
spec fn ordered_except_down(s: Seq<OpenEntry>, hole: int) -> bool {
    &&& forall|i: int|
        0 < i < s.len() && parent(i) != hole ==> #[trigger] entry_le(s[parent(i)], s[i])
    &&& forall|i: int|
        0 < hole && 0 < i < s.len() && #[trigger] parent(i) == hole ==> entry_le(
            s[parent(hole)],
            s[i],
        )
}

spec fn ordered(s: Seq<OpenEntry>) -> bool {
    forall|i: int| 0 < i < s.len() ==> #[trigger] entry_le(s[parent(i)], s[i])
}

proof fn lemma_root_is_least(s: Seq<OpenEntry>, i: int)
    requires
        ordered(s),
        0 <= i < s.len(),
    ensures
        entry_le(s[0], s[i]),
    decreases i,
{
    if i > 0 {
        lemma_root_is_least(s, parent(i));
        assert(entry_le(s[parent(i)], s[i]));
    }
}

proof fn lemma_swap_keeps_contents(s: Seq<OpenEntry>, i: int, j: int)
    requires
        0 <= i < s.len(),
        0 <= j < s.len(),
    ensures
        s.update(i, s[j]).update(j, s[i]).to_multiset() == s.to_multiset(),
{
    broadcast use vstd::seq_lib::group_to_multiset_ensures;

    let a = s.update(i, s[j]);
    vstd::seq_lib::to_multiset_update(s, i, s[j]);
    vstd::seq_lib::to_multiset_update(a, j, s[i]);
    if i == j {
        assert(a.update(j, s[i]) =~= s);
    } else {
        assert(a[j] == s[j]);
        assert(s.contains(s[i]));
        assert(s.to_multiset().insert(s[j]).remove(s[i]).insert(s[i]).remove(s[j])
            =~= s.to_multiset());
    }
}

/// A priority queue over [`OpenEntry`]; its view is the multiset of entries.
pub struct Frontier {
    entries: Vec<OpenEntry>,
}

impl View for Frontier {
    type V = Multiset<OpenEntry>;

    closed spec fn view(&self) -> Multiset<OpenEntry> {
        self.entries@.to_multiset()
    }
}

impl Frontier {
    #[verifier::type_invariant]
    spec fn wf(self) -> bool {
        ordered(self.entries@)
    }

    pub fn new() -> (q: Frontier)
        ensures
            q@ == Multiset::<OpenEntry>::empty(),
    {
        let entries: Vec<OpenEntry> = Vec::new();
        proof {
            broadcast use vstd::seq_lib::group_to_multiset_ensures;

            assert(entries@.to_multiset().len() == 0);
            vstd::multiset::lemma_multiset_empty_len(entries@.to_multiset());
        }
        Frontier { entries }
    }

    pub fn len(&self) -> (n: usize)
        ensures
            n == self@.len(),
    {
        broadcast use vstd::seq_lib::group_to_multiset_ensures;

        self.entries.len()
    }

    pub fn push(&mut self, entry: OpenEntry)
        ensures
            final(self)@ == old(self)@.insert(entry),
    {
        broadcast use vstd::seq_lib::group_to_multiset_ensures;

        proof {
            use_type_invariant(&*self);
        }
        let mut entries: Vec<OpenEntry> = Vec::new();
        std::mem::swap(&mut entries, &mut self.entries);
        let ghost before = entries@;
        entries.push(entry);
        sift_up(&mut entries);
        self.entries = entries;
    }

    /// Removes a least entry.
    pub fn pop(&mut self) -> (least: Option<OpenEntry>)
        ensures
            match least {
                Some(e) => {
                    &&& old(self)@.contains(e)
                    &&& final(self)@ == old(self)@.remove(e)
                    &&& forall|x: OpenEntry| #[trigger]
                        old(self)@.contains(x) ==> entry_le(e, x)
                },
                None => old(self)@.len() == 0 && final(self)@ == old(self)@,
            },
    {
        broadcast use vstd::seq_lib::group_to_multiset_ensures;

        proof {
            use_type_invariant(&*self);
        }
        if self.entries.len() == 0 {
            return None;
        }
        let mut entries: Vec<OpenEntry> = Vec::new();
        std::mem::swap(&mut entries, &mut self.entries);
        let ghost before = entries@;
        let top = entries.swap_remove(0);
        proof {
            let s = before;
            let n = s.len() - 1;
            assert(s.contains(s[0]));
            assert forall|x: OpenEntry| s.to_multiset().contains(x) implies entry_le(s[0], x) by {
                assert(s.contains(x));
                let i = choose|i: int| 0 <= i < s.len() && s[i] == x;
                lemma_root_is_least(s, i);
            }
            if n > 0 {
                assert(entries@ =~= s.update(0, s[n]).drop_last());
                let u = s.update(0, s[n]);
                vstd::seq_lib::to_multiset_update(s, 0, s[n]);
                assert(u.remove(n) =~= entries@);
                vstd::seq_lib::to_multiset_remove(u, n);
                assert(u[n] == s[n]);
                assert(s.contains(s[n]));
                assert(entries@.to_multiset() =~= s.to_multiset().remove(s[0]));
            } else {
                assert(s.remove(0) =~= entries@);
                vstd::seq_lib::to_multiset_remove(s, 0);
            }
            assert forall|i: int| 0 < i < entries@.len() && parent(i) != 0 implies #[trigger] entry_le(
                entries@[parent(i)],
                entries@[i],
            ) by {
                assert(entry_le(s[parent(i)], s[i]));
            }
        }
        sift_down(&mut entries);
        self.entries = entries;
        Some(top)
    }
}

fn sift_up(entries: &mut Vec<OpenEntry>)
    requires
        old(entries)@.len() > 0,
        ordered_except_up(old(entries)@, old(entries)@.len() - 1),
    ensures
        ordered(final(entries)@),
        final(entries)@.to_multiset() == old(entries)@.to_multiset(),
{
    let mut i: usize = entries.len() - 1;
    while i > 0
        invariant
            i < entries@.len(),
            ordered_except_up(entries@, i as int),
            entries@.to_multiset() == old(entries)@.to_multiset(),
        decreases i,
    {
        let p: usize = (i - 1) / 2;
        let child = entries[i];
        let above = entries[p];
        if le(&above, &child) {
            assert forall|k: int| 0 < k < entries@.len() implies #[trigger] entry_le(
                entries@[parent(k)],
                entries@[k],
            ) by {
                if k == i {
                    assert(parent(k) == p);
                }
            }
            return;
        }
        let ghost s = entries@;
        proof {
            lemma_swap_keeps_contents(s, i as int, p as int);
        }
        entries[i] = above;
        entries[p] = child;
        proof {
            let t = entries@;
            assert(t == s.update(i as int, s[p as int]).update(p as int, s[i as int]));
            assert forall|k: int| 0 < k < t.len() && k != p implies #[trigger] entry_le(
                t[parent(k)],
                t[k],
            ) by {
                if k == i {
                    assert(parent(k) == p);
                } else if parent(k) == i {
                    assert(entry_le(s[parent(i as int)], s[k]));
                } else if parent(k) == p {
                    assert(entry_le(s[parent(k)], s[k]));
                } else {
                    assert(entry_le(s[parent(k)], s[k]));
                }
            }
            assert forall|k: int|
                0 < p && 0 < k < t.len() && #[trigger] parent(k) == p implies entry_le(
                t[parent(p as int)],
                t[k],
            ) by {
                assert(entry_le(s[parent(p as int)], s[p as int]));
                if k != i {
                    assert(entry_le(s[parent(k)], s[k]));
                }
            }
        }
        i = p;
    }
}

fn sift_down(entries: &mut Vec<OpenEntry>)
    requires
        ordered_except_down(old(entries)@, 0),
    ensures
        ordered(final(entries)@),
        final(entries)@.to_multiset() == old(entries)@.to_multiset(),
{
    let n: usize = entries.len();
    let mut i: usize = 0;
    while i < n / 2
        invariant
            n == entries@.len(),
            ordered_except_down(entries@, i as int),
            entries@.to_multiset() == old(entries)@.to_multiset(),
        decreases n - i,
    {
        let left: usize = 2 * i + 1;
        let mut least: usize = left;
        if left + 1 < n {
            let l = entries[left];
            let r = entries[left + 1];
            if !le(&l, &r) {
                least = left + 1;
            }
        }
        let top = entries[i];
        let child = entries[least];
        if le(&top, &child) {
            assert forall|k: int| 0 < k < entries@.len() implies #[trigger] entry_le(
                entries@[parent(k)],
                entries@[k],
            ) by {
                if parent(k) == i {
                    assert(k == left || k == left + 1);
                }
            }
            return;
        }
        let ghost s = entries@;
        proof {
            lemma_swap_keeps_contents(s, i as int, least as int);
        }
        entries[i] = child;
        entries[least] = top;
        proof {
            let t = entries@;
            assert(parent(least as int) == i);
            assert forall|k: int| 0 < k < t.len() && parent(k) != least implies #[trigger] entry_le(
                t[parent(k)],
                t[k],
            ) by {
                if parent(k) == i {
                    assert(k == left || k == left + 1);
                } else if k == i {
                    assert(parent(least as int) == i);
                    assert(entry_le(s[parent(i as int)], s[least as int]));
                } else {
                    assert(entry_le(s[parent(k)], s[k]));
                }
            }
            assert forall|k: int|
                0 < least && 0 < k < t.len() && #[trigger] parent(k) == least implies entry_le(
                t[parent(least as int)],
                t[k],
            ) by {
                assert(entry_le(s[parent(k)], s[k]));
            }
        }
        i = least;
    }
    proof {
        assert forall|k: int| 0 < k < entries@.len() implies #[trigger] entry_le(
            entries@[parent(k)],
            entries@[k],
        ) by {
            assert(parent(k) != i);
        }
    }
}

} // verus!
