//! Stable ordering of node entries by a numeric key.
use vstd::prelude::*;

use crate::base::node::NodeId;

verus! {

/// An entry ordered by a numeric key.
pub trait Keyed: Copy {
    spec fn spec_key(&self) -> u64;

    fn key(&self) -> (r: u64)
        ensures
            r == self.spec_key(),
    ;
}

/// A focus candidate: its id and the row and column of its top-left corner.
#[derive(Clone, Copy)]
pub struct FocusEntry {
    pub id: NodeId,
    pub y: u16,
    pub x: u16,
}

/// Focus candidates are ordered by row, then column.
impl Keyed for FocusEntry {
    open spec fn spec_key(&self) -> u64 {
        ((self.y as u64) * 65536 + (self.x as u64)) as u64
    }

    fn key(&self) -> (r: u64) {
        (self.y as u64) * 65536 + (self.x as u64)
    }
}

/// A render candidate: its id and stacking order.
#[derive(Clone, Copy)]
pub struct RenderEntry {
    pub id: NodeId,
    pub z: i16,
}

/// Render candidates are ordered by stacking order, lowest first.
impl Keyed for RenderEntry {
    open spec fn spec_key(&self) -> u64 {
        (self.z as int + 32768) as u64
    }

    fn key(&self) -> (r: u64) {
        (self.z as i32 + 32768) as u64
    }
}

/// `s` (already ordered) with `e` inserted after every entry whose key is not larger.
pub open spec fn insert_sorted<T: Keyed>(s: Seq<T>, e: T) -> Seq<T>
    decreases s.len(),
{
    if s.len() == 0 {
        seq![e]
    } else if s.last().spec_key() <= e.spec_key() {
        s.push(e)
    } else {
        insert_sorted(s.drop_last(), e).push(s.last())
    }
}

/// `s` stably ordered by key: ascending keys, equal keys in their original order.
pub open spec fn stable_sort<T: Keyed>(s: Seq<T>) -> Seq<T>
    decreases s.len(),
{
    if s.len() == 0 {
        s
    } else {
        insert_sorted(stable_sort(s.drop_last()), s.last())
    }
}

proof fn lemma_insert_step<T: Keyed>(s: Seq<T>, e: T, j: int)
    requires
        0 < j <= s.len(),
        s[j - 1].spec_key() > e.spec_key(),
    ensures
        insert_sorted(s.take(j), e) == insert_sorted(s.take(j - 1), e).push(s[j - 1]),
{
    assert(s.take(j).drop_last() =~= s.take(j - 1));
    assert(s.take(j).last() == s[j - 1]);
}

/// Orders the entries by ascending key, keeping equal keys in their order
/// (insertion sort).
pub fn sort_by_key<T: Keyed>(v: Vec<T>) -> (r: Vec<T>)
    ensures
        r@ == stable_sort(v@),
{
    let mut out: Vec<T> = Vec::new();
    let n = v.len();
    let mut i: usize = 0;
    proof {
        assert(v@.take(0) =~= Seq::<T>::empty());
    }
    while i < n
        invariant
            n == v@.len(),
            0 <= i <= n,
            out@ == stable_sort(v@.take(i as int)),
        decreases n - i,
    {
        let e = v[i];
        let ghost s = out@;
        let ek = e.key();
        out.push(e);
        let mut j = out.len() - 1;
        proof {
            assert(s.take(j as int) =~= s);
            assert(s.skip(j as int) =~= Seq::<T>::empty());
            assert(out@ =~= s.take(j as int) + seq![e] + s.skip(j as int));
        }
        while j > 0 && out[j - 1].key() > ek
            invariant
                0 <= j <= s.len(),
                out@ == s.take(j as int) + seq![e] + s.skip(j as int),
                insert_sorted(s, e) == insert_sorted(s.take(j as int), e) + s.skip(j as int),
                ek == e.spec_key(),
            decreases j,
        {
            let a = out[j - 1];
            let b = out[j];
            proof {
                assert(a == s[j - 1]);
                lemma_insert_step(s, e, j as int);
                assert(s.skip(j - 1) =~= seq![s[j - 1]] + s.skip(j as int));
                assert(insert_sorted(s.take(j - 1), e).push(s[j - 1]) + s.skip(j as int)
                    =~= insert_sorted(s.take(j - 1), e) + s.skip(j - 1));
            }
            out.set(j - 1, b);
            out.set(j, a);
            proof {
                assert(out@ =~= s.take(j - 1) + seq![e] + s.skip(j - 1));
            }
            j = j - 1;
        }
        proof {
            if j > 0 {
                assert(s.take(j as int).last() == s[j - 1]);
                assert(insert_sorted(s.take(j as int), e) == s.take(j as int).push(e));
            } else {
                assert(s.take(0) =~= Seq::<T>::empty());
            }
            assert(out@ =~= insert_sorted(s, e));
            assert(v@.take(i + 1).drop_last() =~= v@.take(i as int));
            assert(v@.take(i + 1).last() == e);
        }
        i = i + 1;
    }
    proof {
        assert(v@.take(n as int) =~= v@);
    }
    out
}

/// Inserting keeps the entries, adding one.
pub proof fn lemma_insert_sorted_len<T: Keyed>(s: Seq<T>, e: T)
    ensures
        insert_sorted(s, e).len() == s.len() + 1,
    decreases s.len(),
{
    if s.len() > 0 && s.last().spec_key() > e.spec_key() {
        lemma_insert_sorted_len(s.drop_last(), e);
    }
}

/// Ordering keeps the number of entries.
pub proof fn lemma_stable_sort_len<T: Keyed>(s: Seq<T>)
    ensures
        stable_sort(s).len() == s.len(),
    decreases s.len(),
{
    if s.len() > 0 {
        lemma_stable_sort_len(s.drop_last());
        lemma_insert_sorted_len(stable_sort(s.drop_last()), s.last());
    }
}

/// Every entry after an insertion was inserted or was there before.
pub proof fn lemma_insert_sorted_from<T: Keyed>(s: Seq<T>, e: T, k: int)
    requires
        0 <= k < insert_sorted(s, e).len(),
    ensures
        insert_sorted(s, e)[k] == e || s.contains(insert_sorted(s, e)[k]),
    decreases s.len(),
{
    lemma_insert_sorted_len(s, e);
    if s.len() > 0 {
        if s.last().spec_key() <= e.spec_key() {
            if k < s.len() {
                assert(s[k] == insert_sorted(s, e)[k]);
            }
        } else {
            let t = insert_sorted(s.drop_last(), e);
            lemma_insert_sorted_len(s.drop_last(), e);
            if k < t.len() {
                lemma_insert_sorted_from(s.drop_last(), e, k);
                if t[k] != e {
                    let j = choose|j: int| 0 <= j < s.drop_last().len() && s.drop_last()[j] == t[k];
                    assert(s[j] == t[k]);
                }
            } else {
                assert(s[s.len() - 1] == insert_sorted(s, e)[k]);
            }
        }
    }
}

/// Every entry of the ordering is an entry of `s`.
pub proof fn lemma_stable_sort_from<T: Keyed>(s: Seq<T>, k: int)
    requires
        0 <= k < stable_sort(s).len(),
    ensures
        s.contains(stable_sort(s)[k]),
    decreases s.len(),
{
    if s.len() > 0 {
        let t = stable_sort(s.drop_last());
        lemma_insert_sorted_from(t, s.last(), k);
        let x = stable_sort(s)[k];
        if x == s.last() {
            assert(s[s.len() - 1] == x);
        } else {
            let i = choose|i: int| 0 <= i < t.len() && t[i] == x;
            lemma_stable_sort_from(s.drop_last(), i);
            let j = choose|j: int| 0 <= j < s.drop_last().len() && s.drop_last()[j] == x;
            assert(s[j] == x);
        }
    }
}

/// Whether keys never decrease along `s`.
pub open spec fn keys_ascending<T: Keyed>(s: Seq<T>) -> bool {
    forall|i: int, j: int| 0 <= i <= j < s.len() ==> s[i].spec_key() <= s[j].spec_key()
}

proof fn lemma_insert_sorted_ascending<T: Keyed>(s: Seq<T>, e: T)
    requires
        keys_ascending(s),
    ensures
        keys_ascending(insert_sorted(s, e)),
        forall|k: int| 0 <= k < insert_sorted(s, e).len() ==> (#[trigger] insert_sorted(s, e)[k] == e
            || s.contains(insert_sorted(s, e)[k])),
    decreases s.len(),
{
    lemma_insert_sorted_len(s, e);
    if s.len() > 0 && s.last().spec_key() > e.spec_key() {
        let d = s.drop_last();
        assert(keys_ascending(d));
        lemma_insert_sorted_ascending(d, e);
        lemma_insert_sorted_len(d, e);
        let r = insert_sorted(d, e);
        assert forall|k: int| 0 <= k < r.len() implies r[k].spec_key() <= s.last().spec_key() by {
            if r[k] != e {
                assert(d.contains(r[k]));
                let m = choose|m: int| 0 <= m < d.len() && d[m] == r[k];
                assert(s[m] == d[m]);
            }
        }
        assert forall|k: int| 0 <= k < insert_sorted(s, e).len() implies (#[trigger] insert_sorted(s, e)[k] == e
            || s.contains(insert_sorted(s, e)[k])) by {
            if k < r.len() {
                if r[k] != e {
                    let m = choose|m: int| 0 <= m < d.len() && d[m] == r[k];
                    assert(s[m] == r[k]);
                }
            } else {
                assert(s[s.len() - 1] == s.last());
            }
        }
    } else if s.len() > 0 {
        assert forall|k: int| 0 <= k < insert_sorted(s, e).len() implies (#[trigger] insert_sorted(s, e)[k] == e
            || s.contains(insert_sorted(s, e)[k])) by {
            if k < s.len() {
                assert(s[k] == insert_sorted(s, e)[k]);
            }
        }
    }
}

/// The ordering really orders: keys ascend along the result.
pub proof fn law_stable_sort_ascending<T: Keyed>(s: Seq<T>)
    ensures
        keys_ascending(stable_sort(s)),
    decreases s.len(),
{
    if s.len() > 0 {
        law_stable_sort_ascending(s.drop_last());
        lemma_insert_sorted_ascending(stable_sort(s.drop_last()), s.last());
    }
}

} // verus!
