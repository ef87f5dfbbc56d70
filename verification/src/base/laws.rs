//! What the node tree promises across its operations.
use vstd::prelude::*;

use super::context::{
    CtxView, ctx_wf, depth_within, is_live, kids, lemma_depth_shrinks, lemma_shrinks_refl, lemma_shrinks_trans,
    lemma_without_subset, live_ids, live_prefix, next_added_id, seq_without, shrinks, spec_add, spec_add_child,
    spec_remove, spec_remove_each, spec_remove_rec,
};
use super::node::{NodeId, NodeView};

verus! {

/// A node added to a context can be read back at the id it was given, with
/// that id recorded in it; every slot that existed before is unchanged.
pub proof fn law_add_then_read(v: CtxView, n: NodeView)
    requires
        ctx_wf(v),
        v.free.len() > 0 || v.next_id < u32::MAX,
    ensures
        is_live(spec_add(v, n), next_added_id(v) as int),
        spec_add(v, n).slots[next_added_id(v) as int] == Some(NodeView { id: next_added_id(v), ..n }),
        forall|k: int| 0 <= k < v.slots.len() && k != next_added_id(v) ==> #[trigger] spec_add(v, n).slots[k] == v.slots[k],
        ctx_wf(spec_add(v, n)),
{
    let w = spec_add(v, n);
    let id = next_added_id(v);
    if v.free.len() > 0 {
        assert(v.free[v.free.len() - 1] == id);
        assert forall|i: int| 0 <= i < w.free.len() implies #[trigger] w.free[i] < w.slots.len() && w.slots[w.free[i] as int] is None by {
            assert(v.free[i] != v.free[v.free.len() - 1]);
            assert(v.free[i] < v.slots.len() && v.slots[v.free[i] as int] is None);
        }
        assert forall|k: int| 0 <= k < w.slots.len() && #[trigger] w.slots[k] is None implies w.free.contains(k as NodeId) by {
            assert(k != id);
            assert(v.free.contains(k as NodeId));
            let j = choose|j: int| 0 <= j < v.free.len() && v.free[j] == k as NodeId;
            assert(j != v.free.len() - 1);
            assert(w.free[j] == k as NodeId);
        }
    } else {
        assert forall|k: int| 0 <= k < w.slots.len() && #[trigger] w.slots[k] is None implies w.free.contains(k as NodeId) by {
            assert(k < v.slots.len());
            assert(v.slots[k] is None);
        }
    }
}

/// The first node added to a context without a root becomes its root.
pub proof fn law_first_add_is_root(v: CtxView, n: NodeView)
    requires
        v.root is None,
    ensures
        spec_add(v, n).root == Some(next_added_id(v)),
{
}

/// A node added as a child records its parent, and a live parent records
/// the new id after its other children.
pub proof fn law_add_child_links(v: CtxView, parent: NodeId, n: NodeView)
    requires
        ctx_wf(v),
        v.free.len() > 0 || v.next_id < u32::MAX,
    ensures
        spec_add_child(v, parent, n).slots[next_added_id(v) as int] matches Some(c) && c.parent == Some(parent),
        is_live(v, parent as int) ==> kids(spec_add_child(v, parent, n), parent) == kids(v, parent).push(next_added_id(v)),
{
    let id = next_added_id(v);
    law_add_then_read(v, NodeView { parent: Some(parent), ..n });
    if is_live(v, parent as int) {
        assert(parent != id);
    }
}

/// A removed node can no longer be read; nodes other than it and its parent
/// are unchanged.
pub proof fn law_remove_then_gone(v: CtxView, id: NodeId)
    requires
        ctx_wf(v),
    ensures
        !is_live(spec_remove(v, id), id as int),
        forall|k: int|
            0 <= k < v.slots.len() && k != id && (v.slots[id as int] matches Some(n) ==> n.parent != Some(k as NodeId))
                ==> #[trigger] spec_remove(v, id).slots[k] == v.slots[k],
        ctx_wf(spec_remove(v, id)),
{
    let w = spec_remove(v, id);
    if is_live(v, id as int) {
        assert forall|i: int| 0 <= i < w.free.len() implies #[trigger] w.free[i] < w.slots.len() && w.slots[w.free[i] as int] is None by {
            if i < v.free.len() {
                assert(v.free[i] < v.slots.len() && v.slots[v.free[i] as int] is None);
            }
        }
        assert forall|i: int, j: int| 0 <= i < j < w.free.len() implies w.free[i] != w.free[j] by {
            if j == v.free.len() {
                assert(v.slots[v.free[i] as int] is None);
            }
        }
        assert forall|k: int| 0 <= k < w.slots.len() && #[trigger] w.slots[k] is None implies w.free.contains(k as NodeId) by {
            if k == id {
                assert(w.free[w.free.len() - 1] == id);
            } else {
                assert(v.slots[k] is None);
                let j = choose|j: int| 0 <= j < v.free.len() && v.free[j] == k as NodeId;
                assert(w.free[j] == k as NodeId);
            }
        }
    }
}

/// Emptying one filled slot, and keeping which other slots are filled,
/// lists one id fewer.
proof fn lemma_live_prefix_drop_one(a: Seq<Option<NodeView>>, b: Seq<Option<NodeView>>, id: int, n: int)
    requires
        a.len() == b.len(),
        0 <= id < a.len(),
        0 <= n <= a.len(),
        a[id] is Some,
        b[id] is None,
        forall|k: int| 0 <= k < a.len() && k != id ==> (#[trigger] a[k] is Some) == (b[k] is Some),
    ensures
        live_prefix(b, n).len() + (if id < n { 1int } else { 0int }) == live_prefix(a, n).len(),
    decreases n,
{
    if n > 0 {
        lemma_live_prefix_drop_one(a, b, id, n - 1);
    }
}

/// Removing a live node lists one live node fewer, and removing it again
/// changes nothing.
pub proof fn law_remove_counts(v: CtxView, id: NodeId)
    requires
        ctx_wf(v),
        is_live(v, id as int),
    ensures
        live_ids(spec_remove(v, id)).len() + 1 == live_ids(v).len(),
        spec_remove(spec_remove(v, id), id) == spec_remove(v, id),
{
    let w = spec_remove(v, id);
    assert forall|k: int| 0 <= k < v.slots.len() && k != id implies (#[trigger] v.slots[k] is Some) == (w.slots[k] is Some) by {}
    lemma_live_prefix_drop_one(v.slots, w.slots, id as int, v.slots.len() as int);
}

/// The id of a removed node is the one the next addition hands out.
pub proof fn law_removed_id_is_reused(v: CtxView, id: NodeId)
    requires
        is_live(v, id as int),
    ensures
        next_added_id(spec_remove(v, id)) == id,
{
}

// Recursive removal.

/// Whether `y` is `x` or lies below it through child links, at most `d` levels down.
pub open spec fn below(v: CtxView, x: NodeId, y: NodeId, d: nat) -> bool
    decreases d,
{
    x == y || (d > 0 && exists|i: int| 0 <= i < kids(v, x).len() && below(v, #[trigger] kids(v, x)[i], y, (d - 1) as nat))
}

/// Whether `y` is `x` or one of its descendants.
pub open spec fn in_subtree(v: CtxView, x: NodeId, y: NodeId) -> bool {
    exists|d: nat| below(v, x, y, d)
}

/// Every node removed since `v` had its whole subtree (as of `v`) removed.
spec fn subtrees_gone(v: CtxView, u: CtxView) -> bool {
    forall|c: NodeId, y: NodeId| !is_live(u, c as int) && #[trigger] in_subtree(v, c, y) ==> !is_live(u, y as int)
}

/// Child links lost since `v` lead to removed nodes.
spec fn links_to_gone(v: CtxView, u: CtxView) -> bool {
    forall|p: NodeId, c: NodeId| #[trigger] kids(v, p).contains(c) && !kids(u, p).contains(c) ==> !is_live(u, c as int)
}

proof fn lemma_in_subtree_self(v: CtxView, x: NodeId)
    ensures
        in_subtree(v, x, x),
{
    assert(below(v, x, x, 0));
}

proof fn lemma_in_subtree_child(v: CtxView, x: NodeId, i: int, y: NodeId)
    requires
        0 <= i < kids(v, x).len(),
        in_subtree(v, kids(v, x)[i], y),
    ensures
        in_subtree(v, x, y),
{
    let d = choose|d: nat| below(v, kids(v, x)[i], y, d);
    assert(below(v, x, y, d + 1));
}

/// A path below `x` that is not `x` itself goes through one of its children.
proof fn lemma_in_subtree_split(v: CtxView, x: NodeId, y: NodeId)
    requires
        in_subtree(v, x, y),
        y != x,
    ensures
        exists|i: int| 0 <= i < kids(v, x).len() && #[trigger] in_subtree(v, kids(v, x)[i], y),
{
    let d = choose|d: nat| below(v, x, y, d);
    let i = choose|i: int| 0 <= i < kids(v, x).len() && below(v, #[trigger] kids(v, x)[i], y, (d - 1) as nat);
    assert(in_subtree(v, kids(v, x)[i], y));
}

/// Losing nodes and links only shrinks subtrees.
proof fn lemma_below_shrinks(u: CtxView, v: CtxView, x: NodeId, y: NodeId, d: nat)
    requires
        shrinks(u, v),
        below(u, x, y, d),
    ensures
        below(v, x, y, d),
    decreases d,
{
    if x != y {
        let i = choose|i: int| 0 <= i < kids(u, x).len() && below(u, #[trigger] kids(u, x)[i], y, (d - 1) as nat);
        let c = kids(u, x)[i];
        assert(u.slots[x as int] is Some);
        assert(kids(v, x).contains(c));
        let j = choose|j: int| 0 <= j < kids(v, x).len() && kids(v, x)[j] == c;
        lemma_below_shrinks(u, v, c, y, (d - 1) as nat);
        assert(below(v, kids(v, x)[j], y, (d - 1) as nat));
    }
}

proof fn lemma_in_subtree_shrinks(u: CtxView, v: CtxView, x: NodeId, y: NodeId)
    requires
        shrinks(u, v),
        in_subtree(u, x, y),
    ensures
        in_subtree(v, x, y),
{
    let d = choose|d: nat| below(u, x, y, d);
    lemma_below_shrinks(u, v, x, y, d);
}

proof fn lemma_without_keeps(s: Seq<NodeId>, x: NodeId, c: NodeId)
    requires
        s.contains(c),
        c != x,
    ensures
        seq_without(s, x).contains(c),
    decreases s.len(),
{
    if s.last() == c {
        assert(seq_without(s, x).last() == c);
    } else {
        assert(s.drop_last().contains(c)) by {
            let j = choose|j: int| 0 <= j < s.len() && s[j] == c;
            assert(s.drop_last()[j] == c);
        }
        lemma_without_keeps(s.drop_last(), x, c);
        let r = seq_without(s.drop_last(), x);
        let k = choose|k: int| 0 <= k < r.len() && r[k] == c;
        if s.last() != x {
            assert(seq_without(s, x)[k] == c);
        }
    }
}

/// Removing a single node loses that node and its link from its parent only.
pub proof fn lemma_remove_shrinks(u: CtxView, x: NodeId)
    ensures
        shrinks(spec_remove(u, x), u),
        forall|p: NodeId, c: NodeId| #[trigger] kids(u, p).contains(c) && !kids(spec_remove(u, x), p).contains(c) ==> c == x || p == x,
        forall|y: int| y != x ==> is_live(spec_remove(u, x), y) == is_live(u, y),
{
    let w = spec_remove(u, x);
    lemma_shrinks_refl(u);
    if is_live(u, x as int) {
        let n = u.slots[x as int].unwrap();
        if n.parent is Some && is_live(u, n.parent.unwrap() as int) && n.parent.unwrap() != x {
            lemma_without_subset(u.slots[n.parent.unwrap() as int].unwrap().children, x);
        }
        assert forall|p: NodeId, c: NodeId| #[trigger] kids(u, p).contains(c) && !kids(w, p).contains(c) implies c == x || p == x by {
            if c != x && p != x {
                lemma_without_keeps(kids(u, p), x, c);
            }
        }
    }
}

/// Removing `x`, once its subtree below it is gone, keeps both invariants.
proof fn lemma_remove_step(v: CtxView, u: CtxView, x: NodeId)
    requires
        subtrees_gone(v, u),
        links_to_gone(v, u),
        forall|y: NodeId| #[trigger] in_subtree(v, x, y) && y != x ==> !is_live(u, y as int),
    ensures
        subtrees_gone(v, spec_remove(u, x)),
        links_to_gone(v, spec_remove(u, x)),
        shrinks(spec_remove(u, x), u),
        !is_live(spec_remove(u, x), x as int),
{
    let w = spec_remove(u, x);
    lemma_remove_shrinks(u, x);
    assert forall|c: NodeId, y: NodeId| !is_live(w, c as int) && #[trigger] in_subtree(v, c, y) implies !is_live(w, y as int) by {
        if c != x {
            assert(!is_live(u, c as int));
        }
    }
    assert forall|p: NodeId, c: NodeId| #[trigger] kids(v, p).contains(c) && !kids(w, p).contains(c) implies !is_live(w, c as int) by {
        if kids(u, p).contains(c) {
            if c != x {
                assert(p == x);
                let j = choose|j: int| 0 <= j < kids(v, p).len() && kids(v, p)[j] == c;
                lemma_in_subtree_self(v, c);
                lemma_in_subtree_child(v, p, j, c);
            }
        }
    }
}

proof fn lemma_remove_rec_clears(v: CtxView, u: CtxView, id: NodeId, d: nat)
    requires
        subtrees_gone(v, u),
        links_to_gone(v, u),
        depth_within(u, id, d),
    ensures
        subtrees_gone(v, spec_remove_rec(u, id, d)),
        links_to_gone(v, spec_remove_rec(u, id, d)),
        shrinks(spec_remove_rec(u, id, d), u),
        forall|y: NodeId| #[trigger] in_subtree(v, id, y) ==> !is_live(spec_remove_rec(u, id, d), y as int),
        forall|y: NodeId| is_live(u, y as int) && !#[trigger] in_subtree(u, id, y) ==> is_live(spec_remove_rec(u, id, d), y as int),
    decreases d, 0nat,
{
    let ks = kids(u, id);
    let u1 = spec_remove_each(u, ks, (d - 1) as nat);
    lemma_remove_each_clears(v, u, ks, (d - 1) as nat);
    assert forall|y: NodeId| #[trigger] in_subtree(v, id, y) && y != id implies !is_live(u1, y as int) by {
        if !is_live(u, id as int) {
            assert(!is_live(u, y as int));
        } else {
            lemma_in_subtree_split(v, id, y);
            let i = choose|i: int| 0 <= i < kids(v, id).len() && #[trigger] in_subtree(v, kids(v, id)[i], y);
            let c = kids(v, id)[i];
            if ks.contains(c) {
                let j = choose|j: int| 0 <= j < ks.len() && ks[j] == c;
                assert(in_subtree(v, ks[j], y));
            } else {
                assert(kids(v, id).contains(c));
                assert(!is_live(u, c as int));
                assert(!is_live(u, y as int));
            }
        }
    }
    lemma_remove_step(v, u1, id);
    lemma_shrinks_trans(spec_remove_rec(u, id, d), u1, u);
    assert forall|y: NodeId| is_live(u, y as int) && !#[trigger] in_subtree(u, id, y) implies is_live(spec_remove_rec(u, id, d), y as int) by {
        assert forall|i: int| 0 <= i < ks.len() implies !#[trigger] in_subtree(u, ks[i], y) by {
            if in_subtree(u, ks[i], y) {
                lemma_in_subtree_child(u, id, i, y);
            }
        }
        lemma_in_subtree_self(u, id);
    }
}

proof fn lemma_remove_each_clears(v: CtxView, u: CtxView, ids: Seq<NodeId>, d: nat)
    requires
        subtrees_gone(v, u),
        links_to_gone(v, u),
        forall|i: int| 0 <= i < ids.len() ==> depth_within(u, #[trigger] ids[i], d),
    ensures
        subtrees_gone(v, spec_remove_each(u, ids, d)),
        links_to_gone(v, spec_remove_each(u, ids, d)),
        shrinks(spec_remove_each(u, ids, d), u),
        forall|i: int, y: NodeId| 0 <= i < ids.len() && #[trigger] in_subtree(v, ids[i], y) ==> !is_live(spec_remove_each(u, ids, d), y as int),
        forall|y: NodeId| is_live(u, y as int) && (forall|i: int| 0 <= i < ids.len() ==> !#[trigger] in_subtree(u, ids[i], y))
            ==> is_live(spec_remove_each(u, ids, d), y as int),
    decreases d, ids.len() + 1,
{
    if ids.len() == 0 {
        lemma_shrinks_refl(u);
    } else {
        let u1 = spec_remove_rec(u, ids[0], d);
        lemma_remove_rec_clears(v, u, ids[0], d);
        let rest = ids.skip(1);
        assert forall|i: int| 0 <= i < rest.len() implies depth_within(u1, #[trigger] rest[i], d) by {
            assert(rest[i] == ids[i + 1]);
            lemma_depth_shrinks(u, u1, rest[i], d);
        }
        lemma_remove_each_clears(v, u1, rest, d);
        let w = spec_remove_each(u, ids, d);
        lemma_shrinks_trans(w, u1, u);
        assert forall|i: int, y: NodeId| 0 <= i < ids.len() && #[trigger] in_subtree(v, ids[i], y) implies !is_live(w, y as int) by {
            if i > 0 {
                assert(rest[i - 1] == ids[i]);
            }
        }
        assert forall|y: NodeId| is_live(u, y as int) && (forall|i: int| 0 <= i < ids.len() ==> !#[trigger] in_subtree(u, ids[i], y))
            implies is_live(w, y as int) by {
            assert(!in_subtree(u, ids[0], y));
            assert forall|i: int| 0 <= i < rest.len() implies !#[trigger] in_subtree(u1, rest[i], y) by {
                assert(rest[i] == ids[i + 1]);
                assert(!in_subtree(u, ids[i + 1], y));
                if in_subtree(u1, rest[i], y) {
                    lemma_in_subtree_shrinks(u1, u, rest[i], y);
                }
            }
        }
    }
}

/// Recursive removal removes exactly the node and its descendants: afterwards
/// a node is live exactly when it was live before and is outside the subtree.
pub proof fn law_remove_recursive(v: CtxView, id: NodeId, d: nat)
    requires
        ctx_wf(v),
        depth_within(v, id, d),
    ensures
        forall|y: NodeId| #[trigger] is_live(spec_remove_rec(v, id, d), y as int) <==> is_live(v, y as int) && !in_subtree(v, id, y),
{
    let w = spec_remove_rec(v, id, d);
    lemma_remove_rec_clears(v, v, id, d);
    assert forall|y: NodeId| #[trigger] is_live(w, y as int) implies is_live(v, y as int) && !in_subtree(v, id, y) by {
        assert(w.slots[y as int] is Some);
    }
}

} // verus!
