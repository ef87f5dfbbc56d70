use vstd::prelude::*;

use super::node::{Node, NodeId, NodeView};

verus! {

/// Mathematical view of a context: the slot table, the recycling stack of
/// freed ids, the next never-used id, the root and the frame counter.
pub struct CtxView {
    pub slots: Seq<Option<NodeView>>,
    pub free: Seq<NodeId>,
    pub next_id: u32,
    pub root: Option<NodeId>,
    pub tick: u32,
}

/// `s` with every occurrence of `x` taken out, order kept.
pub open spec fn seq_without(s: Seq<NodeId>, x: NodeId) -> Seq<NodeId>
    decreases s.len(),
{
    if s.len() == 0 {
        s
    } else {
        let rest = seq_without(s.drop_last(), x);
        if s.last() == x {
            rest
        } else {
            rest.push(s.last())
        }
    }
}

/// Whether slot `id` holds a node.
pub open spec fn is_live(v: CtxView, id: int) -> bool {
    0 <= id < v.slots.len() && v.slots[id] is Some
}

/// The id that the next `add` hands out: the most recently freed one, else a fresh one.
pub open spec fn next_added_id(v: CtxView) -> NodeId {
    if v.free.len() > 0 {
        v.free.last()
    } else {
        v.next_id
    }
}

/// The context after adding `n`.
pub open spec fn spec_add(v: CtxView, n: NodeView) -> CtxView {
    let id = next_added_id(v);
    let placed = NodeView { id, ..n };
    CtxView {
        slots: if v.free.len() > 0 {
            v.slots.update(id as int, Some(placed))
        } else {
            v.slots.push(Some(placed))
        },
        free: if v.free.len() > 0 {
            v.free.drop_last()
        } else {
            v.free
        },
        next_id: if v.free.len() > 0 {
            v.next_id
        } else {
            (v.next_id + 1) as u32
        },
        root: if v.root is None {
            Some(id)
        } else {
            v.root
        },
        tick: v.tick,
    }
}

/// The context after adding `n` as a child of `parent`: the node records its
/// parent, and the parent (when it is live) records the new id last among its children.
pub open spec fn spec_add_child(v: CtxView, parent: NodeId, n: NodeView) -> CtxView {
    let id = next_added_id(v);
    let v1 = spec_add(v, NodeView { parent: Some(parent), ..n });
    if is_live(v1, parent as int) {
        let p = v1.slots[parent as int].unwrap();
        CtxView {
            slots: v1.slots.update(parent as int, Some(NodeView { children: p.children.push(id), ..p })),
            ..v1
        }
    } else {
        v1
    }
}

/// The context after removing the single node `id`: its slot is emptied, its
/// live parent forgets it, the root is cleared if it was the root, and the id
/// is pushed on the recycling stack. A dead or unknown id changes nothing.
pub open spec fn spec_remove(v: CtxView, id: NodeId) -> CtxView {
    if is_live(v, id as int) {
        let n = v.slots[id as int].unwrap();
        let s1 = v.slots.update(id as int, None);
        let s2 = match n.parent {
            Some(p) => if 0 <= p < s1.len() && s1[p as int] is Some {
                let pn = s1[p as int].unwrap();
                s1.update(p as int, Some(NodeView { children: seq_without(pn.children, id), ..pn }))
            } else {
                s1
            },
            None => s1,
        };
        CtxView {
            slots: s2,
            free: v.free.push(id),
            root: if v.root == Some(id) {
                None
            } else {
                v.root
            },
            ..v
        }
    } else {
        v
    }
}

/// The children recorded for slot `id` (none for a dead slot).
pub open spec fn kids(v: CtxView, id: NodeId) -> Seq<NodeId> {
    if is_live(v, id as int) {
        v.slots[id as int].unwrap().children
    } else {
        Seq::empty()
    }
}

/// Recursive removal of `id`, with depth budget `d`: first each child in
/// order (with its own subtree), then `id` itself.
pub open spec fn spec_remove_rec(v: CtxView, id: NodeId, d: nat) -> CtxView
    decreases d, 0nat,
{
    if d == 0 {
        v
    } else {
        spec_remove(spec_remove_each(v, kids(v, id), (d - 1) as nat), id)
    }
}

/// Recursive removal of each id of `ids` in turn, with depth budget `d`.
pub open spec fn spec_remove_each(v: CtxView, ids: Seq<NodeId>, d: nat) -> CtxView
    decreases d, ids.len() + 1,
{
    if ids.len() == 0 {
        v
    } else {
        spec_remove_each(spec_remove_rec(v, ids[0], d), ids.skip(1), d)
    }
}

/// The subtree below `id` is at most `d` levels deep (so its recursive removal ends).
pub open spec fn depth_within(v: CtxView, id: NodeId, d: nat) -> bool
    decreases d,
{
    d > 0 && forall|i: int| 0 <= i < kids(v, id).len() ==> depth_within(v, #[trigger] kids(v, id)[i], (d - 1) as nat)
}

/// `w` only lost nodes and child links compared to `v`.
pub open spec fn shrinks(w: CtxView, v: CtxView) -> bool {
    &&& w.slots.len() == v.slots.len()
    &&& forall|i: int| #![trigger w.slots[i]] 0 <= i < w.slots.len() && w.slots[i] is Some ==> {
        &&& v.slots[i] is Some
        &&& forall|k: int| 0 <= k < w.slots[i].unwrap().children.len()
            ==> v.slots[i].unwrap().children.contains(#[trigger] w.slots[i].unwrap().children[k])
    }
}

/// The ids of the live slots, in slot order, among the first `n` slots.
pub open spec fn live_prefix(slots: Seq<Option<NodeView>>, n: int) -> Seq<NodeId>
    decreases n,
{
    if n <= 0 {
        Seq::empty()
    } else {
        let p = live_prefix(slots, n - 1);
        if slots[n - 1] is Some {
            p.push((n - 1) as NodeId)
        } else {
            p
        }
    }
}

/// The ids of all live nodes, in slot order.
pub open spec fn live_ids(v: CtxView) -> Seq<NodeId> {
    live_prefix(v.slots, v.slots.len() as int)
}

/// Every filled slot below `n` is listed.
pub proof fn lemma_live_prefix_has(slots: Seq<Option<NodeView>>, n: int, i: int)
    requires
        0 <= i < n <= slots.len(),
        n <= u32::MAX + 1,
        slots[i] is Some,
    ensures
        live_prefix(slots, n).contains(i as NodeId),
    decreases n,
{
    let p = live_prefix(slots, n - 1);
    if i == n - 1 {
        assert(live_prefix(slots, n) == p.push(i as NodeId));
        assert(live_prefix(slots, n)[p.len() as int] == i as NodeId);
    } else {
        lemma_live_prefix_has(slots, n - 1, i);
        let k = choose|k: int| 0 <= k < p.len() && p[k] == i as NodeId;
        if slots[n - 1] is Some {
            assert(live_prefix(slots, n)[k] == i as NodeId);
        } else {
            assert(live_prefix(slots, n)[k] == i as NodeId);
        }
    }
}

/// The views of a sequence of slots.
pub open spec fn slots_view(s: Seq<Option<Node>>) -> Seq<Option<NodeView>> {
    s.map_values(|o: Option<Node>| match o {
        Some(n) => Some(n@),
        None => None,
    })
}

/// Updating one slot updates its view only.
pub broadcast proof fn lemma_slots_view_update(s: Seq<Option<Node>>, i: int, x: Option<Node>)
    requires
        0 <= i < s.len(),
    ensures
        #[trigger] slots_view(s.update(i, x)) == slots_view(s).update(i, match x {
            Some(n) => Some(n@),
            None => None,
        }),
{
    assert(slots_view(s.update(i, x)) =~= slots_view(s).update(i, match x {
        Some(n) => Some(n@),
        None => None,
    }));
}

/// Writing back the value a slot already holds changes nothing.
pub broadcast proof fn lemma_update_same(s: Seq<Option<Node>>, i: int, x: Option<Node>)
    requires
        0 <= i < s.len(),
        s[i] == x,
    ensures
        #[trigger] s.update(i, x) == s,
{
    assert(s.update(i, x) =~= s);
}

/// Validity of a context view: one slot per id handed out so far; the
/// recycling stack holds distinct ids of empty slots, and every empty slot.
pub open spec fn ctx_wf(v: CtxView) -> bool {
    &&& v.slots.len() == v.next_id
    &&& forall|i: int| 0 <= i < v.free.len() ==> #[trigger] v.free[i] < v.slots.len() && v.slots[v.free[i] as int] is None
    &&& forall|i: int, j: int| 0 <= i < j < v.free.len() ==> v.free[i] != v.free[j]
    &&& forall|k: int| 0 <= k < v.slots.len() && #[trigger] v.slots[k] is None ==> v.free.contains(k as NodeId)
}

/// Central application context holding the node tree.
pub struct Context {
    nodes: Vec<Option<Node>>,
    free_list: Vec<u32>,
    next_id: u32,
    root: Option<NodeId>,
    tick: u32,
}

impl View for Context {
    type V = CtxView;

    closed spec fn view(&self) -> CtxView {
        CtxView {
            slots: slots_view(self.nodes@),
            free: self.free_list@,
            next_id: self.next_id,
            root: self.root,
            tick: self.tick,
        }
    }
}

impl Context {
    /// Well-formedness: every id below `next_id` has a slot; the recycling
    /// stack holds exactly the empty slots, each once.
    pub closed spec fn wf(&self) -> bool {
        ctx_wf(self@)
    }

    /// A well-formed context has a well-formed view, so the laws stated over
    /// `ctx_wf` apply to it.
    pub proof fn lemma_wf_view(&self)
        requires
            self.wf(),
        ensures
            ctx_wf(self@),
    {
    }

    /// Every slot has an id that fits in a `NodeId`.
    pub proof fn lemma_slots_fit(&self)
        requires
            self.wf(),
        ensures
            self@.slots.len() <= u32::MAX,
            self@.slots.len() == self@.next_id,
    {
    }

    pub fn new() -> (c: Self)
        ensures
            c.wf(),
            c@ == (CtxView { slots: Seq::empty(), free: Seq::empty(), next_id: 0, root: None, tick: 0 }),
    {
        let c = Context { nodes: Vec::new(), free_list: Vec::new(), next_id: 0, root: None, tick: 0 };
        assert(c@.slots =~= Seq::empty());
        c
    }

    // Node operations

    /// Add a node to the tree. Returns its ID.
    /// The first node added automatically becomes the root.
    pub fn add(&mut self, node: Node) -> (id: NodeId)
        requires
            old(self).wf(),
            old(self)@.free.len() > 0 || old(self)@.next_id < u32::MAX,
        ensures
            final(self).wf(),
            id == next_added_id(old(self)@),
            final(self)@ == spec_add(old(self)@, node@),
    {
        let ghost v = self@;
        let mut node = node;
        let id = match self.free_list.pop() {
            Some(recycled) => recycled,
            None => {
                let id = self.next_id;
                self.next_id = self.next_id + 1;
                self.nodes.push(None);
                id
            },
        };
        node.id = id;
        self.nodes.set(id as usize, Some(node));
        if self.root.is_none() {
            self.root = Some(id);
        }
        proof {
            let w = spec_add(v, node@);
            assert(self@.slots =~= w.slots);
            assert(self@.free =~= w.free);
            assert forall|k: int| 0 <= k < self@.slots.len() && #[trigger] self@.slots[k] is None implies self@.free.contains(k as NodeId) by {
                assert(v.slots[k] is None);
                let j = choose|j: int| 0 <= j < v.free.len() && v.free[j] == k as NodeId;
                if v.free.len() > 0 {
                    assert(j != v.free.len() - 1);
                    assert(self@.free[j] == k as NodeId);
                }
            }
        }
        id
    }

    /// Add a node as a child of `parent`. Returns the child's ID.
    pub fn add_child(&mut self, parent: NodeId, node: Node) -> (id: NodeId)
        requires
            old(self).wf(),
            old(self)@.free.len() > 0 || old(self)@.next_id < u32::MAX,
            parent < old(self)@.slots.len() || (old(self)@.free.len() == 0 && parent == old(self)@.next_id),
        ensures
            final(self).wf(),
            id == next_added_id(old(self)@),
            final(self)@ == spec_add_child(old(self)@, parent, node@),
    {
        let ghost v = self@;
        let mut node = node;
        node.parent = Some(parent);
        let id = self.add(node);
        let ghost v1 = self@;
        match &mut self.nodes[parent as usize] {
            Some(parent_node) => {
                parent_node.children.push(id);
            },
            None => {},
        }
        proof {
            let w = spec_add_child(v, parent, node@);
            assert(self@.slots =~= w.slots);
        }
        id
    }

    /// Remove a single node (does not remove children).
    pub fn remove(&mut self, id: NodeId)
        requires
            old(self).wf(),
        ensures
            final(self).wf(),
            final(self)@ == spec_remove(old(self)@, id),
            shrinks(final(self)@, old(self)@),
    {
        let ghost v = self@;
        if (id as usize) < self.nodes.len() {
            let taken = self.nodes[id as usize].take();
            match taken {
                Some(node) => {
                    match node.parent {
                        Some(parent_id) => {
                            if (parent_id as usize) < self.nodes.len() {
                                match &mut self.nodes[parent_id as usize] {
                                    Some(parent) => {
                                        let kept = without(&parent.children, id);
                                        parent.children = kept;
                                    },
                                    None => {},
                                }
                            }
                        },
                        None => {},
                    }
                    if self.root == Some(id) {
                        self.root = None;
                    }
                    self.free_list.push(id);
                    proof {
                        let w = spec_remove(v, id);
                        assert(self@.slots =~= w.slots);
                        assert(self@.free =~= w.free);
                        assert forall|k: int| 0 <= k < self@.slots.len() && #[trigger] self@.slots[k] is None implies self@.free.contains(k as NodeId) by {
                            if k != id {
                                assert(v.slots[k] is None);
                                let j = choose|j: int| 0 <= j < v.free.len() && v.free[j] == k as NodeId;
                                assert(self@.free[j] == k as NodeId);
                            } else {
                                assert(self@.free[v.free.len() as int] == id);
                            }
                        }
                        if node.parent is Some && is_live(v, node.parent.unwrap() as int) {
                            lemma_without_subset(
                                v.slots[node.parent.unwrap() as int].unwrap().children,
                                id,
                            );
                        }
                    }
                },
                None => {
                    proof {
                        assert(self@.slots =~= v.slots);
                    }
                },
            }
        }
    }

    /// Remove a node and all its descendants.
    ///
    /// Every node reached through the children lists is removed, children
    /// before their parent. The subtree must be finitely deep; on a cycle of
    /// child links the removal would never end.
    pub fn remove_recursive(&mut self, id: NodeId)
        requires
            old(self).wf(),
            exists|d: nat| depth_within(old(self)@, id, d),
        ensures
            final(self).wf(),
            final(self)@ == spec_remove_rec(old(self)@, id, choose|d: nat| depth_within(old(self)@, id, d)),
            shrinks(final(self)@, old(self)@),
    {
        let ghost d = choose|d: nat| depth_within(self@, id, d);
        self.remove_subtree(id, Ghost(d));
    }

    fn remove_subtree(&mut self, id: NodeId, Ghost(d): Ghost<nat>)
        requires
            old(self).wf(),
            depth_within(old(self)@, id, d),
        ensures
            final(self).wf(),
            final(self)@ == spec_remove_rec(old(self)@, id, d),
            shrinks(final(self)@, old(self)@),
        decreases d,
    {
        let ghost v0 = self@;
        let children = self.children_vec(id);
        let n = children.len();
        let mut i: usize = 0;
        proof {
            assert(children@.skip(0) =~= children@);
            lemma_shrinks_refl(v0);
        }
        while i < n
            invariant
                0 <= i <= n,
                n == children@.len(),
                children@ == kids(v0, id),
                self.wf(),
                shrinks(self@, v0),
                d > 0,
                forall|k: int| 0 <= k < kids(v0, id).len() ==> depth_within(v0, #[trigger] kids(v0, id)[k], (d - 1) as nat),
                spec_remove_each(self@, children@.skip(i as int), (d - 1) as nat)
                    == spec_remove_each(v0, kids(v0, id), (d - 1) as nat),
            decreases n - i,
        {
            let ghost before = self@;
            let c = children[i];
            proof {
                assert(kids(v0, id)[i as int] == c);
                lemma_depth_shrinks(v0, self@, c, (d - 1) as nat);
            }
            self.remove_subtree(c, Ghost((d - 1) as nat));
            proof {
                lemma_shrinks_trans(self@, before, v0);
                let rest = children@.skip(i as int);
                assert(rest[0] == c);
                assert(rest.skip(1) =~= children@.skip(i + 1));
            }
            i = i + 1;
        }
        proof {
            assert(children@.skip(n as int) =~= Seq::<NodeId>::empty());
        }
        let ghost before = self@;
        self.remove(id);
        proof {
            lemma_shrinks_trans(self@, before, v0);
        }
    }

    /// The children of `id`, copied out (empty for a dead or unknown id).
    fn children_vec(&self, id: NodeId) -> (r: Vec<NodeId>)
        ensures
            r@ == kids(self@, id),
    {
        let mut r: Vec<NodeId> = Vec::new();
        if (id as usize) < self.nodes.len() {
            match &self.nodes[id as usize] {
                Some(node) => {
                    let m = node.children.len();
                    let mut j: usize = 0;
                    while j < m
                        invariant
                            m == node.children@.len(),
                            0 <= j <= m,
                            r@ == node.children@.take(j as int),
                        decreases m - j,
                    {
                        r.push(node.children[j]);
                        proof {
                            assert(node.children@.take(j + 1) =~= node.children@.take(j as int).push(node.children@[j as int]));
                        }
                        j = j + 1;
                    }
                    proof {
                        assert(node.children@.take(m as int) =~= node.children@);
                    }
                },
                None => {},
            }
        }
        r
    }

    /// Get an immutable reference to a node.
    pub fn node(&self, id: NodeId) -> (r: Option<&Node>)
        ensures
            match r {
                Some(n) => is_live(self@, id as int) && self@.slots[id as int] == Some(n@),
                None => !is_live(self@, id as int),
            },
    {
        if (id as usize) < self.nodes.len() {
            self.nodes[id as usize].as_ref()
        } else {
            None
        }
    }

    /// Get a mutable reference to a node.
    pub fn node_mut(&mut self, id: NodeId) -> (r: Option<&mut Node>)
        requires
            old(self).wf(),
        ensures
            final(self).wf(),
            match r {
                Some(n) => is_live(old(self)@, id as int) && old(self)@.slots[id as int] == Some(n@)
                    && final(self)@ == (CtxView {
                    slots: old(self)@.slots.update(id as int, Some(final(r.unwrap())@)),
                    ..old(self)@
                }),
                None => !is_live(old(self)@, id as int) && final(self)@ == old(self)@,
            },
    {
        if (id as usize) < self.nodes.len() {
            self.slot_mut(id)
        } else {
            None
        }
    }

    fn slot_mut(&mut self, id: NodeId) -> (r: Option<&mut Node>)
        requires id < old(self).nodes@.len(),
        ensures
            r is Some <==> old(self).nodes@[id as int] is Some,
            r is Some ==> final(self).nodes@ == old(self).nodes@.update(id as int, Some(*final(r.unwrap()))),
            r is Some ==> final(self)@.slots == old(self)@.slots.update(id as int, Some(final(r.unwrap())@)),
            r is Some ==> old(self)@.slots[id as int] == Some(r.unwrap()@),
            r is None ==> final(self)@ == old(self)@,
            final(self).free_list == old(self).free_list,
            final(self).next_id == old(self).next_id,
            final(self).root == old(self).root,
            final(self).tick == old(self).tick,
    {
        broadcast use {lemma_slots_view_update, lemma_update_same};

        self.nodes[id as usize].as_mut()
    }

    /// The root node ID, if any.
    pub fn root(&self) -> (r: Option<NodeId>)
        ensures
            r == self@.root,
    {
        self.root
    }

    /// Set the root node.
    pub fn set_root(&mut self, id: NodeId)
        requires
            old(self).wf(),
        ensures
            final(self).wf(),
            final(self)@ == (CtxView { root: Some(id), ..old(self)@ }),
    {
        self.root = Some(id);
    }

    /// Direct children of the given node (empty for a dead or unknown id).
    pub fn children(&self, id: NodeId) -> (r: &[NodeId])
        ensures
            r@ == kids(self@, id),
    {
        if (id as usize) < self.nodes.len() {
            match &self.nodes[id as usize] {
                Some(node) => node.children.as_slice(),
                None => &[],
            }
        } else {
            &[]
        }
    }

    /// The ids of all live nodes, in slot order.
    pub fn live_ids(&self) -> (r: Vec<NodeId>)
        requires
            self.wf(),
        ensures
            r@ == live_ids(self@),
    {
        let mut r: Vec<NodeId> = Vec::new();
        let n = self.nodes.len();
        let mut i: usize = 0;
        while i < n
            invariant
                n == self@.slots.len(),
                n == self.nodes@.len(),
                n <= u32::MAX,
                self.wf(),
                0 <= i <= n,
                r@ == live_prefix(self@.slots, i as int),
            decreases n - i,
        {
            if self.nodes[i].is_some() {
                r.push(i as NodeId);
            }
            i = i + 1;
        }
        r
    }

    /// All live nodes, in slot order.
    pub fn nodes(&self) -> (r: Vec<&Node>)
        requires
            self.wf(),
        ensures
            r@.len() == live_ids(self@).len(),
            forall|k: int| 0 <= k < r@.len() ==> self@.slots[live_ids(self@)[k] as int] == Some(#[trigger] r@[k]@),
    {
        let mut r: Vec<&Node> = Vec::new();
        let n = self.nodes.len();
        let mut i: usize = 0;
        while i < n
            invariant
                n == self@.slots.len(),
                n == self.nodes@.len(),
                n <= u32::MAX,
                self.wf(),
                0 <= i <= n,
                r@.len() == live_prefix(self@.slots, i as int).len(),
                forall|k: int| 0 <= k < r@.len() ==> live_prefix(self@.slots, i as int)[k] < i,
                forall|k: int| 0 <= k < r@.len() ==> self@.slots[live_prefix(self@.slots, i as int)[k] as int] == Some(#[trigger] r@[k]@),
            decreases n - i,
        {
            match &self.nodes[i] {
                Some(node) => {
                    r.push(node);
                },
                None => {},
            }
            i = i + 1;
        }
        r
    }

    /// Find the first node, in slot order, on which `pred` answers true.
    pub fn find<F: Fn(&Node) -> bool>(&self, pred: F) -> (r: Option<&Node>)
        requires
            self.wf(),
            forall|n: &Node| call_requires(pred, (n,)),
        ensures
            match r {
                Some(n) => exists|k: int| 0 <= k < self@.slots.len() && self@.slots[k] == Some(n@)
                    && call_ensures(pred, (n,), true)
                    && forall|j: int| 0 <= j < k && self@.slots[j] is Some ==> exists|m: &Node| m@ == self@.slots[j].unwrap() && call_ensures(pred, (m,), false),
                None => forall|j: int| 0 <= j < self@.slots.len() && self@.slots[j] is Some ==> exists|m: &Node| m@ == self@.slots[j].unwrap() && call_ensures(pred, (m,), false),
            },
    {
        let n = self.nodes.len();
        let mut i: usize = 0;
        while i < n
            invariant
                n == self@.slots.len(),
                n == self.nodes@.len(),
                0 <= i <= n,
                forall|n: &Node| call_requires(pred, (n,)),
                forall|j: int| 0 <= j < i && self@.slots[j] is Some ==> exists|m: &Node| m@ == self@.slots[j].unwrap() && call_ensures(pred, (m,), false),
            decreases n - i,
        {
            match &self.nodes[i] {
                Some(node) => {
                    if pred(node) {
                        proof {
                            assert(self@.slots[i as int] == Some(node@));
                        }
                        return Some(node);
                    }
                },
                None => {},
            }
            i = i + 1;
        }
        None
    }

    /// Find the first node, in slot order, on which `pred` answers true, for changing.
    pub fn find_mut<F: Fn(&Node) -> bool>(&mut self, pred: F) -> (r: Option<&mut Node>)
        requires
            old(self).wf(),
            forall|n: &Node| call_requires(pred, (n,)),
        ensures
            final(self).wf(),
            match r {
                Some(n) => exists|k: int|
                    {
                        &&& 0 <= k < old(self)@.slots.len()
                        &&& old(self)@.slots[k] == Some(n@)
                        &&& exists|m: &Node| m@ == n@ && call_ensures(pred, (m,), true)
                        &&& forall|j: int| 0 <= j < k && old(self)@.slots[j] is Some ==> exists|m: &Node|
                            m@ == old(self)@.slots[j].unwrap() && call_ensures(pred, (m,), false)
                        &&& final(self)@ == (CtxView {
                            slots: old(self)@.slots.update(k, Some(final(n)@)),
                            ..old(self)@
                        })
                    },
                None => final(self)@ == old(self)@ && forall|j: int|
                    0 <= j < old(self)@.slots.len() && old(self)@.slots[j] is Some ==> exists|m: &Node|
                        m@ == old(self)@.slots[j].unwrap() && call_ensures(pred, (m,), false),
            },
    {
        let n = self.nodes.len();
        let mut i: usize = 0;
        let mut found: Option<NodeId> = None;
        while i < n
            invariant_except_break
                found is None,
            invariant
                n == self@.slots.len(),
                n == self.nodes@.len(),
                n <= u32::MAX,
                0 <= i <= n,
                forall|n: &Node| call_requires(pred, (n,)),
                forall|j: int| 0 <= j < i && self@.slots[j] is Some ==> exists|m: &Node| m@ == self@.slots[j].unwrap() && call_ensures(pred, (m,), false),
            ensures
                match found {
                    Some(id) => id < n && self@.slots[id as int] is Some && (exists|m: &Node|
                        m@ == self@.slots[id as int].unwrap() && call_ensures(pred, (m,), true)) && forall|j: int|
                        0 <= j < id && self@.slots[j] is Some ==> exists|m: &Node| m@ == self@.slots[j].unwrap() && call_ensures(pred, (m,), false),
                    None => forall|j: int| 0 <= j < n && self@.slots[j] is Some ==> exists|m: &Node| m@ == self@.slots[j].unwrap() && call_ensures(pred, (m,), false),
                },
            decreases n - i,
        {
            match &self.nodes[i] {
                Some(node) => {
                    if pred(node) {
                        proof {
                            assert(self@.slots[i as int] == Some(node@));
                        }
                        found = Some(i as NodeId);
                        break;
                    }
                    proof {
                        assert(self@.slots[i as int] == Some(node@));
                    }
                },
                None => {},
            }
            i = i + 1;
        }
        match found {
            Some(id) => self.node_mut(id),
            None => None,
        }
    }

    /// Total number of live nodes.
    pub fn node_count(&self) -> (r: usize)
        requires
            self.wf(),
        ensures
            r == live_ids(self@).len(),
    {
        let n = self.nodes.len();
        let mut c: usize = 0;
        let mut i: usize = 0;
        while i < n
            invariant
                n == self@.slots.len(),
                n == self.nodes@.len(),
                0 <= i <= n,
                c == live_prefix(self@.slots, i as int).len(),
                c <= i,
            decreases n - i,
        {
            if self.nodes[i].is_some() {
                c = c + 1;
            }
            i = i + 1;
        }
        c
    }

    // Tick

    pub fn tick(&self) -> (r: u32)
        ensures
            r == self@.tick,
    {
        self.tick
    }

    /// Advances the frame counter, wrapping to 0 after `u32::MAX`.
    pub fn increment_tick(&mut self)
        requires
            old(self).wf(),
        ensures
            final(self).wf(),
            final(self)@ == (CtxView {
                tick: if old(self)@.tick == u32::MAX { 0 } else { (old(self)@.tick + 1) as u32 },
                ..old(self)@
            }),
    {
        self.tick = self.tick.wrapping_add(1);
    }
}

/// Copy of `v` without any occurrence of `x`.
fn without(v: &Vec<NodeId>, x: NodeId) -> (r: Vec<NodeId>)
    ensures
        r@ == seq_without(v@, x),
{
    let mut r: Vec<NodeId> = Vec::new();
    let n = v.len();
    let mut i: usize = 0;
    while i < n
        invariant
            n == v@.len(),
            0 <= i <= n,
            r@ == seq_without(v@.take(i as int), x),
        decreases n - i,
    {
        proof {
            assert(v@.take(i + 1).drop_last() =~= v@.take(i as int));
        }
        if v[i] != x {
            r.push(v[i]);
        }
        i = i + 1;
    }
    proof {
        assert(v@.take(n as int) =~= v@);
    }
    r
}

/// Every element kept by `seq_without` was in the original sequence, and `x` is gone.
pub proof fn lemma_without_subset(s: Seq<NodeId>, x: NodeId)
    ensures
        forall|k: int| 0 <= k < seq_without(s, x).len() ==> s.contains(#[trigger] seq_without(s, x)[k]),
        !seq_without(s, x).contains(x),
    decreases s.len(),
{
    if s.len() > 0 {
        lemma_without_subset(s.drop_last(), x);
        let rest = seq_without(s.drop_last(), x);
        assert forall|k: int| 0 <= k < seq_without(s, x).len() implies s.contains(#[trigger] seq_without(s, x)[k]) by {
            if k < rest.len() {
                let j = choose|j: int| 0 <= j < s.drop_last().len() && s.drop_last()[j] == rest[k];
                assert(s[j] == rest[k]);
            } else {
                assert(s[s.len() - 1] == s.last());
            }
        }
    }
}

pub proof fn lemma_shrinks_refl(v: CtxView)
    ensures
        shrinks(v, v),
{
    assert forall|i: int| #![trigger v.slots[i]] 0 <= i < v.slots.len() && v.slots[i] is Some implies
        forall|k: int| 0 <= k < v.slots[i].unwrap().children.len()
            ==> v.slots[i].unwrap().children.contains(#[trigger] v.slots[i].unwrap().children[k]) by {
        assert forall|k: int| 0 <= k < v.slots[i].unwrap().children.len()
            implies v.slots[i].unwrap().children.contains(#[trigger] v.slots[i].unwrap().children[k]) by {
        }
    }
}

pub proof fn lemma_shrinks_trans(a: CtxView, b: CtxView, c: CtxView)
    requires
        shrinks(a, b),
        shrinks(b, c),
    ensures
        shrinks(a, c),
{
    assert forall|i: int| #![trigger a.slots[i]] 0 <= i < a.slots.len() && a.slots[i] is Some implies {
        &&& c.slots[i] is Some
        &&& forall|k: int| 0 <= k < a.slots[i].unwrap().children.len()
            ==> c.slots[i].unwrap().children.contains(#[trigger] a.slots[i].unwrap().children[k])
    } by {
        assert(b.slots[i] is Some);
        assert forall|k: int| 0 <= k < a.slots[i].unwrap().children.len()
            implies c.slots[i].unwrap().children.contains(#[trigger] a.slots[i].unwrap().children[k]) by {
            let x = a.slots[i].unwrap().children[k];
            assert(b.slots[i].unwrap().children.contains(x));
            let j = choose|j: int| 0 <= j < b.slots[i].unwrap().children.len() && b.slots[i].unwrap().children[j] == x;
            assert(c.slots[i].unwrap().children.contains(b.slots[i].unwrap().children[j]));
        }
    }
}

/// A depth bound survives the loss of nodes and child links.
pub proof fn lemma_depth_shrinks(v: CtxView, w: CtxView, id: NodeId, d: nat)
    requires
        depth_within(v, id, d),
        shrinks(w, v),
    ensures
        depth_within(w, id, d),
    decreases d,
{
    assert forall|i: int| 0 <= i < kids(w, id).len() implies depth_within(w, #[trigger] kids(w, id)[i], (d - 1) as nat) by {
        let x = kids(w, id)[i];
        assert(w.slots[id as int] is Some);
        assert(kids(v, id).contains(x));
        let j = choose|j: int| 0 <= j < kids(v, id).len() && kids(v, id)[j] == x;
        assert(depth_within(v, kids(v, id)[j], (d - 1) as nat));
        lemma_depth_shrinks(v, w, x, (d - 1) as nat);
    }
}

} // verus!
