//! What a tree is, apart from how it is stored: its shape and what its
//! nodes hold; what the operations on it make of it; and why they refuse.

use vstd::prelude::*;
use crate::topology::{lemma_insert_props, Position, Topology};
use crate::tree::{NodeInfo, TreeError};

verus! {

/// What a tree is: its shape, and what each node holds.
#[verifier::ext_equal]
pub struct TreeView<T> {
    pub topo: Topology,
    pub data: Map<usize, T>,
}

impl<T> TreeView<T> {
    /// The shape is a tree, and exactly its nodes hold something.
    pub open spec fn wf(self) -> bool {
        &&& self.topo.wf()
        &&& self.data.dom() =~= self.topo.links.dom()
    }

    pub open spec fn has(self, id: usize) -> bool {
        self.topo.has(id)
    }

    /// The tree with a new childless node `id`, holding `data`, as child
    /// number `k` of `p`.
    pub open spec fn with_leaf(self, id: usize, data: T, p: usize, k: int) -> TreeView<T> {
        TreeView { topo: self.topo.with_leaf(id, p, k), data: self.data.insert(id, data) }
    }

    /// The tree without `id` and all that lies below it.
    pub open spec fn without(self, id: usize) -> TreeView<T> {
        TreeView {
            topo: self.topo.without(id),
            data: self.data.restrict(
                Set::new(|n: usize| self.topo.has(n) && !self.topo.in_subtree(id, n)),
            ),
        }
    }

    /// The tree after `node` has gone to `pos` relative to `reference`.
    pub open spec fn moved(self, node: usize, pos: Position, reference: usize) -> TreeView<T> {
        TreeView { topo: self.topo.moved(node, pos, reference), data: self.data }
    }

    /// What node `n` holds and how many children it has.
    pub open spec fn node_shape(self, n: usize) -> (T, nat) {
        (self.data[n], self.topo.children(n).len())
    }

    /// The same for each of `ids`.
    pub open spec fn shape_of(self, ids: Seq<usize>) -> Seq<(T, nat)> {
        Seq::new(ids.len(), |i: int| self.node_shape(ids[i]))
    }

    /// What the whole subtree of `id` is, whatever the identifiers of its
    /// nodes: for each node, in the order of a walk, what it holds and how
    /// many children it has.
    pub open spec fn shape(self, id: usize) -> Seq<(T, nat)> {
        self.shape_of(self.topo.subtree(id))
    }

    /// The shapes of the whole subtrees of `ids`, one after the other.
    pub open spec fn shapes(self, ids: Seq<usize>) -> Seq<(T, nat)> {
        self.shape_of(self.topo.subtrees(ids))
    }

    /// A shape is that of the top and then those of the children.
    pub proof fn lemma_shape_unfold(self, id: usize)
        requires
            self.wf(),
            self.has(id),
        ensures
            self.shape(id) == seq![self.node_shape(id)] + self.shapes(self.topo.children(id)),
    {
        self.topo.lemma_subtree_unfold(id);
        assert(self.shape(id) =~= seq![self.node_shape(id)] + self.shapes(
            self.topo.children(id),
        ));
    }

    /// The shapes of a list with one more element.
    pub proof fn lemma_shapes_push(self, ids: Seq<usize>, c: usize)
        ensures
            self.shapes(ids.push(c)) == self.shapes(ids) + self.shape(c),
    {
        self.topo.lemma_subtrees_push(ids, c);
        assert(self.shapes(ids.push(c)) =~= self.shapes(ids) + self.shape(c));
    }

    /// The shapes of a list are that of its first element and then those of
    /// the others.
    pub proof fn lemma_shapes_front(self, ids: Seq<usize>)
        requires
            ids.len() > 0,
        ensures
            self.shapes(ids) == self.shape(ids[0]) + self.shapes(ids.skip(1)),
    {
        self.topo.lemma_subtrees_front(ids);
        assert(self.shapes(ids) =~= self.shape(ids[0]) + self.shapes(ids.skip(1)));
    }
}

/// `new` is `old` with one subtree more: that of `c`, a node that `old` has
/// not, as child number `k` of `q`. What `old` has stays as it is, but for the
/// children of `q`; what is new lies at or below `c`.
pub open spec fn grafted<T>(old: TreeView<T>, new: TreeView<T>, q: usize, k: int, c: usize) -> bool {
    &&& old.wf()
    &&& new.wf()
    &&& old.has(q)
    &&& !old.has(c)
    &&& new.has(c)
    &&& 0 <= k <= old.topo.children(q).len()
    &&& new.topo.root == old.topo.root
    &&& new.topo.children(q) == old.topo.children(q).insert(k, c)
    &&& forall|n: usize| #[trigger]
        old.has(n) ==> {
            &&& new.has(n)
            &&& new.data[n] == old.data[n]
            &&& new.topo.parent(n) == old.topo.parent(n)
            &&& new.topo.depth(n) == old.topo.depth(n)
            &&& n != q ==> new.topo.children(n) == old.topo.children(n)
        }
    &&& forall|n: usize| #[trigger] new.has(n) && !old.has(n) ==> new.topo.in_subtree(c, n)
}

/// A tree with one leaf more is the tree with one subtree more.
pub proof fn lemma_leaf_grafted<T>(old: TreeView<T>, id: usize, data: T, q: usize, k: int)
    requires
        old.wf(),
        old.has(q),
        !old.has(id),
        0 <= k <= old.topo.children(q).len(),
    ensures
        grafted(old, old.with_leaf(id, data, q, k), q, k, id),
        old.with_leaf(id, data, q, k).topo.subtree(id) == seq![id],
        old.with_leaf(id, data, q, k).shape(id) == seq![(data, 0nat)],
{
    let new = old.with_leaf(id, data, q, k);
    old.topo.lemma_with_leaf_wf(id, q, k);
    assert(new.data.dom() =~= new.topo.links.dom());
    assert(new.topo.up(id, 0) == id);
    assert(new.topo.children(id) =~= Seq::<usize>::empty());
    new.topo.lemma_subtree_unfold(id);
    assert(new.topo.subtrees(Seq::<usize>::empty()) =~= Seq::<usize>::empty());
    assert(new.topo.subtree(id) =~= seq![id]);
    assert(new.shape(id) =~= seq![(data, 0nat)]);
}

/// The ancestors of what a tree had before it grew are those it had.
pub proof fn lemma_grafted_up<T>(
    old: TreeView<T>,
    new: TreeView<T>,
    q: usize,
    k: int,
    c: usize,
    n: usize,
    j: nat,
)
    requires
        grafted(old, new, q, k, c),
        old.has(n),
        j <= old.topo.depth(n),
    ensures
        new.topo.up(n, j) == old.topo.up(n, j),
        old.has(old.topo.up(n, j)),
    decreases j,
{
    old.topo.lemma_up(n, j);
    if j > 0 {
        assert(old.topo.node_ok(n));
        let p = old.topo.parent(n)->0;
        lemma_grafted_up(old, new, q, k, c, p, (j - 1) as nat);
    }
}

/// What lay below a node before the tree grew lies below it afterwards, and
/// what the tree had before does not lie below what is new.
pub proof fn lemma_grafted_within<T>(
    old: TreeView<T>,
    new: TreeView<T>,
    q: usize,
    k: int,
    c: usize,
    x: usize,
    n: usize,
)
    requires
        grafted(old, new, q, k, c),
        old.has(n),
    ensures
        old.has(x) ==> (new.topo.in_subtree(x, n) <==> old.topo.in_subtree(x, n)),
        !old.has(x) ==> !new.topo.in_subtree(x, n),
{
    if old.has(x) {
        if old.topo.depth(n) >= old.topo.depth(x) {
            lemma_grafted_up(old, new, q, k, c, n, (old.topo.depth(n) - old.topo.depth(x)) as nat);
        }
    } else {
        if new.topo.in_subtree(x, n) {
            let d = (new.topo.depth(n) - new.topo.depth(x)) as nat;
            lemma_grafted_up(old, new, q, k, c, n, d);
        }
    }
}

/// A tree that grows below what is new in it has still grown by one subtree.
#[verifier::rlimit(50)]
pub proof fn lemma_grafted_grow<T>(
    a: TreeView<T>,
    b: TreeView<T>,
    d: TreeView<T>,
    q: usize,
    k: int,
    c: usize,
    q2: usize,
    k2: int,
    c2: usize,
)
    requires
        grafted(a, b, q, k, c),
        grafted(b, d, q2, k2, c2),
        b.topo.in_subtree(c, q2),
    ensures
        grafted(a, d, q, k, c),
{
    assert(!a.has(q2)) by {
        if a.has(q2) {
            lemma_grafted_within(a, b, q, k, c, c, q2);
        }
    }
    assert forall|n: usize| #[trigger] a.has(n) implies {
        &&& d.has(n)
        &&& d.data[n] == a.data[n]
        &&& d.topo.parent(n) == a.topo.parent(n)
        &&& d.topo.depth(n) == a.topo.depth(n)
        &&& n != q ==> d.topo.children(n) == a.topo.children(n)
    } by {
        assert(b.has(n));
    }
    assert(b.has(q));
    assert forall|n: usize| #[trigger] d.has(n) && !a.has(n) implies d.topo.in_subtree(c, n) by {
        assert(b.topo.up(c, 0) == c);
        if b.has(n) {
            assert(b.topo.in_subtree(c, n));
            lemma_grafted_within(b, d, q2, k2, c2, c, n);
        } else {
            assert(d.topo.in_subtree(c2, n));
            lemma_grafted_within(b, d, q2, k2, c2, c, q2);
            assert(d.topo.children(q2)[k2] == c2) by {
                assert(b.topo.node_ok(q2));
                if b.topo.children(q2).contains(c2) {
                    let i = choose|i: int|
                        0 <= i < b.topo.children(q2).len() && b.topo.children(q2)[i] == c2;
                    assert(b.has(b.topo.children(q2)[i]));
                }
                lemma_insert_props(b.topo.children(q2), k2, c2);
            }
            d.topo.lemma_subtree_child(c, q2, k2);
            d.topo.lemma_subtree_trans(c, c2, n);
        }
    }
}

/// What did not hold the place where a tree grew has the subtree that it had.
pub proof fn lemma_grafted_frame<T>(
    old: TreeView<T>,
    new: TreeView<T>,
    q: usize,
    k: int,
    c: usize,
    x: usize,
)
    requires
        grafted(old, new, q, k, c),
        old.has(x),
        !old.topo.in_subtree(x, q),
    ensures
        new.topo.subtree(x) == old.topo.subtree(x),
        new.shape(x) == old.shape(x),
{
    assert forall|n: usize| #[trigger] old.topo.in_subtree(x, n) implies new.topo.has(n)
        && new.topo.children(n) == old.topo.children(n) by {
        assert(old.has(n));
    }
    assert(new.has(x));
    old.topo.lemma_subtree_frame(new.topo, x);
    let s = old.topo.subtree(x);
    assert forall|i: int| 0 <= i < s.len() implies new.node_shape(s[i]) == old.node_shape(
        s[i],
    ) by {
        assert(s.contains(s[i]));
        old.topo.lemma_subtree_members(x, s[i]);
        assert(old.has(s[i]));
    }
    assert(new.shape(x) =~= old.shape(x));
}

/// The same for the subtrees of a list of such nodes.
pub proof fn lemma_grafted_frames<T>(
    old: TreeView<T>,
    new: TreeView<T>,
    q: usize,
    k: int,
    c: usize,
    ids: Seq<usize>,
)
    requires
        grafted(old, new, q, k, c),
        forall|i: int| 0 <= i < ids.len() ==> old.has(#[trigger] ids[i]) && !old.topo.in_subtree(
            ids[i],
            q,
        ),
    ensures
        new.topo.subtrees(ids) == old.topo.subtrees(ids),
        new.shapes(ids) == old.shapes(ids),
    decreases ids.len(),
{
    if ids.len() > 0 {
        lemma_grafted_frames(old, new, q, k, c, ids.drop_last());
        assert(old.has(ids[ids.len() - 1]));
        lemma_grafted_frame(old, new, q, k, c, ids.last());
        assert(new.shapes(ids) =~= new.shapes(ids.drop_last()) + new.shape(ids.last()));
        assert(old.shapes(ids) =~= old.shapes(ids.drop_last()) + old.shape(ids.last()));
    }
}

/// The line of a listing for node `n`, where the top of the listing lies at depth `base`.
pub open spec fn info_of(topo: Topology, n: usize, base: int) -> NodeInfo {
    NodeInfo {
        id: n,
        depth: (topo.depth(n) - base) as usize,
        child_count: topo.children(n).len() as usize,
    }
}

/// The lines of a listing for the nodes `ids`.
pub open spec fn info_list(topo: Topology, ids: Seq<usize>, base: int) -> Seq<NodeInfo> {
    Seq::new(ids.len(), |i: int| info_of(topo, ids[i], base))
}

/// Why a node cannot be put at `pos` relative to `reference`, if it cannot.
pub open spec fn insert_error(topo: Topology, pos: Position, reference: usize) -> Option<
    TreeError,
> {
    if !topo.has(reference) {
        Some(TreeError::NotFound)
    } else if !topo.placeable(pos, reference) {
        Some(TreeError::InvalidPosition)
    } else {
        None
    }
}

/// Why `id` cannot be removed, if it cannot.
pub open spec fn remove_error(topo: Topology, id: usize) -> Option<TreeError> {
    if !topo.has(id) {
        Some(TreeError::NotFound)
    } else if id == topo.root {
        Some(TreeError::CannotRemoveRoot)
    } else {
        None
    }
}

/// Why `node` cannot move to `pos` relative to `reference`, if it cannot.
pub open spec fn move_error(topo: Topology, node: usize, pos: Position, reference: usize) -> Option<
    TreeError,
> {
    if !topo.has(node) || !topo.has(reference) {
        Some(TreeError::NotFound)
    } else if topo.in_subtree(node, reference) {
        Some(TreeError::CycleError)
    } else if !topo.placeable(pos, reference) {
        Some(TreeError::InvalidPosition)
    } else {
        None
    }
}

/// Why `node` cannot be copied to `pos` relative to `reference`, if it cannot.
pub open spec fn clone_error(topo: Topology, node: usize, pos: Position, reference: usize) -> Option<
    TreeError,
> {
    if !topo.has(node) || !topo.has(reference) {
        Some(TreeError::NotFound)
    } else if !topo.placeable(pos, reference) {
        Some(TreeError::InvalidPosition)
    } else {
        None
    }
}

/// A move of a node to a place beside or below itself, or beside or below
/// what lies below it, is refused as a cycle, whatever the position.
pub proof fn lemma_move_into_itself(topo: Topology, a: usize, pos: Position, b: usize)
    requires
        topo.wf(),
        topo.has(a),
        b == a || topo.descendants(a).contains(b),
    ensures
        move_error(topo, a, pos, b) == Some(TreeError::CycleError),
{
    assert(topo.up(a, 0) == a);
}

/// A move is refused as a cycle only where the place lies at or below the
/// node that was to move.
pub proof fn lemma_cycle_only_below(topo: Topology, a: usize, pos: Position, b: usize)
    requires
        topo.wf(),
        move_error(topo, a, pos, b) == Some(TreeError::CycleError),
    ensures
        b == a || topo.descendants(a).contains(b),
{
}

/// What `small` has, `big` has, and it holds the same.
pub open spec fn kept<T>(small: TreeView<T>, big: TreeView<T>) -> bool {
    forall|n: usize| #[trigger] small.has(n) ==> big.has(n) && big.data[n] == small.data[n]
}

} // verus!
