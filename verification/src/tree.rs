//! The tree itself: every node in one indexed collection, addressed by an
//! identifier that stays the node's own for as long as the node lives.

use vstd::prelude::*;
use crate::entry::Duplicate;
use crate::topology::{Links, Position, Topology};
use crate::tree_view::{
    clone_error, grafted, info_list, insert_error, kept, lemma_grafted_frames, lemma_grafted_grow,
    lemma_leaf_grafted, move_error, remove_error, TreeView,
};

verus! {

/// Why an operation on the tree was refused.
#[derive(Clone, Copy, Debug, PartialEq, Eq, Structural)]
pub enum TreeError {
    /// No node has the identifier.
    NotFound,
    /// A place beside the root was asked for.
    InvalidPosition,
    /// A node was to move into what lies below itself.
    CycleError,
    /// The root was to be removed.
    CannotRemoveRoot,
    /// The bytes spell no tree.
    CorruptData,
    /// A file could not be read or written.
    Io,
}

/// One line of a listing: the node, how far below the top of the listing it
/// lies, and how many children it has.
#[derive(Clone, Copy, Debug, PartialEq, Eq, Structural)]
pub struct NodeInfo {
    pub id: usize,
    pub depth: usize,
    pub child_count: usize,
}

/// The index at which a sequence without repetitions holds `x`.
fn position_of(v: &Vec<usize>, x: usize) -> (r: usize)
    requires
        v@.contains(x),
        v@.no_duplicates(),
    ensures
        r < v.len(),
        v@[r as int] == x,
        r == v@.index_of(x),
{
    let mut i: usize = 0;
    while i < v.len()
        invariant
            i <= v.len(),
            v@.contains(x),
            v@.no_duplicates(),
            forall|j: int| 0 <= j < i ==> v@[j] != x,
        decreases v.len() - i,
    {
        if v[i] == x {
            proof {
                let j = v@.index_of(x);
                assert(0 <= j < v@.len() && v@[j] == x);
            }
            return i;
        }
        i += 1;
    }
    proof {
        let j = choose|j: int| 0 <= j < v@.len() && v@[j] == x;
        assert(false);
    }
    0
}

struct Node<T> {
    data: T,
    parent: Option<usize>,
    children: Vec<usize>,
}

/// A tree of nodes that hold a `T` each.
pub struct Tree<T> {
    nodes: Vec<Option<Node<T>>>,
    root: usize,
    depths: Ghost<Map<usize, nat>>,
}

impl<T> View for Tree<T> {
    type V = TreeView<T>;

    closed spec fn view(&self) -> TreeView<T> {
        TreeView {
            topo: Topology {
                root: self.root,
                links: Map::new(
                    |i: usize| self.live(i),
                    |i: usize|
                        Links {
                            parent: self.nodes[i as int]->0.parent,
                            children: self.nodes[i as int]->0.children@,
                            depth: self.depths@[i],
                        },
                ),
            },
            data: Map::new(|i: usize| self.live(i), |i: usize| self.nodes[i as int]->0.data),
        }
    }
}

impl<T> Tree<T> {
    closed spec fn live(&self, i: usize) -> bool {
        i < self.nodes.len() && self.nodes[i as int] is Some
    }

    /// The nodes form one tree, and each holds something.
    pub open spec fn wf(&self) -> bool {
        self@.wf()
    }

    /// A tree of one node, the root, which has the identifier 0.
    pub fn new_with_root(payload: T) -> (r: Tree<T>)
        ensures
            r.wf(),
            r@.topo.root == 0,
            r@.topo.links == map![0usize => Links { parent: None, children: Seq::empty(), depth: 0 }],
            r@.data == map![0usize => payload],
    {
        let mut nodes: Vec<Option<Node<T>>> = Vec::new();
        nodes.push(Some(Node { data: payload, parent: None, children: Vec::new() }));
        let depths: Ghost<Map<usize, nat>> = Ghost(Map::empty().insert(0usize, 0nat));
        let r = Tree { nodes, root: 0, depths };
        proof {
            let t = r@.topo;
            assert(r.live(0));
            assert(t.links =~= map![0usize => Links {
                parent: None,
                children: Seq::empty(),
                depth: 0,
            }]);
            assert(r@.data =~= map![0usize => payload]);
            assert(t.has(0));
            assert forall|id: usize| #[trigger] t.has(id) implies t.node_ok(id) by {
                assert(id == 0);
            }
            assert(t.bounded(0));
        }
        r
    }

    /// The root.
    pub fn get_root(&self) -> (r: Option<usize>)
        ensures
            r == Some(self@.topo.root),
    {
        Some(self.root)
    }

    /// Whether a node has the identifier.
    pub fn contains(&self, id: usize) -> (r: bool)
        ensures
            r == self@.has(id),
    {
        id < self.nodes.len() && self.nodes[id].is_some()
    }

    /// What a node holds.
    pub fn data_at(&self, id: usize) -> (r: Result<&T, TreeError>)
        ensures
            r is Ok <==> self@.has(id),
            r is Ok ==> *r->Ok_0 == self@.data[id],
            r is Err ==> r->Err_0 == TreeError::NotFound,
    {
        if self.contains(id) {
            Ok(&self.node(id).data)
        } else {
            Err(TreeError::NotFound)
        }
    }

    /// What a node holds, to be changed in place; the shape of the tree stays.
    pub fn data_at_mut(&mut self, id: usize) -> (r: Result<&mut T, TreeError>)
        ensures
            r is Ok <==> old(self)@.has(id),
            r is Ok ==> *r->Ok_0 == old(self)@.data[id],
            r is Ok ==> final(self)@.topo == old(self)@.topo,
            r is Ok ==> final(self)@.data == old(self)@.data.insert(id, *final(r->Ok_0)),
            r is Err ==> r->Err_0 == TreeError::NotFound && final(self)@ == old(self)@,
    {
        if id < self.nodes.len() {
            match &mut self.nodes[id] {
                Some(n) => Ok(&mut n.data),
                None => Err(TreeError::NotFound),
            }
        } else {
            Err(TreeError::NotFound)
        }
    }

    /// The parent of a node; the root has none.
    pub fn parent_of(&self, id: usize) -> (r: Result<Option<usize>, TreeError>)
        ensures
            r is Ok <==> self@.has(id),
            r is Ok ==> r->Ok_0 == self@.topo.parent(id),
            r is Err ==> r->Err_0 == TreeError::NotFound,
    {
        if self.contains(id) {
            Ok(self.node(id).parent)
        } else {
            Err(TreeError::NotFound)
        }
    }

    /// The children of a node, in their order.
    pub fn children_of(&self, id: usize) -> (r: Result<Vec<usize>, TreeError>)
        ensures
            r is Ok <==> self@.has(id),
            r is Ok ==> r->Ok_0@ == self@.topo.children(id),
            r is Err ==> r->Err_0 == TreeError::NotFound,
    {
        if self.contains(id) {
            Ok(copy_ids(&self.node(id).children))
        } else {
            Err(TreeError::NotFound)
        }
    }

    /// The number of children of a node.
    pub fn child_count(&self, id: usize) -> (r: Result<usize, TreeError>)
        ensures
            r is Ok <==> self@.has(id),
            r is Ok ==> r->Ok_0 == self@.topo.children(id).len(),
            r is Err ==> r->Err_0 == TreeError::NotFound,
    {
        if self.contains(id) {
            Ok(self.node(id).children.len())
        } else {
            Err(TreeError::NotFound)
        }
    }

    /// The nodes at and below `id` down to `max_depth` levels, a node before
    /// what lies below it and the children in their order.
    pub fn sub_tree_depth(&self, id: usize, max_depth: usize) -> (r: Result<Vec<usize>, TreeError>)
        requires
            self.wf(),
        ensures
            r is Ok <==> self@.has(id),
            r is Ok ==> r->Ok_0@ == self@.topo.preorder(id, max_depth as nat),
            r is Err ==> r->Err_0 == TreeError::NotFound,
    {
        match self.sub_tree_depth_info(id, max_depth) {
            Ok(infos) => {
                let mut ids: Vec<usize> = Vec::new();
                let mut i: usize = 0;
                while i < infos.len()
                    invariant
                        i <= infos.len(),
                        ids@.len() == i,
                        forall|j: int| 0 <= j < i ==> ids@[j] == infos@[j].id,
                    decreases infos.len() - i,
                {
                    ids.push(infos[i].id);
                    i += 1;
                }
                assert(ids@ =~= self@.topo.preorder(id, max_depth as nat));
                Ok(ids)
            },
            Err(e) => Err(e),
        }
    }

    /// The same nodes in the same order, each with its depth below `id` and
    /// the number of its children.
    pub fn sub_tree_depth_info(&self, id: usize, max_depth: usize) -> (r: Result<
        Vec<NodeInfo>,
        TreeError,
    >)
        requires
            self.wf(),
        ensures
            r is Ok <==> self@.has(id),
            r is Ok ==> r->Ok_0@ == info_list(
                self@.topo,
                self@.topo.preorder(id, max_depth as nat),
                self@.topo.depth(id) as int,
            ),
            r is Err ==> r->Err_0 == TreeError::NotFound,
    {
        if !self.contains(id) {
            return Err(TreeError::NotFound);
        }
        let mut out: Vec<NodeInfo> = Vec::new();
        self.walk_info(id, 0, max_depth, &mut out);
        assert(out@ =~= info_list(
            self@.topo,
            self@.topo.preorder(id, max_depth as nat),
            self@.topo.depth(id) as int,
        ));
        Ok(out)
    }

    /// `id` and the nodes below it: each before what lies below it, the
    /// children in their order.
    pub fn sub_tree(&self, id: usize) -> (r: Result<Vec<usize>, TreeError>)
        requires
            self.wf(),
        ensures
            r is Ok <==> self@.has(id),
            r is Ok ==> r->Ok_0@ == self@.topo.subtree(id),
            r is Err ==> r->Err_0 == TreeError::NotFound,
    {
        if !self.contains(id) {
            return Err(TreeError::NotFound);
        }
        let mut out: Vec<usize> = Vec::new();
        self.walk_all(id, &mut out);
        assert(out@ =~= self@.topo.subtree(id));
        Ok(out)
    }

    /// The nodes below `id`: each before what lies below it, the children in
    /// their order.
    pub fn descendants_of(&self, id: usize) -> (r: Result<Vec<usize>, TreeError>)
        requires
            self.wf(),
        ensures
            r is Ok <==> self@.has(id),
            r is Ok ==> r->Ok_0@ == self@.topo.subtree(id).skip(1),
            r is Ok ==> r->Ok_0@.to_set() == self@.topo.descendants(id),
            r is Err ==> r->Err_0 == TreeError::NotFound,
    {
        if !self.contains(id) {
            return Err(TreeError::NotFound);
        }
        let mut out: Vec<usize> = Vec::new();
        self.walk_all(id, &mut out);
        assert(out@ =~= self@.topo.subtree(id));
        proof {
            self@.topo.lemma_subtree_first(id);
        }
        out.remove(0);
        assert(out@ =~= self@.topo.subtree(id).skip(1));
        proof {
            self@.topo.lemma_descendants(id);
        }
        Ok(out)
    }

    /// Whether `n` is `a` or lies below `a`; `false` where one of them is no node.
    pub fn is_within(&self, a: usize, n: usize) -> (r: bool)
        requires
            self.wf(),
        ensures
            r == (self@.has(a) && self@.topo.in_subtree(a, n)),
    {
        if self.contains(a) && self.contains(n) {
            self.below(a, n)
        } else {
            false
        }
    }

    /// A new node that holds `data`, at `pos` relative to `reference`. Its
    /// identifier is one that no node has.
    #[verifier::rlimit(50)]
    pub fn new_node(&mut self, data: T, pos: Position, reference: usize) -> (r: Result<
        usize,
        TreeError,
    >)
        requires
            old(self).wf(),
        ensures
            final(self).wf(),
            r is Err <==> insert_error(old(self)@.topo, pos, reference) is Some,
            r is Err ==> r->Err_0 == insert_error(old(self)@.topo, pos, reference)->0,
            r is Err ==> final(self)@ == old(self)@,
            r is Ok ==> !old(self)@.has(r->Ok_0) && final(self)@ == old(self)@.with_leaf(
                r->Ok_0,
                data,
                old(self)@.topo.slot(pos, reference).0,
                old(self)@.topo.slot(pos, reference).1,
            ),
    {
        if !self.contains(reference) {
            return Err(TreeError::NotFound);
        }
        let beside = match pos {
            Position::SiblingBefore => true,
            Position::SiblingAfter => true,
            _ => false,
        };
        if beside && reference == self.root {
            return Err(TreeError::InvalidPosition);
        }
        proof {
            self@.topo.lemma_slot(pos, reference);
            assert(self@.topo.node_ok(reference));
            if beside {
                self@.topo.lemma_child_index(reference);
                assert(self@.topo.node_ok(self@.topo.parent(reference)->0));
            }
        }
        let (p, k) = self.locate(pos, reference);
        let id = self.nodes.len();
        assert(!self.live(id));
        let ghost d = self@.topo.depth(p) + 1;
        self.nodes.push(Some(Node { data, parent: Some(p), children: Vec::new() }));
        proof {
            self.depths@ = self.depths@.insert(id, d as nat);
        }
        assert(self.live(p));
        assert(self.live(id));
        let ghost mid = self@;
        proof {
            assert forall|j: usize| self.live(j) <==> (old(self).live(j) || j == id) by {}
            assert(mid.data =~= old(self)@.data.insert(id, data));
            assert(mid.topo.links =~= old(self)@.topo.links.insert(
                id,
                Links { parent: Some(p), children: Seq::empty(), depth: d as nat },
            ));
        }
        self.link_child(p, k, id);
        proof {
            assert(self@.topo.links =~= old(self)@.topo.with_leaf(id, p, k as int).links);
            assert(self@ =~= old(self)@.with_leaf(id, data, p, k as int));
            old(self)@.topo.lemma_with_leaf_wf(id, p, k as int);
            assert(self@.data.dom() =~= self@.topo.links.dom());
        }
        Ok(id)
    }

    /// Removes `id` and all that lies below it.
    #[verifier::rlimit(50)]
    pub fn remove(&mut self, id: usize) -> (r: Result<(), TreeError>)
        requires
            old(self).wf(),
        ensures
            final(self).wf(),
            r is Err <==> remove_error(old(self)@.topo, id) is Some,
            r is Err ==> r->Err_0 == remove_error(old(self)@.topo, id)->0,
            r is Err ==> final(self)@ == old(self)@,
            r is Ok ==> final(self)@ == old(self)@.without(id),
    {
        if !self.contains(id) {
            return Err(TreeError::NotFound);
        }
        if id == self.root {
            return Err(TreeError::CannotRemoveRoot);
        }
        let ghost t0 = self@;
        let mut list: Vec<usize> = Vec::new();
        self.walk_all(id, &mut list);
        proof {
            assert(list@ =~= t0.topo.subtree(id));
            t0.topo.lemma_descendants(id);
            t0.topo.lemma_child_index(id);
            assert(t0.topo.node_ok(t0.topo.parent(id)->0));
            assert forall|n: usize| list@.contains(n) <==> t0.topo.in_subtree(id, n) by {
                t0.topo.lemma_subtree_members(id, n);
            }
        }
        let p = self.node(id).parent.unwrap();
        let i = position_of(&self.node(p).children, id);
        self.unlink_child(p, i);
        let ghost t1 = self@;
        assert(t1.topo.links =~= t0.topo.detached(id).links);
        let mut j: usize = 0;
        while j < list.len()
            invariant
                j <= list.len(),
                list@.no_duplicates(),
                forall|n: usize| list@.contains(n) ==> t1.has(n),
                self@.topo.root == t1.topo.root,
                self@.topo.links =~= t1.topo.links.restrict(
                    Set::new(|n: usize| t1.has(n) && !list@.take(j as int).contains(n)),
                ),
                self@.data =~= t1.data.restrict(
                    Set::new(|n: usize| t1.has(n) && !list@.take(j as int).contains(n)),
                ),
            decreases list.len() - j,
        {
            let n = list[j];
            proof {
                assert(list@.contains(n));
                if list@.take(j as int).contains(n) {
                    let a = choose|a: int| 0 <= a < j && list@.take(j as int)[a] == n;
                    assert(list@[a] == list@[j as int]);
                }
                assert(self@.has(n));
            }
            self.free(n);
            proof {
                assert forall|m: usize|
                    list@.take(j + 1).contains(m) <==> (list@.take(j as int).contains(m) || m
                        == n) by {
                    assert(list@.take(j + 1) =~= list@.take(j as int).push(n));
                    if list@.take(j as int).contains(m) {
                        let a = choose|a: int| 0 <= a < j && list@.take(j as int)[a] == m;
                        assert(list@.take(j + 1)[a] == m);
                    }
                    if m == n {
                        assert(list@.take(j + 1)[j as int] == m);
                    }
                }
            }
            j += 1;
        }
        proof {
            assert(list@.take(j as int) =~= list@);
            assert(t1.data =~= t0.data);
            assert(self@.topo.links =~= t0.topo.without(id).links);
            assert(self@.data =~= t0.without(id).data);
            assert(self@ =~= t0.without(id));
            t0.topo.lemma_without_wf(id);
            assert(self@.data.dom() =~= self@.topo.links.dom());
        }
        Ok(())
    }

    /// Moves `node`, with all that lies below it, to `pos` relative to
    /// `reference`. A move to a place at or below `node` itself is refused.
    #[verifier::rlimit(50)]
    pub fn move_to(&mut self, node: usize, pos: Position, reference: usize) -> (r: Result<
        (),
        TreeError,
    >)
        requires
            old(self).wf(),
        ensures
            final(self).wf(),
            r is Err <==> move_error(old(self)@.topo, node, pos, reference) is Some,
            r is Err ==> r->Err_0 == move_error(old(self)@.topo, node, pos, reference)->0
                && final(self)@ == old(self)@,
            r is Ok ==> final(self)@ == old(self)@.moved(node, pos, reference),
    {
        if !self.contains(node) || !self.contains(reference) {
            return Err(TreeError::NotFound);
        }
        if self.below(node, reference) {
            return Err(TreeError::CycleError);
        }
        let beside = match pos {
            Position::SiblingBefore => true,
            Position::SiblingAfter => true,
            _ => false,
        };
        if beside && reference == self.root {
            return Err(TreeError::InvalidPosition);
        }
        let ghost t0 = self@;
        proof {
            t0.topo.lemma_move_slot(node, pos, reference);
            t0.topo.lemma_child_index(node);
            assert(t0.topo.node_ok(t0.topo.parent(node)->0));
        }
        let p = self.node(node).parent.unwrap();
        let i = position_of(&self.node(p).children, node);
        self.unlink_child(p, i);
        let ghost t1 = self@;
        assert(t1.topo =~= t0.topo.detached(node));
        let (q, k) = self.locate(pos, reference);
        self.link_child(q, k, node);
        self.set_parent(node, q);
        let ghost t2 = self@;
        proof {
            let shift = t0.topo.depth(q) + 1 - t0.topo.depth(node);
            self.depths@ = Map::new(
                |n: usize| true,
                |n: usize|
                    if t0.topo.has(n) && t0.topo.in_subtree(node, n) {
                        (t0.topo.depth(n) + shift) as nat
                    } else {
                        old(self).depths@[n]
                    },
            );
            assert(self@.data =~= t0.data);
            assert(t0.topo.up(node, 0) == node);
            assert(q != node);
            let want = t0.topo.moved(node, pos, reference);
            assert((q, k as int) == t0.topo.detached(node).slot(pos, reference));
            assert forall|n: usize| self@.topo.has(n) <==> t0.topo.has(n) by {}
            assert forall|n: usize| #[trigger] self@.topo.has(n) implies self@.topo.links[n]
                == want.links[n] by {
                assert(t2.topo.has(n));
                assert(self.live(n));
                assert(self@.topo.links[n].parent == t2.topo.links[n].parent);
                assert(self@.topo.links[n].children == t2.topo.links[n].children);
                assert(t1.topo.has(n));
                assert(self@.topo.links[n].depth == want.links[n].depth);
                assert(self@.topo.links[n].parent == want.links[n].parent);
                assert(self@.topo.links[n].children == want.links[n].children);
            }
            assert(self@.topo.links =~= t0.topo.moved(node, pos, reference).links);
            assert(self@ =~= t0.moved(node, pos, reference));
            t0.topo.lemma_moved_wf(node, pos, reference);
            assert(self@.data.dom() =~= self@.topo.links.dom());
        }
        Ok(())
    }

    fn node(&self, id: usize) -> (r: &Node<T>)
        requires
            self@.has(id),
        ensures
            r.data == self@.data[id],
            r.parent == self@.topo.parent(id),
            r.children@ == self@.topo.children(id),
            self.nodes[id as int] == Some(*r),
    {
        assert(self.live(id));
        match &self.nodes[id] {
            Some(n) => n,
            None => vstd::pervasive::unreached(),
        }
    }

    /// Appends the lines for `id` and what lies up to `remaining` levels
    /// below it, where `id` itself lies `depth` levels below the top of the listing.
    fn walk_info(&self, id: usize, depth: usize, remaining: usize, out: &mut Vec<NodeInfo>)
        requires
            self.wf(),
            self@.has(id),
            depth + remaining <= usize::MAX,
            depth <= self@.topo.depth(id),
        ensures
            final(out)@ == old(out)@ + info_list(
                self@.topo,
                self@.topo.preorder(id, remaining as nat),
                self@.topo.depth(id) - depth,
            ),
        decreases remaining,
    {
        let ghost topo = self@.topo;
        let ghost base = topo.depth(id) - depth;
        let ghost out0 = out@;
        let node = self.node(id);
        out.push(NodeInfo { id, depth, child_count: node.children.len() });
        assert(out@ =~= out0 + info_list(topo, seq![id], base));
        if remaining > 0 {
            let ghost k = (remaining - 1) as nat;
            let mut i: usize = 0;
            while i < node.children.len()
                invariant
                    self.wf(),
                    self@.topo == topo,
                    topo.has(id),
                    node.children@ == topo.children(id),
                    i <= node.children.len(),
                    remaining > 0,
                    k == remaining - 1,
                    depth + remaining <= usize::MAX,
                    depth <= topo.depth(id),
                    base == topo.depth(id) - depth,
                    out@ == out0 + info_list(
                        topo,
                        seq![id] + topo.forest(topo.children(id).take(i as int), k),
                        base,
                    ),
                decreases node.children.len() - i,
            {
                let c = node.children[i];
                proof {
                    assert(topo.node_ok(id));
                    assert(topo.has(topo.children(id)[i as int]));
                    assert(topo.node_ok(c));
                    assert(topo.children(id).take(i + 1).drop_last() =~= topo.children(id).take(
                        i as int,
                    ));
                }
                self.walk_info(c, depth + 1, remaining - 1, out);
                assert(out@ =~= out0 + info_list(
                    topo,
                    seq![id] + topo.forest(topo.children(id).take(i + 1), k),
                    base,
                ));
                i += 1;
            }
            assert(topo.children(id).take(i as int) =~= topo.children(id));
        }
    }

    /// Appends `id` and all that lies below it.
    fn walk_all(&self, id: usize, out: &mut Vec<usize>)
        requires
            self.wf(),
            self@.has(id),
        ensures
            final(out)@ == old(out)@ + self@.topo.subtree(id),
        decreases self@.topo.height() - self@.topo.depth(id),
    {
        let ghost topo = self@.topo;
        let ghost out0 = out@;
        let ghost k = (topo.height() - topo.depth(id)) as nat;
        proof {
            topo.lemma_height();
            assert(topo.node_ok(id));
        }
        let node = self.node(id);
        out.push(id);
        assert(out@ =~= out0 + seq![id]);
        let mut i: usize = 0;
        while i < node.children.len()
            invariant
                self.wf(),
                self@.topo == topo,
                topo.has(id),
                topo.bounded(topo.height()),
                node.children@ == topo.children(id),
                i <= node.children.len(),
                k == topo.height() - topo.depth(id),
                out@ == out0 + seq![id] + topo.forest(
                    topo.children(id).take(i as int),
                    (k - 1) as nat,
                ),
            decreases node.children.len() - i,
        {
            let c = node.children[i];
            proof {
                assert(topo.node_ok(id));
                assert(topo.has(topo.children(id)[i as int]));
                assert(topo.node_ok(c));
                assert(topo.children(id).take(i + 1).drop_last() =~= topo.children(id).take(
                    i as int,
                ));
            }
            self.walk_all(c, out);
            assert(out@ =~= out0 + seq![id] + topo.forest(
                topo.children(id).take(i + 1),
                (k - 1) as nat,
            ));
            i += 1;
        }
        proof {
            assert(topo.children(id).take(i as int) =~= topo.children(id));
            if k == 0 {
                if topo.children(id).len() > 0 {
                    assert(topo.has(topo.children(id)[0]));
                    assert(topo.node_ok(topo.children(id)[0]));
                }
                assert(topo.forest(topo.children(id), 0) =~= Seq::<usize>::empty());
                assert(out@ =~= out0 + topo.subtree(id));
            } else {
                assert(out@ =~= out0 + topo.subtree(id));
            }
        }
    }

    /// Whether `n` is `a` or lies below `a`.
    fn below(&self, a: usize, n: usize) -> (r: bool)
        requires
            self.wf(),
            self@.has(a),
            self@.has(n),
        ensures
            r == self@.topo.in_subtree(a, n),
    {
        let ghost topo = self@.topo;
        let mut cur = n;
        let ghost mut j: nat = 0;
        loop
            invariant
                self.wf(),
                self@.topo == topo,
                topo.has(a),
                topo.has(n),
                topo.has(cur),
                j <= topo.depth(n),
                cur == topo.up(n, j),
                topo.depth(cur) == topo.depth(n) - j,
                forall|i: nat| i < j ==> topo.up(n, i) != a,
            decreases topo.depth(cur),
        {
            if cur == a {
                return true;
            }
            proof {
                topo.lemma_up(n, j);
                assert(topo.node_ok(cur));
            }
            match self.node(cur).parent {
                None => {
                    proof {
                        if topo.in_subtree(a, n) {
                            let d = (topo.depth(n) - topo.depth(a)) as nat;
                            assert(d <= j);
                        }
                    }
                    return false;
                },
                Some(p) => {
                    cur = p;
                    proof {
                        j = j + 1;
                    }
                },
            }
        }
    }

    /// The parent and the index that `pos` relative to `reference` names.
    fn locate(&self, pos: Position, reference: usize) -> (r: (usize, usize))
        requires
            self@.topo.slot_ready(pos, reference),
        ensures
            (r.0, r.1 as int) == self@.topo.slot(pos, reference),
            self@.has(r.0),
            r.1 <= self@.topo.children(r.0).len(),
    {
        match pos {
            Position::FirstChild => (reference, 0),
            Position::LastChild => (reference, self.node(reference).children.len()),
            Position::SiblingBefore => {
                let p = self.node(reference).parent.unwrap();
                (p, position_of(&self.node(p).children, reference))
            },
            Position::SiblingAfter => {
                let p = self.node(reference).parent.unwrap();
                (p, position_of(&self.node(p).children, reference) + 1)
            },
        }
    }

    /// Puts `c` among the children of `p`, at index `k`.
    fn link_child(&mut self, p: usize, k: usize, c: usize)
        requires
            old(self)@.has(p),
            k <= old(self)@.topo.children(p).len(),
        ensures
            final(self)@.data == old(self)@.data,
            final(self)@.topo.root == old(self)@.topo.root,
            final(self)@.topo.links == old(self)@.topo.links.insert(
                p,
                Links {
                    parent: old(self)@.topo.parent(p),
                    children: old(self)@.topo.children(p).insert(k as int, c),
                    depth: old(self)@.topo.depth(p),
                },
            ),
    {
        assert(self.live(p));
        match &mut self.nodes[p] {
            Some(n) => {
                n.children.insert(k, c);
            },
            None => {},
        }
        proof {
            assert forall|i: usize| self.live(i) <==> old(self).live(i) by {}
            assert(self@.data =~= old(self)@.data);
            assert(self@.topo.links =~= old(self)@.topo.links.insert(
                p,
                Links {
                    parent: old(self)@.topo.parent(p),
                    children: old(self)@.topo.children(p).insert(k as int, c),
                    depth: old(self)@.topo.depth(p),
                },
            ));
        }
    }

    /// Takes child number `i` of `p` out of its children.
    fn unlink_child(&mut self, p: usize, i: usize)
        requires
            old(self)@.has(p),
            i < old(self)@.topo.children(p).len(),
        ensures
            final(self)@.data == old(self)@.data,
            final(self)@.topo.root == old(self)@.topo.root,
            final(self)@.topo.links == old(self)@.topo.links.insert(
                p,
                Links {
                    parent: old(self)@.topo.parent(p),
                    children: old(self)@.topo.children(p).remove(i as int),
                    depth: old(self)@.topo.depth(p),
                },
            ),
    {
        assert(self.live(p));
        match &mut self.nodes[p] {
            Some(n) => {
                n.children.remove(i);
            },
            None => {},
        }
        proof {
            assert forall|j: usize| self.live(j) <==> old(self).live(j) by {}
            assert(self@.data =~= old(self)@.data);
            assert(self@.topo.links =~= old(self)@.topo.links.insert(
                p,
                Links {
                    parent: old(self)@.topo.parent(p),
                    children: old(self)@.topo.children(p).remove(i as int),
                    depth: old(self)@.topo.depth(p),
                },
            ));
        }
    }

    /// Makes `q` the parent of `n`.
    fn set_parent(&mut self, n: usize, q: usize)
        requires
            old(self)@.has(n),
        ensures
            final(self)@.data == old(self)@.data,
            final(self)@.topo.root == old(self)@.topo.root,
            final(self)@.topo.links == old(self)@.topo.links.insert(
                n,
                Links {
                    parent: Some(q),
                    children: old(self)@.topo.children(n),
                    depth: old(self)@.topo.depth(n),
                },
            ),
    {
        assert(self.live(n));
        match &mut self.nodes[n] {
            Some(x) => {
                x.parent = Some(q);
            },
            None => {},
        }
        proof {
            assert forall|j: usize| self.live(j) <==> old(self).live(j) by {}
            assert(self@.data =~= old(self)@.data);
            assert(self@.topo.links =~= old(self)@.topo.links.insert(
                n,
                Links {
                    parent: Some(q),
                    children: old(self)@.topo.children(n),
                    depth: old(self)@.topo.depth(n),
                },
            ));
        }
    }

    /// Gives up the node `n`.
    fn free(&mut self, n: usize)
        requires
            old(self)@.has(n),
        ensures
            final(self)@.data == old(self)@.data.remove(n),
            final(self)@.topo.root == old(self)@.topo.root,
            final(self)@.topo.links == old(self)@.topo.links.remove(n),
    {
        assert(self.live(n));
        self.nodes[n] = None;
        proof {
            assert forall|j: usize| self.live(j) <==> (old(self).live(j) && j != n) by {}
            assert(self@.data =~= old(self)@.data.remove(n));
            assert(self@.topo.links =~= old(self)@.topo.links.remove(n));
        }
    }
}

/// A copy of a list of identifiers.
fn copy_ids(v: &Vec<usize>) -> (r: Vec<usize>)
    ensures
        r@ == v@,
{
    let mut r: Vec<usize> = Vec::new();
    let mut i: usize = 0;
    while i < v.len()
        invariant
            i <= v.len(),
            r@ == v@.take(i as int),
        decreases v.len() - i,
    {
        r.push(v[i]);
        assert(r@ =~= v@.take(i + 1));
        i += 1;
    }
    assert(v@.take(v.len() as int) =~= v@);
    r
}

impl<T: Duplicate> Tree<T> {
    /// Copies `node`, with all that lies below it, to `pos` relative to
    /// `reference`: the copy has the shape of what was copied, and new
    /// identifiers. The place may lie below `node`.
    pub fn clone_to(&mut self, node: usize, pos: Position, reference: usize) -> (r: Result<
        usize,
        TreeError,
    >)
        requires
            old(self).wf(),
        ensures
            final(self).wf(),
            r is Err <==> clone_error(old(self)@.topo, node, pos, reference) is Some,
            r is Err ==> r->Err_0 == clone_error(old(self)@.topo, node, pos, reference)->0
                && final(self)@ == old(self)@,
            r is Ok ==> grafted(
                old(self)@,
                final(self)@,
                old(self)@.topo.slot(pos, reference).0,
                old(self)@.topo.slot(pos, reference).1,
                r->Ok_0,
            ) && final(self)@.shape(r->Ok_0) == old(self)@.shape(node),
    {
        if !self.contains(node) || !self.contains(reference) {
            return Err(TreeError::NotFound);
        }
        let beside = match pos {
            Position::SiblingBefore => true,
            Position::SiblingAfter => true,
            _ => false,
        };
        if beside && reference == self.root {
            return Err(TreeError::InvalidPosition);
        }
        let ghost t0 = self@;
        let mut list: Vec<usize> = Vec::new();
        self.walk_all(node, &mut list);
        proof {
            assert(list@ =~= t0.topo.subtree(node));
            t0.topo.lemma_subtree_first(node);
            assert forall|i: int| 0 <= i < list.len() implies t0.has(#[trigger] list@[i]) by {
                assert(list@.contains(list@[i]));
                t0.topo.lemma_subtree_members(node, list@[i]);
            }
            assert(list@.subrange(0, list.len() as int) =~= list@);
            t0.topo.lemma_slot(pos, reference);
        }
        let counts = self.child_counts(&list);
        let data = self.node(node).data.duplicate();
        let c = match self.new_node(data, pos, reference) {
            Ok(c) => c,
            Err(_) => vstd::pervasive::unreached(),
        };
        let ghost q = t0.topo.slot(pos, reference).0;
        let ghost k = t0.topo.slot(pos, reference).1;
        proof {
            lemma_leaf_grafted(t0, c, data, q, k);
            assert(self@.topo.children(c) =~= Seq::<usize>::empty());
        }
        self.copy_children(&list, &counts, 0, c, Ghost(t0), Ghost(t0), Ghost(q), Ghost(k));
        Ok(c)
    }

    /// The number of children of each of `list`.
    fn child_counts(&self, list: &Vec<usize>) -> (r: Vec<usize>)
        requires
            forall|i: int| 0 <= i < list.len() ==> self@.has(#[trigger] list@[i]),
        ensures
            r.len() == list.len(),
            forall|i: int|
                0 <= i < list.len() ==> r@[i] == self@.topo.children(#[trigger] list@[i]).len(),
    {
        let mut r: Vec<usize> = Vec::new();
        let mut i: usize = 0;
        while i < list.len()
            invariant
                i <= list.len(),
                r.len() == i,
                forall|a: int| 0 <= a < list.len() ==> self@.has(#[trigger] list@[a]),
                forall|a: int|
                    0 <= a < i ==> r@[a] == self@.topo.children(#[trigger] list@[a]).len(),
            decreases list.len() - i,
        {
            assert(self@.has(list@[i as int]));
            r.push(self.node(list[i]).children.len());
            i += 1;
        }
        r
    }

    /// Copies the node at `idx` of `list`, with all that lies below it, to
    /// the end of the children of `parent`. Gives the index behind what was
    /// copied, and the copy.
    fn copy_from(
        &mut self,
        list: &Vec<usize>,
        counts: &Vec<usize>,
        idx: usize,
        parent: usize,
        Ghost(t0): Ghost<TreeView<T>>,
    ) -> (r: (usize, usize))
        requires
            old(self).wf(),
            old(self)@.has(parent),
            t0.wf(),
            kept(t0, old(self)@),
            list.len() == counts.len(),
            t0.topo.aligned(list@, idx as int),
            forall|i: int|
                0 <= i < list.len() ==> t0.has(#[trigger] list@[i]) && counts@[i]
                    == t0.topo.children(list@[i]).len(),
        ensures
            final(self).wf(),
            kept(t0, final(self)@),
            r.0 == idx + t0.topo.subtree(list@[idx as int]).len(),
            grafted(
                old(self)@,
                final(self)@,
                parent,
                old(self)@.topo.children(parent).len() as int,
                r.1,
            ),
            final(self)@.shape(r.1) == t0.shape(list@[idx as int]),
        decreases list.len() - idx, 1nat,
    {
        let src = list[idx];
        let ghost s0 = self@;
        assert(t0.has(list@[idx as int]));
        let data = self.node(src).data.duplicate();
        proof {
            assert(s0.topo.node_ok(parent));
        }
        let c = match self.new_node(data, Position::LastChild, parent) {
            Ok(c) => c,
            Err(_) => vstd::pervasive::unreached(),
        };
        let ghost k = s0.topo.children(parent).len() as int;
        proof {
            lemma_leaf_grafted(s0, c, data, parent, k);
            assert(self@.topo.children(c) =~= Seq::<usize>::empty());
        }
        let end = self.copy_children(list, counts, idx, c, Ghost(t0), Ghost(s0), Ghost(parent), Ghost(k));
        (end, c)
    }

    /// Copies what lies below the node at `idx` of `list` to below `c`, the
    /// copy of that node, which has no children yet.
    #[verifier::rlimit(50)]
    fn copy_children(
        &mut self,
        list: &Vec<usize>,
        counts: &Vec<usize>,
        idx: usize,
        c: usize,
        Ghost(t0): Ghost<TreeView<T>>,
        Ghost(before): Ghost<TreeView<T>>,
        Ghost(q): Ghost<usize>,
        Ghost(k): Ghost<int>,
    ) -> (end: usize)
        requires
            grafted(before, old(self)@, q, k, c),
            old(self)@.topo.children(c).len() == 0,
            old(self)@.data[c] == t0.data[list@[idx as int]],
            t0.wf(),
            kept(t0, old(self)@),
            list.len() == counts.len(),
            t0.topo.aligned(list@, idx as int),
            forall|i: int|
                0 <= i < list.len() ==> t0.has(#[trigger] list@[i]) && counts@[i]
                    == t0.topo.children(list@[i]).len(),
        ensures
            grafted(before, final(self)@, q, k, c),
            kept(t0, final(self)@),
            end == idx + t0.topo.subtree(list@[idx as int]).len(),
            final(self)@.shape(c) == t0.shape(list@[idx as int]),
        decreases list.len() - idx, 0nat,
    {
        let ghost src = list@[idx as int];
        let ghost kids = t0.topo.children(src);
        let n_kids = counts[idx];
        assert(t0.has(list@[idx as int]));
        let mut pos: usize = idx + 1;
        let mut j: usize = 0;
        proof {
            assert(kids.take(0) =~= Seq::<usize>::empty());
            assert(t0.topo.subtrees(kids.take(0)) =~= Seq::<usize>::empty());
            assert(self@.topo.children(c) =~= Seq::<usize>::empty());
            assert(self@.shapes(self@.topo.children(c)) =~= t0.shapes(kids.take(0)));
            t0.topo.lemma_subtree_first(src);
        }
        while j < n_kids
            invariant
                j <= n_kids,
                n_kids == kids.len(),
                src == list@[idx as int],
                kids == t0.topo.children(src),
                t0.wf(),
                t0.has(src),
                list.len() == counts.len(),
                t0.topo.aligned(list@, idx as int),
                forall|i: int|
                    0 <= i < list.len() ==> t0.has(#[trigger] list@[i]) && counts@[i]
                        == t0.topo.children(list@[i]).len(),
                pos == idx + 1 + t0.topo.subtrees(kids.take(j as int)).len(),
                pos <= idx + t0.topo.subtree(src).len(),
                grafted(before, self@, q, k, c),
                kept(t0, self@),
                self@.topo.children(c).len() == j,
                self@.shapes(self@.topo.children(c)) == t0.shapes(kids.take(j as int)),
                self@.data[c] == t0.data[src],
            decreases n_kids - j,
        {
            let ghost cur = self@;
            proof {
                t0.topo.lemma_aligned_child(list@, idx as int, j as int);
                assert(cur.topo.up(c, 0) == c);
            }
            let (end, cj) = self.copy_from(list, counts, pos, c, Ghost(t0));
            proof {
                let next = self@;
                let x = kids[j as int];
                lemma_grafted_grow(before, cur, next, q, k, c, c, j as int, cj);
                assert(cur.topo.children(c).insert(j as int, cj) =~= cur.topo.children(c).push(
                    cj,
                ));
                assert forall|i: int| 0 <= i < cur.topo.children(c).len() implies cur.has(
                    #[trigger] cur.topo.children(c)[i],
                ) && !cur.topo.in_subtree(cur.topo.children(c)[i], c) by {
                    assert(cur.topo.node_ok(c));
                    cur.topo.lemma_subtree_child(c, c, i);
                }
                lemma_grafted_frames(cur, next, c, j as int, cj, cur.topo.children(c));
                next.lemma_shapes_push(cur.topo.children(c), cj);
                assert(kids.take(j + 1) =~= kids.take(j as int).push(x));
                t0.lemma_shapes_push(kids.take(j as int), x);
                assert(next.data[c] == cur.data[c]);
            }
            pos = end;
            j += 1;
        }
        proof {
            assert(kids.take(j as int) =~= kids);
            t0.topo.lemma_subtree_unfold(src);
            t0.lemma_shape_unfold(src);
            self@.lemma_shape_unfold(c);
        }
        pos
    }
}

} // verus!
