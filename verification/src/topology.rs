//! The shape of a tree, apart from what its nodes hold: which node is the
//! root, and for each node its parent, its children in order and its depth.

use vstd::prelude::*;

verus! {

/// Where a node lands relative to another.
#[derive(Clone, Copy, Debug, PartialEq, Eq, Structural)]
pub enum Position {
    FirstChild,
    LastChild,
    SiblingBefore,
    SiblingAfter,
}

/// What ties one node to the others.
#[verifier::ext_equal]
pub struct Links {
    pub parent: Option<usize>,
    pub children: Seq<usize>,
    /// The number of edges between the root and the node.
    pub depth: nat,
}

/// The nodes of a tree by identifier, and the root among them.
#[verifier::ext_equal]
pub struct Topology {
    pub root: usize,
    pub links: Map<usize, Links>,
}

/// A sequence that holds `x` holds it in one of its two parts.
pub proof fn lemma_contains_add(a: Seq<usize>, b: Seq<usize>, x: usize)
    ensures
        (a + b).contains(x) <==> a.contains(x) || b.contains(x),
{
    if (a + b).contains(x) {
        let i = choose|i: int| 0 <= i < (a + b).len() && (a + b)[i] == x;
        if i < a.len() {
            assert(a[i] == x);
        } else {
            assert(b[i - a.len()] == x);
        }
    }
    if a.contains(x) {
        let i = choose|i: int| 0 <= i < a.len() && a[i] == x;
        assert((a + b)[i] == x);
    }
    if b.contains(x) {
        let i = choose|i: int| 0 <= i < b.len() && b[i] == x;
        assert((a + b)[a.len() + i] == x);
    }
}

/// What stays when one element leaves a sequence without repetitions.
pub proof fn lemma_remove_props(s: Seq<usize>, i: int)
    requires
        s.no_duplicates(),
        0 <= i < s.len(),
    ensures
        s.remove(i).len() == s.len() - 1,
        s.remove(i).no_duplicates(),
        forall|x: usize| #[trigger] s.remove(i).contains(x) <==> (s.contains(x) && x != s[i]),
{
    let r = s.remove(i);
    assert forall|x: usize| #[trigger] r.contains(x) <==> (s.contains(x) && x != s[i]) by {
        if r.contains(x) {
            let j = choose|j: int| 0 <= j < r.len() && r[j] == x;
            if j < i {
                assert(s[j] == x);
            } else {
                assert(s[j + 1] == x);
            }
        }
        if s.contains(x) && x != s[i] {
            let j = choose|j: int| 0 <= j < s.len() && s[j] == x;
            if j < i {
                assert(r[j] == x);
            } else {
                assert(r[j - 1] == x);
            }
        }
    }
}

/// What a sequence without repetitions holds once a new element has entered.
pub proof fn lemma_insert_props(s: Seq<usize>, k: int, x: usize)
    requires
        s.no_duplicates(),
        !s.contains(x),
        0 <= k <= s.len(),
    ensures
        s.insert(k, x).len() == s.len() + 1,
        s.insert(k, x)[k] == x,
        s.insert(k, x).no_duplicates(),
        forall|y: usize| #[trigger] s.insert(k, x).contains(y) <==> (s.contains(y) || y == x),
{
    let r = s.insert(k, x);
    assert forall|a: int, b: int| 0 <= a < r.len() && 0 <= b < r.len() && a != b implies r[a]
        != r[b] by {
        let sa = if a < k { a } else { a - 1 };
        let sb = if b < k { b } else { b - 1 };
        if a != k && b != k {
            assert(r[a] == s[sa] && r[b] == s[sb]);
        } else if a == k {
            assert(r[b] == s[sb]);
        } else {
            assert(r[a] == s[sa]);
        }
    }
    assert forall|y: usize| #[trigger] r.contains(y) <==> (s.contains(y) || y == x) by {
        if r.contains(y) {
            let j = choose|j: int| 0 <= j < r.len() && r[j] == y;
            if j < k {
                assert(s[j] == y);
            } else if j > k {
                assert(s[j - 1] == y);
            }
        }
        if s.contains(y) {
            let j = choose|j: int| 0 <= j < s.len() && s[j] == y;
            if j < k {
                assert(r[j] == y);
            } else {
                assert(r[j + 1] == y);
            }
        }
        if y == x {
            assert(r[k] == y);
        }
    }
}

impl Topology {
    pub open spec fn has(self, id: usize) -> bool {
        self.links.dom().contains(id)
    }

    pub open spec fn parent(self, id: usize) -> Option<usize> {
        self.links[id].parent
    }

    pub open spec fn children(self, id: usize) -> Seq<usize> {
        self.links[id].children
    }

    pub open spec fn depth(self, id: usize) -> nat {
        self.links[id].depth
    }

    /// What holds of each node of a tree: the root alone has no parent and
    /// depth zero; every other node is listed by its parent, one level above it;
    /// a node lists each child once, and is the parent of each.
    pub open spec fn node_ok(self, id: usize) -> bool {
        &&& match self.parent(id) {
            None => id == self.root && self.depth(id) == 0,
            Some(p) => {
                &&& id != self.root
                &&& self.has(p)
                &&& self.depth(id) == self.depth(p) + 1
                &&& self.children(p).contains(id)
            },
        }
        &&& self.children(id).no_duplicates()
        &&& forall|i: int|
            0 <= i < self.children(id).len() ==> self.has(#[trigger] self.children(id)[i])
                && self.parent(self.children(id)[i]) == Some(id)
    }

    /// No node lies deeper than `h`.
    pub open spec fn bounded(self, h: nat) -> bool {
        forall|id: usize| #[trigger] self.has(id) ==> self.depth(id) <= h
    }

    /// The links form one tree under the root.
    pub open spec fn wf(self) -> bool {
        &&& self.has(self.root)
        &&& forall|id: usize| #[trigger] self.has(id) ==> self.node_ok(id)
        &&& exists|h: nat| self.bounded(h)
    }

    /// A depth that no node exceeds.
    pub open spec fn height(self) -> nat {
        choose|h: nat| self.bounded(h)
    }

    /// The ancestor `k` levels above a node; the root where there are fewer levels.
    pub open spec fn up(self, id: usize, k: nat) -> usize
        decreases k,
    {
        if k == 0 {
            id
        } else {
            match self.parent(id) {
                Some(p) => self.up(p, (k - 1) as nat),
                None => id,
            }
        }
    }

    /// `n` is `a` or lies below `a`.
    pub open spec fn in_subtree(self, a: usize, n: usize) -> bool {
        &&& self.has(n)
        &&& self.depth(n) >= self.depth(a)
        &&& self.up(n, (self.depth(n) - self.depth(a)) as nat) == a
    }

    /// The nodes below `a`.
    pub open spec fn descendants(self, a: usize) -> Set<usize> {
        Set::new(|n: usize| n != a && self.in_subtree(a, n))
    }

    /// No node below `id` lies more than `k` levels below it.
    pub open spec fn covers(self, id: usize, k: nat) -> bool {
        forall|n: usize| #[trigger] self.in_subtree(id, n) ==> self.depth(n) <= self.depth(id) + k
    }

    /// The nodes from `id` down to `k` levels below it: a node, then what is
    /// below its first child, then what is below the second, and so on.
    pub open spec fn preorder(self, id: usize, k: nat) -> Seq<usize>
        decreases k, 0nat,
    {
        if k == 0 {
            seq![id]
        } else {
            seq![id] + self.forest(self.children(id), (k - 1) as nat)
        }
    }

    /// The nodes from each of `ids` down to `k` levels below it, in the order of `ids`.
    pub open spec fn forest(self, ids: Seq<usize>, k: nat) -> Seq<usize>
        decreases k, ids.len() + 1,
    {
        if ids.len() == 0 {
            Seq::empty()
        } else {
            self.forest(ids.drop_last(), k) + self.preorder(ids.last(), k)
        }
    }

    /// The whole of what is at and below `id`, in the same order.
    pub open spec fn subtree(self, id: usize) -> Seq<usize> {
        self.preorder(id, (self.height() - self.depth(id)) as nat)
    }

    /// The whole subtrees of `ids`, one after the other.
    pub open spec fn subtrees(self, ids: Seq<usize>) -> Seq<usize>
        decreases ids.len(),
    {
        if ids.len() == 0 {
            Seq::empty()
        } else {
            self.subtrees(ids.drop_last()) + self.subtree(ids.last())
        }
    }

    /// From index `idx` on, `list` holds the whole subtree of the node at `idx`.
    pub open spec fn aligned(self, list: Seq<usize>, idx: int) -> bool {
        &&& 0 <= idx < list.len()
        &&& idx + self.subtree(list[idx]).len() <= list.len()
        &&& list.subrange(idx, idx + self.subtree(list[idx]).len()) == self.subtree(list[idx])
    }

    /// The parent and the index among its children at which `pos` relative to
    /// `reference` puts a node.
    pub open spec fn slot(self, pos: Position, reference: usize) -> (usize, int) {
        match pos {
            Position::FirstChild => (reference, 0),
            Position::LastChild => (reference, self.children(reference).len() as int),
            Position::SiblingBefore => (self.parent(reference)->0, self.child_index(reference)),
            Position::SiblingAfter => (self.parent(reference)->0, self.child_index(reference) + 1),
        }
    }

    /// The index of a node among the children of its parent.
    pub open spec fn child_index(self, id: usize) -> int {
        self.children(self.parent(id)->0).index_of(id)
    }

    /// What `slot` reads of the links: that `reference` is a node and, for a
    /// place beside it, that its parent lists it once.
    pub open spec fn slot_ready(self, pos: Position, reference: usize) -> bool {
        &&& self.has(reference)
        &&& (pos == Position::SiblingBefore || pos == Position::SiblingAfter) ==> {
            &&& self.parent(reference) is Some
            &&& self.has(self.parent(reference)->0)
            &&& self.children(self.parent(reference)->0).contains(reference)
            &&& self.children(self.parent(reference)->0).no_duplicates()
        }
    }

    /// Whether `pos` relative to `reference` names a place: a sibling of the
    /// root is none.
    pub open spec fn placeable(self, pos: Position, reference: usize) -> bool {
        (pos == Position::SiblingBefore || pos == Position::SiblingAfter) ==> reference
            != self.root
    }

    /// The tree with a new childless node `id` as child number `k` of `p`.
    pub open spec fn with_leaf(self, id: usize, p: usize, k: int) -> Topology {
        Topology {
            root: self.root,
            links: self.links.insert(
                p,
                Links {
                    parent: self.parent(p),
                    children: self.children(p).insert(k, id),
                    depth: self.depth(p),
                },
            ).insert(id, Links { parent: Some(p), children: Seq::empty(), depth: self.depth(p) + 1 }),
        }
    }

    /// The tree whose parent of `node` no longer lists it; its other links stay.
    pub open spec fn detached(self, node: usize) -> Topology {
        let p = self.parent(node)->0;
        Topology {
            root: self.root,
            links: self.links.insert(
                p,
                Links {
                    parent: self.parent(p),
                    children: self.children(p).remove(self.child_index(node)),
                    depth: self.depth(p),
                },
            ),
        }
    }

    /// The tree without `id` and all that lies below it.
    pub open spec fn without(self, id: usize) -> Topology {
        Topology {
            root: self.root,
            links: self.detached(id).links.restrict(
                Set::new(|n: usize| self.has(n) && !self.in_subtree(id, n)),
            ),
        }
    }

    /// The tree after `node`, with all that lies below it, has gone to `pos`
    /// relative to `reference`. The place is found once `node` has left its old
    /// parent; what moves keeps its shape and sinks or rises as a whole.
    pub open spec fn moved(self, node: usize, pos: Position, reference: usize) -> Topology {
        let t1 = self.detached(node);
        let (q, k) = t1.slot(pos, reference);
        let shift = self.depth(q) + 1 - self.depth(node);
        Topology {
            root: self.root,
            links: Map::new(
                |n: usize| self.has(n),
                |n: usize|
                    Links {
                        parent: if n == node {
                            Some(q)
                        } else {
                            self.parent(n)
                        },
                        children: if n == q {
                            t1.children(q).insert(k, node)
                        } else {
                            t1.children(n)
                        },
                        depth: if self.in_subtree(node, n) {
                            (self.depth(n) + shift) as nat
                        } else {
                            self.depth(n)
                        },
                    },
            ),
        }
    }

    /// The height is a bound.
    pub proof fn lemma_height(self)
        requires
            self.wf(),
        ensures
            self.bounded(self.height()),
    {
    }

    /// The ancestors of a node, level by level.
    pub proof fn lemma_up(self, n: usize, k: nat)
        requires
            self.wf(),
            self.has(n),
            k <= self.depth(n),
        ensures
            self.has(self.up(n, k)),
            self.depth(self.up(n, k)) == self.depth(n) - k,
            k < self.depth(n) ==> self.parent(self.up(n, k)) is Some && self.up(n, k + 1)
                == self.parent(self.up(n, k))->0,
        decreases k,
    {
        assert(self.node_ok(n));
        if k == 0 {
            if self.depth(n) > 0 {
                assert(self.up(n, 1) == self.up(self.parent(n)->0, 0));
            }
        } else {
            let p = self.parent(n)->0;
            self.lemma_up(p, (k - 1) as nat);
            assert(self.up(n, k) == self.up(p, (k - 1) as nat));
            if k < self.depth(n) {
                assert(self.up(n, k + 1) == self.up(p, k));
            }
        }
    }

    /// A node is in its own subtree, and what has a subtree is a node.
    pub proof fn lemma_in_subtree_has(self, a: usize, n: usize)
        requires
            self.wf(),
            self.in_subtree(a, n),
        ensures
            self.has(a),
    {
        self.lemma_up(n, (self.depth(n) - self.depth(a)) as nat);
    }

    /// What lies below `a` has its parent at or below `a`.
    pub proof fn lemma_subtree_parent(self, a: usize, n: usize)
        requires
            self.wf(),
            self.in_subtree(a, n),
            n != a,
        ensures
            self.parent(n) is Some,
            self.in_subtree(a, self.parent(n)->0),
    {
        assert(self.node_ok(n));
        let d = (self.depth(n) - self.depth(a)) as nat;
        if d == 0 {
            assert(self.up(n, 0) == n);
        } else {
            let p = self.parent(n)->0;
            assert(self.up(n, d) == self.up(p, (d - 1) as nat));
        }
    }

    /// The children of what lies at or below `a` lie below `a`.
    pub proof fn lemma_subtree_child(self, a: usize, m: usize, i: int)
        requires
            self.wf(),
            self.in_subtree(a, m),
            0 <= i < self.children(m).len(),
        ensures
            self.in_subtree(a, self.children(m)[i]),
            self.children(m)[i] != a,
            self.depth(self.children(m)[i]) == self.depth(m) + 1,
    {
        let c = self.children(m)[i];
        assert(self.node_ok(m));
        assert(self.has(c));
        assert(self.node_ok(c));
        let d = (self.depth(m) - self.depth(a)) as nat;
        assert(self.up(c, d + 1) == self.up(m, d));
    }

    /// Being below is transitive.
    pub proof fn lemma_subtree_trans(self, a: usize, b: usize, n: usize)
        requires
            self.wf(),
            self.in_subtree(a, b),
            self.in_subtree(b, n),
        ensures
            self.in_subtree(a, n),
        decreases self.depth(n) - self.depth(b),
    {
        if n != b {
            self.lemma_subtree_parent(b, n);
            let p = self.parent(n)->0;
            assert(self.node_ok(n));
            self.lemma_subtree_trans(a, b, p);
            assert(self.children(p).contains(n));
            let i = choose|i: int| 0 <= i < self.children(p).len() && self.children(p)[i] == n;
            self.lemma_subtree_child(a, p, i);
        }
    }

    /// A tree has no cycle: two nodes that lie at or below each other are one
    /// node, so that no node lies below itself or below one of its descendants.
    pub proof fn lemma_no_cycle(self, a: usize, b: usize)
        requires
            self.wf(),
            self.in_subtree(a, b),
            self.in_subtree(b, a),
        ensures
            a == b,
            !self.descendants(a).contains(a),
    {
        assert(self.up(b, 0) == b);
    }

    /// Two nodes of one depth with a node below both are one node.
    pub proof fn lemma_subtree_unique(self, a: usize, b: usize, n: usize)
        requires
            self.in_subtree(a, n),
            self.in_subtree(b, n),
            self.depth(a) == self.depth(b),
        ensures
            a == b,
    {
    }

    /// Everything lies at or below the root.
    pub proof fn lemma_root_subtree(self, n: usize)
        requires
            self.wf(),
            self.has(n),
        ensures
            self.in_subtree(self.root, n),
    {
        assert(self.node_ok(self.root));
        self.lemma_up(n, self.depth(n));
        let r = self.up(n, self.depth(n));
        assert(self.node_ok(r));
    }

    /// What `forest` lists, one of `ids` has listed.
    pub proof fn lemma_forest_member(self, ids: Seq<usize>, k: nat, n: usize) -> (j: int)
        requires
            self.forest(ids, k).contains(n),
        ensures
            0 <= j < ids.len(),
            self.preorder(ids[j], k).contains(n),
        decreases ids.len(),
    {
        if ids.len() == 0 {
            0
        } else {
            lemma_contains_add(self.forest(ids.drop_last(), k), self.preorder(ids.last(), k), n);
            if self.preorder(ids.last(), k).contains(n) {
                ids.len() - 1
            } else {
                self.lemma_forest_member(ids.drop_last(), k, n)
            }
        }
    }

    /// What one of `ids` lists, `forest` lists.
    pub proof fn lemma_forest_contains(self, ids: Seq<usize>, j: int, k: nat, n: usize)
        requires
            0 <= j < ids.len(),
            self.preorder(ids[j], k).contains(n),
        ensures
            self.forest(ids, k).contains(n),
        decreases ids.len(),
    {
        lemma_contains_add(self.forest(ids.drop_last(), k), self.preorder(ids.last(), k), n);
        if j < ids.len() - 1 {
            self.lemma_forest_contains(ids.drop_last(), j, k, n);
        }
    }

    /// What a walk of `k` levels from `id` lists lies at or below `id`, at most
    /// `k` levels below it.
    pub proof fn lemma_preorder_sound(self, id: usize, k: nat, n: usize)
        requires
            self.wf(),
            self.has(id),
            self.preorder(id, k).contains(n),
        ensures
            self.in_subtree(id, n),
            self.depth(n) <= self.depth(id) + k,
        decreases k,
    {
        assert(self.up(id, 0) == id);
        if k == 0 {
            assert(self.preorder(id, k) =~= seq![id]);
            assert(n == id);
        } else {
            let rest = self.forest(self.children(id), (k - 1) as nat);
            lemma_contains_add(seq![id], rest, n);
            if seq![id].contains(n) {
                assert(n == id);
            } else {
                let j = self.lemma_forest_member(self.children(id), (k - 1) as nat, n);
                let c = self.children(id)[j];
                self.lemma_subtree_child(id, id, j);
                self.lemma_preorder_sound(c, (k - 1) as nat, n);
                self.lemma_subtree_trans(id, c, n);
            }
        }
    }

    /// A walk of `k` levels from `id` lists every node at or below `id` that
    /// lies at most `k` levels below it.
    pub proof fn lemma_preorder_complete(self, id: usize, k: nat, n: usize)
        requires
            self.wf(),
            self.in_subtree(id, n),
            self.depth(n) <= self.depth(id) + k,
        ensures
            self.preorder(id, k).contains(n),
        decreases k,
    {
        self.lemma_in_subtree_has(id, n);
        if n == id {
            assert(self.preorder(id, k)[0] == id);
        } else {
            let d = (self.depth(n) - self.depth(id)) as nat;
            if d == 0 {
                assert(self.up(n, 0) == n);
            }
            let c = self.up(n, (d - 1) as nat);
            self.lemma_up(n, (d - 1) as nat);
            assert(self.node_ok(c));
            assert(self.in_subtree(c, n));
            let j = choose|j: int| 0 <= j < self.children(id).len() && self.children(id)[j] == c;
            self.lemma_preorder_complete(c, (k - 1) as nat, n);
            self.lemma_forest_contains(self.children(id), j, (k - 1) as nat, n);
            lemma_contains_add(seq![id], self.forest(self.children(id), (k - 1) as nat), n);
        }
    }

    /// A walk starts with the node it starts from.
    pub proof fn lemma_subtree_first(self, id: usize)
        ensures
            self.subtree(id).len() >= 1,
            self.subtree(id)[0] == id,
            forall|k: nat| self.preorder(id, k).len() >= 1 && #[trigger] self.preorder(id, k)[0] == id,
    {
    }

    /// The walk over a whole subtree reaches its bottom.
    pub proof fn lemma_subtree_covers(self, id: usize)
        requires
            self.wf(),
            self.has(id),
        ensures
            self.depth(id) <= self.height(),
            self.covers(id, (self.height() - self.depth(id)) as nat),
    {
        self.lemma_height();
    }

    /// The whole subtree lists exactly what lies at or below the node.
    pub proof fn lemma_subtree_members(self, id: usize, n: usize)
        requires
            self.wf(),
            self.has(id),
        ensures
            self.subtree(id).contains(n) <==> self.in_subtree(id, n),
    {
        self.lemma_height();
        let k = (self.height() - self.depth(id)) as nat;
        if self.subtree(id).contains(n) {
            self.lemma_preorder_sound(id, k, n);
        }
        if self.in_subtree(id, n) {
            self.lemma_preorder_complete(id, k, n);
        }
    }

    /// No walk lists a node twice.
    pub proof fn lemma_preorder_no_dup(self, id: usize, k: nat)
        requires
            self.wf(),
            self.has(id),
        ensures
            self.preorder(id, k).no_duplicates(),
        decreases k, 0nat,
    {
        if k > 0 {
            let kids = self.children(id);
            let rest = self.forest(kids, (k - 1) as nat);
            assert(self.node_ok(id));
            self.lemma_forest_no_dup(id, kids.len() as int, (k - 1) as nat);
            assert(kids.take(kids.len() as int) =~= kids);
            assert(!rest.contains(id)) by {
                if rest.contains(id) {
                    let j = self.lemma_forest_member(kids, (k - 1) as nat, id);
                    assert(self.up(id, 0) == id);
                    self.lemma_subtree_child(id, id, j);
                    self.lemma_preorder_sound(kids[j], (k - 1) as nat, id);
                }
            }
            vstd::seq_lib::lemma_no_dup_in_concat(seq![id], rest);
        }
    }

    /// No walk from the first `upto` children of `p` lists a node twice.
    pub proof fn lemma_forest_no_dup(self, p: usize, upto: int, k: nat)
        requires
            self.wf(),
            self.has(p),
            0 <= upto <= self.children(p).len(),
        ensures
            self.forest(self.children(p).take(upto), k).no_duplicates(),
        decreases k, upto + 1,
    {
        let ids = self.children(p).take(upto);
        if upto > 0 {
            assert(self.node_ok(p));
            assert(self.up(p, 0) == p);
            let c = self.children(p)[upto - 1];
            assert(ids.drop_last() =~= self.children(p).take(upto - 1));
            assert(ids.last() == c);
            self.lemma_subtree_child(p, p, upto - 1);
            self.lemma_forest_no_dup(p, upto - 1, k);
            self.lemma_preorder_no_dup(c, k);
            let a = self.forest(ids.drop_last(), k);
            let b = self.preorder(c, k);
            assert forall|i: int, j: int| 0 <= i < a.len() && 0 <= j < b.len() implies a[i]
                != b[j] by {
                if a[i] == b[j] {
                    let n = a[i];
                    assert(a.contains(n));
                    assert(b.contains(n));
                    let m = self.lemma_forest_member(ids.drop_last(), k, n);
                    let c2 = ids.drop_last()[m];
                    assert(c2 == self.children(p)[m]);
                    self.lemma_subtree_child(p, p, m);
                    self.lemma_preorder_sound(c2, k, n);
                    self.lemma_preorder_sound(c, k, n);
                    self.lemma_subtree_unique(c, c2, n);
                }
            }
            vstd::seq_lib::lemma_no_dup_in_concat(a, b);
        }
    }

    /// What a node's whole subtree lists behind the node are its descendants.
    pub proof fn lemma_descendants(self, id: usize)
        requires
            self.wf(),
            self.has(id),
        ensures
            self.subtree(id).skip(1).to_set() == self.descendants(id),
            self.subtree(id).no_duplicates(),
    {
        let s = self.subtree(id);
        self.lemma_preorder_no_dup(id, (self.height() - self.depth(id)) as nat);
        self.lemma_subtree_first(id);
        assert(s[0] == id);
        assert forall|n: usize| s.skip(1).to_set().contains(n) <==> self.descendants(id).contains(
            n,
        ) by {
            self.lemma_subtree_members(id, n);
            if s.skip(1).contains(n) {
                let i = choose|i: int| 0 <= i < s.skip(1).len() && s.skip(1)[i] == n;
                assert(s[i + 1] == n);
                assert(s.contains(n));
                assert(n != id);
            }
            if self.in_subtree(id, n) && n != id {
                assert(s.contains(n));
                let i = choose|i: int| 0 <= i < s.len() && s[i] == n;
                assert(i != 0);
                assert(s.skip(1)[i - 1] == n);
                assert(s.skip(1).contains(n));
            }
        }
        assert(s.skip(1).to_set() =~= self.descendants(id));
    }

    /// A walk of no levels lists the node it starts from and nothing else; a
    /// walk of `k` levels lists no node that lies more than `k` edges below
    /// the one it starts from, and none that does not lie at or below it.
    pub proof fn lemma_depth_window(self, id: usize, k: nat)
        requires
            self.wf(),
            self.has(id),
        ensures
            self.preorder(id, 0) == seq![id],
            forall|n: usize| #[trigger]
                self.preorder(id, k).contains(n) ==> self.in_subtree(id, n) && self.depth(n)
                    - self.depth(id) <= k && self.up(n, (self.depth(n) - self.depth(id)) as nat)
                    == id,
    {
        assert forall|n: usize| #[trigger] self.preorder(id, k).contains(n) implies self.in_subtree(
            id,
            n,
        ) && self.depth(n) - self.depth(id) <= k && self.up(
            n,
            (self.depth(n) - self.depth(id)) as nat,
        ) == id by {
            self.lemma_preorder_sound(id, k, n);
        }
    }

    /// Walks that reach the bottom list the same nodes in two trees that give
    /// every node at or below `id` the same children.
    pub proof fn lemma_preorder_frame(self, other: Topology, id: usize, k1: nat, k2: nat)
        requires
            self.wf(),
            other.wf(),
            self.has(id),
            other.has(id),
            forall|n: usize| #[trigger]
                self.in_subtree(id, n) ==> other.has(n) && other.children(n) == self.children(n),
            self.covers(id, k1),
            other.covers(id, k2),
        ensures
            self.preorder(id, k1) == other.preorder(id, k2),
        decreases k1, 0nat,
    {
        assert(self.up(id, 0) == id);
        assert(other.up(id, 0) == id);
        assert(self.in_subtree(id, id));
        assert(other.in_subtree(id, id));
        let kids = self.children(id);
        assert(other.children(id) == kids);
        if kids.len() == 0 {
            assert(self.forest(kids, (k1 - 1) as nat) =~= Seq::<usize>::empty());
            assert(other.forest(kids, (k2 - 1) as nat) =~= Seq::<usize>::empty());
            assert(self.preorder(id, k1) =~= seq![id]);
            assert(other.preorder(id, k2) =~= seq![id]);
        } else {
            self.lemma_subtree_child(id, id, 0);
            other.lemma_subtree_child(id, id, 0);
            assert(k1 > 0);
            assert(k2 > 0);
            self.lemma_forest_frame(other, id, kids.len() as int, k1, k2);
            assert(kids.take(kids.len() as int) =~= kids);
        }
    }

    /// The same for the walks from the first `upto` children of `id`.
    pub proof fn lemma_forest_frame(self, other: Topology, id: usize, upto: int, k1: nat, k2: nat)
        requires
            self.wf(),
            other.wf(),
            self.has(id),
            other.has(id),
            forall|n: usize| #[trigger]
                self.in_subtree(id, n) ==> other.has(n) && other.children(n) == self.children(n),
            self.covers(id, k1),
            other.covers(id, k2),
            k1 > 0,
            k2 > 0,
            0 <= upto <= self.children(id).len(),
        ensures
            self.forest(self.children(id).take(upto), (k1 - 1) as nat) == other.forest(
                self.children(id).take(upto),
                (k2 - 1) as nat,
            ),
        decreases k1 - 1, upto + 1,
    {
        let ids = self.children(id).take(upto);
        if upto > 0 {
            assert(self.up(id, 0) == id);
            assert(other.up(id, 0) == id);
            assert(self.in_subtree(id, id));
            assert(other.children(id) == self.children(id));
            let c = self.children(id)[upto - 1];
            assert(ids.drop_last() =~= self.children(id).take(upto - 1));
            assert(ids.last() == c);
            self.lemma_subtree_child(id, id, upto - 1);
            other.lemma_subtree_child(id, id, upto - 1);
            self.lemma_forest_frame(other, id, upto - 1, k1, k2);
            assert forall|n: usize| #[trigger] self.in_subtree(c, n) implies other.has(n)
                && other.children(n) == self.children(n) by {
                self.lemma_subtree_trans(id, c, n);
            }
            assert(self.covers(c, (k1 - 1) as nat)) by {
                assert forall|n: usize| #[trigger] self.in_subtree(c, n) implies self.depth(n)
                    <= self.depth(c) + (k1 - 1) by {
                    self.lemma_subtree_trans(id, c, n);
                }
            }
            assert(other.covers(c, (k2 - 1) as nat)) by {
                assert forall|n: usize| #[trigger] other.in_subtree(c, n) implies other.depth(n)
                    <= other.depth(c) + (k2 - 1) by {
                    other.lemma_subtree_trans(id, c, n);
                }
            }
            self.lemma_preorder_frame(other, c, (k1 - 1) as nat, (k2 - 1) as nat);
        }
    }

    /// Two trees that give every node at or below `id` the same children list
    /// the same whole subtree of `id`.
    pub proof fn lemma_subtree_frame(self, other: Topology, id: usize)
        requires
            self.wf(),
            other.wf(),
            self.has(id),
            other.has(id),
            forall|n: usize| #[trigger]
                self.in_subtree(id, n) ==> other.has(n) && other.children(n) == self.children(n),
        ensures
            self.subtree(id) == other.subtree(id),
    {
        self.lemma_subtree_covers(id);
        other.lemma_subtree_covers(id);
        self.lemma_preorder_frame(
            other,
            id,
            (self.height() - self.depth(id)) as nat,
            (other.height() - other.depth(id)) as nat,
        );
    }

    /// A whole subtree is its top and then the whole subtrees of the children.
    pub proof fn lemma_subtree_unfold(self, id: usize)
        requires
            self.wf(),
            self.has(id),
        ensures
            self.subtree(id) == seq![id] + self.subtrees(self.children(id)),
    {
        self.lemma_subtree_covers(id);
        let k = (self.height() - self.depth(id)) as nat;
        let kids = self.children(id);
        assert(self.up(id, 0) == id);
        if kids.len() == 0 {
            assert(self.subtrees(kids) =~= Seq::<usize>::empty());
            assert(self.forest(kids, (k - 1) as nat) =~= Seq::<usize>::empty());
            assert(self.subtree(id) =~= seq![id]);
        } else {
            self.lemma_subtree_child(id, id, 0);
            assert(k > 0);
            self.lemma_subtrees_forest(id, kids.len() as int);
            assert(kids.take(kids.len() as int) =~= kids);
        }
    }

    /// The walks from the children of a node that reach the bottom are the
    /// whole subtrees of the children.
    pub proof fn lemma_subtrees_forest(self, id: usize, upto: int)
        requires
            self.wf(),
            self.has(id),
            0 <= upto <= self.children(id).len(),
            self.depth(id) < self.height(),
        ensures
            self.subtrees(self.children(id).take(upto)) == self.forest(
                self.children(id).take(upto),
                (self.height() - self.depth(id) - 1) as nat,
            ),
        decreases upto,
    {
        let ids = self.children(id).take(upto);
        if upto > 0 {
            assert(self.up(id, 0) == id);
            assert(ids.drop_last() =~= self.children(id).take(upto - 1));
            assert(ids.last() == self.children(id)[upto - 1]);
            self.lemma_subtree_child(id, id, upto - 1);
            self.lemma_subtrees_forest(id, upto - 1);
        }
    }

    /// The whole subtrees of a list are those of its first element and then
    /// those of the others.
    pub proof fn lemma_subtrees_front(self, ids: Seq<usize>)
        requires
            ids.len() > 0,
        ensures
            self.subtrees(ids) == self.subtree(ids[0]) + self.subtrees(ids.skip(1)),
        decreases ids.len(),
    {
        if ids.len() == 1 {
            assert(ids.drop_last() =~= Seq::<usize>::empty());
            assert(ids.skip(1) =~= Seq::<usize>::empty());
            assert(self.subtrees(ids.drop_last()) =~= Seq::<usize>::empty());
            assert(self.subtrees(ids) =~= self.subtree(ids[0]) + self.subtrees(ids.skip(1)));
        } else {
            self.lemma_subtrees_front(ids.drop_last());
            assert(ids.drop_last().skip(1) =~= ids.skip(1).drop_last());
            assert(ids.skip(1).last() == ids.last());
            assert(ids.drop_last()[0] == ids[0]);
            assert(self.subtrees(ids) =~= self.subtree(ids[0]) + self.subtrees(ids.skip(1)));
        }
    }

    /// The whole subtrees of a list with one more element.
    pub proof fn lemma_subtrees_push(self, ids: Seq<usize>, c: usize)
        ensures
            self.subtrees(ids.push(c)) == self.subtrees(ids) + self.subtree(c),
    {
        assert(ids.push(c).drop_last() =~= ids);
    }

    /// The whole subtrees of the first elements of a list stand in front of
    /// those of the whole list.
    pub proof fn lemma_subtrees_prefix(self, ids: Seq<usize>, m: int)
        requires
            0 <= m <= ids.len(),
        ensures
            self.subtrees(ids.take(m)).len() <= self.subtrees(ids).len(),
            self.subtrees(ids).subrange(0, self.subtrees(ids.take(m)).len() as int)
                == self.subtrees(ids.take(m)),
        decreases ids.len(),
    {
        if m == ids.len() {
            assert(ids.take(m) =~= ids);
            assert(self.subtrees(ids).subrange(0, self.subtrees(ids).len() as int)
                =~= self.subtrees(ids));
        } else {
            self.lemma_subtrees_prefix(ids.drop_last(), m);
            assert(ids.drop_last().take(m) =~= ids.take(m));
            assert(self.subtrees(ids).subrange(0, self.subtrees(ids.take(m)).len() as int)
                =~= self.subtrees(ids.take(m)));
        }
    }

    /// Where a list holds the whole subtree of a node, it holds behind the
    /// node the whole subtrees of the children, each behind the one before.
    pub proof fn lemma_aligned_child(self, list: Seq<usize>, idx: int, j: int)
        requires
            self.wf(),
            self.has(list[idx]),
            self.aligned(list, idx),
            0 <= j < self.children(list[idx]).len(),
        ensures
            self.aligned(
                list,
                idx + 1 + self.subtrees(self.children(list[idx]).take(j)).len(),
            ),
            list[idx + 1 + self.subtrees(self.children(list[idx]).take(j)).len()]
                == self.children(list[idx])[j],
            self.subtrees(self.children(list[idx]).take(j + 1)) == self.subtrees(
                self.children(list[idx]).take(j),
            ) + self.subtree(self.children(list[idx])[j]),
            idx + 1 + self.subtrees(self.children(list[idx]).take(j + 1)).len() <= idx
                + self.subtree(list[idx]).len(),
    {
        let src = list[idx];
        let kids = self.children(src);
        let x = kids[j];
        self.lemma_subtree_unfold(src);
        self.lemma_subtrees_prefix(kids, j);
        self.lemma_subtrees_prefix(kids, j + 1);
        assert(kids.take(j + 1) =~= kids.take(j).push(x));
        self.lemma_subtrees_push(kids.take(j), x);
        self.lemma_subtree_first(x);
        let a = self.subtrees(kids.take(j)).len() as int;
        let b = self.subtrees(kids.take(j + 1)).len() as int;
        let whole = self.subtree(src);
        let all = self.subtrees(kids);
        assert(whole.len() == 1 + all.len());
        assert(b == a + self.subtree(x).len());
        let pos = idx + 1 + a;
        assert forall|i: int| 0 <= i < self.subtree(x).len() implies list[pos + i]
            == self.subtree(x)[i] by {
            assert(list.subrange(idx, idx + whole.len())[1 + a + i] == whole[1 + a + i]);
            assert(whole[1 + a + i] == all[a + i]);
            assert(all.subrange(0, b)[a + i] == self.subtrees(kids.take(j + 1))[a + i]);
        }
        assert(list[pos + 0] == self.subtree(x)[0]);
        assert(list.subrange(pos, pos + self.subtree(x).len()) =~= self.subtree(x));
    }

    /// The index of a child is the place where its parent lists it.
    pub proof fn lemma_child_index(self, id: usize)
        requires
            self.wf(),
            self.has(id),
            id != self.root,
        ensures
            self.parent(id) is Some,
            self.has(self.parent(id)->0),
            0 <= self.child_index(id) < self.children(self.parent(id)->0).len(),
            self.children(self.parent(id)->0)[self.child_index(id)] == id,
    {
        assert(self.node_ok(id));
    }

    /// A place that `slot` names is a node and an index into its children.
    pub proof fn lemma_slot(self, pos: Position, reference: usize)
        requires
            self.wf(),
            self.has(reference),
            self.placeable(pos, reference),
        ensures
            self.has(self.slot(pos, reference).0),
            0 <= self.slot(pos, reference).1 <= self.children(self.slot(pos, reference).0).len(),
    {
        assert(self.node_ok(reference));
        if pos == Position::SiblingBefore || pos == Position::SiblingAfter {
            self.lemma_child_index(reference);
        }
    }

    /// A tree with one leaf more is a tree.
    #[verifier::rlimit(50)]
    pub proof fn lemma_with_leaf_wf(self, id: usize, p: usize, k: int)
        requires
            self.wf(),
            self.has(p),
            !self.has(id),
            0 <= k <= self.children(p).len(),
        ensures
            self.with_leaf(id, p, k).wf(),
    {
        let t = self.with_leaf(id, p, k);
        assert(self.node_ok(p));
        assert(self.node_ok(self.root));
        assert(!self.children(p).contains(id)) by {
            if self.children(p).contains(id) {
                let i = choose|i: int| 0 <= i < self.children(p).len() && self.children(p)[i] == id;
                assert(self.has(self.children(p)[i]));
            }
        }
        lemma_insert_props(self.children(p), k, id);
        assert forall|n: usize| #[trigger] t.has(n) implies t.node_ok(n) by {
            if n == id {
                assert(t.children(n) =~= Seq::<usize>::empty());
                assert(t.node_ok(n));
            } else {
                assert(self.has(n));
                assert(self.node_ok(n));
                if n == p {
                    assert forall|i: int| 0 <= i < t.children(n).len() implies t.has(
                        #[trigger] t.children(n)[i],
                    ) && t.parent(t.children(n)[i]) == Some(n) by {
                        let c = t.children(n)[i];
                        assert(t.children(n).contains(c));
                        if c != id {
                            let j = choose|j: int|
                                0 <= j < self.children(p).len() && self.children(p)[j] == c;
                            assert(self.has(self.children(p)[j]));
                            assert(self.node_ok(c));
                        }
                    }
                } else {
                    assert(t.children(n) == self.children(n));
                    assert forall|i: int| 0 <= i < t.children(n).len() implies t.has(
                        #[trigger] t.children(n)[i],
                    ) && t.parent(t.children(n)[i]) == Some(n) by {
                        let c = self.children(n)[i];
                        assert(self.has(c));
                        assert(self.node_ok(c));
                    }
                }
                match self.parent(n) {
                    None => {},
                    Some(q) => {
                        assert(self.node_ok(q));
                        assert(t.children(q).contains(n));
                    },
                }
                assert(t.node_ok(n));
            }
        }
        let h = self.height();
        assert(t.bounded(h + 1)) by {
            assert forall|n: usize| #[trigger] t.has(n) implies t.depth(n) <= h + 1 by {
                if n != id {
                    assert(self.has(n));
                } else {
                    assert(self.has(p));
                }
            }
        }
    }

    /// A tree without one of its subtrees is a tree.
    #[verifier::rlimit(50)]
    pub proof fn lemma_without_wf(self, id: usize)
        requires
            self.wf(),
            self.has(id),
            id != self.root,
        ensures
            self.without(id).wf(),
            self.without(id).has(self.root),
            forall|n: usize| self.without(id).has(n) <==> self.has(n) && !self.in_subtree(id, n),
    {
        let t = self.without(id);
        let p = self.parent(id)->0;
        let idx = self.child_index(id);
        self.lemma_child_index(id);
        assert(self.node_ok(p));
        assert(self.node_ok(self.root));
        lemma_remove_props(self.children(p), idx);
        assert(!self.in_subtree(id, self.root)) by {
            if self.in_subtree(id, self.root) {
                assert(self.up(self.root, 0) == self.root);
            }
        }
        assert(!self.in_subtree(id, p)) by {
            if self.in_subtree(id, p) {
                assert(self.up(id, 0) == id);
                assert(self.node_ok(id));
                self.lemma_subtree_child(id, p, idx);
            }
        }
        assert forall|n: usize| #[trigger] t.has(n) implies t.node_ok(n) by {
            assert(self.has(n));
            assert(self.node_ok(n));
            match self.parent(n) {
                None => {},
                Some(q) => {
                    assert(self.node_ok(q));
                    let i = choose|i: int| 0 <= i < self.children(q).len() && self.children(q)[i] == n;
                    if self.in_subtree(id, q) {
                        self.lemma_subtree_child(id, q, i);
                    }
                    assert(n != id) by {
                        assert(self.up(id, 0) == id);
                    }
                    assert(t.children(q).contains(n));
                },
            }
            assert forall|i: int| 0 <= i < t.children(n).len() implies t.has(
                #[trigger] t.children(n)[i],
            ) && t.parent(t.children(n)[i]) == Some(n) by {
                let c = t.children(n)[i];
                assert(t.children(n).contains(c));
                assert(self.children(n).contains(c));
                let j = choose|j: int| 0 <= j < self.children(n).len() && self.children(n)[j] == c;
                assert(self.has(self.children(n)[j]));
                assert(self.node_ok(c));
                if self.in_subtree(id, c) {
                    if c != id {
                        self.lemma_subtree_parent(id, c);
                    }
                }
            }
            assert(t.node_ok(n));
        }
        let h = self.height();
        assert(t.bounded(h)) by {
            assert forall|n: usize| #[trigger] t.has(n) implies t.depth(n) <= h by {
                assert(self.has(n));
            }
        }
    }

    /// Where a move puts a node: outside of what moves, at an index of the
    /// children that the new parent has once the node has left its old one.
    #[verifier::rlimit(50)]
    pub proof fn lemma_move_slot(self, node: usize, pos: Position, reference: usize)
        requires
            self.wf(),
            self.has(node),
            self.has(reference),
            !self.in_subtree(node, reference),
            self.placeable(pos, reference),
        ensures
            node != self.root,
            self.has(self.detached(node).slot(pos, reference).0),
            !self.in_subtree(node, self.detached(node).slot(pos, reference).0),
            0 <= self.detached(node).slot(pos, reference).1 <= self.detached(node).children(
                self.detached(node).slot(pos, reference).0,
            ).len(),
            self.detached(node).children(self.detached(node).slot(pos, reference).0).no_duplicates(),
            !self.detached(node).children(self.detached(node).slot(pos, reference).0).contains(
                node,
            ),
            self.detached(node).slot_ready(pos, reference),
    {
        let t1 = self.detached(node);
        let (q, k) = t1.slot(pos, reference);
        if node == self.root {
            self.lemma_root_subtree(reference);
        }
        let p = self.parent(node)->0;
        let idx = self.child_index(node);
        self.lemma_child_index(node);
        assert(self.node_ok(p));
        assert(self.node_ok(node));
        assert(self.node_ok(reference));
        lemma_remove_props(self.children(p), idx);
        assert(reference != node) by {
            assert(self.up(node, 0) == node);
        }
        assert(t1.parent(reference) == self.parent(reference));
        if pos == Position::SiblingBefore || pos == Position::SiblingAfter {
            self.lemma_child_index(reference);
            assert(q == self.parent(reference)->0);
            assert(self.node_ok(q));
            assert(t1.children(q).contains(reference));
            if self.in_subtree(node, q) {
                self.lemma_subtree_child(node, q, self.child_index(reference));
            }
        } else {
            assert(q == reference);
        }
        assert(self.node_ok(q));
        if q != p {
            assert(t1.children(q) == self.children(q));
            if self.children(q).contains(node) {
                let i = choose|i: int| 0 <= i < self.children(q).len() && self.children(q)[i] == node;
                assert(self.parent(self.children(q)[i]) == Some(q));
            }
        }
    }

    /// A tree stays a tree when a subtree moves to a place outside itself.
    #[verifier::rlimit(40)]
    pub proof fn lemma_moved_wf(self, node: usize, pos: Position, reference: usize)
        requires
            self.wf(),
            self.has(node),
            self.has(reference),
            !self.in_subtree(node, reference),
            self.placeable(pos, reference),
        ensures
            self.moved(node, pos, reference).wf(),
    {
        let t1 = self.detached(node);
        let (q, k) = t1.slot(pos, reference);
        let t = self.moved(node, pos, reference);
        self.lemma_move_slot(node, pos, reference);
        let p = self.parent(node)->0;
        let idx = self.child_index(node);
        self.lemma_child_index(node);
        assert(self.node_ok(p));
        assert(self.node_ok(node));
        assert(self.node_ok(q));
        assert(self.node_ok(self.root));
        lemma_remove_props(self.children(p), idx);
        lemma_insert_props(t1.children(q), k, node);
        assert(self.up(node, 0) == node);
        assert(!self.in_subtree(node, self.root)) by {
            if self.in_subtree(node, self.root) {
                assert(self.up(self.root, 0) == self.root);
            }
        }
        assert forall|n: usize| #[trigger] t.has(n) implies t.node_ok(n) by {
            assert(self.has(n));
            assert(self.node_ok(n));
            if n != node {
                match self.parent(n) {
                    None => {},
                    Some(m) => {
                        assert(self.node_ok(m));
                        let i = choose|i: int|
                            0 <= i < self.children(m).len() && self.children(m)[i] == n;
                        if self.in_subtree(node, m) {
                            self.lemma_subtree_child(node, m, i);
                        }
                        if self.in_subtree(node, n) {
                            self.lemma_subtree_parent(node, n);
                        }
                        assert(t1.children(m).contains(n));
                        assert(t.children(m).contains(n));
                    },
                }
            }
            assert(t.children(n).no_duplicates());
            assert forall|i: int| 0 <= i < t.children(n).len() implies t.has(
                #[trigger] t.children(n)[i],
            ) && t.parent(t.children(n)[i]) == Some(n) by {
                let c = t.children(n)[i];
                assert(t.children(n).contains(c));
                if c != node {
                    assert(t1.children(n).contains(c));
                    assert(self.children(n).contains(c));
                    let j = choose|j: int|
                        0 <= j < self.children(n).len() && self.children(n)[j] == c;
                    assert(self.has(self.children(n)[j]));
                } else {
                    if n != q {
                        assert(t1.children(n).contains(node));
                        if n != p {
                            let j = choose|j: int|
                                0 <= j < self.children(n).len() && self.children(n)[j] == node;
                            assert(self.parent(self.children(n)[j]) == Some(n));
                        }
                    }
                }
            }
            assert(t.node_ok(n));
        }
        let h = self.height();
        assert(t.bounded(h + h + 1)) by {
            assert forall|n: usize| #[trigger] t.has(n) implies t.depth(n) <= h + h + 1 by {
                assert(self.has(n));
                assert(self.has(q));
            }
        }
    }
}

} // verus!
