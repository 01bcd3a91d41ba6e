//! The task list: a tree of tasks, the stack of nodes that the listing was
//! focused on, and the number of levels that the listing shows.

use vstd::prelude::*;
use crate::codec::{encodable, parse_node, tree_bytes, tree_records};
use crate::completion::{
    chain_done, chain_raised, done, lemma_marked_stop, lemma_partial_above,
    lemma_partial_children, lemma_partial_step, marked, marked_partial, toggled,
};
use crate::entry::Entry;
use crate::topology::Position;
use crate::tree::{NodeInfo, Tree, TreeError};
use crate::tree_view::{clone_error, grafted, info_list, insert_error, move_error, TreeView};

verus! {

/// What a task list is.
pub struct CoreView {
    pub tree: TreeView<Entry>,
    /// The nodes that the listing was focused on, the present one last.
    pub roots: Seq<usize>,
    /// The number of levels that the listing shows below its top.
    pub depth: usize,
}

/// A task list.
pub struct Core {
    roots: Vec<usize>,
    depth: usize,
    tree: Tree<Entry>,
}

impl View for Core {
    type V = CoreView;

    closed spec fn view(&self) -> CoreView {
        CoreView { tree: self.tree@, roots: self.roots@, depth: self.depth }
    }
}

impl CoreView {
    /// The tree is a tree, and the listing is focused on one of its nodes, as
    /// it was before on others of its nodes.
    pub open spec fn wf(self) -> bool {
        &&& self.tree.wf()
        &&& self.roots.len() > 0
        &&& forall|i: int| 0 <= i < self.roots.len() ==> self.tree.has(#[trigger] self.roots[i])
    }

    /// The node that the listing is focused on.
    pub open spec fn top(self) -> usize {
        self.roots.last()
    }
}

/// Why a task cannot be deleted, if it cannot: there is no such task, or the
/// listing is or was focused on it or on something below it.
pub open spec fn delete_error(cv: CoreView, id: usize) -> Option<TreeError> {
    if !cv.tree.has(id) {
        Some(TreeError::NotFound)
    } else if exists|i: int| 0 <= i < cv.roots.len() && cv.tree.topo.in_subtree(
        id,
        #[trigger] cv.roots[i],
    ) {
        Some(TreeError::CannotRemoveRoot)
    } else {
        None
    }
}

impl Core {
    /// The list is one: its tree is a tree, and the listing is focused on a node of it.
    pub open spec fn wf(&self) -> bool {
        self@.wf()
    }

    /// A list of one task, not done, with a listing of two levels below it.
    pub fn new(name: String) -> (r: Core)
        ensures
            r.wf(),
            r@.roots == seq![0usize],
            r@.depth == 2,
            r@.tree.topo.root == 0,
            r@.tree.topo.children(0) == Seq::<usize>::empty(),
            r@.tree.data == map![0usize => Entry { name: name, complete: false }],
            forall|n: usize| r@.tree.has(n) <==> n == 0,
    {
        let tree = Tree::new_with_root(Entry { name: name, complete: false });
        let mut roots: Vec<usize> = Vec::new();
        roots.push(0);
        let r = Core { tree, roots, depth: 2 };
        assert(r@.roots =~= seq![0usize]);
        assert(r@.tree.has(0));
        r
    }

    /// The list that bytes store, with the listing focused on the root and
    /// two levels deep.
    pub fn load(bytes: &[u8]) -> (r: Result<Core, TreeError>)
        ensures
            r is Ok <==> parse_node(bytes@, 0) is Some,
            r is Err ==> r->Err_0 == TreeError::CorruptData,
            r is Ok ==> {
                &&& r->Ok_0.wf()
                &&& r->Ok_0@.roots == seq![r->Ok_0@.tree.topo.root]
                &&& r->Ok_0@.depth == 2
                &&& tree_records(r->Ok_0@.tree) == (parse_node(bytes@, 0)->0).0
            },
    {
        match Tree::from_bytes(bytes) {
            Ok(tree) => {
                let root = match tree.get_root() {
                    Some(x) => x,
                    None => 0,
                };
                let mut roots: Vec<usize> = Vec::new();
                roots.push(root);
                let core = Core { depth: 2, roots, tree };
                assert(core@.roots =~= seq![core@.tree.topo.root]);
                Ok(core)
            },
            Err(e) => Err(e),
        }
    }

    /// Whether the list can be stored: no name is longer, and no task has
    /// more children, than the file format can count.
    pub fn can_save(&self) -> (r: bool)
        requires
            self.wf(),
        ensures
            r == encodable(self@.tree),
    {
        self.tree.can_encode()
    }

    /// The bytes that store the list: the whole tree, wherever the listing
    /// is focused.
    pub fn save(&self) -> (r: Vec<u8>)
        requires
            self.wf(),
            encodable(self@.tree),
        ensures
            r@ == tree_bytes(self@.tree),
    {
        self.tree.into_bytes()
    }

    /// The name of the list: that of the root.
    pub fn name(&self) -> (r: &str)
        requires
            self.wf(),
        ensures
            r@ == self@.tree.data[self@.tree.topo.root].name@,
    {
        let root = match self.tree.get_root() {
            Some(x) => x,
            None => 0,
        };
        match self.tree.data_at(root) {
            Ok(e) => e.name.as_str(),
            Err(_) => "",
        }
    }

    /// The root of the tree.
    pub fn root(&self) -> (r: usize)
        ensures
            r == self@.tree.topo.root,
    {
        match self.tree.get_root() {
            Some(x) => x,
            None => 0,
        }
    }

    /// The node that the listing is focused on.
    pub fn current_root(&self) -> (r: usize)
        requires
            self.wf(),
        ensures
            r == self@.top(),
            self@.tree.has(r),
    {
        self.roots[self.roots.len() - 1]
    }

    /// The number of levels that the listing shows.
    pub fn depth(&self) -> (r: usize)
        ensures
            r == self@.depth,
    {
        self.depth
    }

    /// Shows `amount` levels more.
    pub fn inc_depth(&mut self, amount: usize)
        requires
            old(self)@.depth + amount <= usize::MAX,
        ensures
            final(self)@.depth == old(self)@.depth + amount,
            final(self)@.tree == old(self)@.tree,
            final(self)@.roots == old(self)@.roots,
    {
        self.depth += amount;
    }

    /// Shows `amount` levels fewer, and none where there are not so many.
    pub fn dec_depth(&mut self, amount: usize)
        ensures
            final(self)@.depth == (if amount > old(self)@.depth {
                0
            } else {
                old(self)@.depth - amount
            }),
            final(self)@.tree == old(self)@.tree,
            final(self)@.roots == old(self)@.roots,
    {
        if amount > self.depth {
            self.depth = 0;
        } else {
            self.depth -= amount;
        }
    }

    /// The nodes of the listing: the focused node and what lies below it, as
    /// many levels as the listing shows.
    pub fn get_entry_ids(&self) -> (r: Vec<usize>)
        requires
            self.wf(),
        ensures
            r@ == self@.tree.topo.preorder(self@.top(), self@.depth as nat),
    {
        let top = self.current_root();
        match self.tree.sub_tree_depth(top, self.depth) {
            Ok(v) => v,
            Err(_) => Vec::new(),
        }
    }

    /// The lines of the listing.
    pub fn get_entries_info(&self) -> (r: Vec<NodeInfo>)
        requires
            self.wf(),
        ensures
            r@ == info_list(
                self@.tree.topo,
                self@.tree.topo.preorder(self@.top(), self@.depth as nat),
                self@.tree.topo.depth(self@.top()) as int,
            ),
    {
        let top = self.current_root();
        match self.tree.sub_tree_depth_info(top, self.depth) {
            Ok(v) => v,
            Err(_) => Vec::new(),
        }
    }

    /// The task of a node.
    pub fn get_entry(&self, id: usize) -> (r: Result<&Entry, TreeError>)
        ensures
            r is Ok <==> self@.tree.has(id),
            r is Ok ==> *r->Ok_0 == self@.tree.data[id],
            r is Err ==> r->Err_0 == TreeError::NotFound,
    {
        self.tree.data_at(id)
    }

    /// The parent of a node that has one.
    pub fn parent_id(&self, id: usize) -> (r: usize)
        requires
            self.wf(),
            self@.tree.has(id),
            id != self@.tree.topo.root,
        ensures
            self@.tree.topo.parent(id) == Some(r),
    {
        proof {
            assert(self@.tree.topo.node_ok(id));
        }
        match self.tree.parent_of(id) {
            Ok(Some(p)) => p,
            _ => id,
        }
    }

    /// The nodes below `id`.
    pub fn descendants_of(&self, id: usize) -> (r: Result<Vec<usize>, TreeError>)
        requires
            self.wf(),
        ensures
            r is Ok <==> self@.tree.has(id),
            r is Ok ==> r->Ok_0@ == self@.tree.topo.subtree(id).skip(1),
            r is Ok ==> r->Ok_0@.to_set() == self@.tree.topo.descendants(id),
            r is Err ==> r->Err_0 == TreeError::NotFound,
    {
        self.tree.descendants_of(id)
    }

    /// A new task, not done, at `pos` relative to `id`.
    pub fn new_entry(&mut self, name: String, pos: Position, id: usize) -> (r: Result<
        usize,
        TreeError,
    >)
        requires
            old(self).wf(),
        ensures
            final(self).wf(),
            final(self)@.roots == old(self)@.roots,
            final(self)@.depth == old(self)@.depth,
            r is Err <==> insert_error(old(self)@.tree.topo, pos, id) is Some,
            r is Err ==> r->Err_0 == insert_error(old(self)@.tree.topo, pos, id)->0,
            r is Err ==> final(self)@.tree == old(self)@.tree,
            r is Ok ==> !old(self)@.tree.has(r->Ok_0) && final(self)@.tree == old(self)@.tree.with_leaf(
                r->Ok_0,
                Entry { name: name, complete: false },
                old(self)@.tree.topo.slot(pos, id).0,
                old(self)@.tree.topo.slot(pos, id).1,
            ),
    {
        self.tree.new_node(Entry { name: name, complete: false }, pos, id)
    }

    /// Gives a task another name.
    pub fn rename(&mut self, id: usize, name: String) -> (r: Result<(), TreeError>)
        requires
            old(self).wf(),
        ensures
            final(self).wf(),
            final(self)@.roots == old(self)@.roots,
            final(self)@.depth == old(self)@.depth,
            final(self)@.tree.topo == old(self)@.tree.topo,
            r is Ok <==> old(self)@.tree.has(id),
            r is Ok ==> final(self)@.tree.data == old(self)@.tree.data.insert(
                id,
                Entry { name: name, complete: old(self)@.tree.data[id].complete },
            ),
            r is Err ==> r->Err_0 == TreeError::NotFound && final(self)@.tree == old(self)@.tree,
    {
        match self.tree.data_at_mut(id) {
            Ok(e) => {
                e.name = name;
            },
            Err(e) => {
                return Err(e);
            },
        }
        proof {
            assert(self@.tree.data.dom() =~= self@.tree.topo.links.dom());
        }
        Ok(())
    }

    /// Sets a task, and every task below it, to done, and then each ancestor
    /// whose children are all done by then, up to the first that stays as it
    /// is. A task that is done stays as it is, and so does all else.
    #[verifier::rlimit(50)]
    pub fn set_complete(&mut self, id: usize) -> (r: Result<(), TreeError>)
        requires
            old(self).wf(),
        ensures
            final(self).wf(),
            final(self)@.roots == old(self)@.roots,
            final(self)@.depth == old(self)@.depth,
            r is Ok <==> old(self)@.tree.has(id),
            r is Err ==> r->Err_0 == TreeError::NotFound && final(self)@.tree == old(self)@.tree,
            r is Ok ==> final(self)@.tree == (if done(old(self)@.tree, id) {
                old(self)@.tree
            } else {
                marked(old(self)@.tree, id, true)
            }),
    {
        if !self.tree.contains(id) {
            return Err(TreeError::NotFound);
        }
        if self.flag(id) {
            return Ok(());
        }
        let ghost t0 = self@.tree;
        self.mark_down(id, true);
        let mut cur = id;
        let ghost mut j: nat = 0;
        loop
            invariant
                self.wf(),
                t0.wf(),
                t0.has(id),
                self@.roots == old(self)@.roots,
                self@.depth == old(self)@.depth,
                t0.has(cur),
                j <= t0.topo.depth(id),
                cur == t0.topo.up(id, j),
                t0.topo.depth(cur) == t0.topo.depth(id) - j,
                chain_raised(t0, id, j),
                t0 == old(self)@.tree,
                !done(t0, id),
                self@.tree == marked_partial(t0, id, true, j),
            decreases t0.topo.depth(cur),
        {
            proof {
                t0.topo.lemma_up(id, j);
                assert(t0.topo.node_ok(cur));
            }
            let p = match self.tree.parent_of(cur) {
                Ok(Some(p)) => p,
                _ => {
                    proof {
                        lemma_marked_stop(t0, id, true, j);
                    }
                    return Ok(());
                },
            };
            proof {
                t0.topo.lemma_up(id, j + 1);
                lemma_partial_above(t0, id, true, j, p);
                lemma_partial_children(t0, id, j);
            }
            if self.flag(p) {
                proof {
                    lemma_marked_stop(t0, id, true, j);
                }
                return Ok(());
            }
            if !self.children_done(p) {
                proof {
                    lemma_marked_stop(t0, id, true, j);
                }
                return Ok(());
            }
            self.set_flag(p, true);
            proof {
                lemma_partial_step(t0, id, true, j);
                assert(self@.tree.data =~= marked_partial(t0, id, true, j + 1).data);
                j = j + 1;
            }
            cur = p;
        }
    }

    /// Sets a task, and every task below it, to not done, and then every
    /// ancestor up to the first that is not done. A task that is not done
    /// stays as it is, and so does all else.
    #[verifier::rlimit(50)]
    pub fn set_incomplete(&mut self, id: usize) -> (r: Result<(), TreeError>)
        requires
            old(self).wf(),
        ensures
            final(self).wf(),
            final(self)@.roots == old(self)@.roots,
            final(self)@.depth == old(self)@.depth,
            r is Ok <==> old(self)@.tree.has(id),
            r is Err ==> r->Err_0 == TreeError::NotFound && final(self)@.tree == old(self)@.tree,
            r is Ok ==> final(self)@.tree == (if done(old(self)@.tree, id) {
                marked(old(self)@.tree, id, false)
            } else {
                old(self)@.tree
            }),
    {
        if !self.tree.contains(id) {
            return Err(TreeError::NotFound);
        }
        if !self.flag(id) {
            return Ok(());
        }
        let ghost t0 = self@.tree;
        self.mark_down(id, false);
        let mut cur = id;
        let ghost mut j: nat = 0;
        loop
            invariant
                self.wf(),
                t0.wf(),
                t0.has(id),
                self@.roots == old(self)@.roots,
                self@.depth == old(self)@.depth,
                t0.has(cur),
                j <= t0.topo.depth(id),
                cur == t0.topo.up(id, j),
                t0.topo.depth(cur) == t0.topo.depth(id) - j,
                chain_done(t0, id, j),
                t0 == old(self)@.tree,
                done(t0, id),
                self@.tree == marked_partial(t0, id, false, j),
            decreases t0.topo.depth(cur),
        {
            proof {
                t0.topo.lemma_up(id, j);
                assert(t0.topo.node_ok(cur));
            }
            let p = match self.tree.parent_of(cur) {
                Ok(Some(p)) => p,
                _ => {
                    proof {
                        lemma_marked_stop(t0, id, false, j);
                    }
                    return Ok(());
                },
            };
            proof {
                t0.topo.lemma_up(id, j + 1);
                lemma_partial_above(t0, id, false, j, p);
            }
            if !self.flag(p) {
                proof {
                    lemma_marked_stop(t0, id, false, j);
                }
                return Ok(());
            }
            self.set_flag(p, false);
            proof {
                lemma_partial_step(t0, id, false, j);
                assert(self@.tree.data =~= marked_partial(t0, id, false, j + 1).data);
                j = j + 1;
            }
            cur = p;
        }
    }

    /// Turns the state of a task over: a task that is done is set to not
    /// done, one that is not done to done.
    pub fn toggle_comp(&mut self, id: usize) -> (r: Result<(), TreeError>)
        requires
            old(self).wf(),
        ensures
            final(self).wf(),
            final(self)@.roots == old(self)@.roots,
            final(self)@.depth == old(self)@.depth,
            r is Ok <==> old(self)@.tree.has(id),
            r is Err ==> r->Err_0 == TreeError::NotFound && final(self)@.tree == old(self)@.tree,
            r is Ok ==> final(self)@.tree == toggled(old(self)@.tree, id),
    {
        if !self.tree.contains(id) {
            return Err(TreeError::NotFound);
        }
        if self.flag(id) {
            self.set_incomplete(id)
        } else {
            self.set_complete(id)
        }
    }

    /// Removes a task and all that lies below it. The node that the listing
    /// is focused on, or was focused on before, stays, and so does all above it.
    pub fn delete(&mut self, id: usize) -> (r: Result<(), TreeError>)
        requires
            old(self).wf(),
        ensures
            final(self).wf(),
            final(self)@.roots == old(self)@.roots,
            final(self)@.depth == old(self)@.depth,
            r is Err <==> delete_error(old(self)@, id) is Some,
            r is Err ==> r->Err_0 == delete_error(old(self)@, id)->0,
            r is Err ==> final(self)@.tree == old(self)@.tree,
            r is Ok ==> final(self)@.tree == old(self)@.tree.without(id),
    {
        if !self.tree.contains(id) {
            return Err(TreeError::NotFound);
        }
        let mut i: usize = 0;
        while i < self.roots.len()
            invariant
                i <= self.roots.len(),
                self.wf(),
                self@ == old(self)@,
                self@.tree.has(id),
                forall|a: int| 0 <= a < i ==> !self@.tree.topo.in_subtree(id, #[trigger] self@.roots[a]),
            decreases self.roots.len() - i,
        {
            if self.tree.is_within(id, self.roots[i]) {
                return Err(TreeError::CannotRemoveRoot);
            }
            i += 1;
        }
        proof {
            let topo = self@.tree.topo;
            if id == topo.root {
                topo.lemma_root_subtree(self@.roots[0]);
            }
            topo.lemma_without_wf(id);
        }
        self.tree.remove(id)
    }

    /// Moves a task, with all that lies below it, to `pos` relative to `node`.
    pub fn move_entry(&mut self, moving: usize, in_position: Position, node: usize) -> (r: Result<
        (),
        TreeError,
    >)
        requires
            old(self).wf(),
        ensures
            final(self).wf(),
            final(self)@.roots == old(self)@.roots,
            final(self)@.depth == old(self)@.depth,
            r is Err <==> move_error(old(self)@.tree.topo, moving, in_position, node) is Some,
            r is Err ==> r->Err_0 == move_error(old(self)@.tree.topo, moving, in_position, node)->0
                && final(self)@.tree == old(self)@.tree,
            r is Ok ==> final(self)@.tree == old(self)@.tree.moved(moving, in_position, node),
    {
        self.tree.move_to(moving, in_position, node)
    }

    /// Copies a task, with all that lies below it, to `pos` relative to
    /// `node`. Gives the node of the copy.
    pub fn copy_entry(&mut self, cloning: usize, in_position: Position, node: usize) -> (r: Result<
        usize,
        TreeError,
    >)
        requires
            old(self).wf(),
        ensures
            final(self).wf(),
            final(self)@.roots == old(self)@.roots,
            final(self)@.depth == old(self)@.depth,
            r is Err <==> clone_error(old(self)@.tree.topo, cloning, in_position, node) is Some,
            r is Err ==> r->Err_0 == clone_error(old(self)@.tree.topo, cloning, in_position, node)->0
                && final(self)@.tree == old(self)@.tree,
            r is Ok ==> grafted(
                old(self)@.tree,
                final(self)@.tree,
                old(self)@.tree.topo.slot(in_position, node).0,
                old(self)@.tree.topo.slot(in_position, node).1,
                r->Ok_0,
            ) && final(self)@.tree.shape(r->Ok_0) == old(self)@.tree.shape(cloning),
    {
        let r = self.tree.clone_to(cloning, in_position, node);
        proof {
            if r is Ok {
                assert forall|i: int| 0 <= i < self@.roots.len() implies self@.tree.has(
                    #[trigger] self@.roots[i],
                ) by {
                    assert(old(self)@.tree.has(old(self)@.roots[i]));
                }
            }
        }
        r
    }

    /// Focuses the listing on a node.
    pub fn change_root(&mut self, id: usize) -> (r: Result<(), TreeError>)
        requires
            old(self).wf(),
        ensures
            final(self).wf(),
            final(self)@.tree == old(self)@.tree,
            final(self)@.depth == old(self)@.depth,
            r is Ok <==> old(self)@.tree.has(id),
            r is Ok ==> final(self)@.roots == old(self)@.roots.push(id),
            r is Err ==> r->Err_0 == TreeError::NotFound && final(self)@.roots == old(self)@.roots,
    {
        if !self.tree.contains(id) {
            return Err(TreeError::NotFound);
        }
        self.roots.push(id);
        Ok(())
    }

    /// Focuses the listing on the node it was focused on before, if there was one.
    pub fn prev_root(&mut self)
        requires
            old(self).wf(),
        ensures
            final(self).wf(),
            final(self)@.tree == old(self)@.tree,
            final(self)@.depth == old(self)@.depth,
            final(self)@.roots == (if old(self)@.roots.len() > 1 {
                old(self)@.roots.drop_last()
            } else {
                old(self)@.roots
            }),
    {
        if self.roots.len() > 1 {
            self.roots.pop();
        }
    }

    /// Whether the task of a node is done.
    fn flag(&self, id: usize) -> (r: bool)
        requires
            self@.tree.has(id),
        ensures
            r == done(self@.tree, id),
    {
        match self.tree.data_at(id) {
            Ok(e) => e.complete,
            Err(_) => false,
        }
    }

    /// Sets the state of one task.
    fn set_flag(&mut self, id: usize, value: bool)
        requires
            old(self).wf(),
            old(self)@.tree.has(id),
        ensures
            final(self).wf(),
            final(self)@.roots == old(self)@.roots,
            final(self)@.depth == old(self)@.depth,
            final(self)@.tree.topo == old(self)@.tree.topo,
            final(self)@.tree.data == old(self)@.tree.data.insert(
                id,
                Entry { name: old(self)@.tree.data[id].name, complete: value },
            ),
    {
        match self.tree.data_at_mut(id) {
            Ok(e) => {
                e.complete = value;
            },
            Err(_) => {},
        }
        proof {
            assert(self@.tree.data.dom() =~= self@.tree.topo.links.dom());
        }
    }

    /// Sets `id` and all that lies below it to `value`.
    #[verifier::rlimit(50)]
    fn mark_down(&mut self, id: usize, value: bool)
        requires
            old(self).wf(),
            old(self)@.tree.has(id),
        ensures
            final(self).wf(),
            final(self)@.roots == old(self)@.roots,
            final(self)@.depth == old(self)@.depth,
            final(self)@.tree == marked_partial(old(self)@.tree, id, value, 0),
    {
        let ghost t0 = self@.tree;
        let list = match self.tree.descendants_of(id) {
            Ok(v) => v,
            Err(_) => Vec::new(),
        };
        self.set_flag(id, value);
        let mut j: usize = 0;
        while j < list.len()
            invariant
                j <= list.len(),
                self.wf(),
                t0.wf(),
                t0.has(id),
                self@.roots == old(self)@.roots,
                self@.depth == old(self)@.depth,
                self@.tree.topo == t0.topo,
                list@.to_set() == t0.topo.descendants(id),
                self@.tree.data == Map::new(
                    |n: usize| t0.has(n),
                    |n: usize|
                        Entry {
                            name: t0.data[n].name,
                            complete: if n == id || list@.take(j as int).contains(n) {
                                value
                            } else {
                                done(t0, n)
                            },
                        },
                ),
            decreases list.len() - j,
        {
            let n = list[j];
            proof {
                assert(list@.contains(n));
                assert(list@.to_set().contains(n));
                assert(t0.topo.in_subtree(id, n));
            }
            self.set_flag(n, value);
            proof {
                assert forall|m: usize|
                    list@.take(j + 1).contains(m) <==> (list@.take(j as int).contains(m) || m
                        == n) by {
                    assert(list@.take(j + 1) =~= list@.take(j as int).push(n));
                    if list@.take(j as int).contains(m) {
                        let a = choose|a: int| 0 <= a < j && list@.take(j as int)[a] == m;
                        assert(list@.take(j + 1)[a] == m);
                    }
                    if m == n {
                        assert(list@.take(j + 1)[j as int] == m);
                    }
                }
                assert(self@.tree.data =~= Map::new(
                    |n: usize| t0.has(n),
                    |m: usize|
                        Entry {
                            name: t0.data[m].name,
                            complete: if m == id || list@.take(j + 1).contains(m) {
                                value
                            } else {
                                done(t0, m)
                            },
                        },
                ));
            }
            j += 1;
        }
        proof {
            assert(list@.take(j as int) =~= list@);
            let want = marked_partial(t0, id, value, 0);
            assert forall|n: usize| t0.has(n) implies #[trigger] self@.tree.data[n]
                == want.data[n] by {
                assert(t0.topo.up(id, 0) == id);
                assert(list@.contains(n) <==> list@.to_set().contains(n));
                if t0.topo.in_subtree(n, id) && t0.topo.depth(id) - t0.topo.depth(n) <= 0 {
                    assert(n == id);
                }
            }
            assert(self@.tree.data =~= want.data);
            assert(self@.tree =~= want);
        }
    }

    /// Whether every child of `p` is done.
    fn children_done(&self, p: usize) -> (r: bool)
        requires
            self.wf(),
            self@.tree.has(p),
        ensures
            r == (forall|i: int|
                0 <= i < self@.tree.topo.children(p).len() ==> done(
                    self@.tree,
                    #[trigger] self@.tree.topo.children(p)[i],
                )),
    {
        let kids = match self.tree.children_of(p) {
            Ok(v) => v,
            Err(_) => Vec::new(),
        };
        let mut i: usize = 0;
        while i < kids.len()
            invariant
                i <= kids.len(),
                self.wf(),
                self@.tree.has(p),
                kids@ == self@.tree.topo.children(p),
                forall|a: int| 0 <= a < i ==> done(self@.tree, #[trigger] kids@[a]),
            decreases kids.len() - i,
        {
            proof {
                assert(self@.tree.topo.node_ok(p));
                assert(self@.tree.topo.has(self@.tree.topo.children(p)[i as int]));
            }
            if !self.flag(kids[i]) {
                return false;
            }
            i += 1;
        }
        true
    }
}

} // verus!
