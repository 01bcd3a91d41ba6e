//! The rule of completion: what setting a task to done, or to not done,
//! makes of the tasks below it and above it.

use vstd::prelude::*;
use crate::entry::Entry;
use crate::tree_view::TreeView;

verus! {

/// Whether the task of node `n` is done.
pub open spec fn done(tv: TreeView<Entry>, n: usize) -> bool {
    tv.data[n].complete
}

/// Every child of `p` but `except` is done.
pub open spec fn others_done(tv: TreeView<Entry>, p: usize, except: usize) -> bool {
    forall|i: int|
        0 <= i < tv.topo.children(p).len() && #[trigger] tv.topo.children(p)[i] != except ==> done(
            tv,
            tv.topo.children(p)[i],
        )
}

/// The `j` nearest ancestors of `id` are all done.
pub open spec fn chain_done(tv: TreeView<Entry>, id: usize, j: nat) -> bool
    decreases j,
{
    j == 0 || (chain_done(tv, id, (j - 1) as nat) && done(tv, tv.topo.up(id, j)))
}

/// Each of the `j` nearest ancestors of `id` is not done, and has no child
/// that is not done but the one on the way down to `id`.
pub open spec fn chain_raised(tv: TreeView<Entry>, id: usize, j: nat) -> bool
    decreases j,
{
    j == 0 || (chain_raised(tv, id, (j - 1) as nat) && !done(tv, tv.topo.up(id, j)) && others_done(
        tv,
        tv.topo.up(id, j),
        tv.topo.up(id, (j - 1) as nat),
    ))
}

/// The state of node `n` while `id` is being set to `value`, once the `j`
/// nearest ancestors of `id` have followed: `id` and all below it have the new
/// state, and so have those ancestors.
pub open spec fn flag_partial(tv: TreeView<Entry>, id: usize, value: bool, j: nat, n: usize) -> bool {
    if tv.topo.in_subtree(id, n) {
        value
    } else if tv.topo.in_subtree(n, id) && tv.topo.depth(id) - tv.topo.depth(n) <= j {
        value
    } else {
        done(tv, n)
    }
}

/// The state of node `n` after `id` has been set to `value`: `id` and all
/// below it have the new state. On the way up from a node set to not done,
/// the ancestors are set to not done until one is met that was not done. On
/// the way up from a node set to done, an ancestor is set to done where all
/// its children are done by then, and the way ends at the first that stays
/// as it was. Every other node keeps its state.
pub open spec fn flag_after(tv: TreeView<Entry>, id: usize, value: bool, n: usize) -> bool {
    if tv.topo.in_subtree(id, n) {
        value
    } else if tv.topo.in_subtree(n, id) {
        let j = (tv.topo.depth(id) - tv.topo.depth(n)) as nat;
        if value {
            done(tv, n) || chain_raised(tv, id, j)
        } else {
            done(tv, n) && !chain_done(tv, id, j)
        }
    } else {
        done(tv, n)
    }
}

/// The tree while `id` is being set to `value`.
pub open spec fn marked_partial(tv: TreeView<Entry>, id: usize, value: bool, j: nat) -> TreeView<
    Entry,
> {
    TreeView {
        topo: tv.topo,
        data: Map::new(
            |n: usize| tv.has(n),
            |n: usize| Entry { name: tv.data[n].name, complete: flag_partial(tv, id, value, j, n) },
        ),
    }
}

/// The tree after `id` has been set to `value`: the shape and the names stay.
pub open spec fn marked(tv: TreeView<Entry>, id: usize, value: bool) -> TreeView<Entry> {
    TreeView {
        topo: tv.topo,
        data: Map::new(
            |n: usize| tv.has(n),
            |n: usize| Entry { name: tv.data[n].name, complete: flag_after(tv, id, value, n) },
        ),
    }
}

/// The tree after the state of `id` has been turned over.
pub open spec fn toggled(tv: TreeView<Entry>, id: usize) -> TreeView<Entry> {
    marked(tv, id, !done(tv, id))
}

/// What is done for some ancestors is done for the nearer ones.
pub proof fn lemma_chain_done_mono(tv: TreeView<Entry>, id: usize, i: nat, j: nat)
    requires
        i <= j,
        chain_done(tv, id, j),
    ensures
        chain_done(tv, id, i),
    decreases j,
{
    if i < j {
        lemma_chain_done_mono(tv, id, i, (j - 1) as nat);
    }
}

/// What was raised for some ancestors was raised for the nearer ones.
pub proof fn lemma_chain_raised_mono(tv: TreeView<Entry>, id: usize, i: nat, j: nat)
    requires
        i <= j,
        chain_raised(tv, id, j),
    ensures
        chain_raised(tv, id, i),
    decreases j,
{
    if i < j {
        lemma_chain_raised_mono(tv, id, i, (j - 1) as nat);
    }
}

/// The state of the parent of the last ancestor that has followed is the one
/// it had, and so is that of each of its children but the one on the way.
pub proof fn lemma_partial_above(tv: TreeView<Entry>, id: usize, value: bool, j: nat, p: usize)
    requires
        tv.wf(),
        tv.has(id),
        j < tv.topo.depth(id),
        p == tv.topo.up(id, j + 1),
    ensures
        tv.has(p),
        flag_partial(tv, id, value, j, p) == done(tv, p),
        !tv.topo.in_subtree(id, p),
{
    tv.topo.lemma_up(id, j + 1);
    if tv.topo.in_subtree(id, p) {
        assert(tv.topo.depth(p) >= tv.topo.depth(id));
    }
}

/// While the ancestors follow, each child of the next ancestor but the one on
/// the way has the state it had, and the one on the way is done.
#[verifier::rlimit(50)]
pub proof fn lemma_partial_children(tv: TreeView<Entry>, id: usize, j: nat)
    requires
        tv.wf(),
        tv.has(id),
        j < tv.topo.depth(id),
    ensures
        forall|i: int|
            0 <= i < tv.topo.children(tv.topo.up(id, j + 1)).len() ==> done(
                marked_partial(tv, id, true, j),
                #[trigger] tv.topo.children(tv.topo.up(id, j + 1))[i],
            ) == (tv.topo.children(tv.topo.up(id, j + 1))[i] == tv.topo.up(id, j) || done(
                tv,
                tv.topo.children(tv.topo.up(id, j + 1))[i],
            )),
{
    let p = tv.topo.up(id, j + 1);
    let cur = tv.topo.up(id, j);
    tv.topo.lemma_up(id, j);
    tv.topo.lemma_up(id, j + 1);
    assert(tv.topo.up(id, 0) == id);
    assert forall|i: int| 0 <= i < tv.topo.children(p).len() implies done(
        marked_partial(tv, id, true, j),
        #[trigger] tv.topo.children(p)[i],
    ) == (tv.topo.children(p)[i] == cur || done(tv, tv.topo.children(p)[i])) by {
        let c = tv.topo.children(p)[i];
        assert(tv.topo.node_ok(p));
        assert(tv.topo.has(c));
        assert(tv.topo.node_ok(c));
        assert(tv.topo.depth(c) == tv.topo.depth(cur));
        if c == cur {
            assert(tv.topo.in_subtree(cur, id));
            if !tv.topo.in_subtree(id, c) {
                assert(flag_partial(tv, id, true, j, c));
            }
        } else {
            if tv.topo.in_subtree(id, c) {
                assert(tv.topo.depth(c) >= tv.topo.depth(id));
                assert(j == 0);
                assert(tv.topo.up(c, 0) == c);
            }
            if tv.topo.in_subtree(c, id) {
                assert(tv.topo.depth(id) - tv.topo.depth(c) == j);
            }
        }
    }
}

/// Setting the next ancestor is the next stage of the marking.
pub proof fn lemma_partial_step(tv: TreeView<Entry>, id: usize, value: bool, j: nat)
    requires
        tv.wf(),
        tv.has(id),
        j < tv.topo.depth(id),
    ensures
        marked_partial(tv, id, value, j + 1).data == marked_partial(tv, id, value, j).data.insert(
            tv.topo.up(id, j + 1),
            Entry { name: tv.data[tv.topo.up(id, j + 1)].name, complete: value },
        ),
{
    let p = tv.topo.up(id, j + 1);
    tv.topo.lemma_up(id, j + 1);
    let a = marked_partial(tv, id, value, j + 1).data;
    let b = marked_partial(tv, id, value, j).data.insert(
        p,
        Entry { name: tv.data[p].name, complete: value },
    );
    assert forall|n: usize| tv.has(n) implies #[trigger] a[n] == b[n] by {
        if n == p {
            assert(tv.topo.in_subtree(p, id));
        } else {
            if tv.topo.in_subtree(n, id) && tv.topo.depth(id) - tv.topo.depth(n) == j + 1 {
                assert(n == p);
            }
        }
    }
    assert(a =~= b);
}

/// Where the way up ends, the marking is done: the ancestors further up keep
/// their state.
pub proof fn lemma_marked_stop(tv: TreeView<Entry>, id: usize, value: bool, j: nat)
    requires
        tv.wf(),
        tv.has(id),
        j <= tv.topo.depth(id),
        value ==> chain_raised(tv, id, j),
        !value ==> chain_done(tv, id, j),
        j < tv.topo.depth(id) ==> (if value {
            !chain_raised(tv, id, j + 1)
        } else {
            !chain_done(tv, id, j + 1)
        }),
    ensures
        marked_partial(tv, id, value, j) == marked(tv, id, value),
{
    let a = marked_partial(tv, id, value, j).data;
    let b = marked(tv, id, value).data;
    assert forall|n: usize| tv.has(n) implies #[trigger] a[n] == b[n] by {
        if !tv.topo.in_subtree(id, n) && tv.topo.in_subtree(n, id) {
            let i = (tv.topo.depth(id) - tv.topo.depth(n)) as nat;
            if i <= j {
                if value {
                    lemma_chain_raised_mono(tv, id, i, j);
                } else {
                    lemma_chain_done_mono(tv, id, i, j);
                }
            } else {
                if value {
                    if chain_raised(tv, id, i) {
                        lemma_chain_raised_mono(tv, id, j + 1, i);
                    }
                } else {
                    if chain_done(tv, id, i) {
                        lemma_chain_done_mono(tv, id, j + 1, i);
                    }
                }
            }
        }
    }
    assert(a =~= b);
    assert(marked_partial(tv, id, value, j) =~= marked(tv, id, value));
}

/// Every task that has children is done exactly if all its children are.
pub open spec fn consistent(tv: TreeView<Entry>) -> bool {
    forall|p: usize| #[trigger]
        tv.has(p) && tv.topo.children(p).len() > 0 ==> (done(tv, p) <==> forall|i: int|
            0 <= i < tv.topo.children(p).len() ==> done(tv, #[trigger] tv.topo.children(p)[i]))
}

/// Turning a task over gives it, and every task below it, the state that the
/// task had not.
pub proof fn lemma_toggle_goes_down(tv: TreeView<Entry>, id: usize, n: usize)
    requires
        tv.wf(),
        tv.has(id),
        tv.topo.in_subtree(id, n),
    ensures
        done(toggled(tv, id), n) == !done(tv, id),
        done(marked(tv, id, true), n),
        !done(marked(tv, id, false), n),
{
}

/// On the way up from a task that was set to done, the ancestor `j` levels
/// above it is done afterwards exactly if it was done, or if it and every
/// ancestor below it was met not done and with all its children done at that
/// time: the tree at that time is the one in which the task, all below it and
/// the ancestors below this one are done.
pub proof fn lemma_toggle_goes_up(tv: TreeView<Entry>, id: usize, j: nat)
    requires
        tv.wf(),
        tv.has(id),
        !done(tv, id),
        1 <= j <= tv.topo.depth(id),
    ensures
        done(toggled(tv, id), tv.topo.up(id, j)) == (done(tv, tv.topo.up(id, j)) || chain_raised(
            tv,
            id,
            j,
        )),
        chain_raised(tv, id, j) <==> (chain_raised(tv, id, (j - 1) as nat) && !done(
            tv,
            tv.topo.up(id, j),
        ) && forall|i: int|
            0 <= i < tv.topo.children(tv.topo.up(id, j)).len() ==> done(
                marked_partial(tv, id, true, (j - 1) as nat),
                #[trigger] tv.topo.children(tv.topo.up(id, j))[i],
            )),
{
    let a = tv.topo.up(id, j);
    tv.topo.lemma_up(id, j);
    tv.topo.lemma_up(id, (j - 1) as nat);
    lemma_partial_children(tv, id, (j - 1) as nat);
    assert(tv.topo.in_subtree(a, id));
    assert(!tv.topo.in_subtree(id, a));
    let kids = tv.topo.children(a);
    let b = tv.topo.up(id, (j - 1) as nat);
    if others_done(tv, a, b) {
        assert forall|i: int| 0 <= i < kids.len() implies done(
            marked_partial(tv, id, true, (j - 1) as nat),
            #[trigger] kids[i],
        ) by {}
    }
    if forall|i: int|
        0 <= i < kids.len() ==> done(
            marked_partial(tv, id, true, (j - 1) as nat),
            #[trigger] kids[i],
        ) {
        assert forall|i: int| 0 <= i < kids.len() && #[trigger] kids[i] != b implies done(
            tv,
            kids[i],
        ) by {
            assert(done(marked_partial(tv, id, true, (j - 1) as nat), kids[i]));
        }
    }
}

/// A child of an ancestor of `id` that is not on the way down to `id` keeps
/// its state when `id` is set.
pub proof fn lemma_beside_the_way(tv: TreeView<Entry>, id: usize, value: bool, j: nat, i: int)
    requires
        tv.wf(),
        tv.has(id),
        1 <= j <= tv.topo.depth(id),
        0 <= i < tv.topo.children(tv.topo.up(id, j)).len(),
        tv.topo.children(tv.topo.up(id, j))[i] != tv.topo.up(id, (j - 1) as nat),
    ensures
        tv.has(tv.topo.children(tv.topo.up(id, j))[i]),
        flag_after(tv, id, value, tv.topo.children(tv.topo.up(id, j))[i]) == done(
            tv,
            tv.topo.children(tv.topo.up(id, j))[i],
        ),
{
    let a = tv.topo.up(id, j);
    let c = tv.topo.children(a)[i];
    tv.topo.lemma_up(id, j);
    tv.topo.lemma_up(id, (j - 1) as nat);
    assert(tv.topo.node_ok(a));
    assert(tv.topo.has(c));
    assert(tv.topo.node_ok(c));
    assert(tv.topo.up(id, 0) == id);
    if tv.topo.in_subtree(id, c) {
        assert(tv.topo.up(c, 0) == c);
    }
}

/// In a tree where every task with children is done exactly if its children
/// are, all that lies below a task that is done is done.
pub proof fn lemma_done_below(tv: TreeView<Entry>, id: usize, n: usize)
    requires
        tv.wf(),
        consistent(tv),
        done(tv, id),
        tv.topo.in_subtree(id, n),
    ensures
        done(tv, n),
    decreases tv.topo.depth(n) - tv.topo.depth(id),
{
    if n != id {
        tv.topo.lemma_subtree_parent(id, n);
        let p = tv.topo.parent(n)->0;
        assert(tv.topo.node_ok(n));
        lemma_done_below(tv, id, p);
        let i = choose|i: int| 0 <= i < tv.topo.children(p).len() && tv.topo.children(p)[i] == n;
        assert(tv.has(p));
        assert(done(tv, tv.topo.children(p)[i]));
    }
}

/// The ancestors that were set to not done are set to done on the way back.
proof fn lemma_raised_again(tv: TreeView<Entry>, id: usize, j: nat)
    requires
        tv.wf(),
        tv.has(id),
        consistent(tv),
        done(tv, id),
        j <= tv.topo.depth(id),
        chain_done(tv, id, j),
    ensures
        chain_raised(marked(tv, id, false), id, j),
    decreases j,
{
    if j > 0 {
        let t1 = marked(tv, id, false);
        lemma_raised_again(tv, id, (j - 1) as nat);
        let a = tv.topo.up(id, j);
        let b = tv.topo.up(id, (j - 1) as nat);
        tv.topo.lemma_up(id, j);
        tv.topo.lemma_up(id, (j - 1) as nat);
        assert(tv.topo.in_subtree(a, id));
        assert(!tv.topo.in_subtree(id, a));
        assert(!done(t1, a));
        assert(tv.has(a));
        assert(tv.topo.node_ok(a));
        assert(tv.topo.node_ok(b));
        assert(tv.topo.children(a).contains(b));
        assert forall|i: int|
            0 <= i < tv.topo.children(a).len() && #[trigger] tv.topo.children(a)[i]
                != b implies done(t1, tv.topo.children(a)[i]) by {
            lemma_beside_the_way(tv, id, false, j, i);
            assert(done(tv, tv.topo.children(a)[i]));
        }
        assert(others_done(t1, a, b));
    }
}

/// The ancestors that kept their state keep it on the way back.
proof fn lemma_not_raised(tv: TreeView<Entry>, id: usize, j: nat)
    requires
        tv.wf(),
        tv.has(id),
        consistent(tv),
        done(tv, id),
        1 <= j <= tv.topo.depth(id),
        !chain_done(tv, id, j),
    ensures
        !chain_raised(marked(tv, id, false), id, j),
    decreases j,
{
    let t1 = marked(tv, id, false);
    if chain_done(tv, id, (j - 1) as nat) {
        let a = tv.topo.up(id, j);
        let b = tv.topo.up(id, (j - 1) as nat);
        tv.topo.lemma_up(id, j);
        tv.topo.lemma_up(id, (j - 1) as nat);
        assert(!done(tv, a));
        assert(tv.has(a));
        assert(tv.topo.node_ok(a));
        assert(tv.topo.node_ok(b));
        assert(tv.topo.children(a).contains(b));
        assert(done(tv, b));
        let i = choose|i: int|
            0 <= i < tv.topo.children(a).len() && !done(tv, #[trigger] tv.topo.children(a)[i]);
        assert(0 <= i < tv.topo.children(a).len() && !done(tv, tv.topo.children(a)[i]));
        assert(tv.topo.children(a)[i] != b);
        lemma_beside_the_way(tv, id, false, j, i);
        assert(!done(t1, tv.topo.children(a)[i]));
        assert(t1.topo.children(a)[i] != b && !done(t1, t1.topo.children(a)[i]));
        assert(!others_done(t1, a, b));
    } else {
        lemma_not_raised(tv, id, (j - 1) as nat);
    }
}

/// Turning a task that is done over, and over again, leaves every task in
/// the state it had, in a tree where every task with children is done
/// exactly if all its children are.
#[verifier::rlimit(50)]
pub proof fn lemma_toggle_twice(tv: TreeView<Entry>, id: usize)
    requires
        tv.wf(),
        tv.has(id),
        consistent(tv),
        done(tv, id),
    ensures
        toggled(toggled(tv, id), id) == tv,
{
    let t1 = toggled(tv, id);
    let t2 = toggled(t1, id);
    assert(tv.topo.up(id, 0) == id);
    assert(t1 == marked(tv, id, false));
    assert(!done(t1, id));
    assert(t2 == marked(t1, id, true));
    assert forall|n: usize| tv.has(n) implies #[trigger] t2.data[n] == tv.data[n] by {
        if tv.topo.in_subtree(id, n) {
            lemma_done_below(tv, id, n);
        } else if tv.topo.in_subtree(n, id) {
            let j = (tv.topo.depth(id) - tv.topo.depth(n)) as nat;
            if chain_done(tv, id, j) {
                lemma_raised_again(tv, id, j);
            } else {
                lemma_not_raised(tv, id, j);
            }
        }
    }
    assert(t2.data =~= tv.data);
    assert(t2 =~= tv);
}

/// In a tree where every task with children is done exactly if its children
/// are, no ancestor of a task that is not done is done.
pub proof fn lemma_not_done_above(tv: TreeView<Entry>, id: usize, j: nat)
    requires
        tv.wf(),
        tv.has(id),
        consistent(tv),
        !done(tv, id),
        j <= tv.topo.depth(id),
    ensures
        !done(tv, tv.topo.up(id, j)),
    decreases j,
{
    if j > 0 {
        lemma_not_done_above(tv, id, (j - 1) as nat);
        let a = tv.topo.up(id, j);
        let b = tv.topo.up(id, (j - 1) as nat);
        tv.topo.lemma_up(id, j);
        tv.topo.lemma_up(id, (j - 1) as nat);
        assert(tv.has(a));
        assert(tv.topo.node_ok(b));
        let i = choose|i: int| 0 <= i < tv.topo.children(a).len() && tv.topo.children(a)[i] == b;
        if done(tv, a) {
            assert(done(tv, tv.topo.children(a)[i]));
        }
    } else {
        assert(tv.topo.up(id, 0) == id);
    }
}

/// Turning a task over keeps the rule: where every task with children was
/// done exactly if all its children were, this holds afterwards too.
#[verifier::rlimit(50)]
pub proof fn lemma_toggle_keeps_rule(tv: TreeView<Entry>, id: usize)
    requires
        tv.wf(),
        tv.has(id),
        consistent(tv),
    ensures
        consistent(toggled(tv, id)),
{
    let value = !done(tv, id);
    let t = toggled(tv, id);
    assert(tv.topo.up(id, 0) == id);
    assert forall|p: usize| #[trigger] t.has(p) && t.topo.children(p).len() > 0 implies (done(t, p)
        <==> forall|i: int|
        0 <= i < t.topo.children(p).len() ==> done(t, #[trigger] t.topo.children(p)[i])) by {
        let kids = tv.topo.children(p);
        assert(tv.has(p));
        assert(tv.topo.node_ok(p));
        if tv.topo.in_subtree(id, p) {
            assert forall|i: int| 0 <= i < kids.len() implies done(t, #[trigger] kids[i])
                == value by {
                tv.topo.lemma_subtree_child(id, p, i);
            }
            assert(done(t, kids[0]) == value);
        } else if tv.topo.in_subtree(p, id) {
            let j = (tv.topo.depth(id) - tv.topo.depth(p)) as nat;
            let b = tv.topo.up(id, (j - 1) as nat);
            tv.topo.lemma_up(id, j);
            tv.topo.lemma_up(id, (j - 1) as nat);
            assert(tv.topo.node_ok(b));
            let at = choose|i: int| 0 <= i < kids.len() && kids[i] == b;
            assert forall|i: int| 0 <= i < kids.len() && #[trigger] kids[i] != b implies done(
                t,
                kids[i],
            ) == done(tv, kids[i]) by {
                lemma_beside_the_way(tv, id, value, j, i);
            }
            assert(tv.topo.in_subtree(b, id));
            if value {
                lemma_not_done_above(tv, id, j);
                if j > 1 {
                    lemma_not_done_above(tv, id, (j - 1) as nat);
                    assert(!tv.topo.in_subtree(id, b));
                }
                assert(done(t, b) == chain_raised(tv, id, (j - 1) as nat));
                assert(done(t, p) == chain_raised(tv, id, j));
                if chain_raised(tv, id, j) {
                    assert forall|i: int| 0 <= i < kids.len() implies done(
                        t,
                        #[trigger] kids[i],
                    ) by {
                        if kids[i] != b {
                            assert(done(tv, kids[i]));
                        }
                    }
                }
                if forall|i: int| 0 <= i < kids.len() ==> done(t, #[trigger] kids[i]) {
                    assert(done(t, kids[at]));
                    assert forall|i: int|
                        0 <= i < kids.len() && #[trigger] kids[i] != b implies done(
                        tv,
                        kids[i],
                    ) by {
                        assert(done(t, kids[i]));
                    }
                    assert(others_done(tv, p, b));
                }
            } else {
                if j > 1 {
                    assert(!tv.topo.in_subtree(id, b));
                }
                if chain_done(tv, id, (j - 1) as nat) {
                    assert(!done(t, b));
                    assert(!done(t, kids[at]));
                    assert(!done(t, p));
                } else {
                    assert(done(t, b) == done(tv, b));
                    assert(done(t, p) == done(tv, p));
                    assert forall|i: int| 0 <= i < kids.len() implies done(t, #[trigger] kids[i])
                        == done(tv, kids[i]) by {}
                }
            }
        } else {
            assert forall|i: int| 0 <= i < kids.len() implies done(t, #[trigger] kids[i]) == done(
                tv,
                kids[i],
            ) by {
                let c = kids[i];
                assert(tv.has(c));
                assert(tv.topo.node_ok(c));
                if tv.topo.in_subtree(id, c) {
                    if c != id {
                        tv.topo.lemma_subtree_parent(id, c);
                    } else {
                        assert(tv.topo.parent(tv.topo.children(p)[i]) == Some(p));
                        tv.topo.lemma_up(id, 0);
                        assert(tv.topo.up(id, 1) == p);
                        assert(tv.topo.in_subtree(p, id));
                    }
                }
                if tv.topo.in_subtree(c, id) {
                    tv.topo.lemma_up(c, 1);
                    assert(tv.topo.up(p, 0) == p);
                    tv.topo.lemma_subtree_child(p, p, i);
                    tv.topo.lemma_subtree_trans(p, c, id);
                }
            }
        }
    }
}

} // verus!
