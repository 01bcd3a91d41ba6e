//! The listing of a task list as lines of text, and where a task stands in it.

use vstd::prelude::*;
use crate::entry::Entry;
use crate::formatter::{styled_line, Format, Formatter, FormatterView};
use crate::store::{Core, CoreView};
use crate::tree::NodeInfo;
use crate::tree_view::{info_list, TreeView};

verus! {

/// The lines of the listing: the focused node and what lies below it, as
/// many levels as the listing shows.
pub open spec fn listing(cv: CoreView) -> Seq<NodeInfo> {
    info_list(
        cv.tree.topo,
        cv.tree.topo.preorder(cv.top(), cv.depth as nat),
        cv.tree.topo.depth(cv.top()) as int,
    )
}

/// The text of one line of the listing.
pub open spec fn line_of(tv: TreeView<Entry>, f: FormatterView, info: NodeInfo) -> Seq<char> {
    styled_line(
        f,
        tv.data[info.id].name@,
        tv.data[info.id].complete,
        info.depth as nat,
        info.child_count > 0,
    )
}

/// The texts of the lines `infos`; with `unfinished_only`, of those whose
/// task is not done.
pub open spec fn shown_lines(
    tv: TreeView<Entry>,
    f: FormatterView,
    infos: Seq<NodeInfo>,
    unfinished_only: bool,
) -> Seq<Seq<char>>
    decreases infos.len(),
{
    if infos.len() == 0 {
        Seq::empty()
    } else {
        let rest = shown_lines(tv, f, infos.drop_last(), unfinished_only);
        if unfinished_only && tv.data[infos.last().id].complete {
            rest
        } else {
            rest.push(line_of(tv, f, infos.last()))
        }
    }
}

/// The listing as text, one string for each line; with `unfinished_only`,
/// the lines of the tasks that are not done.
pub fn lines(core: &Core, formatter: &Formatter, unfinished_only: bool) -> (r: Vec<String>)
    requires
        core.wf(),
    ensures
        r@.len() == shown_lines(core@.tree, formatter@, listing(core@), unfinished_only).len(),
        forall|i: int|
            0 <= i < r@.len() ==> (#[trigger] r@[i])@ == shown_lines(
                core@.tree,
                formatter@,
                listing(core@),
                unfinished_only,
            )[i],
{
    let infos = core.get_entries_info();
    let ghost tv = core@.tree;
    let ghost f = formatter@;
    let mut out: Vec<String> = Vec::new();
    let mut i: usize = 0;
    while i < infos.len()
        invariant
            i <= infos.len(),
            core.wf(),
            tv == core@.tree,
            f == formatter@,
            infos@ == listing(core@),
            out@.len() == shown_lines(tv, f, infos@.take(i as int), unfinished_only).len(),
            forall|j: int|
                0 <= j < out@.len() ==> (#[trigger] out@[j])@ == shown_lines(
                    tv,
                    f,
                    infos@.take(i as int),
                    unfinished_only,
                )[j],
        decreases infos.len() - i,
    {
        let info = infos[i];
        proof {
            assert(infos@.take(i + 1).drop_last() =~= infos@.take(i as int));
            assert(infos@.take(i + 1).last() == info);
            let walk = tv.topo.preorder(core@.top(), core@.depth as nat);
            assert(info.id == walk[i as int]);
            assert(walk.contains(walk[i as int]));
            tv.topo.lemma_preorder_sound(core@.top(), core@.depth as nat, info.id);
        }
        match core.get_entry(info.id) {
            Ok(entry) => {
                if !(unfinished_only && entry.complete) {
                    out.push(formatter.format(entry, info.depth, info.child_count > 0));
                }
            },
            Err(_) => {},
        }
        i += 1;
    }
    proof {
        assert(infos@.take(i as int) =~= infos@);
    }
    out
}

/// The first line of a listing that shows the node `id`.
pub fn find_pos(infos: &Vec<NodeInfo>, id: usize) -> (r: Option<usize>)
    ensures
        r is Some ==> r->0 < infos.len() && infos@[r->0 as int].id == id && forall|j: int|
            0 <= j < r->0 ==> infos@[j].id != id,
        r is None ==> forall|j: int| 0 <= j < infos.len() ==> infos@[j].id != id,
{
    let mut i: usize = 0;
    while i < infos.len()
        invariant
            i <= infos.len(),
            forall|j: int| 0 <= j < i ==> infos@[j].id != id,
        decreases infos.len() - i,
    {
        if infos[i].id == id {
            return Some(i);
        }
        i += 1;
    }
    None
}

/// Whether the node on line `pointer` of a listing is one of `children`.
pub fn is_child(children: &Vec<usize>, info: &Vec<NodeInfo>, pointer: usize) -> (r: bool)
    requires
        pointer < info.len(),
    ensures
        r == children@.contains(info@[pointer as int].id),
{
    let mut i: usize = 0;
    while i < children.len()
        invariant
            i <= children.len(),
            pointer < info.len(),
            forall|j: int| 0 <= j < i ==> children@[j] != info@[pointer as int].id,
        decreases children.len() - i,
    {
        if info[pointer].id == children[i] {
            return true;
        }
        i += 1;
    }
    false
}

/// The node to point at once the listing shows fewer levels: the node that
/// was pointed at, or its parent where the node itself is no longer shown.
pub fn visible_id(core: &Core, current: NodeInfo) -> (r: usize)
    requires
        core.wf(),
        core@.tree.has(current.id),
        current.depth > core@.depth ==> current.id != core@.tree.topo.root,
    ensures
        r == (if current.depth > core@.depth {
            core@.tree.topo.parent(current.id)->0
        } else {
            current.id
        }),
{
    if current.depth > core.depth() {
        core.parent_id(current.id)
    } else {
        current.id
    }
}

} // verus!
