//! The file format of a task list: each task as its name, its state and the
//! number of its children, followed by its children in their order.
//!
//! A name is stored as the number of its bytes, in four bytes with the most
//! significant first, and then its bytes in UTF-8. The state is one byte, 0 or
//! 1. The number of children takes four bytes, most significant first.

use vstd::prelude::*;
use vstd::utf8::{decode_utf8, encode_utf8, valid_utf8};
use crate::buffer::{be_bytes, be_value, join_u32, lemma_be_value_of_bytes, split_u32};
use crate::entry::Entry;
use crate::topology::Position;
use crate::tree::{Tree, TreeError};
use crate::tree_view::{
    grafted, lemma_grafted_frames, lemma_grafted_grow, lemma_leaf_grafted, TreeView,
};

verus! {

/// What the file tells of one task.
pub struct Record {
    pub name: Seq<char>,
    pub complete: bool,
    pub children: nat,
}

/// What the file tells of a task that a tree holds.
pub open spec fn record_from(e: (Entry, nat)) -> Record {
    Record { name: e.0.name@, complete: e.0.complete, children: e.1 }
}

/// What the file tells of the tasks of a shape.
pub open spec fn entry_records(shape: Seq<(Entry, nat)>) -> Seq<Record> {
    Seq::new(shape.len(), |i: int| record_from(shape[i]))
}

/// What the file tells of a tree: of each task, a task before what lies
/// below it and the children in their order.
pub open spec fn tree_records(tv: TreeView<Entry>) -> Seq<Record> {
    entry_records(tv.shape(tv.topo.root))
}

/// The byte of a state.
pub open spec fn flag_byte(complete: bool) -> u8 {
    if complete {
        1u8
    } else {
        0u8
    }
}

/// Whether the two numbers of a record fit their four bytes.
pub open spec fn record_fits(r: Record) -> bool {
    encode_utf8(r.name).len() <= u32::MAX && r.children <= u32::MAX
}

/// The bytes of one record.
pub open spec fn record_bytes(r: Record) -> Seq<u8> {
    be_bytes(encode_utf8(r.name).len() as u32) + encode_utf8(r.name) + seq![flag_byte(r.complete)]
        + be_bytes(r.children as u32)
}

/// The bytes of records, one after the other.
pub open spec fn stream(rs: Seq<Record>) -> Seq<u8>
    decreases rs.len(),
{
    if rs.len() == 0 {
        Seq::empty()
    } else {
        stream(rs.drop_last()) + record_bytes(rs.last())
    }
}

/// The bytes of a tree.
pub open spec fn tree_bytes(tv: TreeView<Entry>) -> Seq<u8> {
    stream(tree_records(tv))
}

/// Whether a tree can be stored: no name has more bytes, and no task more
/// children, than four bytes can count.
pub open spec fn encodable(tv: TreeView<Entry>) -> bool {
    forall|n: usize| #[trigger] tv.has(n) ==> record_fits(record_from(tv.node_shape(n)))
}

/// The record that stands at `pos`, and the place behind it; `None` where
/// the bytes end too early, the name is not UTF-8, or the state is neither 0 nor 1.
pub open spec fn parse_record(b: Seq<u8>, pos: int) -> Option<(Record, int)> {
    if pos < 0 || pos + 4 > b.len() {
        None
    } else {
        let n = be_value(b.subrange(pos, pos + 4));
        if pos + 4 + n + 5 > b.len() {
            None
        } else {
            let name = b.subrange(pos + 4, pos + 4 + n);
            let flag = b[pos + 4 + n];
            if !valid_utf8(name) || flag > 1 {
                None
            } else {
                Some(
                    (
                        Record {
                            name: decode_utf8(name),
                            complete: flag == 1,
                            children: be_value(b.subrange(pos + 4 + n + 1, pos + 4 + n + 5)) as nat,
                        },
                        pos + 4 + n + 5,
                    ),
                )
            }
        }
    }
}

/// The records of the task that stands at `pos` and of all below it, and the
/// place behind them.
pub open spec fn parse_node(b: Seq<u8>, pos: int) -> Option<(Seq<Record>, int)>
    decreases b.len() - pos, 0nat,
{
    match parse_record(b, pos) {
        None => None,
        Some((r, next)) => match parse_forest(b, next, r.children) {
            None => None,
            Some((rs, end)) => Some((seq![r] + rs, end)),
        },
    }
}

/// The records of `n` tasks that stand one behind the other from `pos` on,
/// each with all below it, and the place behind them.
pub open spec fn parse_forest(b: Seq<u8>, pos: int, n: nat) -> Option<(Seq<Record>, int)>
    decreases b.len() - pos, n + 1,
{
    if n == 0 {
        Some((Seq::empty(), pos))
    } else {
        match parse_node(b, pos) {
            None => None,
            Some((first, mid)) => if pos < mid <= b.len() {
                match parse_forest(b, mid, (n - 1) as nat) {
                    None => None,
                    Some((rest, end)) => Some((first + rest, end)),
                }
            } else {
                None
            },
        }
    }
}

/// What was read ends behind where it began, and within the bytes.
pub proof fn lemma_parse_node_bounds(b: Seq<u8>, pos: int)
    requires
        parse_node(b, pos) is Some,
    ensures
        0 <= pos < (parse_node(b, pos)->0).1 <= b.len(),
        (parse_node(b, pos)->0).0.len() >= 1,
    decreases b.len() - pos, 0nat,
{
    let (r, next) = parse_record(b, pos)->0;
    lemma_parse_forest_bounds(b, next, r.children);
}

/// The same for a row of tasks.
pub proof fn lemma_parse_forest_bounds(b: Seq<u8>, pos: int, n: nat)
    requires
        parse_forest(b, pos, n) is Some,
        0 <= pos <= b.len(),
    ensures
        pos <= (parse_forest(b, pos, n)->0).1 <= b.len(),
    decreases b.len() - pos, n + 1,
{
    if n > 0 {
        let (first, mid) = parse_node(b, pos)->0;
        lemma_parse_forest_bounds(b, mid, (n - 1) as nat);
    }
}

/// The bytes of two rows of records are those of the one and then the other.
pub proof fn lemma_stream_add(a: Seq<Record>, b: Seq<Record>)
    ensures
        stream(a + b) == stream(a) + stream(b),
    decreases b.len(),
{
    if b.len() == 0 {
        assert(a + b =~= a);
        assert(stream(a) + stream(b) =~= stream(a));
    } else {
        lemma_stream_add(a, b.drop_last());
        assert((a + b).drop_last() =~= a + b.drop_last());
        assert((a + b).last() == b.last());
        assert(stream(a + b) =~= stream(a) + stream(b));
    }
}

/// The bytes of one record are read back as the record.
pub proof fn lemma_parse_record(prefix: Seq<u8>, r: Record, rest: Seq<u8>)
    requires
        record_fits(r),
    ensures
        parse_record(prefix + record_bytes(r) + rest, prefix.len() as int) == Some(
            (r, (prefix.len() + record_bytes(r).len()) as int),
        ),
{
    let b = prefix + record_bytes(r) + rest;
    let pos = prefix.len() as int;
    let name = encode_utf8(r.name);
    let n = name.len() as int;
    lemma_be_value_of_bytes(n as u32);
    lemma_be_value_of_bytes(r.children as u32);
    assert(b.subrange(pos, pos + 4) =~= be_bytes(n as u32));
    assert(b.subrange(pos + 4, pos + 4 + n) =~= name);
    assert(b[pos + 4 + n] == flag_byte(r.complete));
    assert(b.subrange(pos + 4 + n + 1, pos + 4 + n + 5) =~= be_bytes(r.children as u32));
    vstd::utf8::encode_utf8_valid_utf8(r.name);
    vstd::utf8::encode_utf8_decode_utf8(r.name);
    assert(record_bytes(r).len() == n + 9);
    let got = (parse_record(b, pos)->0).0;
    assert(got.name == r.name);
    assert(got.complete == r.complete);
    assert(got.children == r.children);
}

/// The bytes of a subtree are read back as its records, whatever stands
/// before and behind them.
#[verifier::rlimit(50)]
pub proof fn lemma_parse_subtree(tv: TreeView<Entry>, id: usize, prefix: Seq<u8>, rest: Seq<u8>)
    requires
        tv.wf(),
        tv.has(id),
        encodable(tv),
    ensures
        parse_node(
            prefix + stream(entry_records(tv.shape(id))) + rest,
            prefix.len() as int,
        ) == Some(
            (
                entry_records(tv.shape(id)),
                (prefix.len() + stream(entry_records(tv.shape(id))).len()) as int,
            ),
        ),
    decreases tv.topo.height() - tv.topo.depth(id), tv.topo.children(id).len() + 2,
{
    let rs = entry_records(tv.shape(id));
    let b = prefix + stream(rs) + rest;
    let r = record_from(tv.node_shape(id));
    let kids = tv.topo.children(id);
    let krs = entry_records(tv.shapes(kids));
    tv.lemma_shape_unfold(id);
    assert(rs =~= seq![r] + krs);
    lemma_stream_add(seq![r], krs);
    assert(seq![r].drop_last() =~= Seq::<Record>::empty());
    assert(stream(Seq::<Record>::empty()) =~= Seq::<u8>::empty());
    assert(seq![r].last() == r);
    assert(stream(seq![r]) =~= stream(seq![r].drop_last()) + record_bytes(r));
    assert(stream(seq![r]) =~= record_bytes(r));
    assert(b =~= prefix + record_bytes(r) + (stream(krs) + rest));
    lemma_parse_record(prefix, r, stream(krs) + rest);
    let p2 = prefix + record_bytes(r);
    assert(b =~= p2 + stream(krs) + rest);
    tv.topo.lemma_subtree_covers(id);
    assert(kids.skip(0) =~= kids);
    lemma_parse_subtrees(tv, id, 0, p2, rest);
}

/// The same for the subtrees of the children of `p` from number `from` on.
#[verifier::rlimit(50)]
pub proof fn lemma_parse_subtrees(
    tv: TreeView<Entry>,
    p: usize,
    from: int,
    prefix: Seq<u8>,
    rest: Seq<u8>,
)
    requires
        tv.wf(),
        tv.has(p),
        encodable(tv),
        0 <= from <= tv.topo.children(p).len(),
    ensures
        parse_forest(
            prefix + stream(entry_records(tv.shapes(tv.topo.children(p).skip(from)))) + rest,
            prefix.len() as int,
            (tv.topo.children(p).len() - from) as nat,
        ) == Some(
            (
                entry_records(tv.shapes(tv.topo.children(p).skip(from))),
                (prefix.len() + stream(
                    entry_records(tv.shapes(tv.topo.children(p).skip(from))),
                ).len()) as int,
            ),
        ),
    decreases tv.topo.height() - tv.topo.depth(p), tv.topo.children(p).len() - from + 1,
{
    let ids = tv.topo.children(p).skip(from);
    let rs = entry_records(tv.shapes(ids));
    let b = prefix + stream(rs) + rest;
    if ids.len() == 0 {
        assert(tv.topo.subtrees(ids) =~= Seq::<usize>::empty());
        assert(rs =~= Seq::<Record>::empty());
        assert(b =~= prefix + rest);
    } else {
        let c = ids[0];
        assert(c == tv.topo.children(p)[from]);
        assert(tv.topo.up(p, 0) == p);
        tv.topo.lemma_subtree_child(p, p, from);
        tv.topo.lemma_subtree_covers(p);
        tv.topo.lemma_subtree_covers(c);
        tv.lemma_shapes_front(ids);
        assert(ids.skip(1) =~= tv.topo.children(p).skip(from + 1));
        let first = entry_records(tv.shape(c));
        let others = entry_records(tv.shapes(ids.skip(1)));
        assert(rs =~= first + others);
        lemma_stream_add(first, others);
        assert(b =~= prefix + stream(first) + (stream(others) + rest));
        lemma_parse_subtree(tv, c, prefix, stream(others) + rest);
        let p2 = prefix + stream(first);
        assert(b =~= p2 + stream(others) + rest);
        lemma_parse_subtrees(tv, p, from + 1, p2, rest);
        lemma_parse_node_bounds(b, prefix.len() as int);
    }
}

/// What is stored of a tree is read back as what was stored: the bytes of a
/// tree spell its records, and nothing is left over.
pub proof fn lemma_round_trip(tv: TreeView<Entry>)
    requires
        tv.wf(),
        encodable(tv),
    ensures
        parse_node(tree_bytes(tv), 0) == Some((tree_records(tv), tree_bytes(tv).len() as int)),
{
    let e = Seq::<u8>::empty();
    lemma_parse_subtree(tv, tv.topo.root, e, e);
    assert(e + tree_bytes(tv) + e =~= tree_bytes(tv));
}

/// `String::from_utf8`: the string that bytes spell in UTF-8. The contract
/// claims that the call succeeds exactly on valid UTF-8, and that the string
/// then holds the characters that the bytes encode.
#[verifier::external_body]
fn string_from_utf8(bytes: Vec<u8>) -> (r: Option<String>)
    ensures
        r is Some <==> valid_utf8(bytes@),
        r is Some ==> r->0@ == decode_utf8(bytes@),
{
    match String::from_utf8(bytes) {
        Ok(s) => Some(s),
        Err(_) => None,
    }
}

/// Appends the bytes of one record.
fn append_record(out: &mut Vec<u8>, name: &str, complete: bool, count: usize)
    requires
        encode_utf8(name@).len() <= u32::MAX,
        count <= u32::MAX,
    ensures
        final(out)@ == old(out)@ + record_bytes(
            Record { name: name@, complete: complete, children: count as nat },
        ),
{
    let ghost out0 = out@;
    let b = name.as_bytes();
    let n = b.len();
    let head = split_u32(n as u32);
    out.push(head.0);
    out.push(head.1);
    out.push(head.2);
    out.push(head.3);
    assert(out@ =~= out0 + be_bytes(n as u32));
    let mut i: usize = 0;
    while i < n
        invariant
            i <= n,
            n == b@.len(),
            out@ == out0 + be_bytes(n as u32) + b@.take(i as int),
        decreases n - i,
    {
        out.push(b[i]);
        assert(out@ =~= out0 + be_bytes(n as u32) + b@.take(i + 1));
        i += 1;
    }
    assert(b@.take(n as int) =~= b@);
    out.push(if complete { 1 } else { 0 });
    let tail = split_u32(count as u32);
    out.push(tail.0);
    out.push(tail.1);
    out.push(tail.2);
    out.push(tail.3);
    assert(out@ =~= out0 + record_bytes(
        Record { name: name@, complete: complete, children: count as nat },
    ));
}

/// Reads the record that stands at `pos`: the task, the number of its
/// children, and the place behind the record.
fn read_record(bytes: &[u8], pos: usize) -> (r: Option<(Entry, usize, usize)>)
    requires
        pos <= bytes@.len(),
    ensures
        r is Some <==> parse_record(bytes@, pos as int) is Some,
        r is Some ==> (record_from(((r->0).0, (r->0).1 as nat)), (r->0).2 as int) == parse_record(
            bytes@,
            pos as int,
        )->0,
{
    let len = bytes.len();
    if len - pos < 4 {
        return None;
    }
    let n32 = join_u32(bytes[pos], bytes[pos + 1], bytes[pos + 2], bytes[pos + 3]);
    assert(bytes@.subrange(pos as int, pos + 4) =~= seq![
        bytes@[pos as int],
        bytes@[pos + 1],
        bytes@[pos + 2],
        bytes@[pos + 3],
    ]);
    let n = n32 as usize;
    let room = len - pos - 4;
    if room < 5 || n > room - 5 {
        return None;
    }
    let start = pos + 4;
    let mut name: Vec<u8> = Vec::new();
    let mut i: usize = 0;
    while i < n
        invariant
            i <= n,
            len == bytes@.len(),
            start + n + 5 <= bytes@.len(),
            name@ == bytes@.subrange(start as int, start + i),
        decreases n - i,
    {
        name.push(bytes[start + i]);
        assert(name@ =~= bytes@.subrange(start as int, start + i + 1));
        i += 1;
    }
    let flag = bytes[start + n];
    if flag > 1 {
        return None;
    }
    let at = start + n + 1;
    let c32 = join_u32(bytes[at], bytes[at + 1], bytes[at + 2], bytes[at + 3]);
    assert(bytes@.subrange(at as int, at + 4) =~= seq![
        bytes@[at as int],
        bytes@[at + 1],
        bytes@[at + 2],
        bytes@[at + 3],
    ]);
    match string_from_utf8(name) {
        Some(s) => Some((Entry { name: s, complete: flag == 1 }, c32 as usize, at + 4)),
        None => None,
    }
}

/// Reads the task that stands at `pos`, with all below it, and puts it at
/// the end of the children of `parent`. Gives the place behind what was
/// read, and the node of the task.
#[verifier::rlimit(50)]
fn parse_into(tree: &mut Tree<Entry>, bytes: &[u8], pos: usize, parent: usize) -> (r: Result<
    (usize, usize),
    TreeError,
>)
    requires
        old(tree).wf(),
        old(tree)@.has(parent),
        pos <= bytes@.len(),
    ensures
        r is Ok <==> parse_node(bytes@, pos as int) is Some,
        r is Err ==> r->Err_0 == TreeError::CorruptData,
        r is Ok ==> {
            &&& final(tree).wf()
            &&& (r->Ok_0).0 == (parse_node(bytes@, pos as int)->0).1
            &&& grafted(
                old(tree)@,
                final(tree)@,
                parent,
                old(tree)@.topo.children(parent).len() as int,
                (r->Ok_0).1,
            )
            &&& entry_records(final(tree)@.shape((r->Ok_0).1)) == (parse_node(
                bytes@,
                pos as int,
            )->0).0
        },
    decreases bytes@.len() - pos, 0nat,
{
    let ghost s0 = tree@;
    let (entry, count, next) = match read_record(bytes, pos) {
        Some(x) => x,
        None => {
            return Err(TreeError::CorruptData);
        },
    };
    proof {
        assert(s0.topo.node_ok(parent));
    }
    let ghost e0 = entry;
    let c = match tree.new_node(entry, Position::LastChild, parent) {
        Ok(c) => c,
        Err(_) => vstd::pervasive::unreached(),
    };
    let ghost k = s0.topo.children(parent).len() as int;
    proof {
        lemma_leaf_grafted(s0, c, e0, parent, k);
        assert(tree@.topo.children(c) =~= Seq::<usize>::empty());
    }
    let end = match parse_children(tree, bytes, next, count, c, Ghost(Some((s0, parent, k)))) {
        Ok(end) => end,
        Err(e) => {
            return Err(e);
        },
    };
    proof {
        tree@.lemma_shape_unfold(c);
        let rest = (parse_forest(bytes@, next as int, count as nat)->0).0;
        assert(entry_records(tree@.shape(c)) =~= seq![record_from((e0, count as nat))] + rest);
    }
    Ok((end, c))
}

/// Reads `count` tasks that stand one behind the other from `pos` on, each
/// with all below it, and makes them the children of `c`, which has none yet.
#[verifier::rlimit(50)]
fn parse_children(
    tree: &mut Tree<Entry>,
    bytes: &[u8],
    pos: usize,
    count: usize,
    c: usize,
    Ghost(ctx): Ghost<Option<(TreeView<Entry>, usize, int)>>,
) -> (r: Result<usize, TreeError>)
    requires
        old(tree).wf(),
        old(tree)@.has(c),
        old(tree)@.topo.children(c).len() == 0,
        pos <= bytes@.len(),
        ctx matches Some(x) ==> grafted(x.0, old(tree)@, x.1, x.2, c),
    ensures
        r is Ok <==> parse_forest(bytes@, pos as int, count as nat) is Some,
        r is Err ==> r->Err_0 == TreeError::CorruptData,
        r is Ok ==> {
            &&& final(tree).wf()
            &&& r->Ok_0 == (parse_forest(bytes@, pos as int, count as nat)->0).1
            &&& final(tree)@.has(c)
            &&& final(tree)@.topo.root == old(tree)@.topo.root
            &&& final(tree)@.data[c] == old(tree)@.data[c]
            &&& final(tree)@.topo.children(c).len() == count
            &&& entry_records(final(tree)@.shapes(final(tree)@.topo.children(c))) == (parse_forest(
                bytes@,
                pos as int,
                count as nat,
            )->0).0
            &&& ctx matches Some(x) ==> grafted(x.0, final(tree)@, x.1, x.2, c)
        },
    decreases bytes@.len() - pos, count + 1,
{
    let ghost s0 = tree@;
    let ghost b = bytes@;
    let ghost total = parse_forest(b, pos as int, count as nat);
    let mut at: usize = pos;
    let mut j: usize = 0;
    proof {
        assert(s0.shapes(s0.topo.children(c)) =~= Seq::<(Entry, nat)>::empty()) by {
            assert(s0.topo.children(c) =~= Seq::<usize>::empty());
            assert(s0.topo.subtrees(Seq::<usize>::empty()) =~= Seq::<usize>::empty());
        }
        match parse_forest(b, at as int, (count - j) as nat) {
            Some((rest, end)) => {
                assert(entry_records(s0.shapes(s0.topo.children(c))) + rest =~= rest);
            },
            None => {},
        }
    }
    while j < count
        invariant
            j <= count,
            pos <= at <= bytes@.len(),
            b == bytes@,
            tree.wf(),
            tree@.has(c),
            tree@.topo.root == s0.topo.root,
            tree@.data[c] == s0.data[c],
            tree@.topo.children(c).len() == j,
            ctx matches Some(x) ==> grafted(x.0, tree@, x.1, x.2, c),
            total == parse_forest(b, pos as int, count as nat),
            total == (match parse_forest(b, at as int, (count - j) as nat) {
                Some((rest, end)) => Some(
                    (entry_records(tree@.shapes(tree@.topo.children(c))) + rest, end),
                ),
                None => None,
            }),
        decreases count - j,
    {
        let ghost cur = tree@;
        let (end, cj) = match parse_into(tree, bytes, at, c) {
            Ok(x) => x,
            Err(e) => {
                return Err(e);
            },
        };
        proof {
            let next = tree@;
            lemma_parse_node_bounds(b, at as int);
            assert(cur.topo.up(c, 0) == c);
            match ctx {
                Some(x) => {
                    lemma_grafted_grow(x.0, cur, next, x.1, x.2, c, c, j as int, cj);
                },
                None => {},
            }
            assert(cur.topo.children(c).insert(j as int, cj) =~= cur.topo.children(c).push(cj));
            assert forall|i: int| 0 <= i < cur.topo.children(c).len() implies cur.has(
                #[trigger] cur.topo.children(c)[i],
            ) && !cur.topo.in_subtree(cur.topo.children(c)[i], c) by {
                assert(cur.topo.node_ok(c));
                cur.topo.lemma_subtree_child(c, c, i);
            }
            lemma_grafted_frames(cur, next, c, j as int, cj, cur.topo.children(c));
            next.lemma_shapes_push(cur.topo.children(c), cj);
            let before = entry_records(cur.shapes(cur.topo.children(c)));
            let first = (parse_node(b, at as int)->0).0;
            assert(entry_records(next.shapes(next.topo.children(c))) =~= before + first);
            match parse_forest(b, end as int, (count - j - 1) as nat) {
                Some((rest, e2)) => {
                    assert(before + (first + rest) =~= (before + first) + rest);
                },
                None => {},
            }
        }
        at = end;
        j += 1;
    }
    Ok(at)
}

impl Tree<Entry> {
    /// Whether the tree can be stored.
    pub fn can_encode(&self) -> (r: bool)
        requires
            self.wf(),
        ensures
            r == encodable(self@),
    {
        let root = match self.get_root() {
            Some(x) => x,
            None => 0,
        };
        let list = match self.sub_tree(root) {
            Ok(v) => v,
            Err(_) => Vec::new(),
        };
        let mut i: usize = 0;
        while i < list.len()
            invariant
                i <= list.len(),
                self.wf(),
                list@ == self@.topo.subtree(self@.topo.root),
                forall|a: int|
                    0 <= a < i ==> record_fits(record_from(self@.node_shape(#[trigger] list@[a]))),
            decreases list.len() - i,
        {
            let n = list[i];
            proof {
                assert(list@.contains(n));
                self@.topo.lemma_subtree_members(self@.topo.root, n);
            }
            let name_len = match self.data_at(n) {
                Ok(e) => e.name.as_str().as_bytes().len(),
                Err(_) => 0,
            };
            let count = match self.child_count(n) {
                Ok(c) => c,
                Err(_) => 0,
            };
            if name_len > 0xffff_ffff || count > 0xffff_ffff {
                return false;
            }
            i += 1;
        }
        proof {
            assert forall|n: usize| #[trigger] self@.has(n) implies record_fits(
                record_from(self@.node_shape(n)),
            ) by {
                self@.topo.lemma_root_subtree(n);
                self@.topo.lemma_subtree_members(self@.topo.root, n);
                let a = choose|a: int| 0 <= a < list@.len() && list@[a] == n;
                assert(record_fits(record_from(self@.node_shape(list@[a]))));
            }
        }
        true
    }

    /// The bytes that store the tree.
    pub fn into_bytes(&self) -> (r: Vec<u8>)
        requires
            self.wf(),
            encodable(self@),
        ensures
            r@ == tree_bytes(self@),
    {
        let root = match self.get_root() {
            Some(x) => x,
            None => 0,
        };
        let list = match self.sub_tree(root) {
            Ok(v) => v,
            Err(_) => Vec::new(),
        };
        let mut out: Vec<u8> = Vec::new();
        let mut i: usize = 0;
        proof {
            assert(self@.shape_of(list@.take(0)) =~= Seq::<(Entry, nat)>::empty());
            assert(entry_records(self@.shape_of(list@.take(0))) =~= Seq::<Record>::empty());
        }
        while i < list.len()
            invariant
                i <= list.len(),
                self.wf(),
                encodable(self@),
                list@ == self@.topo.subtree(self@.topo.root),
                out@ == stream(entry_records(self@.shape_of(list@.take(i as int)))),
            decreases list.len() - i,
        {
            let n = list[i];
            proof {
                assert(list@.contains(n));
                self@.topo.lemma_subtree_members(self@.topo.root, n);
                assert(self@.has(n));
                assert(record_fits(record_from(self@.node_shape(n))));
            }
            let count = match self.child_count(n) {
                Ok(c) => c,
                Err(_) => 0,
            };
            match self.data_at(n) {
                Ok(e) => {
                    append_record(&mut out, e.name.as_str(), e.complete, count);
                },
                Err(_) => {},
            }
            proof {
                let before = entry_records(self@.shape_of(list@.take(i as int)));
                let after = entry_records(self@.shape_of(list@.take(i + 1)));
                assert(list@.take(i + 1) =~= list@.take(i as int).push(n));
                assert(after =~= before.push(record_from(self@.node_shape(n))));
                assert(after.drop_last() =~= before);
            }
            i += 1;
        }
        proof {
            assert(list@.take(i as int) =~= list@);
        }
        out
    }

    /// The tree that bytes store. What stands behind the tree is not read.
    pub fn from_bytes(bytes: &[u8]) -> (r: Result<Tree<Entry>, TreeError>)
        ensures
            r is Ok <==> parse_node(bytes@, 0) is Some,
            r is Err ==> r->Err_0 == TreeError::CorruptData,
            r is Ok ==> r->Ok_0.wf() && r->Ok_0@.topo.root == 0 && tree_records(r->Ok_0@) == (parse_node(
                bytes@,
                0,
            )->0).0,
    {
        let (entry, count, next) = match read_record(bytes, 0) {
            Some(x) => x,
            None => {
                return Err(TreeError::CorruptData);
            },
        };
        let ghost e0 = entry;
        let mut tree = Tree::new_with_root(entry);
        proof {
            assert(tree@.has(0));
            assert(tree@.topo.children(0) =~= Seq::<usize>::empty());
        }
        match parse_children(&mut tree, bytes, next, count, 0, Ghost(None)) {
            Ok(_) => {
                proof {
                    tree@.lemma_shape_unfold(0);
                    let rest = (parse_forest(bytes@, next as int, count as nat)->0).0;
                    assert(tree_records(tree@) =~= seq![record_from((e0, count as nat))] + rest);
                }
                Ok(tree)
            },
            Err(e) => Err(e),
        }
    }
}

} // verus!
