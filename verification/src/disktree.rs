//! The serialized, random-access form of a reduced-elevation trie.
//!
//! The byte layout is self-contained: a leaf count, a directory of 122
//! base-cell offsets, and one record per node. A leaf record holds a
//! tag byte of 0, the cell's 64-bit index, and the 6-byte reduction; an
//! interior record holds a tag byte of 1 and seven absolute child
//! offsets, with 0 marking an absent child. A point query therefore
//! seeks through at most one record per resolution level.

use vstd::prelude::*;
use vstd::bytes::{
    spec_u64_to_le_bytes, spec_u64_from_le_bytes, u64_to_le_bytes, u64_from_le_bytes,
    lemma_auto_spec_u64_to_from_le_bytes,
};
use vstd::slice::slice_subrange;
use vstd::pervasive::arbitrary;
use crate::cell::{Cell, spec_cell_wf, spec_res, spec_base, spec_digit};
use crate::elevation::{ReducedElevation, spec_reduced_bytes};
use crate::errors::HexitError;
use crate::hextree::{Node, Children, Compactor, HexTreeMap, child_of, spec_get_node};

verus! {

/// Whether the bytes at `off` encode the node `n`, with child
/// records reachable through absolute offsets.
pub open spec fn node_at(b: Seq<u8>, off: int, n: Node<ReducedElevation>) -> bool
    decreases n,
{
    match n {
        Node::Leaf(c, v) => {
            &&& 984 <= off
            &&& off + 15 <= b.len()
            &&& b[off] == 0u8
            &&& spec_u64_from_le_bytes(b.subrange(off + 1, off + 9)) == c.spec_raw()
            &&& b.subrange(off + 9, off + 15) == spec_reduced_bytes(v)
        },
        Node::Parent(ch) => {
            &&& 984 <= off
            &&& off + 57 <= b.len()
            &&& b[off] == 1u8
            &&& child_slot_at(b, off, 0, ch.c0)
            &&& child_slot_at(b, off, 1, ch.c1)
            &&& child_slot_at(b, off, 2, ch.c2)
            &&& child_slot_at(b, off, 3, ch.c3)
            &&& child_slot_at(b, off, 4, ch.c4)
            &&& child_slot_at(b, off, 5, ch.c5)
            &&& child_slot_at(b, off, 6, ch.c6)
        },
    }
}

/// Whether the `i`-th child offset of the interior record at `off`
/// encodes the child slot `on`: 0 for an absent child, else the
/// offset of the child's record.
pub open spec fn child_slot_at(
    b: Seq<u8>,
    off: int,
    i: int,
    on: Option<Node<ReducedElevation>>,
) -> bool
    decreases on,
{
    let coff = spec_u64_from_le_bytes(b.subrange(off + 1 + 8 * i, off + 9 + 8 * i)) as int;
    match on {
        None => coff == 0,
        Some(cn) => coff != 0 && node_at(b, coff, cn),
    }
}

/// A record's encoding survives appending bytes to the buffer.
pub proof fn lemma_node_at_prefix(b1: Seq<u8>, b2: Seq<u8>, off: int, n: Node<ReducedElevation>)
    requires
        node_at(b1, off, n),
        b1.len() <= b2.len(),
        b2.subrange(0, b1.len() as int) == b1,
    ensures
        node_at(b2, off, n),
    decreases n,
{
    assert(forall|i: int| 0 <= i < b1.len() ==> b2[i] == #[trigger] b1[i]);
    match n {
        Node::Leaf(c, v) => {
            assert(b2.subrange(off + 1, off + 9) =~= b1.subrange(off + 1, off + 9));
            assert(b2.subrange(off + 9, off + 15) =~= b1.subrange(off + 9, off + 15));
        },
        Node::Parent(ch) => {
            lemma_child_slot_prefix(b1, b2, off, 0, ch.c0);
            lemma_child_slot_prefix(b1, b2, off, 1, ch.c1);
            lemma_child_slot_prefix(b1, b2, off, 2, ch.c2);
            lemma_child_slot_prefix(b1, b2, off, 3, ch.c3);
            lemma_child_slot_prefix(b1, b2, off, 4, ch.c4);
            lemma_child_slot_prefix(b1, b2, off, 5, ch.c5);
            lemma_child_slot_prefix(b1, b2, off, 6, ch.c6);
        },
    }
}

/// A child slot's encoding survives appending bytes to the buffer.
proof fn lemma_child_slot_prefix(
    b1: Seq<u8>,
    b2: Seq<u8>,
    off: int,
    i: int,
    on: Option<Node<ReducedElevation>>,
)
    requires
        child_slot_at(b1, off, i, on),
        0 <= off,
        off + 57 <= b1.len(),
        0 <= i < 7,
        b1.len() <= b2.len(),
        b2.subrange(0, b1.len() as int) == b1,
    ensures
        child_slot_at(b2, off, i, on),
    decreases on,
{
    assert(b2.subrange(off + 1 + 8 * i, off + 9 + 8 * i) =~= b1.subrange(
        off + 1 + 8 * i,
        off + 9 + 8 * i,
    ));
    match on {
        None => {},
        Some(cn) => {
            lemma_node_at_prefix(b1, b2, spec_u64_from_le_bytes(
                b1.subrange(off + 1 + 8 * i, off + 9 + 8 * i),
            ) as int, cn);
        },
    }
}

/// Writes a child slot's record, returning its offset, or 0 for an
/// absent child.
fn write_opt(on: &Option<Node<ReducedElevation>>, out: &mut Vec<u8>) -> (off: u64)
    requires
        old(out)@.len() >= 984,
    ensures
        old(out)@.len() <= final(out)@.len(),
        final(out)@.subrange(0, old(out)@.len() as int) == old(out)@,
        match *on {
            None => off == 0 && final(out)@ == old(out)@,
            Some(n) => off != 0 && node_at(final(out)@, off as int, n),
        },
    decreases on,
{
    match on {
        None => {
            proof {
                assert(final(out)@.subrange(0, old(out)@.len() as int) =~= old(out)@);
            }
            0
        },
        Some(n) => write_node(n, out),
    }
}

/// Writes a node's record after its descendants', returning the
/// record's offset.
#[verifier::rlimit(60)]
fn write_node(n: &Node<ReducedElevation>, out: &mut Vec<u8>) -> (off: u64)
    requires
        old(out)@.len() >= 984,
    ensures
        old(out)@.len() <= final(out)@.len(),
        final(out)@.subrange(0, old(out)@.len() as int) == old(out)@,
        off != 0,
        node_at(final(out)@, off as int, *n),
    decreases n,
{
    proof {
        lemma_auto_spec_u64_to_from_le_bytes();
    }
    match n {
        Node::Leaf(c, v) => {
            let off64: u64 = out.len() as u64;
            let ghost pre = out@;
            out.push(0u8);
            let mut cb = u64_to_le_bytes(c.into_raw());
            out.append(&mut cb);
            let mut vb = v.to_bytes();
            out.append(&mut vb);
            proof {
                let fin = out@;
                let off = off64 as int;
                assert(fin.subrange(0, pre.len() as int) =~= pre);
                assert(fin.subrange(off + 1, off + 9) =~= spec_u64_to_le_bytes(c.spec_raw()));
                assert(fin.subrange(off + 9, off + 15) =~= spec_reduced_bytes(*v));
            }
            off64
        },
        Node::Parent(ch) => {
            let ghost pre = out@;
            let o0 = write_opt(&ch.c0, out);
            let ghost b0 = out@;
            let o1 = write_opt(&ch.c1, out);
            let ghost b1 = out@;
            let o2 = write_opt(&ch.c2, out);
            let ghost b2 = out@;
            let o3 = write_opt(&ch.c3, out);
            let ghost b3 = out@;
            let o4 = write_opt(&ch.c4, out);
            let ghost b4 = out@;
            let o5 = write_opt(&ch.c5, out);
            let ghost b5 = out@;
            let o6 = write_opt(&ch.c6, out);
            let ghost b6 = out@;
            let off64: u64 = out.len() as u64;
            out.push(1u8);
            let mut t0 = u64_to_le_bytes(o0);
            out.append(&mut t0);
            let mut t1 = u64_to_le_bytes(o1);
            out.append(&mut t1);
            let mut t2 = u64_to_le_bytes(o2);
            out.append(&mut t2);
            let mut t3 = u64_to_le_bytes(o3);
            out.append(&mut t3);
            let mut t4 = u64_to_le_bytes(o4);
            out.append(&mut t4);
            let mut t5 = u64_to_le_bytes(o5);
            out.append(&mut t5);
            let mut t6 = u64_to_le_bytes(o6);
            out.append(&mut t6);
            proof {
                let fin = out@;
                let off = off64 as int;
                assert(fin.subrange(0, pre.len() as int) =~= pre);
                assert(fin[off] == 1u8);
                assert(fin.subrange(off + 1, off + 9) =~= spec_u64_to_le_bytes(o0));
                assert(fin.subrange(off + 9, off + 17) =~= spec_u64_to_le_bytes(o1));
                assert(fin.subrange(off + 17, off + 25) =~= spec_u64_to_le_bytes(o2));
                assert(fin.subrange(off + 25, off + 33) =~= spec_u64_to_le_bytes(o3));
                assert(fin.subrange(off + 33, off + 41) =~= spec_u64_to_le_bytes(o4));
                assert(fin.subrange(off + 41, off + 49) =~= spec_u64_to_le_bytes(o5));
                assert(fin.subrange(off + 49, off + 57) =~= spec_u64_to_le_bytes(o6));
                assert(fin.subrange(0, b6.len() as int) =~= b6);
                if ch.c0 is Some {
                    assert(b6.subrange(0, b0.len() as int) =~= b0);
                    lemma_node_at_prefix(b0, b6, o0 as int, ch.c0->0);
                    lemma_node_at_prefix(b6, fin, o0 as int, ch.c0->0);
                }
                if ch.c1 is Some {
                    assert(b6.subrange(0, b1.len() as int) =~= b1);
                    lemma_node_at_prefix(b1, b6, o1 as int, ch.c1->0);
                    lemma_node_at_prefix(b6, fin, o1 as int, ch.c1->0);
                }
                if ch.c2 is Some {
                    assert(b6.subrange(0, b2.len() as int) =~= b2);
                    lemma_node_at_prefix(b2, b6, o2 as int, ch.c2->0);
                    lemma_node_at_prefix(b6, fin, o2 as int, ch.c2->0);
                }
                if ch.c3 is Some {
                    assert(b6.subrange(0, b3.len() as int) =~= b3);
                    lemma_node_at_prefix(b3, b6, o3 as int, ch.c3->0);
                    lemma_node_at_prefix(b6, fin, o3 as int, ch.c3->0);
                }
                if ch.c4 is Some {
                    assert(b6.subrange(0, b4.len() as int) =~= b4);
                    lemma_node_at_prefix(b4, b6, o4 as int, ch.c4->0);
                    lemma_node_at_prefix(b6, fin, o4 as int, ch.c4->0);
                }
                if ch.c5 is Some {
                    assert(b6.subrange(0, b5.len() as int) =~= b5);
                    lemma_node_at_prefix(b5, b6, o5 as int, ch.c5->0);
                    lemma_node_at_prefix(b6, fin, o5 as int, ch.c5->0);
                }
                if ch.c6 is Some {
                    lemma_node_at_prefix(b6, fin, o6 as int, ch.c6->0);
                }
            }
            off64
        },
    }
}

/// Whether the buffer is a serialized form of the 122 base-cell
/// slots: the directory entry of each empty slot reads 0, and each
/// occupied slot's entry points at its tree's root record.
pub open spec fn tree_serialized(b: Seq<u8>, nodes: Seq<Option<Node<ReducedElevation>>>) -> bool {
    &&& nodes.len() == 122
    &&& b.len() >= 984
    &&& forall|i: int|
        0 <= i < 122 ==> child_dir_at(b, i, #[trigger] nodes[i])
}

/// Whether directory entry `i` encodes the slot `on`.
pub open spec fn child_dir_at(b: Seq<u8>, i: int, on: Option<Node<ReducedElevation>>) -> bool {
    let doff = spec_u64_from_le_bytes(b.subrange(8 + 8 * i, 16 + 8 * i)) as int;
    match on {
        None => doff == 0,
        Some(n) => doff != 0 && node_at(b, doff, n),
    }
}

/// The leaf count the buffer's header records.
pub open spec fn spec_disk_count(b: Seq<u8>) -> int {
    spec_u64_from_le_bytes(b.subrange(0, 8)) as int
}


/// A record's encoding survives rewriting bytes below the directory's
/// end.
pub proof fn lemma_node_at_patch(b1: Seq<u8>, b2: Seq<u8>, off: int, n: Node<ReducedElevation>)
    requires
        node_at(b1, off, n),
        b1.len() == b2.len(),
        forall|j: int| 984 <= j < b1.len() ==> b2[j] == #[trigger] b1[j],
    ensures
        node_at(b2, off, n),
    decreases n,
{
    match n {
        Node::Leaf(c, v) => {
            assert(b2.subrange(off + 1, off + 9) =~= b1.subrange(off + 1, off + 9));
            assert(b2.subrange(off + 9, off + 15) =~= b1.subrange(off + 9, off + 15));
        },
        Node::Parent(ch) => {
            lemma_child_slot_patch(b1, b2, off, 0, ch.c0);
            lemma_child_slot_patch(b1, b2, off, 1, ch.c1);
            lemma_child_slot_patch(b1, b2, off, 2, ch.c2);
            lemma_child_slot_patch(b1, b2, off, 3, ch.c3);
            lemma_child_slot_patch(b1, b2, off, 4, ch.c4);
            lemma_child_slot_patch(b1, b2, off, 5, ch.c5);
            lemma_child_slot_patch(b1, b2, off, 6, ch.c6);
        },
    }
}

/// A child slot's encoding survives rewriting bytes below the
/// directory's end.
proof fn lemma_child_slot_patch(
    b1: Seq<u8>,
    b2: Seq<u8>,
    off: int,
    i: int,
    on: Option<Node<ReducedElevation>>,
)
    requires
        child_slot_at(b1, off, i, on),
        984 <= off,
        off + 57 <= b1.len(),
        0 <= i < 7,
        b1.len() == b2.len(),
        forall|j: int| 984 <= j < b1.len() ==> b2[j] == #[trigger] b1[j],
    ensures
        child_slot_at(b2, off, i, on),
    decreases on,
{
    assert(b2.subrange(off + 1 + 8 * i, off + 9 + 8 * i) =~= b1.subrange(
        off + 1 + 8 * i,
        off + 9 + 8 * i,
    ));
    match on {
        None => {},
        Some(cn) => {
            lemma_node_at_patch(b1, b2, spec_u64_from_le_bytes(
                b1.subrange(off + 1 + 8 * i, off + 9 + 8 * i),
            ) as int, cn);
        },
    }
}

/// Overwrites eight bytes at `pos` with a little-endian value.
fn patch_u64(out: &mut Vec<u8>, pos: usize, val: u64)
    requires
        pos + 8 <= old(out)@.len(),
    ensures
        final(out)@.len() == old(out)@.len(),
        final(out)@.subrange(pos as int, pos + 8) == spec_u64_to_le_bytes(val),
        forall|j: int|
            0 <= j < old(out)@.len() && !(pos <= j < pos + 8) ==> #[trigger] final(out)@[j] == old(
                out,
            )@[j],
{
    proof {
        lemma_auto_spec_u64_to_from_le_bytes();
    }
    let bs = u64_to_le_bytes(val);
    proof {
        assert(bs@.len() == 8);
    }
    let total: usize = out.len();
    let mut k: usize = 0;
    while k < 8
        invariant
            pos + 8 <= old(out)@.len(),
            out@.len() == old(out)@.len(),
            total == out@.len(),
            bs@ == spec_u64_to_le_bytes(val),
            bs@.len() == 8,
            0 <= k <= 8,
            forall|j: int| pos <= j < pos + k ==> #[trigger] out@[j] == bs@[j - pos],
            forall|j: int|
                0 <= j < old(out)@.len() && !(pos <= j < pos + 8) ==> #[trigger] out@[j] == old(
                    out,
                )@[j],
        decreases 8 - k,
    {
        let v = bs[k];
        out[pos + k] = v;
        k = k + 1;
    }
    proof {
        assert(final(out)@.subrange(pos as int, pos + 8) =~= spec_u64_to_le_bytes(val));
    }
}

/// Serializes a reduced-elevation trie: header, directory, then one
/// record per node, children before parents.
pub fn to_disktree<C: Compactor<ReducedElevation>>(t: &HexTreeMap<ReducedElevation, C>) -> (r: Vec<
    u8,
>)
    requires
        t.wf(),
    ensures
        tree_serialized(r@, t.spec_nodes()),
        spec_disk_count(r@) == t.spec_entries().len(),
{
    proof {
        lemma_auto_spec_u64_to_from_le_bytes();
    }
    let count: u64 = t.len() as u64;
    let mut out: Vec<u8> = u64_to_le_bytes(count);
    let mut i: usize = 0;
    while i < 976
        invariant
            out@.len() == 8 + i,
            out@.subrange(0, 8) == spec_u64_to_le_bytes(count),
            0 <= i <= 976,
        decreases 976 - i,
    {
        out.push(0u8);
        proof {
            assert(out@.subrange(0, 8) =~= spec_u64_to_le_bytes(count));
        }
        i = i + 1;
    }
    let mut b: usize = 0;
    while b < 122
        invariant
            t.wf(),
            out@.len() >= 984,
            out@.subrange(0, 8) == spec_u64_to_le_bytes(count),
            0 <= b <= 122,
            forall|j: int| 0 <= j < b ==> child_dir_at(out@, j, t.spec_nodes()[j]),
        decreases 122 - b,
    {
        let ghost before = out@;
        let slot_off: u64 = match t.slot(b) {
            Some(n) => write_node(n, &mut out),
            None => 0,
        };
        let ghost written = out@;
        proof {
            lemma_auto_spec_u64_to_from_le_bytes();
            assert(written.subrange(0, before.len() as int) =~= before);
            assert(written.subrange(0, 8) =~= before.subrange(0, 8));
            assert forall|j: int| 0 <= j < b implies child_dir_at(written, j, t.spec_nodes()[j]) by {
                assert(written.subrange(8 + 8 * j, 16 + 8 * j) =~= before.subrange(
                    8 + 8 * j,
                    16 + 8 * j,
                ));
                match t.spec_nodes()[j] {
                    None => {},
                    Some(nj) => {
                        lemma_node_at_prefix(before, written, spec_u64_from_le_bytes(
                            before.subrange(8 + 8 * j, 16 + 8 * j),
                        ) as int, nj);
                    },
                }
            }
        }
        patch_u64(&mut out, 8 + 8 * b, slot_off);
        proof {
            lemma_auto_spec_u64_to_from_le_bytes();
            let fin = out@;
            assert(fin.len() == written.len());
            assert(written.len() >= 984);
            assert(forall|x: int| 984 <= x < written.len() ==> fin[x] == #[trigger] written[x]);
            assert(fin.subrange(0, 8) =~= written.subrange(0, 8));
            assert(fin.subrange(8 + 8 * (b as int), 16 + 8 * (b as int)) =~= spec_u64_to_le_bytes(
                slot_off,
            ));
            assert(spec_u64_from_le_bytes(spec_u64_to_le_bytes(slot_off)) == slot_off);
            assert forall|j: int| 0 <= j < b + 1 implies child_dir_at(fin, j, t.spec_nodes()[j]) by {
                if j < b {
                    assert(child_dir_at(written, j, t.spec_nodes()[j]));
                    assert(fin.subrange(8 + 8 * j, 16 + 8 * j) =~= written.subrange(
                        8 + 8 * j,
                        16 + 8 * j,
                    ));
                    match t.spec_nodes()[j] {
                        None => {},
                        Some(nj) => {
                            lemma_node_at_patch(written, fin, spec_u64_from_le_bytes(
                                written.subrange(8 + 8 * j, 16 + 8 * j),
                            ) as int, nj);
                        },
                    }
                } else {
                    assert(j == b as int);
                    assert(fin.subrange(8 + 8 * j, 16 + 8 * j) == spec_u64_to_le_bytes(slot_off));
                    match t.spec_nodes()[b as int] {
                        None => {
                            assert(slot_off == 0);
                        },
                        Some(nb) => {
                            assert(slot_off != 0);
                            assert(node_at(written, slot_off as int, nb));
                            lemma_node_at_patch(written, fin, slot_off as int, nb);
                        },
                    }
                }
            }
        }
        b = b + 1;
    }
    out
}

/// What a serialized trie answers for a cell: the stored cell index
/// and value at the cell or its nearest compacted ancestor.
pub open spec fn spec_disk_get(
    nodes: Seq<Option<Node<ReducedElevation>>>,
    cell: Cell,
) -> Option<(u64, ReducedElevation)> {
    match nodes[spec_base(cell.spec_raw()) as int] {
        Some(n) => match spec_get_node(n, cell, 0) {
            Some(p) => Some((p.0.spec_raw(), p.1)),
            None => None,
        },
        None => None,
    }
}

/// What the record for a node answers for a cell: the stored cell's
/// raw index and value at the cell or its nearest compacted ancestor.
pub open spec fn spec_node_answer(cur: Node<ReducedElevation>, cell: Cell, depth: int) -> Option<
    (u64, ReducedElevation),
> {
    match spec_get_node(cur, cell, depth) {
        Some(p) => Some((p.0.spec_raw(), p.1)),
        None => None,
    }
}

/// One level of the seek walk over untrusted bytes: whatever node the
/// bytes encode at the offset, the walk answers as that node's
/// in-memory lookup would.
fn seek_node(bytes: &[u8], cell: Cell, off64: u64, depth: u8) -> (r: Result<
    Option<(u64, ReducedElevation)>,
    HexitError,
>)
    requires
        spec_cell_wf(cell.spec_raw()),
        depth <= spec_res(cell.spec_raw()),
    ensures
        forall|cur: Node<ReducedElevation>|
            node_at(bytes@, off64 as int, cur) ==> r == Ok::<_, HexitError>(
                spec_node_answer(cur, cell, depth as int),
            ),
    decreases spec_res(cell.spec_raw()) - depth,
{
    if off64 >= bytes.len() as u64 {
        let result = Err(HexitError::BadTree(off64));
        proof {
            assert forall|cur: Node<ReducedElevation>|
                node_at(bytes@, off64 as int, cur) implies result == Ok::<_, HexitError>(
                spec_node_answer(cur, cell, depth as int),
            ) by {
                match cur {
                    Node::Leaf(c, v0) => {},
                    Node::Parent(ch) => {},
                }
            }
        }
        return result;
    }
    let off = off64 as usize;
    let tag = bytes[off];
    if tag == 0 {
        if bytes.len() - off < 15 {
            let result = Err(HexitError::BadTree(off64));
            proof {
                assert forall|cur: Node<ReducedElevation>|
                    node_at(bytes@, off64 as int, cur) implies result == Ok::<_, HexitError>(
                    spec_node_answer(cur, cell, depth as int),
                ) by {
                    match cur {
                        Node::Leaf(c, v0) => {},
                        Node::Parent(ch) => {},
                    }
                }
            }
            return result;
        }
        let raw = u64_from_le_bytes(slice_subrange(bytes, off + 1, off + 9));
        let vb = slice_subrange(bytes, off + 9, off + 15);
        match ReducedElevation::from_bytes(vb) {
            Ok(v) => {
                let result = Ok(Some((raw, v)));
                proof {
                    assert forall|cur: Node<ReducedElevation>|
                        node_at(bytes@, off64 as int, cur) implies result == Ok::<_, HexitError>(
                        spec_node_answer(cur, cell, depth as int),
                    ) by {
                        match cur {
                            Node::Leaf(c, v0) => {
                                crate::elevation::lemma_reduced_bytes_round_trip(v0);
                            },
                            Node::Parent(ch) => {},
                        }
                    }
                }
                result
            },
            Err(_) => {
                let result = Err(HexitError::BadTree(off64));
                proof {
                    assert forall|cur: Node<ReducedElevation>|
                        node_at(bytes@, off64 as int, cur) implies result == Ok::<_, HexitError>(
                        spec_node_answer(cur, cell, depth as int),
                    ) by {
                        match cur {
                            Node::Leaf(c, v0) => {},
                            Node::Parent(ch) => {},
                        }
                    }
                }
                result
            },
        }
    } else if tag == 1 {
        if bytes.len() - off < 57 {
            let result = Err(HexitError::BadTree(off64));
            proof {
                assert forall|cur: Node<ReducedElevation>|
                    node_at(bytes@, off64 as int, cur) implies result == Ok::<_, HexitError>(
                    spec_node_answer(cur, cell, depth as int),
                ) by {
                    match cur {
                        Node::Leaf(c, v0) => {},
                        Node::Parent(ch) => {},
                    }
                }
            }
            return result;
        }
        let res = cell.res();
        if depth >= res {
            let result = Ok(None);
            proof {
                assert forall|cur: Node<ReducedElevation>|
                    node_at(bytes@, off64 as int, cur) implies result == Ok::<_, HexitError>(
                    spec_node_answer(cur, cell, depth as int),
                ) by {
                    match cur {
                        Node::Leaf(c, v0) => {},
                        Node::Parent(ch) => {},
                    }
                }
            }
            return result;
        }
        let d = cell.digit(depth + 1);
        proof {
            assert(spec_digit(cell.spec_raw(), depth + 1) < 7);
        }
        let coff = u64_from_le_bytes(slice_subrange(bytes, off + 1 + 8 * (d as usize), off + 9 + 8
            * (d as usize)));
        if coff == 0 {
            let result = Ok(None);
            proof {
                assert forall|cur: Node<ReducedElevation>|
                    node_at(bytes@, off64 as int, cur) implies result == Ok::<_, HexitError>(
                    spec_node_answer(cur, cell, depth as int),
                ) by {
                    match cur {
                        Node::Leaf(c, v0) => {},
                        Node::Parent(ch) => {
                            lemma_child_slot_unfold(bytes@, off as int, d as int, *ch);
                        },
                    }
                }
            }
            return result;
        }
        let result = seek_node(bytes, cell, coff, depth + 1);
        proof {
            assert forall|cur: Node<ReducedElevation>|
                node_at(bytes@, off64 as int, cur) implies result == Ok::<_, HexitError>(
                spec_node_answer(cur, cell, depth as int),
            ) by {
                match cur {
                    Node::Leaf(c, v0) => {},
                    Node::Parent(ch) => {
                        lemma_child_slot_unfold(bytes@, off as int, d as int, *ch);
                        match child_of(*ch, d as int) {
                            Some(cn) => {
                                assert(node_at(bytes@, coff as int, cn));
                            },
                            None => {},
                        }
                    },
                }
            }
        }
        result
    } else {
        let result = Err(HexitError::BadTree(off64));
        proof {
            assert forall|cur: Node<ReducedElevation>|
                node_at(bytes@, off64 as int, cur) implies result == Ok::<_, HexitError>(
                spec_node_answer(cur, cell, depth as int),
            ) by {
                match cur {
                    Node::Leaf(c, v0) => {},
                    Node::Parent(ch) => {},
                }
            }
        }
        result
    }
}

/// The child-slot clause of an interior record at a given digit.
proof fn lemma_child_slot_unfold(b: Seq<u8>, off: int, d: int, ch: Children<ReducedElevation>)
    requires
        node_at(b, off, Node::Parent(Box::new(ch))),
        0 <= d < 7,
    ensures
        child_slot_at(b, off, d, child_of(ch, d)),
{
    if d == 0 {
        assert(child_slot_at(b, off, 0, ch.c0));
    } else if d == 1 {
        assert(child_slot_at(b, off, 1, ch.c1));
    } else if d == 2 {
        assert(child_slot_at(b, off, 2, ch.c2));
    } else if d == 3 {
        assert(child_slot_at(b, off, 3, ch.c3));
    } else if d == 4 {
        assert(child_slot_at(b, off, 4, ch.c4));
    } else if d == 5 {
        assert(child_slot_at(b, off, 5, ch.c5));
    } else {
        assert(child_slot_at(b, off, 6, ch.c6));
    }
}

/// Seeks a cell in a serialized trie: the stored index and reduction
/// at the cell or its nearest compacted ancestor, `None` when the
/// trie does not cover the cell, or an error where the bytes are not
/// a serialized trie. Whatever trie the bytes serialize, the answer
/// is that trie's.
pub fn seek(bytes: &[u8], cell: Cell) -> (r: Result<Option<(u64, ReducedElevation)>, HexitError>)
    requires
        spec_cell_wf(cell.spec_raw()),
    ensures
        forall|nodes: Seq<Option<Node<ReducedElevation>>>|
            tree_serialized(bytes@, nodes) ==> r == Ok::<_, HexitError>(
                spec_disk_get(nodes, cell),
            ),
{
    if bytes.len() < 984 {
        return Err(HexitError::BadTree(0));
    }
    let base = cell.base() as usize;
    proof {
        assert(spec_base(cell.spec_raw()) < 122);
    }
    let doff = u64_from_le_bytes(slice_subrange(bytes, 8 + 8 * base, 16 + 8 * base));
    if doff == 0 {
        let result = Ok(None);
        proof {
            assert forall|nodes: Seq<Option<Node<ReducedElevation>>>|
                tree_serialized(bytes@, nodes) implies result == Ok::<_, HexitError>(
                spec_disk_get(nodes, cell),
            ) by {
                assert(child_dir_at(bytes@, base as int, nodes[base as int]));
            }
        }
        return result;
    }
    let result = seek_node(bytes, cell, doff, 0);
    proof {
        assert forall|nodes: Seq<Option<Node<ReducedElevation>>>|
            tree_serialized(bytes@, nodes) implies result == Ok::<_, HexitError>(
            spec_disk_get(nodes, cell),
        ) by {
            assert(child_dir_at(bytes@, base as int, nodes[base as int]));
            match nodes[base as int] {
                Some(n) => {
                    assert(node_at(bytes@, doff as int, n));
                },
                None => {},
            }
        }
    }
    result
}

/// Seeks a cell in the serialized form of a known trie; answers
/// exactly what the trie itself answers.
pub fn seek_in<C: Compactor<ReducedElevation>>(
    bytes: &[u8],
    cell: Cell,
    t: &HexTreeMap<ReducedElevation, C>,
) -> (r: Result<Option<(u64, ReducedElevation)>, HexitError>)
    requires
        t.wf(),
        tree_serialized(bytes@, t.spec_nodes()),
        spec_cell_wf(cell.spec_raw()),
    ensures
        r == Ok::<_, HexitError>(spec_disk_get(t.spec_nodes(), cell)),
        r == Ok::<_, HexitError>(
            match t.spec_get(cell) {
                Some(p) => Some((p.0.spec_raw(), p.1)),
                None => None::<(u64, ReducedElevation)>,
            },
        ),
{
    let r = seek(bytes, cell);
    proof {
        assert(r == Ok::<_, HexitError>(spec_disk_get(t.spec_nodes(), cell)));
    }
    r
}


/// The per-entry round trip of a serialized trie: every entry of the
/// trie, sought in its serialized form at the entry's own cell,
/// answers exactly that entry's stored cell and value.
pub proof fn lemma_disktree_entry_round_trip<C: Compactor<ReducedElevation>>(
    b: Seq<u8>,
    t: HexTreeMap<ReducedElevation, C>,
    j: int,
)
    requires
        t.wf(),
        tree_serialized(b, t.spec_nodes()),
        0 <= j < t.spec_entries().len(),
    ensures
        spec_cell_wf(t.spec_entries()[j].0.spec_raw()),
        spec_disk_get(t.spec_nodes(), t.spec_entries()[j].0) == Some(
            (t.spec_entries()[j].0.spec_raw(), t.spec_entries()[j].1),
        ),
{
    crate::hextree::lemma_entries_found(t, j);
}

/// The entries with each cell replaced by its raw 64-bit index.
pub open spec fn raw_entries(es: Seq<(Cell, ReducedElevation)>) -> Seq<(u64, ReducedElevation)> {
    es.map_values(|p: (Cell, ReducedElevation)| (p.0.spec_raw(), p.1))
}

/// Raw-index mapping distributes over concatenation.
proof fn lemma_raw_entries_app(a: Seq<(Cell, ReducedElevation)>, b: Seq<(Cell, ReducedElevation)>)
    ensures
        raw_entries(a + b) == raw_entries(a) + raw_entries(b),
{
    assert(raw_entries(a + b) =~= raw_entries(a) + raw_entries(b));
}

/// Appends the entries below the record at `off`, in digit order.
fn disk_node_entries(
    bytes: &[u8],
    off: u64,
    Ghost(n): Ghost<Node<ReducedElevation>>,
    out: &mut Vec<(u64, ReducedElevation)>,
)
    requires
        node_at(bytes@, off as int, n),
    ensures
        final(out)@ == old(out)@ + raw_entries(crate::hextree::node_entries(n)),
    decreases n,
{
    proof {
        lemma_auto_spec_u64_to_from_le_bytes();
    }
    let offu = off as usize;
    let tag = bytes[offu];
    if tag == 0 {
        let raw = u64_from_le_bytes(slice_subrange(bytes, offu + 1, offu + 9));
        let vb = slice_subrange(bytes, offu + 9, offu + 15);
        match ReducedElevation::from_bytes(vb) {
            Ok(v) => {
                proof {
                    match n {
                        Node::Leaf(c, v0) => {
                            crate::elevation::lemma_reduced_bytes_round_trip(v0);
                        },
                        _ => {},
                    }
                }
                out.push((raw, v));
                proof {
                    assert(final(out)@ =~= old(out)@ + raw_entries(
                        crate::hextree::node_entries(n),
                    ));
                }
            },
            Err(_) => {
                proof {
                    assert(false);
                }
            },
        }
    } else {
        let ghost ch = match n {
            Node::Parent(b) => *b,
            _ => arbitrary(),
        };
        let mut d: u8 = 0;
        let ghost entries_upto = |k: int| -> Seq<(Cell, ReducedElevation)>
            {
                if k <= 0 {
                    Seq::empty()
                } else if k == 1 {
                    crate::hextree::opt_entries(ch.c0)
                } else if k == 2 {
                    crate::hextree::opt_entries(ch.c0) + crate::hextree::opt_entries(ch.c1)
                } else if k == 3 {
                    crate::hextree::opt_entries(ch.c0) + crate::hextree::opt_entries(ch.c1)
                        + crate::hextree::opt_entries(ch.c2)
                } else if k == 4 {
                    crate::hextree::opt_entries(ch.c0) + crate::hextree::opt_entries(ch.c1)
                        + crate::hextree::opt_entries(ch.c2) + crate::hextree::opt_entries(ch.c3)
                } else if k == 5 {
                    crate::hextree::opt_entries(ch.c0) + crate::hextree::opt_entries(ch.c1)
                        + crate::hextree::opt_entries(ch.c2) + crate::hextree::opt_entries(ch.c3)
                        + crate::hextree::opt_entries(ch.c4)
                } else if k == 6 {
                    crate::hextree::opt_entries(ch.c0) + crate::hextree::opt_entries(ch.c1)
                        + crate::hextree::opt_entries(ch.c2) + crate::hextree::opt_entries(ch.c3)
                        + crate::hextree::opt_entries(ch.c4) + crate::hextree::opt_entries(ch.c5)
                } else {
                    crate::hextree::opt_entries(ch.c0) + crate::hextree::opt_entries(ch.c1)
                        + crate::hextree::opt_entries(ch.c2) + crate::hextree::opt_entries(ch.c3)
                        + crate::hextree::opt_entries(ch.c4) + crate::hextree::opt_entries(ch.c5)
                        + crate::hextree::opt_entries(ch.c6)
                }
            };
        let blen = bytes.len();
        while d < 7
            invariant
                node_at(bytes@, off as int, n),
                n == Node::<ReducedElevation>::Parent(Box::new(ch)),
                off as usize == offu,
                bytes@.len() == blen,
                0 <= d <= 7,
                out@ == old(out)@ + raw_entries(entries_upto(d as int)),
                entries_upto(0) == Seq::<(Cell, ReducedElevation)>::empty(),
                forall|k: int|
                    0 <= k < 7 ==> #[trigger] entries_upto(k + 1) == entries_upto(k)
                        + crate::hextree::opt_entries(crate::hextree::child_of(ch, k)),
            decreases 7 - d,
        {
            let coff = u64_from_le_bytes(slice_subrange(bytes, offu + 1 + 8 * (d as usize), offu
                + 9 + 8 * (d as usize)));
            let ghost slot = crate::hextree::child_of(ch, d as int);
            proof {
                if d == 0 {
                    assert(child_slot_at(bytes@, off as int, 0, ch.c0));
                } else if d == 1 {
                    assert(child_slot_at(bytes@, off as int, 1, ch.c1));
                } else if d == 2 {
                    assert(child_slot_at(bytes@, off as int, 2, ch.c2));
                } else if d == 3 {
                    assert(child_slot_at(bytes@, off as int, 3, ch.c3));
                } else if d == 4 {
                    assert(child_slot_at(bytes@, off as int, 4, ch.c4));
                } else if d == 5 {
                    assert(child_slot_at(bytes@, off as int, 5, ch.c5));
                } else {
                    assert(child_slot_at(bytes@, off as int, 6, ch.c6));
                }
            }
            if coff != 0 {
                let ghost cn = match slot {
                    Some(cn) => cn,
                    None => arbitrary(),
                };
                disk_node_entries(bytes, coff, Ghost(cn), out);
                proof {
                    lemma_raw_entries_app(entries_upto(d as int), crate::hextree::opt_entries(slot));
                }
            } else {
                proof {
                    assert(crate::hextree::opt_entries(slot)
                        =~= Seq::<(Cell, ReducedElevation)>::empty());
                    lemma_raw_entries_app(entries_upto(d as int), crate::hextree::opt_entries(slot));
                    assert(raw_entries(entries_upto(d as int)) + raw_entries(
                        crate::hextree::opt_entries(slot),
                    ) =~= raw_entries(entries_upto(d as int)));
                }
            }
            d = d + 1;
        }
        proof {
            assert(entries_upto(7) == crate::hextree::node_entries(n));
        }
    }
}

/// All entries of a serialized trie, in base-cell and digit order:
/// exactly the entries of the trie it serialized.
pub fn entries_in<C: Compactor<ReducedElevation>>(
    bytes: &[u8],
    t: &HexTreeMap<ReducedElevation, C>,
) -> (r: Vec<(u64, ReducedElevation)>)
    requires
        t.wf(),
        tree_serialized(bytes@, t.spec_nodes()),
    ensures
        r@ == raw_entries(t.spec_entries()),
{
    proof {
        lemma_auto_spec_u64_to_from_le_bytes();
    }
    let mut out: Vec<(u64, ReducedElevation)> = Vec::new();
    let mut b: usize = 0;
    while b < 122
        invariant
            t.wf(),
            tree_serialized(bytes@, t.spec_nodes()),
            0 <= b <= 122,
            out@ == raw_entries(crate::hextree::bases_entries(t.spec_nodes(), b as int)),
        decreases 122 - b,
    {
        proof {
            lemma_auto_spec_u64_to_from_le_bytes();
            assert(child_dir_at(bytes@, b as int, t.spec_nodes()[b as int]));
        }
        let doff = u64_from_le_bytes(slice_subrange(bytes, 8 + 8 * b, 16 + 8 * b));
        let ghost slot = t.spec_nodes()[b as int];
        if doff != 0 {
            let ghost n = match slot {
                Some(n) => n,
                None => arbitrary(),
            };
            disk_node_entries(bytes, doff, Ghost(n), &mut out);
            proof {
                lemma_raw_entries_app(
                    crate::hextree::bases_entries(t.spec_nodes(), b as int),
                    crate::hextree::opt_entries(slot),
                );
            }
        } else {
            proof {
                assert(crate::hextree::opt_entries(slot)
                    =~= Seq::<(Cell, ReducedElevation)>::empty());
                lemma_raw_entries_app(
                    crate::hextree::bases_entries(t.spec_nodes(), b as int),
                    crate::hextree::opt_entries(slot),
                );
                assert(raw_entries(crate::hextree::bases_entries(t.spec_nodes(), b as int))
                    + raw_entries(crate::hextree::opt_entries(slot)) =~= raw_entries(
                    crate::hextree::bases_entries(t.spec_nodes(), b as int),
                ));
            }
        }
        b = b + 1;
    }
    out
}

} // verus!
