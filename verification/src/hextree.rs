//! A 7-ary trie keyed by hexagonal cells, with insert-time
//! compaction.
//!
//! Each of the 122 base cells roots a tree whose levels follow the
//! cell digits. A leaf stores the cell it covers and a value; a query
//! for a finer cell inside a compacted leaf answers with that leaf's
//! cell and value. After every insert the trie walks back up the
//! insert path and asks a caller-chosen [`Compactor`] whether seven
//! sibling leaves may collapse into their parent; a tree therefore
//! never leaves a collapsible parent behind.

use vstd::prelude::*;
use crate::cell::{Cell, spec_cell_wf, spec_res, spec_base, spec_digit};

verus! {

/// A compaction strategy: a value invariant the trie maintains, and
/// the rule deciding whether seven sibling leaf values collapse into
/// one value at their parent.
pub trait Compactor<V>: Sized {
    /// The invariant every value in the trie satisfies.
    spec fn spec_inv(&self, v: V) -> bool;

    /// The compaction rule: given the parent's resolution and the
    /// seven child slots (a value for each sibling leaf, `None` for a
    /// missing sibling), the value to collapse to, or `None` to keep
    /// the children separate.
    spec fn spec_compact(&self, res: u8, children: Seq<Option<V>>) -> Option<V>;

    /// Collapsed values satisfy the value invariant.
    proof fn lemma_compact_inv(&self, res: u8, children: Seq<Option<V>>)
        requires
            children.len() == 7,
            forall|i: int|
                0 <= i < 7 ==> ((#[trigger] children[i]) matches Some(v) ==> self.spec_inv(v)),
        ensures
            (self.spec_compact(res, children) matches Some(v) ==> self.spec_inv(v)),
    ;

    /// Applies the compaction rule.
    fn compact(&self, res: u8, children: &Vec<Option<V>>) -> (r: Option<V>)
        requires
            children@.len() == 7,
            forall|i: int|
                0 <= i < 7 ==> ((#[trigger] children@[i]) matches Some(v) ==> self.spec_inv(v)),
        ensures
            r == self.spec_compact(res, children@),
    ;
}

/// A node of the trie: a leaf covering a whole cell, or an interior
/// node with up to seven children.
pub enum Node<V> {
    Leaf(Cell, V),
    Parent(Box<Children<V>>),
}

/// The seven child slots of an interior node, indexed by cell digit.
pub struct Children<V> {
    pub c0: Option<Node<V>>,
    pub c1: Option<Node<V>>,
    pub c2: Option<Node<V>>,
    pub c3: Option<Node<V>>,
    pub c4: Option<Node<V>>,
    pub c5: Option<Node<V>>,
    pub c6: Option<Node<V>>,
}

/// The child slot of digit `d`.
pub open spec fn child_of<V>(ch: Children<V>, d: int) -> Option<Node<V>> {
    if d == 0 {
        ch.c0
    } else if d == 1 {
        ch.c1
    } else if d == 2 {
        ch.c2
    } else if d == 3 {
        ch.c3
    } else if d == 4 {
        ch.c4
    } else if d == 5 {
        ch.c5
    } else {
        ch.c6
    }
}

/// The child slots with digit `d` replaced.
pub open spec fn set_child_spec<V>(ch: Children<V>, d: int, n: Option<Node<V>>) -> Children<
    V,
> {
    if d == 0 {
        Children { c0: n, ..ch }
    } else if d == 1 {
        Children { c1: n, ..ch }
    } else if d == 2 {
        Children { c2: n, ..ch }
    } else if d == 3 {
        Children { c3: n, ..ch }
    } else if d == 4 {
        Children { c4: n, ..ch }
    } else if d == 5 {
        Children { c5: n, ..ch }
    } else {
        Children { c6: n, ..ch }
    }
}

/// Child slots that are all empty.
pub open spec fn spec_empty_children<V>() -> Children<V> {
    Children { c0: None, c1: None, c2: None, c3: None, c4: None, c5: None, c6: None }
}

/// Whether a child slot holds an interior node.
pub open spec fn is_parent<V>(on: Option<Node<V>>) -> bool {
    on matches Some(Node::Parent(_))
}

/// The leaf value of a child slot, if the slot holds a leaf.
pub open spec fn leaf_val<V>(on: Option<Node<V>>) -> Option<V> {
    match on {
        Some(Node::Leaf(_, v)) => Some(v),
        _ => None,
    }
}

/// Whether any child slot holds an interior node.
pub open spec fn any_parent_child<V>(ch: Children<V>) -> bool {
    ||| is_parent(ch.c0)
    ||| is_parent(ch.c1)
    ||| is_parent(ch.c2)
    ||| is_parent(ch.c3)
    ||| is_parent(ch.c4)
    ||| is_parent(ch.c5)
    ||| is_parent(ch.c6)
}

/// The seven leaf values of the child slots, in digit order.
pub open spec fn children_vals<V>(ch: Children<V>) -> Seq<Option<V>> {
    seq![
        leaf_val(ch.c0),
        leaf_val(ch.c1),
        leaf_val(ch.c2),
        leaf_val(ch.c3),
        leaf_val(ch.c4),
        leaf_val(ch.c5),
        leaf_val(ch.c6),
    ]
}

/// Well-formedness of a node that sits at the end of digit path
/// `path` under base cell `base`: a leaf stores a canonical cell
/// whose resolution, base and digits spell exactly that position, and
/// a value satisfying the compactor's invariant; an interior node's
/// children are well-formed one level deeper.
pub open spec fn node_wf<V, C: Compactor<V>>(
    n: Node<V>,
    comp: C,
    base: u64,
    path: Seq<u64>,
) -> bool
    decreases n,
{
    match n {
        Node::Leaf(cell, v) => {
            &&& comp.spec_inv(v)
            &&& spec_cell_wf(cell.spec_raw())
            &&& spec_res(cell.spec_raw()) == path.len()
            &&& spec_base(cell.spec_raw()) == base
            &&& forall|r: int|
                1 <= r <= path.len() ==> #[trigger] spec_digit(cell.spec_raw(), r) == path[r - 1]
        },
        Node::Parent(b) => {
            &&& opt_wf(b.c0, comp, base, path.push(0u64))
            &&& opt_wf(b.c1, comp, base, path.push(1u64))
            &&& opt_wf(b.c2, comp, base, path.push(2u64))
            &&& opt_wf(b.c3, comp, base, path.push(3u64))
            &&& opt_wf(b.c4, comp, base, path.push(4u64))
            &&& opt_wf(b.c5, comp, base, path.push(5u64))
            &&& opt_wf(b.c6, comp, base, path.push(6u64))
        },
    }
}

/// Well-formedness of a child slot.
pub open spec fn opt_wf<V, C: Compactor<V>>(
    on: Option<Node<V>>,
    comp: C,
    base: u64,
    path: Seq<u64>,
) -> bool
    decreases on,
{
    match on {
        Some(n) => node_wf(n, comp, base, path),
        None => true,
    }
}

/// Whether all child slots are empty.
pub open spec fn all_none<V>(ch: Children<V>) -> bool {
    &&& ch.c0 is None
    &&& ch.c1 is None
    &&& ch.c2 is None
    &&& ch.c3 is None
    &&& ch.c4 is None
    &&& ch.c5 is None
    &&& ch.c6 is None
}

/// Full compaction: no occupied interior node whose children are all
/// leaves or missing could still collapse under the compactor's rule.
pub open spec fn node_compacted<V, C: Compactor<V>>(n: Node<V>, comp: C, depth: int) -> bool
    decreases n,
{
    match n {
        Node::Leaf(_, _) => true,
        Node::Parent(b) => {
            &&& ((!any_parent_child(*b) && !all_none(*b)) ==> comp.spec_compact(
                depth as u8,
                children_vals(*b),
            ) is None)
            &&& opt_compacted(b.c0, comp, depth + 1)
            &&& opt_compacted(b.c1, comp, depth + 1)
            &&& opt_compacted(b.c2, comp, depth + 1)
            &&& opt_compacted(b.c3, comp, depth + 1)
            &&& opt_compacted(b.c4, comp, depth + 1)
            &&& opt_compacted(b.c5, comp, depth + 1)
            &&& opt_compacted(b.c6, comp, depth + 1)
        },
    }
}

/// Full compaction of a child slot.
pub open spec fn opt_compacted<V, C: Compactor<V>>(
    on: Option<Node<V>>,
    comp: C,
    depth: int,
) -> bool
    decreases on,
{
    match on {
        Some(n) => node_compacted(n, comp, depth),
        None => true,
    }
}

/// The entries of a child slot, in digit order.
pub open spec fn opt_entries<V>(on: Option<Node<V>>) -> Seq<(Cell, V)>
    decreases on,
{
    match on {
        Some(n) => node_entries(n),
        None => Seq::empty(),
    }
}

/// The entries below a node: its own leaf, or its children's entries
/// in digit order.
pub open spec fn node_entries<V>(n: Node<V>) -> Seq<(Cell, V)>
    decreases n,
{
    match n {
        Node::Leaf(c, v) => seq![(c, v)],
        Node::Parent(b) => opt_entries(b.c0) + opt_entries(b.c1) + opt_entries(b.c2) + opt_entries(
            b.c3,
        ) + opt_entries(b.c4) + opt_entries(b.c5) + opt_entries(b.c6),
    }
}

/// The lookup walk from a node at depth `depth`: a leaf answers with
/// its cell and value, an interior node descends along the query's
/// next digit, and a query that runs out of digits at an interior
/// node has no answer.
pub open spec fn spec_get_node<V>(n: Node<V>, cell: Cell, depth: int) -> Option<(Cell, V)>
    decreases spec_res(cell.spec_raw()) - depth,
{
    match n {
        Node::Leaf(c, v) => Some((c, v)),
        Node::Parent(b) => {
            if depth >= spec_res(cell.spec_raw()) {
                None
            } else {
                match child_of(*b, spec_digit(cell.spec_raw(), depth + 1) as int) {
                    Some(cn) => spec_get_node(cn, cell, depth + 1),
                    None => None,
                }
            }
        },
    }
}

/// The result of compaction at an interior node: if no child is an
/// interior node and the compactor collapses the child values, the
/// node becomes a leaf covering the parent cell; otherwise the node
/// keeps its children.
pub open spec fn spec_coalesce<V, C: Compactor<V>>(
    ch: Children<V>,
    pcell: Cell,
    depth: int,
    comp: C,
) -> Node<V> {
    if any_parent_child(ch) {
        Node::Parent(Box::new(ch))
    } else {
        match comp.spec_compact(depth as u8, children_vals(ch)) {
            Some(v) => Node::Leaf(pcell, v),
            None => Node::Parent(Box::new(ch)),
        }
    }
}

/// The insert walk from a node at depth `depth`: when the walk
/// reaches the inserted cell's resolution the node becomes a leaf for
/// the cell; a leaf met on the way absorbs the insert unchanged; an
/// interior node descends along the cell's next digit, creating the
/// child as needed, and then compacts itself.
pub open spec fn spec_insert_node<V, C: Compactor<V>>(
    n: Node<V>,
    cell: Cell,
    depth: int,
    value: V,
    comp: C,
) -> Node<V>
    decreases spec_res(cell.spec_raw()) - depth,
{
    if depth >= spec_res(cell.spec_raw()) {
        Node::Leaf(cell, value)
    } else {
        match n {
            Node::Leaf(_, _) => n,
            Node::Parent(b) => {
                let d = spec_digit(cell.spec_raw(), depth + 1) as int;
                let newchild = match child_of(*b, d) {
                    Some(cn) => spec_insert_node(cn, cell, depth + 1, value, comp),
                    None => spec_insert_node(
                        Node::Parent(Box::new(spec_empty_children())),
                        cell,
                        depth + 1,
                        value,
                        comp,
                    ),
                };
                spec_coalesce(
                    set_child_spec(*b, d, Some(newchild)),
                    cell.spec_to_parent(depth),
                    depth,
                    comp,
                )
            },
        }
    }
}

/// Swaps a child slot's contents for `newc`, returning the old
/// contents.
fn child_swap<V>(ch: &mut Children<V>, d: u8, newc: Option<Node<V>>) -> (old_c: Option<Node<V>>)
    requires
        d < 7,
    ensures
        old_c == child_of(*old(ch), d as int),
        *final(ch) == set_child_spec(*old(ch), d as int, newc),
{
    let mut tmp = newc;
    match d {
        0 => core::mem::swap(&mut tmp, &mut ch.c0),
        1 => core::mem::swap(&mut tmp, &mut ch.c1),
        2 => core::mem::swap(&mut tmp, &mut ch.c2),
        3 => core::mem::swap(&mut tmp, &mut ch.c3),
        4 => core::mem::swap(&mut tmp, &mut ch.c4),
        5 => core::mem::swap(&mut tmp, &mut ch.c5),
        _ => core::mem::swap(&mut tmp, &mut ch.c6),
    }
    tmp
}

/// Child slots that are all empty.
fn empty_children<V>() -> (r: Children<V>)
    ensures
        r == spec_empty_children::<V>(),
{
    Children { c0: None, c1: None, c2: None, c3: None, c4: None, c5: None, c6: None }
}

/// Whether a child slot holds an interior node.
fn is_parent_slot<V>(on: &Option<Node<V>>) -> (r: bool)
    ensures
        r == is_parent(*on),
{
    match on {
        Some(Node::Parent(_)) => true,
        _ => false,
    }
}

/// The leaf value of a child slot, if the slot holds a leaf.
fn leaf_val_slot<V: Copy>(on: &Option<Node<V>>) -> (r: Option<V>)
    ensures
        r == leaf_val(*on),
{
    match on {
        Some(Node::Leaf(_, v)) => Some(*v),
        _ => None,
    }
}

/// Compacts an interior node's children if the compactor agrees.
fn coalesce<V: Copy, C: Compactor<V>>(
    b: Box<Children<V>>,
    pcell: Cell,
    depth: u8,
    comp: &C,
    Ghost(base): Ghost<u64>,
    Ghost(path): Ghost<Seq<u64>>,
) -> (r: Node<V>)
    requires
        path.len() == depth,
        node_wf(Node::Parent(b), *comp, base, path),
        spec_cell_wf(pcell.spec_raw()),
        spec_res(pcell.spec_raw()) == depth,
        spec_base(pcell.spec_raw()) == base,
        forall|r: int|
            1 <= r <= depth ==> #[trigger] spec_digit(pcell.spec_raw(), r) == path[r - 1],
        opt_compacted(b.c0, *comp, depth + 1),
        opt_compacted(b.c1, *comp, depth + 1),
        opt_compacted(b.c2, *comp, depth + 1),
        opt_compacted(b.c3, *comp, depth + 1),
        opt_compacted(b.c4, *comp, depth + 1),
        opt_compacted(b.c5, *comp, depth + 1),
        opt_compacted(b.c6, *comp, depth + 1),
    ensures
        r == spec_coalesce(*b, pcell, depth as int, *comp),
        node_wf(r, *comp, base, path),
        node_compacted(r, *comp, depth as int),
{
    if is_parent_slot(&b.c0) || is_parent_slot(&b.c1) || is_parent_slot(&b.c2) || is_parent_slot(
        &b.c3,
    ) || is_parent_slot(&b.c4) || is_parent_slot(&b.c5) || is_parent_slot(&b.c6) {
        return Node::Parent(b);
    }
    let mut vals: Vec<Option<V>> = Vec::new();
    vals.push(leaf_val_slot(&b.c0));
    vals.push(leaf_val_slot(&b.c1));
    vals.push(leaf_val_slot(&b.c2));
    vals.push(leaf_val_slot(&b.c3));
    vals.push(leaf_val_slot(&b.c4));
    vals.push(leaf_val_slot(&b.c5));
    vals.push(leaf_val_slot(&b.c6));
    proof {
        assert(vals@ =~= children_vals(*b));
        assert forall|i: int|
            0 <= i < 7 implies ((#[trigger] children_vals(*b)[i]) matches Some(v)
            ==> comp.spec_inv(v)) by {
            if i == 0 {
                assert(opt_wf(b.c0, *comp, base, path.push(0u64)));
            } else if i == 1 {
                assert(opt_wf(b.c1, *comp, base, path.push(1u64)));
            } else if i == 2 {
                assert(opt_wf(b.c2, *comp, base, path.push(2u64)));
            } else if i == 3 {
                assert(opt_wf(b.c3, *comp, base, path.push(3u64)));
            } else if i == 4 {
                assert(opt_wf(b.c4, *comp, base, path.push(4u64)));
            } else if i == 5 {
                assert(opt_wf(b.c5, *comp, base, path.push(5u64)));
            } else {
                assert(opt_wf(b.c6, *comp, base, path.push(6u64)));
            }
        }
    }
    match comp.compact(depth, &vals) {
        Some(v) => {
            proof {
                comp.lemma_compact_inv(depth, children_vals(*b));
            }
            Node::Leaf(pcell, v)
        },
        None => Node::Parent(b),
    }
}

/// One step of the insert walk; see [`spec_insert_node`].
fn insert_node<V: Copy, C: Compactor<V>>(
    n: Node<V>,
    cell: Cell,
    depth: u8,
    value: V,
    comp: &C,
    Ghost(base): Ghost<u64>,
    Ghost(path): Ghost<Seq<u64>>,
) -> (r: Node<V>)
    requires
        spec_cell_wf(cell.spec_raw()),
        depth <= spec_res(cell.spec_raw()),
        path.len() == depth,
        spec_base(cell.spec_raw()) == base,
        forall|k: int| 1 <= k <= depth ==> #[trigger] spec_digit(cell.spec_raw(), k) == path[k - 1],
        node_wf(n, *comp, base, path),
        node_compacted(n, *comp, depth as int),
        comp.spec_inv(value),
    ensures
        r == spec_insert_node(n, cell, depth as int, value, *comp),
        node_wf(r, *comp, base, path),
        node_compacted(r, *comp, depth as int),
    decreases spec_res(cell.spec_raw()) - depth,
{
    let res = cell.res();
    if depth >= res {
        return Node::Leaf(cell, value);
    }
    match n {
        Node::Leaf(c0, v0) => Node::Leaf(c0, v0),
        Node::Parent(mut b) => {
            let ghost b0 = *b;
            let d = cell.digit(depth + 1);
            proof {
                assert(spec_digit(cell.spec_raw(), depth + 1) < 7);
            }
            let oldchild = child_swap(&mut b, d, None);
            let ghost path1 = path.push(d as u64);
            let newchild = match oldchild {
                Some(cn) => insert_node(cn, cell, depth + 1, value, comp, Ghost(base), Ghost(path1)),
                None => {
                    let fresh = Node::Parent(Box::new(empty_children()));
                    insert_node(fresh, cell, depth + 1, value, comp, Ghost(base), Ghost(path1))
                },
            };
            let _ = child_swap(&mut b, d, Some(newchild));
            proof {
                assert(*b == set_child_spec(b0, d as int, Some(newchild)));
            }
            let pcell = cell.to_parent(depth);
            coalesce(b, pcell, depth, comp, Ghost(base), Ghost(path))
        },
    }
}


/// A borrowed view of the child slot of digit `d`.
fn child_ref<'a, V>(ch: &'a Children<V>, d: u8) -> (r: &'a Option<Node<V>>)
    requires
        d < 7,
    ensures
        *r == child_of(*ch, d as int),
{
    match d {
        0 => &ch.c0,
        1 => &ch.c1,
        2 => &ch.c2,
        3 => &ch.c3,
        4 => &ch.c4,
        5 => &ch.c5,
        _ => &ch.c6,
    }
}

/// One step of the lookup walk; see [`spec_get_node`].
fn get_node<V: Copy>(n: &Node<V>, cell: Cell, depth: u8) -> (r: Option<(Cell, V)>)
    requires
        spec_cell_wf(cell.spec_raw()),
        depth <= spec_res(cell.spec_raw()),
    ensures
        r == spec_get_node(*n, cell, depth as int),
    decreases spec_res(cell.spec_raw()) - depth,
{
    match n {
        Node::Leaf(c, v) => Some((*c, *v)),
        Node::Parent(b) => {
            let res = cell.res();
            if depth >= res {
                None
            } else {
                let d = cell.digit(depth + 1);
                proof {
                    assert(spec_digit(cell.spec_raw(), depth + 1) < 7);
                }
                match child_ref(b, d) {
                    Some(cn) => get_node(cn, cell, depth + 1),
                    None => None,
                }
            }
        },
    }
}

/// What a successful lookup says about the cell it answers with: the
/// answer's cell is the queried cell or an ancestor of it, and its
/// value satisfies the compactor's invariant.
pub proof fn lemma_get_node_props<V, C: Compactor<V>>(
    n: Node<V>,
    comp: C,
    base: u64,
    path: Seq<u64>,
    cell: Cell,
)
    requires
        spec_cell_wf(cell.spec_raw()),
        path.len() <= spec_res(cell.spec_raw()),
        spec_base(cell.spec_raw()) == base,
        forall|k: int|
            1 <= k <= path.len() ==> #[trigger] spec_digit(cell.spec_raw(), k) == path[k - 1],
        node_wf(n, comp, base, path),
    ensures
        spec_get_node(n, cell, path.len() as int) matches Some(p) ==> {
            &&& spec_cell_wf(p.0.spec_raw())
            &&& spec_res(p.0.spec_raw()) <= spec_res(cell.spec_raw())
            &&& spec_base(p.0.spec_raw()) == spec_base(cell.spec_raw())
            &&& forall|k: int|
                1 <= k <= spec_res(p.0.spec_raw()) ==> #[trigger] spec_digit(p.0.spec_raw(), k)
                    == spec_digit(cell.spec_raw(), k)
            &&& comp.spec_inv(p.1)
        },
    decreases spec_res(cell.spec_raw()) - path.len(),
{
    let depth = path.len() as int;
    match n {
        Node::Leaf(c, v) => {},
        Node::Parent(b) => {
            if depth < spec_res(cell.spec_raw()) {
                let d = spec_digit(cell.spec_raw(), depth + 1) as int;
                let raw = cell.spec_raw();
                assert((raw >> 52) & 0xF < 16) by (bit_vector);
                assert(1 <= depth + 1 <= 15);
                assert(0 <= d < 7);
                match child_of(*b, d) {
                    Some(cn) => {
                        let path1 = path.push(d as u64);
                        assert(opt_wf(child_of(*b, d), comp, base, path1)) by {
                            if d == 0 {
                                assert(opt_wf(b.c0, comp, base, path.push(0u64)));
                            } else if d == 1 {
                                assert(opt_wf(b.c1, comp, base, path.push(1u64)));
                            } else if d == 2 {
                                assert(opt_wf(b.c2, comp, base, path.push(2u64)));
                            } else if d == 3 {
                                assert(opt_wf(b.c3, comp, base, path.push(3u64)));
                            } else if d == 4 {
                                assert(opt_wf(b.c4, comp, base, path.push(4u64)));
                            } else if d == 5 {
                                assert(opt_wf(b.c5, comp, base, path.push(5u64)));
                            } else {
                                assert(opt_wf(b.c6, comp, base, path.push(6u64)));
                            }
                        }
                        lemma_get_node_props(cn, comp, base, path1, cell);
                    },
                    None => {},
                }
            }
        },
    }
}

/// Appends a child slot's entries to `out`.
fn push_opt_entries<V: Copy>(on: &Option<Node<V>>, out: &mut Vec<(Cell, V)>)
    ensures
        final(out)@ == old(out)@ + opt_entries(*on),
    decreases on,
{
    match on {
        Some(n) => push_node_entries(n, out),
        None => {
            proof {
                assert(old(out)@ + opt_entries(*on) =~= old(out)@);
            }
        },
    }
}

/// Appends a node's entries to `out`, leaves first, children in digit
/// order.
fn push_node_entries<V: Copy>(n: &Node<V>, out: &mut Vec<(Cell, V)>)
    ensures
        final(out)@ == old(out)@ + node_entries(*n),
    decreases n,
{
    match n {
        Node::Leaf(c, v) => {
            out.push((*c, *v));
            proof {
                assert(final(out)@ =~= old(out)@ + node_entries(*n));
            }
        },
        Node::Parent(b) => {
            push_opt_entries(&b.c0, out);
            push_opt_entries(&b.c1, out);
            push_opt_entries(&b.c2, out);
            push_opt_entries(&b.c3, out);
            push_opt_entries(&b.c4, out);
            push_opt_entries(&b.c5, out);
            push_opt_entries(&b.c6, out);
            proof {
                assert(final(out)@ =~= old(out)@ + node_entries(*n));
            }
        },
    }
}

/// The entries of the first `k` base-cell slots, in slot order.
pub open spec fn bases_entries<V>(nodes: Seq<Option<Node<V>>>, k: int) -> Seq<(Cell, V)>
    decreases k,
{
    if k <= 0 {
        Seq::empty()
    } else {
        bases_entries(nodes, k - 1) + opt_entries(nodes[k - 1])
    }
}

/// A node in a base-cell slot, or an empty interior node for an empty
/// slot.
pub open spec fn node_or_empty<V>(on: Option<Node<V>>) -> Node<V> {
    match on {
        Some(n) => n,
        None => Node::Parent(Box::new(spec_empty_children())),
    }
}

/// The base-cell slots after inserting the first `k` cell/value pairs
/// of `entries`, in order; each step is one insert walk on the slot
/// of the pair's base cell.
pub open spec fn spec_insert_seq<V, C: Compactor<V>>(
    nodes: Seq<Option<Node<V>>>,
    comp: C,
    entries: Seq<(Cell, V)>,
    k: int,
) -> Seq<Option<Node<V>>>
    decreases k,
{
    if k <= 0 {
        nodes
    } else {
        let prev = spec_insert_seq(nodes, comp, entries, k - 1);
        let c = entries[k - 1].0;
        let b = spec_base(c.spec_raw()) as int;
        prev.update(
            b,
            Some(spec_insert_node(node_or_empty(prev[b]), c, 0, entries[k - 1].1, comp)),
        )
    }
}

/// The 122 empty base-cell slots of a fresh trie.
pub open spec fn spec_empty_nodes<V>() -> Seq<Option<Node<V>>> {
    Seq::new(122, |i: int| None::<Node<V>>)
}

/// A trie from hexagonal cells to values, compacted on insert by the
/// strategy `C`.
pub struct HexTreeMap<V, C> {
    nodes: Vec<Option<Node<V>>>,
    compactor: C,
}

impl<V: Copy, C: Compactor<V>> HexTreeMap<V, C> {
    /// The base-cell slots of the trie.
    pub closed spec fn spec_nodes(self) -> Seq<Option<Node<V>>> {
        self.nodes@
    }

    /// The trie's compactor.
    pub closed spec fn spec_compactor(self) -> C {
        self.compactor
    }

    /// A consistent trie: 122 base-cell slots, each holding a
    /// well-formed and fully compacted tree.
    pub open spec fn wf(self) -> bool {
        &&& self.spec_nodes().len() == 122
        &&& forall|b: int|
            0 <= b < 122 ==> opt_wf(
                #[trigger] self.spec_nodes()[b],
                self.spec_compactor(),
                b as u64,
                Seq::empty(),
            )
        &&& forall|b: int|
            0 <= b < 122 ==> opt_compacted(#[trigger] self.spec_nodes()[b], self.spec_compactor(), 0)
    }

    /// The trie's entries: each leaf's cell and value, ordered by
    /// base cell and then digit path.
    pub open spec fn spec_entries(self) -> Seq<(Cell, V)> {
        bases_entries(self.spec_nodes(), 122)
    }

    /// The answer the trie gives for `cell`: the value stored at the
    /// cell or at its nearest compacted ancestor.
    pub open spec fn spec_get(self, cell: Cell) -> Option<(Cell, V)> {
        match self.spec_nodes()[spec_base(cell.spec_raw()) as int] {
            Some(n) => spec_get_node(n, cell, 0),
            None => None,
        }
    }

    /// An empty trie with the given compactor.
    pub fn with_compactor(compactor: C) -> (r: Self)
        ensures
            r.wf(),
            r.spec_compactor() == compactor,
            r.spec_nodes() == spec_empty_nodes::<V>(),
            r.spec_entries() == Seq::<(Cell, V)>::empty(),
            forall|c: Cell| spec_cell_wf(c.spec_raw()) ==> r.spec_get(c) is None,
    {
        let mut nodes: Vec<Option<Node<V>>> = Vec::new();
        let mut i: usize = 0;
        while i < 122
            invariant
                0 <= i <= 122,
                nodes@.len() == i,
                forall|b: int| 0 <= b < i ==> #[trigger] nodes@[b] is None,
            decreases 122 - i,
        {
            nodes.push(None);
            i = i + 1;
        }
        let r = HexTreeMap { nodes, compactor };
        proof {
            assert(r.spec_nodes() =~= spec_empty_nodes::<V>());
            lemma_bases_entries_empty(r.spec_nodes(), 122);
            assert(r.spec_entries() =~= Seq::<(Cell, V)>::empty());
            assert forall|c: Cell| spec_cell_wf(c.spec_raw()) implies r.spec_get(c) is None by {
                assert(spec_base(c.spec_raw()) < 122);
            }
        }
        r
    }

    /// Adds a cell/value pair to the trie, compacting along the way
    /// up; the slot of the cell's base becomes the insert walk's
    /// result.
    pub fn insert(&mut self, cell: Cell, value: V)
        requires
            old(self).wf(),
            spec_cell_wf(cell.spec_raw()),
            old(self).spec_compactor().spec_inv(value),
        ensures
            final(self).wf(),
            final(self).spec_compactor() == old(self).spec_compactor(),
            final(self).spec_nodes() == old(self).spec_nodes().update(
                spec_base(cell.spec_raw()) as int,
                Some(
                    spec_insert_node(
                        node_or_empty(old(self).spec_nodes()[spec_base(cell.spec_raw()) as int]),
                        cell,
                        0,
                        value,
                        old(self).spec_compactor(),
                    ),
                ),
            ),
    {
        let base = cell.base() as usize;
        let slot = self.nodes.remove(base);
        let n0 = match slot {
            Some(n) => n,
            None => Node::Parent(Box::new(empty_children())),
        };
        let n1 = insert_node(
            n0,
            cell,
            0,
            value,
            &self.compactor,
            Ghost(base as u64),
            Ghost(Seq::<u64>::empty()),
        );
        self.nodes.insert(base, Some(n1));
        proof {
            assert(final(self).spec_nodes() =~= old(self).spec_nodes().update(
                base as int,
                Some(n1),
            ));
            assert forall|b: int| 0 <= b < 122 implies opt_wf(
                #[trigger] final(self).spec_nodes()[b],
                final(self).spec_compactor(),
                b as u64,
                Seq::empty(),
            ) by {
                if b != base {
                    assert(final(self).spec_nodes()[b] == old(self).spec_nodes()[b]);
                }
            }
            assert forall|b: int| 0 <= b < 122 implies opt_compacted(
                #[trigger] final(self).spec_nodes()[b],
                final(self).spec_compactor(),
                0,
            ) by {
                if b != base {
                    assert(final(self).spec_nodes()[b] == old(self).spec_nodes()[b]);
                }
            }
        }
    }

    /// Looks the cell up: the value stored at the cell or at its
    /// nearest compacted ancestor, with the cell it is stored under.
    /// The answer's cell is the queried cell or an ancestor of it.
    pub fn get(&self, cell: Cell) -> (r: Option<(Cell, V)>)
        requires
            self.wf(),
            spec_cell_wf(cell.spec_raw()),
        ensures
            r == self.spec_get(cell),
            r matches Some(p) ==> {
                &&& spec_cell_wf(p.0.spec_raw())
                &&& spec_res(p.0.spec_raw()) <= spec_res(cell.spec_raw())
                &&& spec_base(p.0.spec_raw()) == spec_base(cell.spec_raw())
                &&& forall|k: int|
                    1 <= k <= spec_res(p.0.spec_raw()) ==> #[trigger] spec_digit(p.0.spec_raw(), k)
                        == spec_digit(cell.spec_raw(), k)
                &&& self.spec_compactor().spec_inv(p.1)
            },
    {
        let base = cell.base() as usize;
        match &self.nodes[base] {
            Some(n) => {
                proof {
                    lemma_get_node_props(
                        *n,
                        self.spec_compactor(),
                        base as u64,
                        Seq::<u64>::empty(),
                        cell,
                    );
                }
                get_node(n, cell, 0)
            },
            None => None,
        }
    }

    /// A borrowed view of a base-cell slot.
    pub(crate) fn slot(&self, b: usize) -> (r: &Option<Node<V>>)
        requires
            self.wf(),
            b < 122,
        ensures
            *r == self.spec_nodes()[b as int],
    {
        &self.nodes[b]
    }

    /// The trie's entries, ordered by base cell and then digit path.
    pub fn entries(&self) -> (r: Vec<(Cell, V)>)
        requires
            self.wf(),
        ensures
            r@ == self.spec_entries(),
    {
        let mut out: Vec<(Cell, V)> = Vec::new();
        let mut b: usize = 0;
        while b < 122
            invariant
                self.wf(),
                0 <= b <= 122,
                out@ == bases_entries(self.spec_nodes(), b as int),
            decreases 122 - b,
        {
            push_opt_entries(&self.nodes[b], &mut out);
            b = b + 1;
        }
        out
    }

    /// The number of leaves in the trie. Compaction makes this
    /// smaller than the number of inserted cells.
    pub fn len(&self) -> (r: usize)
        requires
            self.wf(),
        ensures
            r == self.spec_entries().len(),
    {
        self.entries().len()
    }
}


/// What holds of each entry below a well-formed node: its cell is
/// canonical, sits at or below the node's depth, spells the node's
/// base and path in its leading digits, and its value satisfies the
/// compactor's invariant.
pub proof fn lemma_entry_wf<V, C: Compactor<V>>(
    n: Node<V>,
    comp: C,
    base: u64,
    path: Seq<u64>,
    j: int,
)
    requires
        node_wf(n, comp, base, path),
        0 <= j < node_entries(n).len(),
    ensures
        spec_cell_wf(node_entries(n)[j].0.spec_raw()),
        spec_res(node_entries(n)[j].0.spec_raw()) >= path.len(),
        spec_base(node_entries(n)[j].0.spec_raw()) == base,
        forall|k: int|
            1 <= k <= path.len() ==> #[trigger] spec_digit(node_entries(n)[j].0.spec_raw(), k)
                == path[k - 1],
        comp.spec_inv(node_entries(n)[j].1),
    decreases n,
{
    match n {
        Node::Leaf(c, v) => {},
        Node::Parent(b) => {
            let l0 = opt_entries(b.c0).len() as int;
            let l1 = opt_entries(b.c1).len() as int;
            let l2 = opt_entries(b.c2).len() as int;
            let l3 = opt_entries(b.c3).len() as int;
            let l4 = opt_entries(b.c4).len() as int;
            let l5 = opt_entries(b.c5).len() as int;
            if j < l0 {
                lemma_entry_wf_slot(b.c0, comp, base, path, 0, j);
            } else if j < l0 + l1 {
                lemma_entry_wf_slot(b.c1, comp, base, path, 1, j - l0);
            } else if j < l0 + l1 + l2 {
                lemma_entry_wf_slot(b.c2, comp, base, path, 2, j - l0 - l1);
            } else if j < l0 + l1 + l2 + l3 {
                lemma_entry_wf_slot(b.c3, comp, base, path, 3, j - l0 - l1 - l2);
            } else if j < l0 + l1 + l2 + l3 + l4 {
                lemma_entry_wf_slot(b.c4, comp, base, path, 4, j - l0 - l1 - l2 - l3);
            } else if j < l0 + l1 + l2 + l3 + l4 + l5 {
                lemma_entry_wf_slot(b.c5, comp, base, path, 5, j - l0 - l1 - l2 - l3 - l4);
            } else {
                lemma_entry_wf_slot(b.c6, comp, base, path, 6, j - l0 - l1 - l2 - l3 - l4 - l5);
            }
        },
    }
}

/// The entry facts of [`lemma_entry_wf`], lifted through one child
/// slot.
proof fn lemma_entry_wf_slot<V, C: Compactor<V>>(
    on: Option<Node<V>>,
    comp: C,
    base: u64,
    path: Seq<u64>,
    d: u64,
    j: int,
)
    requires
        opt_wf(on, comp, base, path.push(d)),
        d < 7,
        0 <= j < opt_entries(on).len(),
    ensures
        spec_cell_wf(opt_entries(on)[j].0.spec_raw()),
        spec_res(opt_entries(on)[j].0.spec_raw()) >= path.len() + 1,
        spec_base(opt_entries(on)[j].0.spec_raw()) == base,
        forall|k: int|
            1 <= k <= path.len() + 1 ==> #[trigger] spec_digit(opt_entries(on)[j].0.spec_raw(), k)
                == path.push(d)[k - 1],
        spec_digit(opt_entries(on)[j].0.spec_raw(), path.len() as int + 1) == d,
        comp.spec_inv(opt_entries(on)[j].1),
    decreases on,
{
    match on {
        Some(cn) => {
            lemma_entry_wf(cn, comp, base, path.push(d), j);
        },
        None => {},
    }
}

/// Every entry below a well-formed node is found by the lookup walk
/// at its own cell.
#[verifier::rlimit(60)]
pub proof fn lemma_entry_found<V, C: Compactor<V>>(
    n: Node<V>,
    comp: C,
    base: u64,
    path: Seq<u64>,
    j: int,
)
    requires
        node_wf(n, comp, base, path),
        0 <= j < node_entries(n).len(),
    ensures
        spec_get_node(n, node_entries(n)[j].0, path.len() as int) == Some(node_entries(n)[j]),
    decreases n,
{
    let depth = path.len() as int;
    match n {
        Node::Leaf(c, v) => {},
        Node::Parent(b) => {
            let l0 = opt_entries(b.c0).len() as int;
            let l1 = opt_entries(b.c1).len() as int;
            let l2 = opt_entries(b.c2).len() as int;
            let l3 = opt_entries(b.c3).len() as int;
            let l4 = opt_entries(b.c4).len() as int;
            let l5 = opt_entries(b.c5).len() as int;
            if j < l0 {
                lemma_entry_found_slot(n, b.c0, comp, base, path, 0, j);
            } else if j < l0 + l1 {
                lemma_entry_found_slot(n, b.c1, comp, base, path, 1, j - l0);
            } else if j < l0 + l1 + l2 {
                lemma_entry_found_slot(n, b.c2, comp, base, path, 2, j - l0 - l1);
            } else if j < l0 + l1 + l2 + l3 {
                lemma_entry_found_slot(n, b.c3, comp, base, path, 3, j - l0 - l1 - l2);
            } else if j < l0 + l1 + l2 + l3 + l4 {
                lemma_entry_found_slot(n, b.c4, comp, base, path, 4, j - l0 - l1 - l2 - l3);
            } else if j < l0 + l1 + l2 + l3 + l4 + l5 {
                lemma_entry_found_slot(n, b.c5, comp, base, path, 5, j - l0 - l1 - l2 - l3 - l4);
            } else {
                lemma_entry_found_slot(
                    n,
                    b.c6,
                    comp,
                    base,
                    path,
                    6,
                    j - l0 - l1 - l2 - l3 - l4 - l5,
                );
            }
        },
    }
}

/// The lookup walk from an interior node routes into the child slot
/// that holds the entry and finds it there.
proof fn lemma_entry_found_slot<V, C: Compactor<V>>(
    n: Node<V>,
    on: Option<Node<V>>,
    comp: C,
    base: u64,
    path: Seq<u64>,
    d: u64,
    j: int,
)
    requires
        node_wf(n, comp, base, path),
        n matches Node::Parent(b) && child_of(*b, d as int) == on,
        d < 7,
        0 <= j < opt_entries(on).len(),
        node_entries(n)[(j + entries_before(n, d as int)) as int] == opt_entries(on)[j],
        0 <= j + entries_before(n, d as int) < node_entries(n).len(),
    ensures
        spec_get_node(n, opt_entries(on)[j].0, path.len() as int) == Some(opt_entries(on)[j]),
    decreases on,
{
    let depth = path.len() as int;
    lemma_entry_wf_slot(on, comp, base, path, d, j);
    let c = opt_entries(on)[j].0;
    match on {
        Some(cn) => {
            assert(opt_wf(child_of_node(n, d as int), comp, base, path.push(d))) by {
                lemma_child_wf(n, comp, base, path, d as int);
            }
            lemma_entry_found(cn, comp, base, path.push(d), j);
            assert(spec_digit(c.spec_raw(), depth + 1) == d);
            assert(spec_res(c.spec_raw()) > depth);
        },
        None => {},
    }
}

/// The entries of the child slots before digit `d`, counted.
pub open spec fn entries_before<V>(n: Node<V>, d: int) -> int {
    match n {
        Node::Leaf(_, _) => 0,
        Node::Parent(b) => {
            if d <= 0 {
                0
            } else if d == 1 {
                opt_entries(b.c0).len() as int
            } else if d == 2 {
                (opt_entries(b.c0).len() + opt_entries(b.c1).len()) as int
            } else if d == 3 {
                (opt_entries(b.c0).len() + opt_entries(b.c1).len() + opt_entries(b.c2).len()) as int
            } else if d == 4 {
                (opt_entries(b.c0).len() + opt_entries(b.c1).len() + opt_entries(b.c2).len()
                    + opt_entries(b.c3).len()) as int
            } else if d == 5 {
                (opt_entries(b.c0).len() + opt_entries(b.c1).len() + opt_entries(b.c2).len()
                    + opt_entries(b.c3).len() + opt_entries(b.c4).len()) as int
            } else {
                (opt_entries(b.c0).len() + opt_entries(b.c1).len() + opt_entries(b.c2).len()
                    + opt_entries(b.c3).len() + opt_entries(b.c4).len() + opt_entries(
                    b.c5,
                ).len()) as int
            }
        },
    }
}

/// The child slot of digit `d` of an interior node.
pub open spec fn child_of_node<V>(n: Node<V>, d: int) -> Option<Node<V>> {
    match n {
        Node::Leaf(_, _) => None,
        Node::Parent(b) => child_of(*b, d),
    }
}

/// A child slot of a well-formed interior node is well-formed one
/// level deeper.
proof fn lemma_child_wf<V, C: Compactor<V>>(n: Node<V>, comp: C, base: u64, path: Seq<u64>, d: int)
    requires
        node_wf(n, comp, base, path),
        n is Parent,
        0 <= d < 7,
    ensures
        opt_wf(child_of_node(n, d), comp, base, path.push(d as u64)),
{
    match n {
        Node::Leaf(_, _) => {},
        Node::Parent(b) => {
            if d == 0 {
                assert(opt_wf(b.c0, comp, base, path.push(0u64)));
            } else if d == 1 {
                assert(opt_wf(b.c1, comp, base, path.push(1u64)));
            } else if d == 2 {
                assert(opt_wf(b.c2, comp, base, path.push(2u64)));
            } else if d == 3 {
                assert(opt_wf(b.c3, comp, base, path.push(3u64)));
            } else if d == 4 {
                assert(opt_wf(b.c4, comp, base, path.push(4u64)));
            } else if d == 5 {
                assert(opt_wf(b.c5, comp, base, path.push(5u64)));
            } else {
                assert(opt_wf(b.c6, comp, base, path.push(6u64)));
            }
        },
    }
}


/// Every entry of a well-formed trie is found by lookup at its own
/// cell: compaction never hides a stored entry from the cell it is
/// stored under.
pub proof fn lemma_entries_found<V: Copy, C: Compactor<V>>(t: HexTreeMap<V, C>, j: int)
    requires
        t.wf(),
        0 <= j < t.spec_entries().len(),
    ensures
        spec_cell_wf(t.spec_entries()[j].0.spec_raw()),
        t.spec_compactor().spec_inv(t.spec_entries()[j].1),
        t.spec_get(t.spec_entries()[j].0) == Some(t.spec_entries()[j]),
{
    lemma_bases_entry_found(t, 122, j);
}

/// The entry-found law over the first `k` base-cell slots.
proof fn lemma_bases_entry_found<V: Copy, C: Compactor<V>>(t: HexTreeMap<V, C>, k: int, j: int)
    requires
        t.wf(),
        0 <= k <= 122,
        0 <= j < bases_entries(t.spec_nodes(), k).len(),
    ensures
        spec_cell_wf(bases_entries(t.spec_nodes(), k)[j].0.spec_raw()),
        t.spec_compactor().spec_inv(bases_entries(t.spec_nodes(), k)[j].1),
        t.spec_get(bases_entries(t.spec_nodes(), k)[j].0) == Some(
            bases_entries(t.spec_nodes(), k)[j],
        ),
    decreases k,
{
    let nodes = t.spec_nodes();
    let comp = t.spec_compactor();
    let prev = bases_entries(nodes, k - 1);
    if j < prev.len() {
        lemma_bases_entry_found(t, k - 1, j);
        assert(bases_entries(nodes, k)[j] == prev[j]);
    } else {
        let jj = j - prev.len() as int;
        match nodes[k - 1] {
            Some(n) => {
                assert(node_wf(n, comp, (k - 1) as u64, Seq::<u64>::empty()));
                assert(bases_entries(nodes, k)[j] == node_entries(n)[jj]);
                lemma_entry_wf(n, comp, (k - 1) as u64, Seq::<u64>::empty(), jj);
                lemma_entry_found(n, comp, (k - 1) as u64, Seq::<u64>::empty(), jj);
                let c = node_entries(n)[jj].0;
                assert(spec_base(c.spec_raw()) == k - 1);
            },
            None => {},
        }
    }
}

/// The slots of an empty trie hold no entries.
proof fn lemma_bases_entries_empty<V>(nodes: Seq<Option<Node<V>>>, k: int)
    requires
        forall|b: int| 0 <= b < nodes.len() ==> #[trigger] nodes[b] is None,
        k <= nodes.len(),
    ensures
        bases_entries(nodes, k) == Seq::<(Cell, V)>::empty(),
    decreases k,
{
    if k > 0 {
        lemma_bases_entries_empty(nodes, k - 1);
        assert(bases_entries(nodes, k) =~= Seq::<(Cell, V)>::empty());
    }
}


/// A compactor that never compacts.
pub struct NullCompactor;

impl<V> Compactor<V> for NullCompactor {
    open spec fn spec_inv(&self, v: V) -> bool {
        true
    }

    open spec fn spec_compact(&self, res: u8, children: Seq<Option<V>>) -> Option<V> {
        None
    }

    proof fn lemma_compact_inv(&self, res: u8, children: Seq<Option<V>>) {
    }

    fn compact(&self, res: u8, children: &Vec<Option<V>>) -> (r: Option<V>) {
        None
    }
}

/// Whether seven child slots are all present and hold one and the
/// same value.
pub open spec fn spec_all_equal<V>(children: Seq<Option<V>>) -> bool {
    &&& children.len() == 7
    &&& children[0] is Some
    &&& forall|i: int| 0 <= i < 7 ==> #[trigger] children[i] == children[0]
}

/// A compactor that collapses seven siblings exactly when they are
/// all present and equal.
pub struct EqCompactor;

impl Compactor<i16> for EqCompactor {
    open spec fn spec_inv(&self, v: i16) -> bool {
        true
    }

    open spec fn spec_compact(&self, res: u8, children: Seq<Option<i16>>) -> Option<i16> {
        if spec_all_equal(children) {
            children[0]
        } else {
            None
        }
    }

    proof fn lemma_compact_inv(&self, res: u8, children: Seq<Option<i16>>) {
    }

    fn compact(&self, res: u8, children: &Vec<Option<i16>>) -> (r: Option<i16>) {
        let c0 = children[0];
        match c0 {
            None => None,
            Some(v0) => {
                let mut i: usize = 1;
                while i < 7
                    invariant
                        1 <= i <= 7,
                        children@.len() == 7,
                        c0 == children@[0],
                        c0 == Some(v0),
                        forall|k: int| 0 <= k < i ==> #[trigger] children@[k] == children@[0],
                    decreases 7 - i,
                {
                    let ci = children[i];
                    match ci {
                        Some(vi) => {
                            if vi != v0 {
                                return None;
                            }
                        },
                        None => {
                            return None;
                        },
                    }
                    i = i + 1;
                }
                Some(v0)
            },
        }
    }
}

impl Compactor<crate::elevation::Elevation> for EqCompactor {
    open spec fn spec_inv(&self, v: crate::elevation::Elevation) -> bool {
        true
    }

    open spec fn spec_compact(&self, res: u8, children: Seq<Option<crate::elevation::Elevation>>) -> Option<
        crate::elevation::Elevation,
    > {
        if spec_all_equal(children) {
            children[0]
        } else {
            None
        }
    }

    proof fn lemma_compact_inv(&self, res: u8, children: Seq<Option<crate::elevation::Elevation>>) {
    }

    fn compact(&self, res: u8, children: &Vec<Option<crate::elevation::Elevation>>) -> (r: Option<
        crate::elevation::Elevation,
    >) {
        let c0 = children[0];
        match c0 {
            None => None,
            Some(v0) => {
                let mut i: usize = 1;
                while i < 7
                    invariant
                        1 <= i <= 7,
                        children@.len() == 7,
                        c0 == children@[0],
                        c0 == Some(v0),
                        forall|k: int| 0 <= k < i ==> #[trigger] children@[k] == children@[0],
                    decreases 7 - i,
                {
                    let ci = children[i];
                    match ci {
                        Some(vi) => {
                            if vi != v0 {
                                return None;
                            }
                        },
                        None => {
                            return None;
                        },
                    }
                    i = i + 1;
                }
                Some(v0)
            },
        }
    }
}


/// The equality rule collapses seven siblings exactly when they are
/// all present and equal; in a compacted trie no occupied interior
/// node whose children are all leaves holds seven equal values.
pub proof fn lemma_eq_compaction_complete(
    comp: EqCompactor,
    ch: Children<i16>,
    depth: int,
)
    requires
        node_compacted(Node::Parent(Box::new(ch)), comp, depth),
        !any_parent_child(ch),
        !all_none(ch),
    ensures
        !spec_all_equal(children_vals(ch)),
{
    assert(comp.spec_compact(depth as u8, children_vals(ch)) is None);
}

} // verus!
