//! The mathematical model of a parameter tree.
//!
//! Every module — a leaf tensor, an optional leaf, a nested sub-module,
//! a sequence of sub-modules, or a user structure aggregating such
//! fields — denotes one [`ParamTree`].  Each of the five module
//! operations has a single recursive definition over this tree, and the
//! laws the operations obey (idempotent device transfer, state/load
//! round-trip, leniency towards missing keys) are proved here once, by
//! induction, for every module at once.

use crate::state::{lookup, StateV};
use crate::tensor::{shape_product, Device, TensorV};
use vstd::prelude::*;

verus! {

/// A module's parameter tree: a present leaf tensor, an absent optional
/// leaf, or a node of named children (a structure's fields, or a
/// sequence's positionally keyed elements).
#[verifier::ext_equal]
pub enum ParamTree {
    Leaf(TensorV),
    Absent,
    Node(Seq<(Seq<char>, ParamTree)>),
}

/// Well-formedness: every leaf holds as many elements as its shape
/// prescribes, and the keys within each node are pairwise distinct.
pub open spec fn tree_wf(t: ParamTree) -> bool
    decreases t,
{
    match t {
        ParamTree::Leaf(tv) => tv.wf(),
        ParamTree::Absent => true,
        ParamTree::Node(cs) => children_wf(cs),
    }
}

pub open spec fn children_wf(cs: Seq<(Seq<char>, ParamTree)>) -> bool
    decreases cs,
{
    if cs.len() == 0 {
        true
    } else {
        &&& tree_wf(cs[0].1)
        &&& (forall|j: int| 1 <= j < cs.len() ==> (#[trigger] cs[j]).0 != cs[0].0)
        &&& children_wf(cs.drop_first())
    }
}

/// Number of parameters: the product of a leaf's shape dimensions, 0
/// for an absent optional, and the sum over a node's children.
pub open spec fn tree_num_params(t: ParamTree) -> nat
    decreases t,
{
    match t {
        ParamTree::Leaf(tv) => shape_product(tv.shape),
        ParamTree::Absent => 0,
        ParamTree::Node(cs) => children_num_params(cs),
    }
}

pub open spec fn children_num_params(cs: Seq<(Seq<char>, ParamTree)>) -> nat
    decreases cs,
{
    if cs.len() == 0 {
        0
    } else {
        tree_num_params(cs[0].1) + children_num_params(cs.drop_first())
    }
}

/// Devices of all leaves, in traversal order, duplicates retained.
pub open spec fn tree_devices(t: ParamTree) -> Seq<Device>
    decreases t,
{
    match t {
        ParamTree::Leaf(tv) => seq![tv.device],
        ParamTree::Absent => Seq::empty(),
        ParamTree::Node(cs) => children_devices(cs),
    }
}

pub open spec fn children_devices(cs: Seq<(Seq<char>, ParamTree)>) -> Seq<Device>
    decreases cs,
{
    if cs.len() == 0 {
        Seq::empty()
    } else {
        tree_devices(cs[0].1) + children_devices(cs.drop_first())
    }
}

/// The tree after transferring every present leaf to device `d`.  An
/// absent optional is left as it is.
pub open spec fn tree_moved(t: ParamTree, d: Device) -> ParamTree
    decreases t,
{
    match t {
        ParamTree::Leaf(tv) => ParamTree::Leaf(tv.moved(d)),
        ParamTree::Absent => ParamTree::Absent,
        ParamTree::Node(cs) => ParamTree::Node(children_moved(cs, d)),
    }
}

pub open spec fn children_moved(cs: Seq<(Seq<char>, ParamTree)>, d: Device) -> Seq<
    (Seq<char>, ParamTree),
>
    decreases cs,
{
    if cs.len() == 0 {
        Seq::empty()
    } else {
        seq![(cs[0].0, tree_moved(cs[0].1, d))] + children_moved(cs.drop_first(), d)
    }
}

/// The serialized state of a tree: leaf data for a present leaf, an
/// empty named node as the explicit "no parameter" sentinel for an
/// absent optional, and a named node of child states otherwise.
pub open spec fn tree_state(t: ParamTree) -> StateV
    decreases t,
{
    match t {
        ParamTree::Leaf(tv) => StateV::Data(tv.data()),
        ParamTree::Absent => StateV::Named(Seq::empty()),
        ParamTree::Node(cs) => StateV::Named(children_state(cs)),
    }
}

pub open spec fn children_state(cs: Seq<(Seq<char>, ParamTree)>) -> Seq<(Seq<char>, StateV)>
    decreases cs,
{
    if cs.len() == 0 {
        Seq::empty()
    } else {
        seq![(cs[0].0, tree_state(cs[0].1))] + children_state(cs.drop_first())
    }
}

/// The tree after loading `s`.  A leaf accepts leaf data, rebuilt on
/// its current device; an absent optional is never revived; a node
/// recurses into each child whose key `s` carries and leaves the rest
/// unchanged.  Every shape mismatch is resolved by leaving the receiver
/// as it is — loading never fails.
pub open spec fn tree_loaded(t: ParamTree, s: StateV) -> ParamTree
    decreases t,
{
    match t {
        ParamTree::Leaf(tv) => match s {
            StateV::Data(d) => ParamTree::Leaf(
                TensorV { shape: d.shape, device: tv.device, values: d.values },
            ),
            StateV::Named(_) => ParamTree::Leaf(tv),
        },
        ParamTree::Absent => ParamTree::Absent,
        ParamTree::Node(cs) => match s {
            StateV::Named(es) => ParamTree::Node(children_loaded(cs, es)),
            StateV::Data(_) => ParamTree::Node(cs),
        },
    }
}

/// One child after loading: the sub-state under its key if present,
/// otherwise the child unchanged.
pub open spec fn child_loaded(c: (Seq<char>, ParamTree), es: Seq<(Seq<char>, StateV)>) -> (
    Seq<char>,
    ParamTree,
)
    decreases c,
{
    match lookup(es, c.0) {
        Some(sub) => (c.0, tree_loaded(c.1, sub)),
        None => c,
    }
}

pub open spec fn children_loaded(
    cs: Seq<(Seq<char>, ParamTree)>,
    es: Seq<(Seq<char>, StateV)>,
) -> Seq<(Seq<char>, ParamTree)>
    decreases cs,
{
    if cs.len() == 0 {
        Seq::empty()
    } else {
        seq![child_loaded(cs[0], es)] + children_loaded(cs.drop_first(), es)
    }
}

// ---------------------------------------------------------------------
// Element-wise characterizations of the recursive definitions.
// ---------------------------------------------------------------------

pub proof fn lemma_children_num_params_split(cs: Seq<(Seq<char>, ParamTree)>, i: int)
    requires
        0 <= i < cs.len(),
    ensures
        children_num_params(cs.skip(i)) == tree_num_params(cs[i].1) + children_num_params(
            cs.skip(i + 1),
        ),
{
    assert(cs.skip(i)[0] == cs[i]);
    assert(cs.skip(i).drop_first() =~= cs.skip(i + 1));
}

pub proof fn lemma_children_devices_split(cs: Seq<(Seq<char>, ParamTree)>, i: int)
    requires
        0 <= i < cs.len(),
    ensures
        children_devices(cs.skip(i)) == tree_devices(cs[i].1) + children_devices(cs.skip(i + 1)),
{
    assert(cs.skip(i)[0] == cs[i]);
    assert(cs.skip(i).drop_first() =~= cs.skip(i + 1));
}

pub proof fn lemma_children_state_index(cs: Seq<(Seq<char>, ParamTree)>)
    ensures
        children_state(cs).len() == cs.len(),
        forall|i: int| 0 <= i < cs.len() ==> #[trigger] children_state(cs)[i] == (
            cs[i].0,
            tree_state(cs[i].1),
        ),
    decreases cs,
{
    if cs.len() > 0 {
        lemma_children_state_index(cs.drop_first());
        assert(forall|i: int|
            0 <= i < cs.drop_first().len() ==> cs.drop_first()[i] == cs[i + 1]);
    }
}

pub proof fn lemma_children_moved_index(cs: Seq<(Seq<char>, ParamTree)>, d: Device)
    ensures
        children_moved(cs, d).len() == cs.len(),
        forall|i: int| 0 <= i < cs.len() ==> #[trigger] children_moved(cs, d)[i] == (
            cs[i].0,
            tree_moved(cs[i].1, d),
        ),
    decreases cs,
{
    if cs.len() > 0 {
        lemma_children_moved_index(cs.drop_first(), d);
        assert(forall|i: int|
            0 <= i < cs.drop_first().len() ==> cs.drop_first()[i] == cs[i + 1]);
    }
}

pub proof fn lemma_children_loaded_index(
    cs: Seq<(Seq<char>, ParamTree)>,
    es: Seq<(Seq<char>, StateV)>,
)
    ensures
        children_loaded(cs, es).len() == cs.len(),
        forall|i: int| 0 <= i < cs.len() ==> #[trigger] children_loaded(cs, es)[i]
            == child_loaded(cs[i], es),
    decreases cs,
{
    if cs.len() > 0 {
        lemma_children_loaded_index(cs.drop_first(), es);
        assert(forall|i: int|
            0 <= i < cs.drop_first().len() ==> cs.drop_first()[i] == cs[i + 1]);
    }
}

/// Sum of the children's own device-list lengths.
pub open spec fn children_devices_len_sum(cs: Seq<(Seq<char>, ParamTree)>) -> nat
    decreases cs,
{
    if cs.len() == 0 {
        0
    } else {
        tree_devices(cs[0].1).len() + children_devices_len_sum(cs.drop_first())
    }
}

/// The device list of a node is the concatenation over its children, so
/// its length is the sum of the children's device-list lengths.
pub proof fn lemma_children_devices_len(cs: Seq<(Seq<char>, ParamTree)>)
    ensures
        children_devices(cs).len() == children_devices_len_sum(cs),
    decreases cs,
{
    if cs.len() > 0 {
        lemma_children_devices_len(cs.drop_first());
    }
}

/// Each child of a well-formed node is itself well formed, and the
/// node's keys are pairwise distinct.
pub proof fn lemma_children_wf_index(cs: Seq<(Seq<char>, ParamTree)>)
    requires
        children_wf(cs),
    ensures
        forall|i: int| 0 <= i < cs.len() ==> tree_wf((#[trigger] cs[i]).1),
        forall|i: int, j: int| 0 <= i < j < cs.len() ==> cs[i].0 != cs[j].0,
    decreases cs,
{
    if cs.len() > 0 {
        lemma_children_wf_index(cs.drop_first());
        assert(forall|i: int|
            0 <= i < cs.drop_first().len() ==> cs.drop_first()[i] == cs[i + 1]);
        assert forall|i: int| 0 <= i < cs.len() implies tree_wf((#[trigger] cs[i]).1) by {
            if i > 0 {
                assert(tree_wf(cs.drop_first()[i - 1].1));
            }
        }
        assert forall|i: int, j: int| 0 <= i < j < cs.len() implies cs[i].0 != cs[j].0 by {
            if i == 0 {
                assert(cs[j].0 != cs[0].0);
            } else {
                assert(cs.drop_first()[i - 1].0 != cs.drop_first()[j - 1].0);
            }
        }
    }
}

/// A node is well formed once its keys are pairwise distinct and each
/// child is well formed: how callers establish `tree_wf` for a node
/// they build.
pub proof fn lemma_children_wf_build(cs: Seq<(Seq<char>, ParamTree)>)
    requires
        forall|i: int| 0 <= i < cs.len() ==> tree_wf((#[trigger] cs[i]).1),
        forall|i: int, j: int| 0 <= i < j < cs.len() ==> cs[i].0 != cs[j].0,
    ensures
        children_wf(cs),
    decreases cs,
{
    if cs.len() > 0 {
        let rest = cs.drop_first();
        assert(forall|i: int| 0 <= i < rest.len() ==> rest[i] == cs[i + 1]);
        lemma_children_wf_build(rest);
    }
}

/// Unfolds every recursive definition over a two-child node: the shape
/// a structure with two declared fields denotes.
pub proof fn lemma_children_pair(
    cs: Seq<(Seq<char>, ParamTree)>,
    a: (Seq<char>, ParamTree),
    b: (Seq<char>, ParamTree),
)
    requires
        cs == seq![a, b],
    ensures
        children_num_params(cs) == tree_num_params(a.1) + tree_num_params(b.1),
        children_devices(cs) == tree_devices(a.1) + tree_devices(b.1),
        children_state(cs) == seq![(a.0, tree_state(a.1)), (b.0, tree_state(b.1))],
        children_wf(cs) <==> (a.0 != b.0 && tree_wf(a.1) && tree_wf(b.1)),
{
    let tail = cs.drop_first();
    assert(tail =~= seq![b]);
    assert(tail.drop_first() =~= Seq::<(Seq<char>, ParamTree)>::empty());
    assert(children_num_params(tail.drop_first()) == 0);
    assert(children_devices(tail.drop_first()) =~= Seq::<Device>::empty());
    assert(children_state(tail.drop_first()) =~= Seq::<(Seq<char>, StateV)>::empty());
    assert(children_devices(tail) =~= tree_devices(b.1));
    assert(children_devices(cs) =~= tree_devices(a.1) + tree_devices(b.1));
    assert(children_state(tail) =~= seq![(b.0, tree_state(b.1))]);
    assert(children_state(cs) =~= seq![(a.0, tree_state(a.1)), (b.0, tree_state(b.1))]);
    assert(children_num_params(tail) == tree_num_params(b.1));
    assert(children_num_params(cs) == tree_num_params(a.1) + children_num_params(tail));
    assert(children_wf(tail.drop_first()));
    assert(children_wf(tail) == tree_wf(b.1));
}

/// Unfolds a device transfer over a two-child node.
pub proof fn lemma_children_pair_moved(
    cs: Seq<(Seq<char>, ParamTree)>,
    a: (Seq<char>, ParamTree),
    b: (Seq<char>, ParamTree),
    d: Device,
)
    requires
        cs == seq![a, b],
    ensures
        children_moved(cs, d) == seq![(a.0, tree_moved(a.1, d)), (b.0, tree_moved(b.1, d))],
{
    let tail = cs.drop_first();
    assert(tail =~= seq![b]);
    assert(tail.drop_first() =~= Seq::<(Seq<char>, ParamTree)>::empty());
    assert(children_moved(tail.drop_first(), d) =~= Seq::<(Seq<char>, ParamTree)>::empty());
    assert(children_moved(tail, d) =~= seq![(b.0, tree_moved(b.1, d))]);
    assert(children_moved(cs, d) =~= seq![(a.0, tree_moved(a.1, d)), (b.0, tree_moved(b.1, d))]);
}

/// Unfolds a load over a two-child node.
pub proof fn lemma_children_pair_loaded(
    cs: Seq<(Seq<char>, ParamTree)>,
    a: (Seq<char>, ParamTree),
    b: (Seq<char>, ParamTree),
    es: Seq<(Seq<char>, StateV)>,
)
    requires
        cs == seq![a, b],
    ensures
        children_loaded(cs, es) == seq![child_loaded(a, es), child_loaded(b, es)],
{
    let tail = cs.drop_first();
    assert(tail =~= seq![b]);
    assert(tail.drop_first() =~= Seq::<(Seq<char>, ParamTree)>::empty());
    assert(children_loaded(tail.drop_first(), es) =~= Seq::<(Seq<char>, ParamTree)>::empty());
    assert(children_loaded(tail, es) =~= seq![child_loaded(b, es)]);
    assert(children_loaded(cs, es) =~= seq![child_loaded(a, es), child_loaded(b, es)]);
}

// ---------------------------------------------------------------------
// Laws.
// ---------------------------------------------------------------------

/// Transferring to a device is idempotent: moving a tree to `d` twice
/// gives exactly the tree moved once.
pub proof fn lemma_tree_moved_idempotent(t: ParamTree, d: Device)
    ensures
        tree_moved(tree_moved(t, d), d) == tree_moved(t, d),
    decreases t,
{
    match t {
        ParamTree::Leaf(tv) => {
            assert(tree_moved(tree_moved(t, d), d) =~= tree_moved(t, d));
        },
        ParamTree::Absent => {},
        ParamTree::Node(cs) => {
            lemma_children_moved_idempotent(cs, d);
            assert(tree_moved(tree_moved(t, d), d) =~= tree_moved(t, d));
        },
    }
}

pub proof fn lemma_children_moved_idempotent(cs: Seq<(Seq<char>, ParamTree)>, d: Device)
    ensures
        children_moved(children_moved(cs, d), d) == children_moved(cs, d),
    decreases cs,
{
    lemma_children_moved_index(cs, d);
    lemma_children_moved_index(children_moved(cs, d), d);
    assert forall|i: int| 0 <= i < cs.len() implies children_moved(children_moved(cs, d), d)[i]
        == children_moved(cs, d)[i] by {
        lemma_tree_moved_idempotent(cs[i].1, d);
    }
    assert(children_moved(children_moved(cs, d), d) =~= children_moved(cs, d));
}

/// Moving a tree preserves well-formedness and the parameter count.
pub proof fn lemma_tree_moved_preserves(t: ParamTree, d: Device)
    requires
        tree_wf(t),
    ensures
        tree_wf(tree_moved(t, d)),
        tree_num_params(tree_moved(t, d)) == tree_num_params(t),
    decreases t,
{
    match t {
        ParamTree::Leaf(_) => {},
        ParamTree::Absent => {},
        ParamTree::Node(cs) => {
            lemma_children_moved_preserves(cs, d);
        },
    }
}

pub proof fn lemma_children_moved_preserves(cs: Seq<(Seq<char>, ParamTree)>, d: Device)
    requires
        children_wf(cs),
    ensures
        children_wf(children_moved(cs, d)),
        children_num_params(children_moved(cs, d)) == children_num_params(cs),
    decreases cs,
{
    if cs.len() > 0 {
        lemma_tree_moved_preserves(cs[0].1, d);
        lemma_children_moved_preserves(cs.drop_first(), d);
        lemma_children_moved_index(cs, d);
        let ms = children_moved(cs, d);
        assert(ms[0] == (cs[0].0, tree_moved(cs[0].1, d)));
        assert(ms.drop_first() =~= children_moved(cs.drop_first(), d));
        assert(forall|j: int| 1 <= j < ms.len() ==> (#[trigger] ms[j]).0 == cs[j].0);
    }
}

/// When the leading entry's key occurs nowhere in `cs`, loading skips
/// it: the children load the same with or without that entry.
pub proof fn lemma_children_loaded_skip_head(
    cs: Seq<(Seq<char>, ParamTree)>,
    es: Seq<(Seq<char>, StateV)>,
)
    requires
        es.len() >= 1,
        forall|i: int| 0 <= i < cs.len() ==> cs[i].0 != es[0].0,
    ensures
        children_loaded(cs, es) == children_loaded(cs, es.drop_first()),
    decreases cs,
{
    if cs.len() > 0 {
        assert(lookup(es, cs[0].0) == lookup(es.drop_first(), cs[0].0));
        assert(forall|i: int|
            0 <= i < cs.drop_first().len() ==> cs.drop_first()[i] == cs[i + 1]);
        lemma_children_loaded_skip_head(cs.drop_first(), es);
        assert(child_loaded(cs[0], es) == child_loaded(cs[0], es.drop_first()));
        assert(children_loaded(cs, es) =~= children_loaded(cs, es.drop_first()));
    }
}

/// Round trip: loading a well-formed tree's own serialized state
/// reproduces the tree exactly — same leaf data, same devices, and
/// absence preserved.
pub proof fn lemma_tree_roundtrip(t: ParamTree)
    requires
        tree_wf(t),
    ensures
        tree_loaded(t, tree_state(t)) == t,
    decreases t,
{
    match t {
        ParamTree::Leaf(tv) => {
            assert(tree_loaded(t, tree_state(t)) =~= t);
        },
        ParamTree::Absent => {},
        ParamTree::Node(cs) => {
            lemma_children_roundtrip(cs);
            assert(tree_loaded(t, tree_state(t)) =~= t);
        },
    }
}

pub proof fn lemma_children_roundtrip(cs: Seq<(Seq<char>, ParamTree)>)
    requires
        children_wf(cs),
    ensures
        children_loaded(cs, children_state(cs)) == cs,
    decreases cs,
{
    if cs.len() > 0 {
        let es = children_state(cs);
        lemma_children_state_index(cs);
        assert(es[0] == (cs[0].0, tree_state(cs[0].1)));
        assert(lookup(es, cs[0].0) == Some(tree_state(cs[0].1)));
        lemma_tree_roundtrip(cs[0].1);
        assert(child_loaded(cs[0], es) == (cs[0].0, cs[0].1));

        let rest = cs.drop_first();
        assert(forall|i: int| 0 <= i < rest.len() ==> rest[i] == cs[i + 1]);
        assert(forall|i: int| 0 <= i < rest.len() ==> rest[i].0 != es[0].0);
        lemma_children_loaded_skip_head(rest, es);
        assert(es.drop_first() =~= children_state(rest));
        lemma_children_roundtrip(rest);

        assert(children_loaded(cs, es) =~= cs) by {
            assert(children_loaded(cs, es) == seq![child_loaded(cs[0], es)] + children_loaded(
                rest,
                es,
            ));
            assert(children_loaded(rest, es) == rest);
            assert((cs[0].0, cs[0].1) == cs[0]);
        }
    }
}

/// A two-field structure's parameter count is the sum of its fields'
/// counts, whichever order the fields are declared in; only the state
/// keys follow the declared order.
pub proof fn lemma_two_field_num_params(a: (Seq<char>, ParamTree), b: (Seq<char>, ParamTree))
    ensures
        children_num_params(seq![a, b]) == tree_num_params(a.1) + tree_num_params(b.1),
        children_num_params(seq![a, b]) == children_num_params(seq![b, a]),
{
    lemma_children_pair(seq![a, b], a, b);
    lemma_children_pair(seq![b, a], b, a);
}

/// Leniency: loading a named state that misses a child's key leaves
/// that child exactly as it was, and never fails.
pub proof fn lemma_loaded_missing_key_unchanged(
    cs: Seq<(Seq<char>, ParamTree)>,
    es: Seq<(Seq<char>, StateV)>,
    i: int,
)
    requires
        0 <= i < cs.len(),
        lookup(es, cs[i].0) is None,
    ensures
        children_loaded(cs, es)[i] == cs[i],
{
    lemma_children_loaded_index(cs, es);
}

} // verus!
