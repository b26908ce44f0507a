//! The module capability contracts.
//!
//! [`Module`] is what every trainable structure satisfies: the five
//! standard operations, each pinned to its one definition over the
//! structure's parameter tree.  [`ADModule`] extends it with the
//! differentiation-gated operations: the gradient update and the
//! conversion to the inference-only counterpart.  [`Optimizer`] is the
//! collaborator contract a gradient-update rule satisfies.

use crate::state::State;
use crate::tensor::{DataV, Device, Gradients, Tensor, TensorV};
use crate::tree::{tree_devices, tree_loaded, tree_moved, tree_num_params, tree_state, tree_wf,
    ParamTree};
use vstd::prelude::*;

verus! {

/// An optimizer: one update rule, applied to one tensor at a time with
/// the full gradient bag.  `update_spec` is the implementor's own
/// mathematical description of that rule; the contract of [`update`]
/// holds every implementation to it, and to preserving the tensor's
/// shape, device and well-formedness.
pub trait Optimizer: Sized {
    spec fn update_spec(&self, t: TensorV, g: Seq<(u64, DataV)>) -> (TensorV, Self);

    fn update(&mut self, tensor: &mut Tensor<true>, grads: &Gradients)
        requires
            old(tensor)@.wf(),
        ensures
            ({
                let r = old(self).update_spec(old(tensor)@, grads@);
                final(tensor)@ == r.0 && *final(self) == r.1
            }),
            final(tensor)@.wf(),
            final(tensor)@.shape == old(tensor)@.shape,
            final(tensor)@.device == old(tensor)@.device,
    ;
}

/// The tree and the optimizer after a gradient update: every present
/// leaf is handed to the optimizer in traversal order, threading the
/// optimizer's own state through; absent optionals are skipped.
pub open spec fn tree_updated<O: Optimizer>(t: ParamTree, o: O, g: Seq<(u64, DataV)>) -> (
    ParamTree,
    O,
)
    decreases t,
{
    match t {
        ParamTree::Leaf(tv) => {
            let r = o.update_spec(tv, g);
            (ParamTree::Leaf(r.0), r.1)
        },
        ParamTree::Absent => (t, o),
        ParamTree::Node(cs) => {
            let r = children_updated(cs, o, g);
            (ParamTree::Node(r.0), r.1)
        },
    }
}

pub open spec fn children_updated<O: Optimizer>(
    cs: Seq<(Seq<char>, ParamTree)>,
    o: O,
    g: Seq<(u64, DataV)>,
) -> (Seq<(Seq<char>, ParamTree)>, O)
    decreases cs,
{
    if cs.len() == 0 {
        (cs, o)
    } else {
        let r0 = tree_updated(cs[0].1, o, g);
        let r1 = children_updated(cs.drop_first(), r0.1, g);
        (seq![(cs[0].0, r0.0)] + r1.0, r1.1)
    }
}

/// Splitting a gradient update at position `i`: updating the suffix
/// from `i` first updates the element at `i`, then the rest.
pub proof fn lemma_children_updated_split<O: Optimizer>(
    cs: Seq<(Seq<char>, ParamTree)>,
    o: O,
    g: Seq<(u64, DataV)>,
    i: int,
)
    requires
        0 <= i < cs.len(),
    ensures
        ({
            let r0 = tree_updated(cs[i].1, o, g);
            let r1 = children_updated(cs.skip(i + 1), r0.1, g);
            children_updated(cs.skip(i), o, g) == (seq![(cs[i].0, r0.0)] + r1.0, r1.1)
        }),
{
    assert(cs.skip(i)[0] == cs[i]);
    assert(cs.skip(i).drop_first() =~= cs.skip(i + 1));
}

/// Unfolds a gradient update over a two-child node: the first field is
/// updated with the incoming optimizer state, the second with the
/// state the first left behind.
pub proof fn lemma_children_updated_pair<O: Optimizer>(
    a: (Seq<char>, ParamTree),
    b: (Seq<char>, ParamTree),
    o: O,
    g: Seq<(u64, DataV)>,
)
    ensures
        ({
            let r0 = tree_updated(a.1, o, g);
            let r1 = tree_updated(b.1, r0.1, g);
            children_updated(seq![a, b], o, g) == (seq![(a.0, r0.0), (b.0, r1.0)], r1.1)
        }),
{
    let cs = seq![a, b];
    let tail = cs.drop_first();
    assert(tail =~= seq![b]);
    assert(tail.drop_first() =~= Seq::<(Seq<char>, ParamTree)>::empty());
    let r0 = tree_updated(a.1, o, g);
    let r1 = tree_updated(b.1, r0.1, g);
    assert(tail[0] == b);
    assert(children_updated(tail.drop_first(), r1.1, g) == (tail.drop_first(), r1.1));
    assert(children_updated(tail, r0.1, g).0 =~= seq![(b.0, r1.0)]);
    assert(children_updated(tail, r0.1, g).1 == r1.1);
    assert(cs[0] == a);
    assert(children_updated(cs, o, g).0 =~= seq![(a.0, r0.0), (b.0, r1.0)]);
    assert(children_updated(cs, o, g).1 == r1.1);
}

/// A trainable structure: a value with a parameter tree, supporting
/// parameter counting, device enumeration, device transfer, and state
/// serialization and loading, each exactly as the tree model defines
/// it.
pub trait Module: Sized {
    /// The parameter tree this value denotes.
    spec fn pview(&self) -> ParamTree;

    /// Total number of parameters held below this module.
    fn num_params(&self) -> (n: usize)
        requires
            tree_wf(self.pview()),
            tree_num_params(self.pview()) <= usize::MAX,
        ensures
            n == tree_num_params(self.pview()),
    ;

    /// The devices of all leaf tensors, in traversal order, duplicates
    /// retained.
    fn devices(&self) -> (ds: Vec<Device>)
        ensures
            ds@ == tree_devices(self.pview()),
    ;

    /// Transfers every leaf tensor to `device`, in place.
    fn to_device(&mut self, device: Device)
        ensures
            final(self).pview() == tree_moved(old(self).pview(), device),
    ;

    /// Serializes the parameter tree; the receiver is not mutated.
    fn state(&self) -> (s: State)
        ensures
            s@ == tree_state(self.pview()),
    ;

    /// Loads a serialized state, leniently: mismatching or missing
    /// parts leave the corresponding sub-tree unchanged, and loading
    /// never fails.
    fn load(&mut self, state: &State)
        ensures
            final(self).pview() == tree_loaded(old(self).pview(), state@),
    ;
}

/// An inference-only copy carries the identical parameter tree, so its
/// parameter count matches the original's exactly, and so do its
/// devices and its serialized state.
pub proof fn lemma_inner_matches<M: ADModule>(m: &M, inner_m: &M::InnerModule)
    requires
        inner_m.pview() == m.pview(),
    ensures
        tree_num_params(inner_m.pview()) == tree_num_params(m.pview()),
        tree_devices(inner_m.pview()) == tree_devices(m.pview()),
        tree_state(inner_m.pview()) == tree_state(m.pview()),
{
}

/// A module bound to the differentiation-capable backend: it can take
/// gradient updates and convert into its inference-only counterpart.
pub trait ADModule: Module {
    /// The same structure over the backend stripped of differentiation.
    type InnerModule: Module;

    /// Hands every leaf tensor to the optimizer's update rule, in
    /// traversal order, in place.
    fn update_params<O: Optimizer>(&mut self, grads: &Gradients, optim: &mut O)
        requires
            tree_wf(old(self).pview()),
        ensures
            ({
                let r = tree_updated(old(self).pview(), *old(optim), grads@);
                final(self).pview() == r.0 && *final(optim) == r.1
            }),
    ;

    /// A freshly constructed inference-only copy with the identical
    /// parameter tree: same shapes, same devices, same data, sharing no
    /// mutable state with the receiver.
    fn inner(&self) -> (m: Self::InnerModule)
        ensures
            m.pview() == self.pview(),
    ;
}

} // verus!
