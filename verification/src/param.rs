//! The parameter container.
//!
//! [`Param<T>`] owns exactly one value of one of four shapes — a leaf
//! tensor, an optional leaf tensor, a nested module, or an ordered
//! sequence of modules — and exposes the five module operations for
//! each.  The leaf shapes are the recursion's base cases; the nested
//! and sequence shapes are its one-level-of-container steps.  Every
//! operation's contract is stated against the container's parameter
//! tree, so the four shapes and derived structures all answer to the
//! same model.

use crate::keys::{index_key, lemma_seq_key_injective, seq_key};
use crate::module::{
    children_updated, lemma_children_updated_split, tree_updated, ADModule, Module, Optimizer,
};
use crate::state::{lemma_lookup_absent, State, StateNamed, StateV};
use crate::tensor::{Device, Gradients, Tensor};
use crate::tree::{
    children_devices, children_devices_len_sum, children_loaded, children_moved,
    children_num_params, children_state, children_wf, lemma_children_devices_len,
    lemma_children_devices_split, lemma_children_loaded_index, lemma_children_moved_index,
    lemma_children_num_params_split, lemma_children_state_index, lemma_children_wf_build,
    lemma_children_wf_index,
    tree_devices, tree_loaded, tree_moved, tree_num_params, tree_state, tree_wf, ParamTree,
};
use vstd::prelude::*;

verus! {

/// A container owning one value; the four recognized shapes of `T` get
/// the five module operations.  Mutation goes through those operations
/// only, so the parameter count and state shape stay consistent with
/// the held value.
pub struct Param<T> {
    value: T,
}

impl<T> Param<T> {
    /// The held value, as a mathematical value.
    pub closed spec fn value_spec(&self) -> T {
        self.value
    }

    /// Wraps a value in a container.
    pub fn new(value: T) -> (p: Param<T>)
        ensures
            p.value_spec() == value,
    {
        Param { value }
    }

    /// Read access to the held value.
    pub fn value(&self) -> (v: &T)
        ensures
            *v == self.value_spec(),
    {
        &self.value
    }
}

// ---------------------------------------------------------------------
// Leaf tensor shape.
// ---------------------------------------------------------------------

impl<const AD: bool> Param<Tensor<AD>> {
    /// The parameter tree of a leaf container: one present leaf.
    pub open spec fn pview(&self) -> ParamTree {
        ParamTree::Leaf(self.value_spec()@)
    }

    /// The product of the held tensor's shape dimensions.
    pub fn num_params(&self) -> (n: usize)
        requires
            tree_wf(self.pview()),
        ensures
            n == tree_num_params(self.pview()),
    {
        self.value.num_elements()
    }

    /// The singleton list of the held tensor's device.
    pub fn devices(&self) -> (ds: Vec<Device>)
        ensures
            ds@ == tree_devices(self.pview()),
    {
        let mut ds: Vec<Device> = Vec::new();
        ds.push(self.value.device());
        proof {
            assert(ds@ =~= tree_devices(self.pview()));
        }
        ds
    }

    /// Replaces the held tensor with its copy materialized on `device`.
    pub fn to_device(&mut self, device: Device)
        ensures
            final(self).pview() == tree_moved(old(self).pview(), device),
    {
        self.value = self.value.to_device(device);
        proof {
            assert(self.pview() =~= tree_moved(old(self).pview(), device));
        }
    }

    /// Leaf data wrapping the held tensor's serialized contents.
    pub fn state(&self) -> (s: State)
        ensures
            s@ == tree_state(self.pview()),
    {
        let s = State::Data(self.value.to_data());
        proof {
            assert(s@ =~= tree_state(self.pview()));
        }
        s
    }

    /// Rebuilds the held tensor from leaf data, on the tensor's current
    /// device.  A named state is a shape mismatch and is silently
    /// ignored.
    pub fn load(&mut self, state: &State)
        ensures
            final(self).pview() == tree_loaded(old(self).pview(), state@),
    {
        match state {
            State::Data(data) => {
                let device = self.value.device();
                self.value = Tensor::from_data_device(data, device);
            },
            _ => {},
        }
        proof {
            assert(self.pview() =~= tree_loaded(old(self).pview(), state@));
        }
    }
}

impl Param<Tensor<true>> {
    /// Hands the held tensor to the optimizer's update rule, keyed with
    /// the full gradient bag.
    pub fn update_params<O: Optimizer>(&mut self, grads: &Gradients, optim: &mut O)
        requires
            tree_wf(old(self).pview()),
        ensures
            ({
                let r = tree_updated(old(self).pview(), *old(optim), grads@);
                final(self).pview() == r.0 && *final(optim) == r.1
            }),
    {
        optim.update(&mut self.value, grads);
    }

    /// A new container holding the tensor re-bound to the
    /// inference-only backend, detached from any gradient history.
    pub fn inner(&self) -> (p: Param<Tensor<false>>)
        ensures
            p.pview() == self.pview(),
    {
        Param::new(self.value.inner())
    }
}

// ---------------------------------------------------------------------
// Optional leaf tensor shape: absence is the neutral element.
// ---------------------------------------------------------------------

impl<const AD: bool> Param<Option<Tensor<AD>>> {
    /// The parameter tree of an optional leaf: a present leaf, or the
    /// absent marker.
    pub open spec fn pview(&self) -> ParamTree {
        match self.value_spec() {
            Some(t) => ParamTree::Leaf(t@),
            None => ParamTree::Absent,
        }
    }

    /// The held tensor's element count, or 0 when absent.
    pub fn num_params(&self) -> (n: usize)
        requires
            tree_wf(self.pview()),
        ensures
            n == tree_num_params(self.pview()),
    {
        match &self.value {
            Some(value) => value.num_elements(),
            None => 0,
        }
    }

    /// The held tensor's device, or no device when absent.
    pub fn devices(&self) -> (ds: Vec<Device>)
        ensures
            ds@ == tree_devices(self.pview()),
    {
        let mut ds: Vec<Device> = Vec::new();
        match &self.value {
            Some(value) => {
                ds.push(value.device());
            },
            None => {},
        }
        proof {
            assert(ds@ =~= tree_devices(self.pview()));
        }
        ds
    }

    /// Transfers the held tensor when present; a no-op when absent.
    pub fn to_device(&mut self, device: Device)
        ensures
            final(self).pview() == tree_moved(old(self).pview(), device),
    {
        match &self.value {
            Some(value) => {
                let moved = value.to_device(device);
                self.value = Some(moved);
            },
            None => {},
        }
        proof {
            assert(self.pview() =~= tree_moved(old(self).pview(), device));
        }
    }

    /// Leaf data when present; an empty named node as the explicit
    /// "no parameter" sentinel when absent.
    pub fn state(&self) -> (s: State)
        ensures
            s@ == tree_state(self.pview()),
    {
        let s = match &self.value {
            Some(value) => State::Data(value.to_data()),
            None => State::StateNamed(StateNamed::new()),
        };
        proof {
            assert(s@ =~= tree_state(self.pview()));
        }
        s
    }

    /// Applies leaf data only when a value is already present: an
    /// absent optional cannot be revived by loading, since presence is
    /// fixed at construction.
    pub fn load(&mut self, state: &State)
        ensures
            final(self).pview() == tree_loaded(old(self).pview(), state@),
    {
        match state {
            State::Data(data) => {
                match &self.value {
                    Some(value) => {
                        let device = value.device();
                        let rebuilt = Tensor::from_data_device(data, device);
                        self.value = Some(rebuilt);
                    },
                    None => {},
                }
            },
            _ => {},
        }
        proof {
            assert(self.pview() =~= tree_loaded(old(self).pview(), state@));
        }
    }
}

impl Param<Option<Tensor<true>>> {
    /// Hands the held tensor, when present, to the optimizer's update
    /// rule; a no-op when absent.
    pub fn update_params<O: Optimizer>(&mut self, grads: &Gradients, optim: &mut O)
        requires
            tree_wf(old(self).pview()),
        ensures
            ({
                let r = tree_updated(old(self).pview(), *old(optim), grads@);
                final(self).pview() == r.0 && *final(optim) == r.1
            }),
    {
        match &mut self.value {
            Some(value) => {
                optim.update(value, grads);
            },
            None => {},
        }
    }

    /// Maps the held tensor, when present, to the inference-only
    /// backend; absence stays absent.
    pub fn inner(&self) -> (p: Param<Option<Tensor<false>>>)
        ensures
            p.pview() == self.pview(),
    {
        match &self.value {
            Some(tensor) => Param::new(Some(tensor.inner())),
            None => Param::new(None),
        }
    }
}

// ---------------------------------------------------------------------
// Nested module shape: pure forwarding, the recursion step.
// ---------------------------------------------------------------------

impl<M: Module> Param<M> {
    /// The parameter tree of a nested container: the held module's own
    /// tree.
    pub open spec fn pview(&self) -> ParamTree {
        self.value_spec().pview()
    }

    /// Delegates to the held module.
    pub fn num_params(&self) -> (n: usize)
        requires
            tree_wf(self.pview()),
            tree_num_params(self.pview()) <= usize::MAX,
        ensures
            n == tree_num_params(self.pview()),
    {
        self.value.num_params()
    }

    /// Delegates to the held module.
    pub fn devices(&self) -> (ds: Vec<Device>)
        ensures
            ds@ == tree_devices(self.pview()),
    {
        self.value.devices()
    }

    /// Delegates to the held module.
    pub fn to_device(&mut self, device: Device)
        ensures
            final(self).pview() == tree_moved(old(self).pview(), device),
    {
        self.value.to_device(device)
    }

    /// Delegates to the held module.
    pub fn state(&self) -> (s: State)
        ensures
            s@ == tree_state(self.pview()),
    {
        self.value.state()
    }

    /// Delegates to the held module.
    pub fn load(&mut self, state: &State)
        ensures
            final(self).pview() == tree_loaded(old(self).pview(), state@),
    {
        self.value.load(state)
    }
}

impl<M: ADModule> Param<M> {
    /// Delegates to the held module.
    pub fn update_params<O: Optimizer>(&mut self, grads: &Gradients, optim: &mut O)
        requires
            tree_wf(old(self).pview()),
        ensures
            ({
                let r = tree_updated(old(self).pview(), *old(optim), grads@);
                final(self).pview() == r.0 && *final(optim) == r.1
            }),
    {
        self.value.update_params(grads, optim)
    }

    /// A new container around the held module's inference-only copy.
    pub fn inner(&self) -> (p: Param<M::InnerModule>)
        ensures
            p.pview() == self.pview(),
    {
        Param::new(self.value.inner())
    }
}

// ---------------------------------------------------------------------
// Module sequence shape: elements keyed "mod-<index>".
// ---------------------------------------------------------------------

/// The children of a sequence container's tree: the element at
/// position `i` under the key `"mod-<i>"`.
pub open spec fn seq_children<M: Module>(ms: Seq<M>) -> Seq<(Seq<char>, ParamTree)> {
    Seq::new(ms.len(), |i: int| (seq_key(i as nat), ms[i].pview()))
}

/// A sequence container's tree is well formed as soon as every
/// element's tree is: the positional keys are pairwise distinct by
/// construction.
pub proof fn lemma_seq_container_wf<M: Module>(ms: Seq<M>)
    requires
        forall|i: int| 0 <= i < ms.len() ==> tree_wf((#[trigger] ms[i]).pview()),
    ensures
        children_wf(seq_children(ms)),
{
    let cs = seq_children(ms);
    assert forall|i: int, j: int| 0 <= i < j < cs.len() implies cs[i].0 != cs[j].0 by {
        if cs[i].0 == cs[j].0 {
            lemma_seq_key_injective(i as nat, j as nat);
        }
    }
    lemma_children_wf_build(cs);
}

/// The state of a sequence container of length `N` is a named node
/// with exactly `N` entries, keyed `"mod-0"` through `"mod-(N-1)"` in
/// order, and its device list's length is the sum of the elements'
/// device-list lengths.
pub proof fn lemma_seq_container_state_shape<M: Module>(p: &Param<Vec<M>>)
    ensures
        tree_state(p.pview()) is Named,
        tree_state(p.pview())->Named_0.len() == p.value_spec()@.len(),
        forall|i: int| 0 <= i < p.value_spec()@.len() ==> (#[trigger] tree_state(
            p.pview(),
        )->Named_0[i]).0 == seq_key(i as nat),
        tree_devices(p.pview()).len() == children_devices_len_sum(seq_children(p.value_spec()@)),
{
    let cs = seq_children(p.value_spec()@);
    lemma_children_state_index(cs);
    lemma_children_devices_len(cs);
}

impl<M: Module> Param<Vec<M>> {
    /// The parameter tree of a sequence container: a node of the
    /// elements' trees under their positional keys.
    pub open spec fn pview(&self) -> ParamTree {
        ParamTree::Node(seq_children(self.value_spec()@))
    }

    /// The sum of the elements' parameter counts.
    #[verifier::loop_isolation(false)]
    pub fn num_params(&self) -> (n: usize)
        requires
            tree_wf(self.pview()),
            tree_num_params(self.pview()) <= usize::MAX,
        ensures
            n == tree_num_params(self.pview()),
    {
        let ghost cs = seq_children(self.value_spec()@);
        proof {
            lemma_children_wf_index(cs);
            assert(cs.skip(0) =~= cs);
        }
        let mut num_params: usize = 0;
        let mut i: usize = 0;
        while i < self.value.len()
            invariant
                i <= self.value.len(),
                num_params + children_num_params(cs.skip(i as int)) == children_num_params(cs),
            decreases self.value.len() - i,
        {
            proof {
                lemma_children_num_params_split(cs, i as int);
            }
            let m = self.value[i].num_params();
            num_params = num_params + m;
            i = i + 1;
        }
        proof {
            assert(cs.skip(self.value.len() as int) =~= Seq::<(Seq<char>, ParamTree)>::empty());
        }
        num_params
    }

    /// The concatenation of the elements' device lists, in order,
    /// duplicates retained.
    #[verifier::loop_isolation(false)]
    pub fn devices(&self) -> (ds: Vec<Device>)
        ensures
            ds@ == tree_devices(self.pview()),
    {
        let ghost cs = seq_children(self.value_spec()@);
        proof {
            assert(cs.skip(0) =~= cs);
        }
        let mut devices: Vec<Device> = Vec::new();
        let mut i: usize = 0;
        while i < self.value.len()
            invariant
                i <= self.value.len(),
                children_devices(cs) == devices@ + children_devices(cs.skip(i as int)),
            decreases self.value.len() - i,
        {
            proof {
                lemma_children_devices_split(cs, i as int);
            }
            let ghost before = devices@;
            let mut elem_devices = self.value[i].devices();
            devices.append(&mut elem_devices);
            i = i + 1;
            proof {
                assert(children_devices(cs) =~= before + (tree_devices(cs[i - 1].1)
                    + children_devices(cs.skip(i as int))));
                assert(children_devices(cs) =~= devices@ + children_devices(cs.skip(i as int)));
            }
        }
        proof {
            assert(cs.skip(self.value.len() as int) =~= Seq::<(Seq<char>, ParamTree)>::empty());
            assert(devices@ =~= devices@ + children_devices(cs.skip(self.value.len() as int)));
        }
        devices
    }

    /// Transfers every element, in sequence order.
    #[verifier::loop_isolation(false)]
    pub fn to_device(&mut self, device: Device)
        ensures
            final(self).pview() == tree_moved(old(self).pview(), device),
    {
        let ghost cs = seq_children(old(self).value_spec()@);
        proof {
            lemma_children_moved_index(cs, device);
        }
        let n = self.value.len();
        let mut i: usize = 0;
        while i < n
            invariant
                i <= n,
                self.value.len() == n,
                forall|k: int| 0 <= k < i ==> (#[trigger] self.value@[k]).pview()
                    == children_moved(cs, device)[k].1,
                forall|k: int| i <= k < n ==> (#[trigger] self.value@[k]).pview() == cs[k].1,
            decreases n - i,
        {
            self.value[i].to_device(device);
            i = i + 1;
        }
        proof {
            assert(seq_children(self.value@) =~= children_moved(cs, device));
        }
    }

    /// A named node with one entry per element, keyed by its position.
    #[verifier::loop_isolation(false)]
    pub fn state(&self) -> (s: State)
        ensures
            s@ == tree_state(self.pview()),
    {
        let ghost cs = seq_children(self.value_spec()@);
        proof {
            lemma_children_state_index(cs);
        }
        let mut state = StateNamed::new();
        let mut i: usize = 0;
        while i < self.value.len()
            invariant
                i <= self.value.len(),
                state@ == children_state(cs).take(i as int),
            decreases self.value.len() - i,
        {
            let key = index_key(i);
            let elem_state = self.value[i].state();
            proof {
                assert forall|k: int| 0 <= k < state@.len() implies (#[trigger] state@[k]).0
                    != key@ by {
                    if state@[k].0 == key@ {
                        lemma_seq_key_injective(k as nat, i as nat);
                    }
                }
                lemma_lookup_absent(state@, key@);
            }
            state.register_state(key.as_str(), elem_state);
            i = i + 1;
            proof {
                assert(state@ =~= children_state(cs).take(i as int));
            }
        }
        proof {
            assert(children_state(cs).take(self.value.len() as int) =~= children_state(cs));
        }
        State::StateNamed(state)
    }

    /// Looks up each element's positional key and recurses; an element
    /// whose key the state misses, and any non-named state, leaves that
    /// element unchanged.
    #[verifier::loop_isolation(false)]
    pub fn load(&mut self, state: &State)
        ensures
            final(self).pview() == tree_loaded(old(self).pview(), state@),
    {
        let ghost cs = seq_children(old(self).value_spec()@);
        let ghost target: Seq<(Seq<char>, ParamTree)> = match state@ {
            StateV::Named(es) => children_loaded(cs, es),
            StateV::Data(_) => cs,
        };
        proof {
            if state@ is Named {
                lemma_children_loaded_index(cs, state@->Named_0);
            }
        }
        let n = self.value.len();
        let mut i: usize = 0;
        while i < n
            invariant
                i <= n,
                self.value.len() == n,
                forall|k: int| 0 <= k < i ==> (#[trigger] self.value@[k]).pview() == target[k].1,
                forall|k: int| i <= k < n ==> (#[trigger] self.value@[k]).pview() == cs[k].1,
            decreases n - i,
        {
            let key = index_key(i);
            match state.get(key.as_str()) {
                Some(sub) => {
                    self.value[i].load(sub);
                },
                None => {},
            }
            i = i + 1;
        }
        proof {
            assert(seq_children(self.value@) =~= target);
        }
    }
}

impl<M: ADModule> Param<Vec<M>> {
    /// Hands every element to the optimizer, in sequence order, the
    /// optimizer's own state threading through.
    #[verifier::loop_isolation(false)]
    pub fn update_params<O: Optimizer>(&mut self, grads: &Gradients, optim: &mut O)
        requires
            tree_wf(old(self).pview()),
        ensures
            ({
                let r = tree_updated(old(self).pview(), *old(optim), grads@);
                final(self).pview() == r.0 && *final(optim) == r.1
            }),
    {
        let ghost cs = seq_children(old(self).value_spec()@);
        let ghost o0 = *optim;
        proof {
            lemma_children_wf_index(cs);
            assert(cs.skip(0) =~= cs);
        }
        let n = self.value.len();
        let mut i: usize = 0;
        while i < n
            invariant
                i <= n,
                self.value.len() == n,
                forall|k: int| i <= k < n ==> (#[trigger] self.value@[k]).pview() == cs[k].1,
                ({
                    let r = children_updated(cs.skip(i as int), *optim, grads@);
                    children_updated(cs, o0, grads@) == (
                        Seq::new(i as nat, |k: int| (cs[k].0, self.value@[k].pview())) + r.0,
                        r.1,
                    )
                }),
            decreases n - i,
        {
            let ghost o_before = *optim;
            proof {
                lemma_children_updated_split(cs, o_before, grads@, i as int);
            }
            self.value[i].update_params(grads, optim);
            i = i + 1;
            proof {
                let r = children_updated(cs.skip(i as int), *optim, grads@);
                assert(Seq::new((i - 1) as nat, |k: int| (cs[k].0, self.value@[k].pview())) + (seq![
                    (cs[i - 1].0, self.value@[i - 1].pview()),
                ] + r.0) =~= Seq::new(i as nat, |k: int| (cs[k].0, self.value@[k].pview()))
                    + r.0);
            }
        }
        proof {
            assert(cs.skip(n as int) =~= Seq::<(Seq<char>, ParamTree)>::empty());
            assert(Seq::new(n as nat, |k: int| (cs[k].0, self.value@[k].pview())) + Seq::<
                (Seq<char>, ParamTree),
            >::empty() =~= seq_children(self.value@));
        }
    }

    /// Element-wise conversion to the inference-only backend,
    /// preserving order and length.
    #[verifier::loop_isolation(false)]
    pub fn inner(&self) -> (p: Param<Vec<M::InnerModule>>)
        ensures
            p.pview() == self.pview(),
    {
        let ghost cs = seq_children(self.value_spec()@);
        let mut inner_modules: Vec<M::InnerModule> = Vec::new();
        let mut i: usize = 0;
        while i < self.value.len()
            invariant
                i <= self.value.len(),
                inner_modules@.len() == i,
                forall|k: int| 0 <= k < i ==> (#[trigger] inner_modules@[k]).pview() == cs[k].1,
            decreases self.value.len() - i,
        {
            let converted = self.value[i].inner();
            inner_modules.push(converted);
            i = i + 1;
        }
        let p = Param::new(inner_modules);
        proof {
            assert(seq_children(p.value_spec()@) =~= cs);
        }
        p
    }
}

} // verus!
