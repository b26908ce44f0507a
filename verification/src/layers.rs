//! Structures that aggregate parameter containers field by field.
//!
//! A user structure conforms to [`Module`] by combining, for each of
//! the five operations, its fields' contributions in declaration
//! order: parameter counts are summed, device lists concatenated,
//! transfers and updates applied field by field, and the state is a
//! named node with one entry per field under the field's declared
//! name.  Any field whose type lacks the operations fails to build, so
//! the shape check happens before anything runs.  The two structures
//! here follow that scheme over the container shapes; a structure with
//! other fields is written the same way.

use crate::module::{
    lemma_children_updated_pair, tree_updated, ADModule, Module, Optimizer,
};
use crate::param::Param;
use crate::state::{lookup, State, StateNamed, StateV};
use crate::tensor::{Device, Gradients, Tensor};
use crate::tree::{
    children_state, lemma_children_pair, lemma_children_pair_loaded, lemma_children_pair_moved,
    tree_loaded, tree_moved, tree_wf, ParamTree,
};
use vstd::prelude::*;

verus! {

/// A linear layer: a weight tensor and an optional bias tensor.
pub struct Linear<const AD: bool> {
    pub weight: Param<Tensor<AD>>,
    pub bias: Param<Option<Tensor<AD>>>,
}

impl<const AD: bool> Linear<AD> {
    /// The structure's declared name, for diagnostics only.
    pub fn name(&self) -> (s: &'static str)
        ensures
            s@ == "Linear"@,
    {
        "Linear"
    }

    /// The layer's tree is well formed as soon as its fields' trees
    /// are: the field names are distinct by declaration.
    pub proof fn lemma_wf(&self)
        requires
            tree_wf(self.weight.pview()),
            tree_wf(self.bias.pview()),
        ensures
            tree_wf(self.pview()),
    {
        let a = ("weight"@, self.weight.pview());
        let b = ("bias"@, self.bias.pview());
        lemma_children_pair(seq![a, b], a, b);
        reveal_strlit("weight");
        reveal_strlit("bias");
        assert(("weight"@).len() == 6);
        assert(("bias"@).len() == 4);
    }
}

impl<const AD: bool> Module for Linear<AD> {
    open spec fn pview(&self) -> ParamTree {
        ParamTree::Node(
            seq![("weight"@, self.weight.pview()), ("bias"@, self.bias.pview())],
        )
    }

    fn num_params(&self) -> (n: usize) {
        proof {
            let a = ("weight"@, self.weight.pview());
            let b = ("bias"@, self.bias.pview());
            lemma_children_pair(seq![a, b], a, b);
        }
        let weight_count = self.weight.num_params();
        let bias_count = self.bias.num_params();
        weight_count + bias_count
    }

    fn devices(&self) -> (ds: Vec<Device>) {
        proof {
            let a = ("weight"@, self.weight.pview());
            let b = ("bias"@, self.bias.pview());
            lemma_children_pair(seq![a, b], a, b);
        }
        let mut ds = self.weight.devices();
        let mut bias_devices = self.bias.devices();
        ds.append(&mut bias_devices);
        ds
    }

    fn to_device(&mut self, device: Device) {
        self.weight.to_device(device);
        self.bias.to_device(device);
        proof {
            let a = ("weight"@, old(self).weight.pview());
            let b = ("bias"@, old(self).bias.pview());
            lemma_children_pair_moved(seq![a, b], a, b, device);
            assert(self.pview() =~= tree_moved(old(self).pview(), device));
        }
    }

    fn state(&self) -> (s: State) {
        proof {
            let a = ("weight"@, self.weight.pview());
            let b = ("bias"@, self.bias.pview());
            lemma_children_pair(seq![a, b], a, b);
        }
        let mut state = StateNamed::new();
        state.register_state("weight", self.weight.state());
        proof {
            assert(state@.len() == 1 && state@[0].0 == "weight"@);
            assert(state@.drop_first() =~= Seq::<(Seq<char>, StateV)>::empty());
            reveal_strlit("weight");
            reveal_strlit("bias");
            assert(("weight"@).len() == 6);
            assert(("bias"@).len() == 4);
            assert(("weight"@) != ("bias"@));
            assert(lookup(state@.drop_first(), "bias"@) is None);
            assert(lookup(state@, "bias"@) is None);
        }
        state.register_state("bias", self.bias.state());
        let s = State::StateNamed(state);
        proof {
            assert(s@->Named_0 =~= children_state(
                seq![("weight"@, self.weight.pview()), ("bias"@, self.bias.pview())],
            ));
        }
        s
    }

    fn load(&mut self, state: &State) {
        match state.get("weight") {
            Some(sub) => self.weight.load(sub),
            None => {},
        }
        match state.get("bias") {
            Some(sub) => self.bias.load(sub),
            None => {},
        }
        proof {
            if state@ is Named {
                let a = ("weight"@, old(self).weight.pview());
                let b = ("bias"@, old(self).bias.pview());
                lemma_children_pair_loaded(seq![a, b], a, b, state@->Named_0);
            }
            assert(self.pview() =~= tree_loaded(old(self).pview(), state@));
        }
    }
}

impl ADModule for Linear<true> {
    type InnerModule = Linear<false>;

    fn update_params<O: Optimizer>(&mut self, grads: &Gradients, optim: &mut O) {
        proof {
            let a = ("weight"@, old(self).weight.pview());
            let b = ("bias"@, old(self).bias.pview());
            lemma_children_pair(seq![a, b], a, b);
            lemma_children_updated_pair(a, b, *old(optim), grads@);
        }
        self.weight.update_params(grads, optim);
        self.bias.update_params(grads, optim);
        proof {
            let r = tree_updated(old(self).pview(), *old(optim), grads@);
            assert(self.pview() =~= r.0);
        }
    }

    fn inner(&self) -> (m: Linear<false>) {
        let m = Linear { weight: self.weight.inner(), bias: self.bias.inner() };
        proof {
            assert(m.pview() =~= self.pview());
        }
        m
    }
}

/// A stack of linear layers with a final head layer: a sequence
/// container and a nested-module container as fields.
pub struct Sequential<const AD: bool> {
    pub layers: Param<Vec<Linear<AD>>>,
    pub head: Param<Linear<AD>>,
}

impl<const AD: bool> Sequential<AD> {
    /// The structure's declared name, for diagnostics only.
    pub fn name(&self) -> (s: &'static str)
        ensures
            s@ == "Sequential"@,
    {
        "Sequential"
    }

    /// The structure's tree is well formed as soon as its fields' trees
    /// are: the field names are distinct by declaration.
    pub proof fn lemma_wf(&self)
        requires
            tree_wf(self.layers.pview()),
            tree_wf(self.head.pview()),
        ensures
            tree_wf(self.pview()),
    {
        let a = ("layers"@, self.layers.pview());
        let b = ("head"@, self.head.pview());
        lemma_children_pair(seq![a, b], a, b);
        reveal_strlit("layers");
        reveal_strlit("head");
        assert(("layers"@).len() == 6);
        assert(("head"@).len() == 4);
    }
}

impl<const AD: bool> Module for Sequential<AD> {
    open spec fn pview(&self) -> ParamTree {
        ParamTree::Node(
            seq![("layers"@, self.layers.pview()), ("head"@, self.head.pview())],
        )
    }

    fn num_params(&self) -> (n: usize) {
        proof {
            let a = ("layers"@, self.layers.pview());
            let b = ("head"@, self.head.pview());
            lemma_children_pair(seq![a, b], a, b);
        }
        let layers_count = self.layers.num_params();
        let head_count = self.head.num_params();
        layers_count + head_count
    }

    fn devices(&self) -> (ds: Vec<Device>) {
        proof {
            let a = ("layers"@, self.layers.pview());
            let b = ("head"@, self.head.pview());
            lemma_children_pair(seq![a, b], a, b);
        }
        let mut ds = self.layers.devices();
        let mut head_devices = self.head.devices();
        ds.append(&mut head_devices);
        ds
    }

    fn to_device(&mut self, device: Device) {
        self.layers.to_device(device);
        self.head.to_device(device);
        proof {
            let a = ("layers"@, old(self).layers.pview());
            let b = ("head"@, old(self).head.pview());
            lemma_children_pair_moved(seq![a, b], a, b, device);
            assert(self.pview() =~= tree_moved(old(self).pview(), device));
        }
    }

    fn state(&self) -> (s: State) {
        proof {
            let a = ("layers"@, self.layers.pview());
            let b = ("head"@, self.head.pview());
            lemma_children_pair(seq![a, b], a, b);
        }
        let mut state = StateNamed::new();
        state.register_state("layers", self.layers.state());
        proof {
            assert(state@.len() == 1 && state@[0].0 == "layers"@);
            assert(state@.drop_first() =~= Seq::<(Seq<char>, StateV)>::empty());
            reveal_strlit("layers");
            reveal_strlit("head");
            assert(("layers"@).len() == 6);
            assert(("head"@).len() == 4);
            assert(("layers"@) != ("head"@));
            assert(lookup(state@.drop_first(), "head"@) is None);
            assert(lookup(state@, "head"@) is None);
        }
        state.register_state("head", self.head.state());
        let s = State::StateNamed(state);
        proof {
            assert(s@->Named_0 =~= children_state(
                seq![("layers"@, self.layers.pview()), ("head"@, self.head.pview())],
            ));
        }
        s
    }

    fn load(&mut self, state: &State) {
        match state.get("layers") {
            Some(sub) => self.layers.load(sub),
            None => {},
        }
        match state.get("head") {
            Some(sub) => self.head.load(sub),
            None => {},
        }
        proof {
            if state@ is Named {
                let a = ("layers"@, old(self).layers.pview());
                let b = ("head"@, old(self).head.pview());
                lemma_children_pair_loaded(seq![a, b], a, b, state@->Named_0);
            }
            assert(self.pview() =~= tree_loaded(old(self).pview(), state@));
        }
    }
}

impl ADModule for Sequential<true> {
    type InnerModule = Sequential<false>;

    fn update_params<O: Optimizer>(&mut self, grads: &Gradients, optim: &mut O) {
        proof {
            let a = ("layers"@, old(self).layers.pview());
            let b = ("head"@, old(self).head.pview());
            lemma_children_pair(seq![a, b], a, b);
            lemma_children_updated_pair(a, b, *old(optim), grads@);
        }
        self.layers.update_params(grads, optim);
        self.head.update_params(grads, optim);
        proof {
            let r = tree_updated(old(self).pview(), *old(optim), grads@);
            assert(self.pview() =~= r.0);
        }
    }

    fn inner(&self) -> (m: Sequential<false>) {
        let m = Sequential { layers: self.layers.inner(), head: self.head.inner() };
        proof {
            assert(m.pview() =~= self.pview());
        }
        m
    }
}

} // verus!
