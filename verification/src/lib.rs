//! Parameter-tree runtime for trainable computation graphs.
//!
//! A trainable structure is a tree of parameter containers: leaf tensors,
//! optional leaf tensors, nested sub-modules and ordered sequences of
//! sub-modules.  Every node exposes the same five operations — parameter
//! counting, gradient update, device enumeration, device transfer and
//! state serialization/loading — and the whole tree is modelled in
//! specifications by a single recursive value, [`tree::ParamTree`], over
//! which each operation has one mathematical definition.

pub mod keys;
pub mod layers;
pub mod module;
pub mod param;
pub mod state;
pub mod tensor;
pub mod tree;
