//! The leaf backend capability: a tensor-like value with a shape, a
//! resident device, and a backend-agnostic data representation.
//!
//! The numeric engine itself (gradient computation, kernels, real device
//! memory) is outside this crate; a [`Tensor`] here carries exactly what
//! the parameter-tree operations read: its shape, its device and its
//! element data.  The const parameter `AD` records at the type level
//! whether the tensor belongs to the differentiation-capable backend
//! (`true`) or to its inference-only counterpart (`false`).

use vstd::prelude::*;

verus! {

/// Identity of a device of the numeric backend.
#[derive(Clone, Copy, PartialEq, Eq, Structural, Debug)]
pub struct Device {
    pub id: u64,
}

/// Backend-agnostic representation of one tensor's contents: its shape
/// and its elements in row-major order.  This is the only payload the
/// serialized state tree carries for a leaf.
pub struct Data {
    pub shape: Vec<usize>,
    pub values: Vec<i64>,
}

/// Mathematical value of a [`Data`].
#[verifier::ext_equal]
pub struct DataV {
    pub shape: Seq<usize>,
    pub values: Seq<i64>,
}

impl View for Data {
    type V = DataV;

    open spec fn view(&self) -> DataV {
        DataV { shape: self.shape@, values: self.values@ }
    }
}

/// Number of elements of a tensor with the given shape: the product of
/// its dimensions (1 for a zero-dimensional, scalar shape).
pub open spec fn shape_product(s: Seq<usize>) -> nat
    decreases s.len(),
{
    if s.len() == 0 {
        1
    } else {
        (s[0] * shape_product(s.drop_first())) as nat
    }
}

/// Mathematical value of a [`Tensor`]: shape, resident device, elements.
#[verifier::ext_equal]
pub struct TensorV {
    pub shape: Seq<usize>,
    pub device: Device,
    pub values: Seq<i64>,
}

impl TensorV {
    /// A tensor is well formed when it holds exactly as many elements as
    /// its shape prescribes.
    pub open spec fn wf(&self) -> bool {
        self.values.len() == shape_product(self.shape)
    }

    /// The same tensor materialized on device `d`.
    pub open spec fn moved(&self, d: Device) -> TensorV {
        TensorV { shape: self.shape, device: d, values: self.values }
    }

    /// The data representation of this tensor.
    pub open spec fn data(&self) -> DataV {
        DataV { shape: self.shape, values: self.values }
    }
}

/// A tensor bound to the backend: the leaf value of a parameter tree.
pub struct Tensor<const AD: bool> {
    shape: Vec<usize>,
    device: Device,
    values: Vec<i64>,
}

impl<const AD: bool> View for Tensor<AD> {
    type V = TensorV;

    closed spec fn view(&self) -> TensorV {
        TensorV { shape: self.shape@, device: self.device, values: self.values@ }
    }
}

fn copy_usizes(v: &Vec<usize>) -> (r: Vec<usize>)
    ensures
        r@ == v@,
{
    let mut r: Vec<usize> = Vec::new();
    let mut i: usize = 0;
    while i < v.len()
        invariant
            i <= v.len(),
            r@ == v@.take(i as int),
        decreases v.len() - i,
    {
        r.push(v[i]);
        i = i + 1;
        proof {
            assert(r@ =~= v@.take(i as int));
        }
    }
    proof {
        assert(r@ =~= v@);
    }
    r
}

fn copy_i64s(v: &Vec<i64>) -> (r: Vec<i64>)
    ensures
        r@ == v@,
{
    let mut r: Vec<i64> = Vec::new();
    let mut i: usize = 0;
    while i < v.len()
        invariant
            i <= v.len(),
            r@ == v@.take(i as int),
        decreases v.len() - i,
    {
        r.push(v[i]);
        i = i + 1;
        proof {
            assert(r@ =~= v@.take(i as int));
        }
    }
    proof {
        assert(r@ =~= v@);
    }
    r
}

impl<const AD: bool> Tensor<AD> {
    /// Builds a tensor from its shape, device and elements.
    pub fn new(shape: Vec<usize>, device: Device, values: Vec<i64>) -> (t: Tensor<AD>)
        requires
            values@.len() == shape_product(shape@),
        ensures
            t@ == (TensorV { shape: shape@, device, values: values@ }),
            t@.wf(),
    {
        Tensor { shape, device, values }
    }

    /// The tensor's shape.
    pub fn shape(&self) -> (s: &Vec<usize>)
        ensures
            s@ == self@.shape,
    {
        &self.shape
    }

    /// The device the tensor is resident on.
    pub fn device(&self) -> (d: Device)
        ensures
            d == self@.device,
    {
        self.device
    }

    /// Number of elements: the product of the shape's dimensions.
    pub fn num_elements(&self) -> (n: usize)
        requires
            self@.wf(),
        ensures
            n == shape_product(self@.shape),
    {
        self.values.len()
    }

    /// The backend-agnostic representation of this tensor's contents.
    pub fn to_data(&self) -> (d: Data)
        ensures
            d@ == self@.data(),
    {
        Data { shape: copy_usizes(&self.shape), values: copy_i64s(&self.values) }
    }

    /// Reconstructs a tensor from a data representation, materialized on
    /// `device`.  Accepts any data: the result is well formed exactly
    /// when the data is.
    pub fn from_data_device(data: &Data, device: Device) -> (t: Tensor<AD>)
        ensures
            t@ == (TensorV { shape: data@.shape, device, values: data@.values }),
    {
        Tensor {
            shape: copy_usizes(&data.shape),
            device,
            values: copy_i64s(&data.values),
        }
    }

    /// A copy of this tensor materialized on `device`; the contents are
    /// unchanged, so transferring twice to the same device equals
    /// transferring once.
    pub fn to_device(&self, device: Device) -> (t: Tensor<AD>)
        ensures
            t@ == self@.moved(device),
    {
        Tensor {
            shape: copy_usizes(&self.shape),
            device,
            values: copy_i64s(&self.values),
        }
    }
}

impl Tensor<true> {
    /// The same tensor value re-bound to the inference-only backend,
    /// detached from any gradient history.  The copy shares no storage
    /// with the receiver.
    pub fn inner(&self) -> (t: Tensor<false>)
        ensures
            t@ == self@,
    {
        Tensor {
            shape: copy_usizes(&self.shape),
            device: self.device,
            values: copy_i64s(&self.values),
        }
    }
}

/// The gradient bag handed to an optimizer: pairs of a tensor identity
/// and the gradient data recorded for it.  The parameter tree passes it
/// through unread; only the optimizer indexes it.
pub struct Gradients {
    pub entries: Vec<(u64, Data)>,
}

impl View for Gradients {
    type V = Seq<(u64, DataV)>;

    open spec fn view(&self) -> Seq<(u64, DataV)> {
        self.entries@.map_values(|p: (u64, Data)| (p.0, p.1@))
    }
}

} // verus!
