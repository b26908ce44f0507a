use burn::layers::{Linear, Sequential};
use burn::module::{ADModule, Module, Optimizer};
use burn::param::Param;
use burn::state::{State, StateNamed};
use burn::tensor::{Data, DataV, Device, Gradients, Tensor, TensorV};
use vstd::seq::Seq;

fn tensor(shape: Vec<usize>, device_id: u64, values: Vec<i64>) -> Tensor<true> {
    Tensor::new(shape, Device { id: device_id }, values)
}

fn linear(device_id: u64, weight_values: Vec<i64>, bias_values: Option<Vec<i64>>) -> Linear<true> {
    let n = weight_values.len();
    let weight = tensor(vec![n], device_id, weight_values);
    let bias = match bias_values {
        Some(values) => {
            let m = values.len();
            Some(tensor(vec![m], device_id, values))
        }
        None => None,
    };
    Linear { weight: Param::new(weight), bias: Param::new(bias) }
}

fn leaf_values(state: &State) -> Vec<i64> {
    match state {
        State::Data(data) => data.values.clone(),
        State::StateNamed(_) => panic!("expected leaf data"),
    }
}

fn named_child<'a>(state: &'a State, key: &str) -> &'a State {
    state.get(key).expect("missing key")
}

#[test]
fn leaf_num_params_is_shape_product() {
    let p = Param::new(tensor(vec![2, 3], 0, vec![1, 2, 3, 4, 5, 6]));
    assert_eq!(p.num_params(), 6);
}

#[test]
fn scalar_shape_counts_one() {
    let p = Param::new(tensor(vec![], 0, vec![7]));
    assert_eq!(p.num_params(), 1);
}

#[test]
fn zero_dimension_counts_zero() {
    let p = Param::new(tensor(vec![2, 0], 0, vec![]));
    assert_eq!(p.num_params(), 0);
}

#[test]
fn absent_optional_counts_zero() {
    let p: Param<Option<Tensor<true>>> = Param::new(None);
    assert_eq!(p.num_params(), 0);
    assert_eq!(p.devices().len(), 0);
}

#[test]
fn present_optional_counts_product() {
    let p = Param::new(Some(tensor(vec![2, 2], 3, vec![9, 9, 9, 9])));
    assert_eq!(p.num_params(), 4);
    let ds = p.devices();
    assert_eq!(ds.len(), 1);
    assert_eq!(ds[0], Device { id: 3 });
}

#[test]
fn to_device_is_idempotent() {
    let mut once = Param::new(tensor(vec![2], 1, vec![5, 6]));
    let mut twice = Param::new(tensor(vec![2], 1, vec![5, 6]));
    let target = Device { id: 9 };
    once.to_device(target);
    twice.to_device(target);
    twice.to_device(target);
    assert_eq!(once.devices(), twice.devices());
    assert_eq!(leaf_values(&once.state()), leaf_values(&twice.state()));
}

#[test]
fn leaf_state_load_round_trip() {
    let source = Param::new(tensor(vec![3], 2, vec![10, 20, 30]));
    let mut fresh = Param::new(tensor(vec![3], 7, vec![0, 0, 0]));
    fresh.load(&source.state());
    assert_eq!(leaf_values(&fresh.state()), vec![10, 20, 30]);
    // Loading rebuilds on the receiver's current device.
    assert_eq!(fresh.devices(), vec![Device { id: 7 }]);
}

#[test]
fn leaf_load_ignores_named_state() {
    let mut p = Param::new(tensor(vec![2], 0, vec![4, 5]));
    p.load(&State::StateNamed(StateNamed::new()));
    assert_eq!(leaf_values(&p.state()), vec![4, 5]);
}

#[test]
fn absent_optional_round_trip_stays_absent() {
    let mut p: Param<Option<Tensor<true>>> = Param::new(None);
    let s = p.state();
    match &s {
        State::StateNamed(node) => assert_eq!(node.entries.len(), 0),
        State::Data(_) => panic!("absent optional must serialize to an empty named node"),
    }
    p.load(&s);
    assert_eq!(p.num_params(), 0);
    assert!(p.value().is_none());
}

#[test]
fn absent_optional_is_not_revived_by_leaf_data() {
    let mut p: Param<Option<Tensor<true>>> = Param::new(None);
    p.load(&State::Data(Data { shape: vec![1], values: vec![42] }));
    assert!(p.value().is_none());
}

#[test]
fn sequence_state_keys_are_positional() {
    let layers: Vec<Linear<true>> = (0..11i64).map(|i| linear(0, vec![i], None)).collect();
    let p = Param::new(layers);
    let s = p.state();
    match &s {
        State::StateNamed(node) => {
            assert_eq!(node.entries.len(), 11);
            for (i, entry) in node.entries.iter().enumerate() {
                assert_eq!(entry.0, format!("mod-{}", i));
            }
        }
        State::Data(_) => panic!("sequence container must serialize to a named node"),
    }
}

#[test]
fn sequence_devices_concatenate() {
    let members = vec![
        linear(1, vec![1, 2], Some(vec![3])),
        linear(2, vec![4], None),
    ];
    let p = Param::new(members);
    // First element: weight and bias devices; second: weight only.
    assert_eq!(
        p.devices(),
        vec![Device { id: 1 }, Device { id: 1 }, Device { id: 2 }]
    );
    assert_eq!(p.num_params(), 4);
}

#[test]
fn sequence_round_trip_restores_elements() {
    let source = Param::new(vec![
        linear(0, vec![1, 2], Some(vec![3])),
        linear(0, vec![4, 5], None),
    ]);
    let mut fresh = Param::new(vec![
        linear(0, vec![0, 0], Some(vec![0])),
        linear(0, vec![0, 0], None),
    ]);
    fresh.load(&source.state());
    let restored = fresh.state();
    let first = named_child(&restored, "mod-0");
    assert_eq!(leaf_values(named_child(first, "weight")), vec![1, 2]);
    assert_eq!(leaf_values(named_child(first, "bias")), vec![3]);
    let second = named_child(&restored, "mod-1");
    assert_eq!(leaf_values(named_child(second, "weight")), vec![4, 5]);
}

#[test]
fn derived_num_params_sums_fields() {
    let layer = linear(0, vec![1, 2, 3, 4, 5, 6], Some(vec![7, 8, 9]));
    assert_eq!(layer.weight.num_params(), 6);
    assert_eq!(layer.bias.num_params(), 3);
    assert_eq!(layer.num_params(), 9);
}

#[test]
fn derived_state_uses_field_names() {
    let layer = linear(4, vec![1], Some(vec![2]));
    let s = layer.state();
    match &s {
        State::StateNamed(node) => {
            assert_eq!(node.entries.len(), 2);
            assert_eq!(node.entries[0].0, "weight");
            assert_eq!(node.entries[1].0, "bias");
        }
        State::Data(_) => panic!("derived structure must serialize to a named node"),
    }
    assert_eq!(leaf_values(named_child(&s, "weight")), vec![1]);
    assert_eq!(leaf_values(named_child(&s, "bias")), vec![2]);
}

#[test]
fn load_missing_field_key_leaves_field_unchanged() {
    let mut layer = linear(0, vec![1, 2], Some(vec![3]));
    let bias_before = leaf_values(named_child(&layer.state(), "bias"));

    let mut partial = StateNamed::new();
    partial.register_state("weight", State::Data(Data { shape: vec![2], values: vec![8, 9] }));
    layer.load(&State::StateNamed(partial));

    let after = layer.state();
    assert_eq!(leaf_values(named_child(&after, "weight")), vec![8, 9]);
    assert_eq!(leaf_values(named_child(&after, "bias")), bias_before);
}

#[test]
fn inner_copy_matches_and_is_independent() {
    let layer = linear(5, vec![1, 2, 3], Some(vec![4]));
    let frozen = layer.inner();
    assert_eq!(frozen.num_params(), layer.num_params());
    assert_eq!(
        leaf_values(named_child(&frozen.state(), "weight")),
        vec![1, 2, 3]
    );

    // Mutating the original must not reach the inference-only copy.
    let mut layer = layer;
    let mut overwrite = StateNamed::new();
    overwrite.register_state("weight", State::Data(Data { shape: vec![3], values: vec![7, 7, 7] }));
    layer.load(&State::StateNamed(overwrite));
    assert_eq!(
        leaf_values(named_child(&layer.state(), "weight")),
        vec![7, 7, 7]
    );
    assert_eq!(
        leaf_values(named_child(&frozen.state(), "weight")),
        vec![1, 2, 3]
    );
}

#[test]
fn sequential_aggregates_nested_and_sequence_fields() {
    let net = Sequential {
        layers: Param::new(vec![
            linear(0, vec![1, 2], Some(vec![3])),
            linear(0, vec![4], None),
        ]),
        head: Param::new(linear(1, vec![5, 6], None)),
    };
    assert_eq!(net.num_params(), 6);
    assert_eq!(net.devices().len(), 4);
    let s = net.state();
    let layers_node = named_child(&s, "layers");
    let head_node = named_child(&s, "head");
    assert_eq!(
        leaf_values(named_child(named_child(layers_node, "mod-1"), "weight")),
        vec![4]
    );
    assert_eq!(leaf_values(named_child(head_node, "weight")), vec![5, 6]);
    assert_eq!(net.name(), "Sequential");
}

#[test]
fn sequential_to_device_moves_every_leaf() {
    let mut net = Sequential {
        layers: Param::new(vec![linear(0, vec![1], Some(vec![2]))]),
        head: Param::new(linear(3, vec![3], None)),
    };
    net.to_device(Device { id: 8 });
    for d in net.devices() {
        assert_eq!(d, Device { id: 8 });
    }
}

#[test]
fn state_get_misses() {
    let layer = linear(0, vec![1], None);
    let s = layer.state();
    assert!(s.get("missing").is_none());
    let leaf = State::Data(Data { shape: vec![1], values: vec![1] });
    assert!(leaf.get("weight").is_none());
}

/// An update rule for the tests: subtracts the constant 1 from every
/// element, ignoring the gradient bag, and counts its invocations.
struct StepDown {
    calls: usize,
}

impl Optimizer for StepDown {
    // The ghost description of the rule; never reached at run time.
    fn update_spec(&self, _t: TensorV, _g: Seq<(u64, DataV)>) -> (TensorV, Self) {
        unreachable!()
    }

    fn update(&mut self, tensor: &mut Tensor<true>, _grads: &Gradients) {
        let data = tensor.to_data();
        let device = tensor.device();
        let values: Vec<i64> = data.values.iter().map(|v| v - 1).collect();
        *tensor = Tensor::from_data_device(&Data { shape: data.shape, values }, device);
        self.calls += 1;
    }
}

#[test]
fn update_params_visits_every_present_leaf() {
    let mut layer = linear(0, vec![10, 20], Some(vec![30]));
    let mut optim = StepDown { calls: 0 };
    let grads = Gradients { entries: vec![] };
    layer.update_params(&grads, &mut optim);
    assert_eq!(optim.calls, 2);
    let s = layer.state();
    assert_eq!(leaf_values(named_child(&s, "weight")), vec![9, 19]);
    assert_eq!(leaf_values(named_child(&s, "bias")), vec![29]);
}

#[test]
fn update_params_threads_through_nested_and_sequence_fields() {
    let mut net = Sequential {
        layers: Param::new(vec![
            linear(0, vec![10], Some(vec![20])),
            linear(0, vec![30], None),
        ]),
        head: Param::new(linear(0, vec![40], Some(vec![50]))),
    };
    let mut optim = StepDown { calls: 0 };
    let grads = Gradients { entries: vec![] };
    net.update_params(&grads, &mut optim);
    // Present leaves: two in the first layer, one in the second, two in
    // the head.
    assert_eq!(optim.calls, 5);
    let s = net.state();
    let first = named_child(named_child(&s, "layers"), "mod-0");
    assert_eq!(leaf_values(named_child(first, "weight")), vec![9]);
    assert_eq!(leaf_values(named_child(first, "bias")), vec![19]);
    let head = named_child(&s, "head");
    assert_eq!(leaf_values(named_child(head, "weight")), vec![39]);
}

#[test]
fn sequential_inner_matches_original() {
    let net = Sequential {
        layers: Param::new(vec![linear(2, vec![1, 2], Some(vec![3]))]),
        head: Param::new(linear(2, vec![4], None)),
    };
    let frozen = net.inner();
    assert_eq!(frozen.num_params(), net.num_params());
    assert_eq!(frozen.devices(), net.devices());
    let s = frozen.state();
    let first = named_child(named_child(&s, "layers"), "mod-0");
    assert_eq!(leaf_values(named_child(first, "weight")), vec![1, 2]);
}

#[test]
fn update_params_skips_absent_bias() {
    let mut layer = linear(0, vec![1], None);
    let mut optim = StepDown { calls: 0 };
    let grads = Gradients { entries: vec![] };
    layer.update_params(&grads, &mut optim);
    assert_eq!(optim.calls, 1);
    assert_eq!(leaf_values(named_child(&layer.state(), "weight")), vec![0]);
    assert_eq!(layer.name(), "Linear");
}
