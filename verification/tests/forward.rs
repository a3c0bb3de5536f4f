use neuralnet::{NetError, NeuralNet};

fn step(acc: u64, weight: u64, input: u64) -> u64 {
    (f64::from_bits(acc) + f64::from_bits(weight) * f64::from_bits(input)).to_bits()
}

fn sigmoid(sum: u64) -> u64 {
    (1.0 / (1.0 + f64::exp(-f64::from_bits(sum)))).to_bits()
}

fn bits(values: &[f64]) -> Vec<u64> {
    values.iter().map(|v| v.to_bits()).collect()
}

fn value(net: &NeuralNet, layer: usize, node: usize) -> f64 {
    f64::from_bits(net.layers[layer].nodes[node].output)
}

#[test]
fn the_input_layer_passes_its_input_through() {
    let mut net = NeuralNet::new(&vec![2, 2]).unwrap();
    net.layers[1].nodes[0].weights = bits(&[1.0, 0.0]);
    net.layers[1].nodes[0].bias = 0.0f64.to_bits();
    assert_eq!(net.forward(&bits(&[0.3, -0.4]), step, sigmoid), Ok(()));
    assert_eq!(value(&net, 0, 0), 0.3);
    assert_eq!(value(&net, 0, 1), -0.4);
    assert_eq!(value(&net, 1, 0), 1.0 / (1.0 + f64::exp(-0.3)));
}

#[test]
fn one_node_on_zero_gives_one_half() {
    let mut net = NeuralNet::new(&vec![1, 1]).unwrap();
    net.layers[1].nodes[0].weights = bits(&[1.0]);
    net.layers[1].nodes[0].bias = 0.0f64.to_bits();
    assert_eq!(net.forward(&bits(&[0.0]), step, sigmoid), Ok(()));
    assert_eq!(value(&net, 0, 0), 0.0);
    assert_eq!(value(&net, 1, 0), 0.5);
    assert_eq!(net.outputs(), bits(&[0.5]));
}

#[test]
fn two_ones_sum_to_two() {
    let mut net = NeuralNet::new(&vec![2, 1]).unwrap();
    net.layers[1].nodes[0].weights = bits(&[1.0, 1.0]);
    net.layers[1].nodes[0].bias = 0.0f64.to_bits();
    assert_eq!(net.forward(&bits(&[1.0, 1.0]), step, sigmoid), Ok(()));
    let out = value(&net, 1, 0);
    assert_eq!(out, 1.0 / (1.0 + f64::exp(-2.0)));
    assert!((out - 0.8808).abs() < 1e-4);
}

#[test]
fn the_sum_starts_at_the_bias_and_takes_the_pairs_in_order() {
    let mut net = NeuralNet::new(&vec![3, 1]).unwrap();
    net.layers[1].nodes[0].bias = 7;
    net.layers[1].nodes[0].weights = vec![10, 20, 30];
    let trace = |acc: u64, w: u64, x: u64| acc * 1000 + w + x;
    assert_eq!(net.forward(&vec![1, 2, 3], trace, |s: u64| s + 1), Ok(()));
    assert_eq!(net.layers[1].nodes[0].output, 7_011_022_033 + 1);
}

#[test]
fn each_layer_reads_the_layer_before_it() {
    let mut net = NeuralNet::new(&vec![2, 2, 1]).unwrap();
    net.layers[1].nodes[0].weights = bits(&[0.5, -0.25]);
    net.layers[1].nodes[0].bias = 0.1f64.to_bits();
    net.layers[1].nodes[1].weights = bits(&[-1.0, 0.75]);
    net.layers[1].nodes[1].bias = (-0.2f64).to_bits();
    net.layers[2].nodes[0].weights = bits(&[0.3, 0.6]);
    net.layers[2].nodes[0].bias = 0.05f64.to_bits();
    assert_eq!(net.forward(&bits(&[0.3, -0.4]), step, sigmoid), Ok(()));
    let s = |x: f64| 1.0 / (1.0 + f64::exp(-x));
    let h0 = s(0.1 + 0.5 * 0.3 + -0.25 * -0.4);
    let h1 = s(-0.2 + -1.0 * 0.3 + 0.75 * -0.4);
    let out = s(0.05 + 0.3 * h0 + 0.6 * h1);
    assert_eq!(value(&net, 1, 0), h0);
    assert_eq!(value(&net, 1, 1), h1);
    assert_eq!(value(&net, 2, 0), out);
    assert_eq!(net.outputs(), vec![out.to_bits()]);
}

#[test]
fn a_pass_does_not_touch_biases_or_weights() {
    let mut net = NeuralNet::new(&vec![2, 2]).unwrap();
    net.layers[1].nodes[1].weights = bits(&[0.5, -0.5]);
    net.layers[1].nodes[1].bias = 0.125f64.to_bits();
    net.layers[0].nodes[0].bias = 0.75f64.to_bits();
    assert_eq!(net.forward(&bits(&[1.0, 2.0]), step, sigmoid), Ok(()));
    assert_eq!(net.layers[1].nodes[1].weights, bits(&[0.5, -0.5]));
    assert_eq!(net.layers[1].nodes[1].bias, 0.125f64.to_bits());
    assert_eq!(net.layers[0].nodes[0].bias, 0.75f64.to_bits());
    assert_eq!(net.layers[1].nodes[0].weights, bits(&[0.0, 0.0]));
}

#[test]
fn repeated_passes_give_identical_outputs() {
    let mut net = NeuralNet::new(&vec![3, 4, 2]).unwrap();
    let mut seed: u64 = 11;
    for layer in net.layers.iter_mut() {
        for node in layer.nodes.iter_mut() {
            seed = seed.wrapping_mul(6364136223846793005).wrapping_add(1442695040888963407);
            node.bias = (((seed >> 11) as f64) / ((1u64 << 53) as f64) * 2.0 - 1.0).to_bits();
            for w in node.weights.iter_mut() {
                seed = seed.wrapping_mul(6364136223846793005).wrapping_add(1442695040888963407);
                *w = (((seed >> 11) as f64) / ((1u64 << 53) as f64) * 2.0 - 1.0).to_bits();
            }
        }
    }
    let input = bits(&[0.3, -0.4, 0.9]);
    assert_eq!(net.forward(&input, step, sigmoid), Ok(()));
    let first = net.dump();
    let first_out = net.outputs();
    assert_eq!(net.forward(&input, step, sigmoid), Ok(()));
    assert_eq!(net.dump(), first);
    assert_eq!(net.outputs(), first_out);
    assert_eq!(first_out.len(), 2);
}

#[test]
fn a_short_input_is_refused_and_nothing_changes() {
    let mut net = NeuralNet::new(&vec![3, 2]).unwrap();
    assert_eq!(net.forward(&bits(&[0.1, 0.2, 0.3]), step, sigmoid), Ok(()));
    let before = net.dump();
    assert_eq!(net.forward(&bits(&[0.9, 0.8]), step, sigmoid), Err(NetError::InputLengthMismatch));
    assert_eq!(net.dump(), before);
    assert_eq!(value(&net, 0, 0), 0.1);
    assert_eq!(value(&net, 1, 0), 0.5);
}

#[test]
fn a_long_input_is_refused_and_nothing_changes() {
    let mut net = NeuralNet::new(&vec![3, 2]).unwrap();
    let before = net.dump();
    assert_eq!(net.forward(&bits(&[0.9, 0.8, 0.7, 0.6]), step, sigmoid), Err(NetError::InputLengthMismatch));
    assert_eq!(net.dump(), before);
    assert_eq!(net.forward(&vec![], step, sigmoid), Err(NetError::InputLengthMismatch));
    assert_eq!(net.dump(), before);
}

#[test]
fn a_pass_before_initialization_gives_one_half_everywhere() {
    let mut net = NeuralNet::new(&vec![2, 3, 2]).unwrap();
    assert_eq!(net.forward(&bits(&[0.3, -0.4]), step, sigmoid), Ok(()));
    for i in 1..3 {
        for j in 0..net.layers[i].nodes.len() {
            assert_eq!(value(&net, i, j), 0.5);
        }
    }
}

#[test]
fn a_single_layer_only_takes_its_input() {
    let mut net = NeuralNet::new(&vec![2]).unwrap();
    assert_eq!(net.forward(&bits(&[4.0, -5.0]), step, sigmoid), Ok(()));
    assert_eq!(net.outputs(), bits(&[4.0, -5.0]));
}

#[test]
fn large_sums_saturate() {
    let mut net = NeuralNet::new(&vec![1, 2]).unwrap();
    net.layers[1].nodes[0].weights = bits(&[1.0]);
    net.layers[1].nodes[1].weights = bits(&[-1.0]);
    assert_eq!(net.forward(&bits(&[1000.0]), step, sigmoid), Ok(()));
    assert_eq!(value(&net, 1, 0), 1.0);
    assert_eq!(value(&net, 1, 1), 0.0);
}

#[test]
fn a_layer_loads_and_copies_its_outputs() {
    let mut layer = neuralnet::Layer::new(3, 0);
    layer.load(&vec![5, 6, 7]);
    assert_eq!(layer.snapshot(), vec![5, 6, 7]);
    assert_eq!(layer.nodes[1].output, 6);
    assert_eq!(layer.nodes[1].bias, 0);
}

#[test]
fn a_layer_is_processed_node_by_node() {
    let mut layer = neuralnet::Layer::new(2, 2);
    layer.nodes[0].bias = 1;
    layer.nodes[0].weights = vec![2, 3];
    layer.nodes[1].bias = 4;
    layer.nodes[1].weights = vec![5, 6];
    let inputs = vec![10, 100];
    layer.process(&inputs, &|acc: u64, w: u64, x: u64| acc + w * x, &|s: u64| s * 2);
    assert_eq!(layer.nodes[0].output, (1 + 2 * 10 + 3 * 100) * 2);
    assert_eq!(layer.nodes[1].output, (4 + 5 * 10 + 6 * 100) * 2);
    assert_eq!(
        layer.nodes[1].activation(&inputs, &|acc: u64, w: u64, x: u64| acc + w * x, &|s: u64| s),
        654
    );
    assert_eq!(layer.nodes[1].weights, vec![5, 6]);
}
