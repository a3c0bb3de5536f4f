//! What holds of the network across its operations.

use vstd::prelude::*;
use crate::bits::{in_closed_unit, in_half_open_unit};
use crate::network::{activates, fan_in, folds_to, NeuralNet};

verus! {

/// `step` has at most one result on each triple of arguments.
pub open spec fn step_is_function<A: Fn(u64, u64, u64) -> u64>(step: A) -> bool {
    forall|a: u64, w: u64, x: u64, p: u64, q: u64|
        #[trigger] step.ensures((a, w, x), p) && #[trigger] step.ensures((a, w, x), q) ==> p == q
}

/// `squash` has at most one result on each argument.
pub open spec fn squash_is_function<S: Fn(u64) -> u64>(squash: S) -> bool {
    forall|s: u64, p: u64, q: u64| #[trigger] squash.ensures((s,), p) && #[trigger] squash.ensures((s,), q) ==> p == q
}

/// In a blank network of sizes `sizes`, layer `i` has `sizes[i]` nodes, and
/// each of them has as many weights as the layer before it has nodes: none
/// in the first layer.
pub proof fn lemma_blank_counts(net: NeuralNet, sizes: Seq<usize>)
    requires
        net.is_blank(sizes),
    ensures
        net.layers@.len() == sizes.len(),
        forall|i: int| 0 <= i < sizes.len() ==> (#[trigger] net.layers@[i]).nodes@.len() == sizes[i],
        forall|i: int, j: int|
            0 <= i < sizes.len() && 0 <= j < sizes[i] ==> (#[trigger] net.layers@[i].nodes@[j]).weights@.len() == (if i
                == 0 {
                0
            } else {
                sizes[i - 1] as int
            }),
{
    assert forall|i: int, j: int| 0 <= i < sizes.len() && 0 <= j < sizes[i] implies (#[trigger] net.layers@[i].nodes@[j]).weights@.len()
        == fan_in(sizes, i) by {
        assert(net.layers@[i].is_blank(sizes[i] as nat, fan_in(sizes, i)));
        assert(net.layers@[i].nodes@[j].is_blank(fan_in(sizes, i)));
    }
}

/// In a network whose parameters were drawn, every bias lies in the closed
/// unit interval and every weight in the half-open one.
pub proof fn lemma_drawn_parameters_in_range<B: Fn() -> u64, W: Fn() -> u64>(
    net: NeuralNet,
    draw_bias: B,
    draw_weight: W,
)
    requires
        net.drawn_from(draw_bias, draw_weight),
    ensures
        forall|i: int, j: int|
            0 <= i < net.layers@.len() && 0 <= j < net.layers@[i].nodes@.len() ==> in_closed_unit(
                (#[trigger] net.layers@[i].nodes@[j]).bias,
            ),
        forall|i: int, j: int, k: int|
            0 <= i < net.layers@.len() && 0 <= j < net.layers@[i].nodes@.len() && 0 <= k
                < net.layers@[i].nodes@[j].weights@.len() ==> in_half_open_unit(
                #[trigger] net.layers@[i].nodes@[j].weights@[k],
            ),
{
    assert forall|i: int, j: int|
        0 <= i < net.layers@.len() && 0 <= j < net.layers@[i].nodes@.len() implies (#[trigger] net.layers@[i].nodes@[j]).drawn_from(
        draw_bias,
        draw_weight,
    ) by {
        assert(net.layers@[i].drawn_from(draw_bias, draw_weight));
    }
}

/// Where `step` is a function, a fold has one result.
pub proof fn lemma_fold_is_function<A: Fn(u64, u64, u64) -> u64>(
    step: A,
    start: u64,
    weights: Seq<u64>,
    inputs: Seq<u64>,
    k: nat,
    p: u64,
    q: u64,
)
    requires
        step_is_function(step),
        folds_to(step, start, weights, inputs, k, p),
        folds_to(step, start, weights, inputs, k, q),
    ensures
        p == q,
    decreases k,
{
    if k > 0 {
        let m = choose|m: u64|
            folds_to(step, start, weights, inputs, (k - 1) as nat, m) && #[trigger] step.ensures(
                (m, weights[k - 1], inputs[k - 1]),
                p,
            );
        let n = choose|n: u64|
            folds_to(step, start, weights, inputs, (k - 1) as nat, n) && #[trigger] step.ensures(
                (n, weights[k - 1], inputs[k - 1]),
                q,
            );
        lemma_fold_is_function(step, start, weights, inputs, (k - 1) as nat, m, n);
    }
}

/// Where `step` and `squash` are functions, a node has one activation on
/// given inputs.
pub proof fn lemma_activation_is_function<A: Fn(u64, u64, u64) -> u64, S: Fn(u64) -> u64>(
    step: A,
    squash: S,
    bias: u64,
    weights: Seq<u64>,
    inputs: Seq<u64>,
    p: u64,
    q: u64,
)
    requires
        step_is_function(step),
        squash_is_function(squash),
        activates(step, squash, bias, weights, inputs, p),
        activates(step, squash, bias, weights, inputs, q),
    ensures
        p == q,
{
    let m = choose|m: u64| #[trigger]
        folds_to(step, bias, weights, inputs, weights.len(), m) && squash.ensures((m,), p);
    let n = choose|n: u64| #[trigger]
        folds_to(step, bias, weights, inputs, weights.len(), n) && squash.ensures((n,), q);
    lemma_fold_is_function(step, bias, weights, inputs, weights.len(), m, n);
}

/// Two networks with the same biases and weights that hold a forward pass
/// of the same input agree on the outputs of layer `i`.
pub proof fn lemma_layer_outputs_agree<A: Fn(u64, u64, u64) -> u64, S: Fn(u64) -> u64>(
    first: NeuralNet,
    second: NeuralNet,
    step: A,
    squash: S,
    i: nat,
)
    requires
        step_is_function(step),
        squash_is_function(squash),
        second.same_parameters(first),
        first.layers@[0].outputs() == second.layers@[0].outputs(),
        first.propagated(step, squash),
        second.propagated(step, squash),
        i < first.layers@.len(),
    ensures
        first.layers@[i as int].outputs() == second.layers@[i as int].outputs(),
    decreases i,
{
    if i > 0 {
        lemma_layer_outputs_agree(first, second, step, squash, (i - 1) as nat);
        let a = first.layers@[i as int];
        let b = second.layers@[i as int];
        let inputs = first.layers@[i - 1].outputs();
        assert(b.same_parameters(a));
        assert(a.computed_from(step, squash, inputs));
        assert(b.computed_from(step, squash, inputs));
        assert forall|j: int| 0 <= j < a.nodes@.len() implies a.nodes@[j].output == b.nodes@[j].output by {
            assert(b.nodes@[j].same_parameters(a.nodes@[j]));
            lemma_activation_is_function(
                step,
                squash,
                a.nodes@[j].bias,
                a.nodes@[j].weights@,
                inputs,
                a.nodes@[j].output,
                b.nodes@[j].output,
            );
        }
        assert(a.outputs() =~= b.outputs());
    }
}

/// A forward pass has no hidden state: where `step` and `squash` are
/// functions, a pass of `input` through a network, and a second pass of the
/// same input through what the first one left, end with the same output in
/// every node.
pub proof fn lemma_forward_repeats<A: Fn(u64, u64, u64) -> u64, S: Fn(u64) -> u64>(
    before: NeuralNet,
    first: NeuralNet,
    second: NeuralNet,
    input: Seq<u64>,
    step: A,
    squash: S,
)
    requires
        step_is_function(step),
        squash_is_function(squash),
        first.is_pass_of(before, input, step, squash),
        second.is_pass_of(first, input, step, squash),
    ensures
        second.layers@.len() == first.layers@.len(),
        forall|i: int| 0 <= i < first.layers@.len() ==> (#[trigger] first.layers@[i]).outputs() == second.layers@[i].outputs(),
{
    assert forall|i: int| 0 <= i < first.layers@.len() implies (#[trigger] first.layers@[i]).outputs()
        == second.layers@[i].outputs() by {
        lemma_layer_outputs_agree(first, second, step, squash, i as nat);
    }
}

/// Two forward passes of one input through one network end with the same
/// output in every node, where `step` and `squash` are functions.
pub proof fn lemma_forward_is_function<A: Fn(u64, u64, u64) -> u64, S: Fn(u64) -> u64>(
    before: NeuralNet,
    first: NeuralNet,
    second: NeuralNet,
    input: Seq<u64>,
    step: A,
    squash: S,
)
    requires
        step_is_function(step),
        squash_is_function(squash),
        first.is_pass_of(before, input, step, squash),
        second.is_pass_of(before, input, step, squash),
    ensures
        second.layers@.len() == first.layers@.len(),
        forall|i: int| 0 <= i < first.layers@.len() ==> (#[trigger] first.layers@[i]).outputs() == second.layers@[i].outputs(),
{
    assert(second.same_parameters(first)) by {
        assert forall|i: int| 0 <= i < second.layers@.len() implies (#[trigger] second.layers@[i]).same_parameters(
            first.layers@[i],
        ) by {
            assert(second.layers@[i].same_parameters(before.layers@[i]));
            assert(first.layers@[i].same_parameters(before.layers@[i]));
            assert forall|j: int| 0 <= j < second.layers@[i].nodes@.len() implies (#[trigger] second.layers@[i].nodes@[j]).same_parameters(
                first.layers@[i].nodes@[j],
            ) by {
                assert(second.layers@[i].nodes@[j].same_parameters(before.layers@[i].nodes@[j]));
                assert(first.layers@[i].nodes@[j].same_parameters(before.layers@[i].nodes@[j]));
            }
        }
    }
    assert forall|i: int| 0 <= i < first.layers@.len() implies (#[trigger] first.layers@[i]).outputs()
        == second.layers@[i].outputs() by {
        lemma_layer_outputs_agree(first, second, step, squash, i as nat);
    }
}

} // verus!
