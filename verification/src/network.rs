//! The network, its construction, initialization and forward pass.

use vstd::prelude::*;
use crate::bits::{accept_bias, accept_weight, in_closed_unit, in_half_open_unit, ZERO_BITS};

verus! {

/// Why an operation on a network was refused.
#[derive(Debug, Clone, Copy, PartialEq, Eq)]
pub enum NetError {
    /// The list of layer sizes is empty or holds a zero.
    InvalidTopology,
    /// The input does not have one value per node of the input layer.
    InputLengthMismatch,
    /// A drawn bias or weight lies outside its interval.
    ParameterOutOfRange,
}

/// One unit: a bias, one weight per node of the preceding layer, and the
/// output of the latest forward pass. All three are bit patterns of doubles.
#[derive(Debug)]
pub struct Node {
    pub output: u64,
    pub bias: u64,
    pub weights: Vec<u64>,
}

/// The nodes of one layer, in the order the next layer's weights refer to.
#[derive(Debug)]
pub struct Layer {
    pub nodes: Vec<Node>,
}

/// Layers in evaluation order: the first takes the input, the last holds the
/// result.
#[derive(Debug)]
pub struct NeuralNet {
    pub layers: Vec<Layer>,
}

/// A sequence of `n` zero patterns.
pub open spec fn zeros(n: nat) -> Seq<u64> {
    Seq::new(n, |k: int| ZERO_BITS)
}

/// A list of layer sizes from which a network can be built.
pub open spec fn valid_topology(sizes: Seq<usize>) -> bool {
    sizes.len() >= 1 && forall|i: int| 0 <= i < sizes.len() ==> sizes[i] > 0
}

/// The number of weights of each node of layer `i` under the sizes `sizes`.
pub open spec fn fan_in(sizes: Seq<usize>, i: int) -> nat {
    if i <= 0 {
        0
    } else {
        sizes[i - 1] as nat
    }
}

/// `total` is a result of folding `step` over the first `k` pairs of a weight
/// and an input, in index order, starting from `start`.
pub open spec fn folds_to<A: Fn(u64, u64, u64) -> u64>(
    step: A,
    start: u64,
    weights: Seq<u64>,
    inputs: Seq<u64>,
    k: nat,
    total: u64,
) -> bool
    decreases k,
{
    if k == 0 {
        total == start
    } else {
        exists|mid: u64|
            folds_to(step, start, weights, inputs, (k - 1) as nat, mid)
                && #[trigger] step.ensures((mid, weights[k - 1], inputs[k - 1]), total)
    }
}

/// A fold over `k` pairs, followed by one more step, is a fold over `k + 1`.
pub proof fn lemma_fold_extends<A: Fn(u64, u64, u64) -> u64>(
    step: A,
    start: u64,
    weights: Seq<u64>,
    inputs: Seq<u64>,
    k: nat,
    mid: u64,
    total: u64,
)
    requires
        k < weights.len(),
        k < inputs.len(),
        folds_to(step, start, weights, inputs, k, mid),
        step.ensures((mid, weights[k as int], inputs[k as int]), total),
    ensures
        folds_to(step, start, weights, inputs, k + 1, total),
{
    let n: nat = k + 1;
    assert((n - 1) as nat == k);
    assert(folds_to(step, start, weights, inputs, (n - 1) as nat, mid));
    assert(step.ensures((mid, weights[n - 1], inputs[n - 1]), total));
}

/// `out` is a result of squashing a weighted sum: the fold of `step` over all
/// the weights and the inputs at the same indices, started from the bias.
pub open spec fn activates<A: Fn(u64, u64, u64) -> u64, S: Fn(u64) -> u64>(
    step: A,
    squash: S,
    bias: u64,
    weights: Seq<u64>,
    inputs: Seq<u64>,
    out: u64,
) -> bool {
    exists|sum: u64|
        #[trigger] folds_to(step, bias, weights, inputs, weights.len(), sum)
            && squash.ensures((sum,), out)
}

/// Every value that `draw_bias` can return lies in the closed unit interval,
/// and every value that `draw_weight` can return in the half-open one.
pub open spec fn draws_in_range<B: Fn() -> u64, W: Fn() -> u64>(draw_bias: B, draw_weight: W) -> bool {
    &&& forall|v: u64| #[trigger] draw_bias.ensures((), v) ==> in_closed_unit(v)
    &&& forall|v: u64| #[trigger] draw_weight.ensures((), v) ==> in_half_open_unit(v)
}

impl Node {
    /// The bias and the weights are those of `other`.
    pub open spec fn same_parameters(&self, other: Node) -> bool {
        self.bias == other.bias && self.weights@ == other.weights@
    }

    /// The bias is a draw of `draw_bias` in the closed unit interval, each
    /// weight a draw of `draw_weight` in the half-open one.
    pub open spec fn drawn_from<B: Fn() -> u64, W: Fn() -> u64>(&self, draw_bias: B, draw_weight: W) -> bool {
        &&& in_closed_unit(self.bias)
        &&& draw_bias.ensures((), self.bias)
        &&& forall|k: int| 0 <= k < self.weights@.len() ==> in_half_open_unit(#[trigger] self.weights@[k])
        &&& forall|k: int| 0 <= k < self.weights@.len() ==> draw_weight.ensures((), #[trigger] self.weights@[k])
    }

    /// As many weights as `other`, and the same output.
    pub open spec fn same_frame(&self, other: Node) -> bool {
        self.output == other.output && self.weights@.len() == other.weights@.len()
    }

    /// Every pattern of `weights` lies in the half-open unit interval.
    pub open spec fn weights_in_range(weights: Seq<u64>) -> bool {
        forall|k: int| 0 <= k < weights.len() ==> in_half_open_unit(#[trigger] weights[k])
    }

    /// The node with its bias and weights replaced and its output kept.
    /// Refused where the bias lies outside the closed unit interval or a
    /// weight outside the half-open one.
    pub fn with_parameters(&self, bias: u64, weights: Vec<u64>) -> (r: Result<Node, NetError>)
        requires
            weights@.len() == self.weights@.len(),
        ensures
            r is Ok <==> in_closed_unit(bias) && Node::weights_in_range(weights@),
            r is Err ==> r == Err::<Node, NetError>(NetError::ParameterOutOfRange),
            r matches Ok(node) ==> node.output == self.output && node.bias == bias && node.weights@ == weights@,
    {
        if !accept_bias(bias) {
            return Err(NetError::ParameterOutOfRange);
        }
        let mut k: usize = 0;
        while k < weights.len()
            invariant
                k <= weights@.len(),
                forall|a: int| 0 <= a < k ==> in_half_open_unit(#[trigger] weights@[a]),
            decreases weights@.len() - k,
        {
            if !accept_weight(weights[k]) {
                return Err(NetError::ParameterOutOfRange);
            }
            k += 1;
        }
        Ok(Node { output: self.output, bias, weights })
    }

    /// A node of the same frame whose bias and weights are drawn anew: first
    /// the bias, then the weights in index order.
    pub fn redrawn<B: Fn() -> u64, W: Fn() -> u64>(&self, draw_bias: &B, draw_weight: &W) -> (r: Result<Node, NetError>)
        requires
            draw_bias.requires(()),
            draw_weight.requires(()),
        ensures
            draws_in_range(*draw_bias, *draw_weight) ==> r is Ok,
            r is Err ==> r == Err::<Node, NetError>(NetError::ParameterOutOfRange),
            r matches Ok(node) ==> node.same_frame(*self) && node.drawn_from(*draw_bias, *draw_weight),
    {
        let bias: u64 = draw_bias();
        let mut weights: Vec<u64> = Vec::new();
        let mut k: usize = 0;
        while k < self.weights.len()
            invariant
                k <= self.weights@.len(),
                weights@.len() == k,
                draw_weight.requires(()),
                forall|a: int| 0 <= a < k ==> draw_weight.ensures((), #[trigger] weights@[a]),
            decreases self.weights@.len() - k,
        {
            let weight: u64 = draw_weight();
            weights.push(weight);
            k += 1;
        }
        self.with_parameters(bias, weights)
    }

    /// The activation of the node on the outputs of the preceding layer: the
    /// bias, plus each weight times the input at its index, squashed.
    pub fn activation<A: Fn(u64, u64, u64) -> u64, S: Fn(u64) -> u64>(
        &self,
        inputs: &Vec<u64>,
        step: &A,
        squash: &S,
    ) -> (out: u64)
        requires
            self.weights@.len() == inputs@.len(),
            forall|a: u64, w: u64, x: u64| step.requires((a, w, x)),
            forall|s: u64| squash.requires((s,)),
        ensures
            activates(*step, *squash, self.bias, self.weights@, inputs@, out),
    {
        let mut sum: u64 = self.bias;
        let mut k: usize = 0;
        while k < self.weights.len()
            invariant
                k <= self.weights@.len(),
                self.weights@.len() == inputs@.len(),
                forall|a: u64, w: u64, x: u64| step.requires((a, w, x)),
                folds_to(*step, self.bias, self.weights@, inputs@, k as nat, sum),
            decreases self.weights@.len() - k,
        {
            let next: u64 = step(sum, self.weights[k], inputs[k]);
            proof {
                lemma_fold_extends(*step, self.bias, self.weights@, inputs@, k as nat, sum, next);
            }
            sum = next;
            k += 1;
        }
        squash(sum)
    }

    /// A node whose three parts are all zero, with `fan_in` weights.
    pub open spec fn is_blank(&self, fan_in: nat) -> bool {
        &&& self.output == ZERO_BITS
        &&& self.bias == ZERO_BITS
        &&& self.weights@ =~= zeros(fan_in)
    }
}

impl Layer {
    /// Every node has `fan_in` weights.
    pub open spec fn uniform(&self, fan_in: nat) -> bool {
        forall|j: int| 0 <= j < self.nodes@.len() ==> (#[trigger] self.nodes@[j]).weights@.len() == fan_in
    }

    /// `size` blank nodes of `fan_in` weights each.
    pub open spec fn is_blank(&self, size: nat, fan_in: nat) -> bool {
        &&& self.nodes@.len() == size
        &&& forall|j: int| 0 <= j < self.nodes@.len() ==> (#[trigger] self.nodes@[j]).is_blank(fan_in)
    }

    /// The outputs of the nodes, in node order.
    pub open spec fn outputs(&self) -> Seq<u64> {
        Seq::new(self.nodes@.len(), |j: int| self.nodes@[j].output)
    }

    /// The biases and the weights are those of `other`.
    pub open spec fn same_parameters(&self, other: Layer) -> bool {
        &&& self.nodes@.len() == other.nodes@.len()
        &&& forall|j: int| 0 <= j < self.nodes@.len() ==> (#[trigger] self.nodes@[j]).same_parameters(other.nodes@[j])
    }

    /// Every output is the activation of its node on `inputs`.
    pub open spec fn computed_from<A: Fn(u64, u64, u64) -> u64, S: Fn(u64) -> u64>(
        &self,
        step: A,
        squash: S,
        inputs: Seq<u64>,
    ) -> bool {
        forall|j: int| 0 <= j < self.nodes@.len() ==> activates(
            step,
            squash,
            (#[trigger] self.nodes@[j]).bias,
            self.nodes@[j].weights@,
            inputs,
            self.nodes@[j].output,
        )
    }

    /// As many nodes as `other`, each of the frame of the node at its index.
    pub open spec fn same_frame(&self, other: Layer) -> bool {
        &&& self.nodes@.len() == other.nodes@.len()
        &&& forall|j: int| 0 <= j < self.nodes@.len() ==> (#[trigger] self.nodes@[j]).same_frame(other.nodes@[j])
    }

    /// Every node's bias and weights are draws within their intervals.
    pub open spec fn drawn_from<B: Fn() -> u64, W: Fn() -> u64>(&self, draw_bias: B, draw_weight: W) -> bool {
        forall|j: int| 0 <= j < self.nodes@.len() ==> (#[trigger] self.nodes@[j]).drawn_from(draw_bias, draw_weight)
    }

    /// A layer of the same frame whose nodes are drawn anew, in node order.
    pub fn redrawn<B: Fn() -> u64, W: Fn() -> u64>(&self, draw_bias: &B, draw_weight: &W) -> (r: Result<Layer, NetError>)
        requires
            draw_bias.requires(()),
            draw_weight.requires(()),
        ensures
            draws_in_range(*draw_bias, *draw_weight) ==> r is Ok,
            r is Err ==> r == Err::<Layer, NetError>(NetError::ParameterOutOfRange),
            r matches Ok(layer) ==> layer.same_frame(*self) && layer.drawn_from(*draw_bias, *draw_weight),
    {
        let mut nodes: Vec<Node> = Vec::new();
        let mut j: usize = 0;
        while j < self.nodes.len()
            invariant
                j <= self.nodes@.len(),
                nodes@.len() == j,
                draw_bias.requires(()),
                draw_weight.requires(()),
                forall|a: int| 0 <= a < j ==> (#[trigger] nodes@[a]).same_frame(self.nodes@[a]),
                forall|a: int| 0 <= a < j ==> (#[trigger] nodes@[a]).drawn_from(*draw_bias, *draw_weight),
            decreases self.nodes@.len() - j,
        {
            match self.nodes[j].redrawn(draw_bias, draw_weight) {
                Ok(node) => {
                    nodes.push(node);
                },
                Err(e) => {
                    return Err(e);
                },
            }
            j += 1;
        }
        Ok(Layer { nodes })
    }

    /// Whether every node has `fan_in` weights.
    pub fn has_fan_in(&self, fan_in: usize) -> (ok: bool)
        ensures
            ok == self.uniform(fan_in as nat),
    {
        let mut j: usize = 0;
        while j < self.nodes.len()
            invariant
                j <= self.nodes@.len(),
                forall|a: int| 0 <= a < j ==> (#[trigger] self.nodes@[a]).weights@.len() == fan_in,
            decreases self.nodes@.len() - j,
        {
            if self.nodes[j].weights.len() != fan_in {
                return false;
            }
            j += 1;
        }
        true
    }

    /// A copy of the outputs, in node order.
    pub fn snapshot(&self) -> (values: Vec<u64>)
        ensures
            values@ == self.outputs(),
    {
        let mut values: Vec<u64> = Vec::new();
        let mut j: usize = 0;
        while j < self.nodes.len()
            invariant
                j <= self.nodes@.len(),
                values@ =~= self.outputs().take(j as int),
            decreases self.nodes@.len() - j,
        {
            values.push(self.nodes[j].output);
            j += 1;
        }
        assert(self.outputs().take(self.nodes@.len() as int) =~= self.outputs());
        values
    }

    /// Stores `input` as the outputs of the nodes, unchanged.
    pub fn load(&mut self, input: &Vec<u64>)
        requires
            input@.len() == old(self).nodes@.len(),
        ensures
            final(self).same_parameters(*old(self)),
            final(self).outputs() == input@,
    {
        let mut j: usize = 0;
        while j < self.nodes.len()
            invariant
                j <= self.nodes@.len(),
                input@.len() == self.nodes@.len(),
                self.same_parameters(*old(self)),
                forall|a: int| 0 <= a < j ==> (#[trigger] self.nodes@[a]).output == input@[a],
            decreases self.nodes@.len() - j,
        {
            self.nodes[j].output = input[j];
            j += 1;
        }
        assert(self.outputs() =~= input@);
    }

    /// Recomputes the output of every node from `inputs`, the outputs of the
    /// preceding layer.
    pub fn process<A: Fn(u64, u64, u64) -> u64, S: Fn(u64) -> u64>(
        &mut self,
        inputs: &Vec<u64>,
        step: &A,
        squash: &S,
    )
        requires
            old(self).uniform(inputs@.len()),
            forall|a: u64, w: u64, x: u64| step.requires((a, w, x)),
            forall|s: u64| squash.requires((s,)),
        ensures
            final(self).same_parameters(*old(self)),
            final(self).computed_from(*step, *squash, inputs@),
    {
        let mut j: usize = 0;
        while j < self.nodes.len()
            invariant
                j <= self.nodes@.len(),
                self.uniform(inputs@.len()),
                self.same_parameters(*old(self)),
                forall|a: u64, w: u64, x: u64| step.requires((a, w, x)),
                forall|s: u64| squash.requires((s,)),
                forall|a: int| 0 <= a < j ==> activates(
                    *step,
                    *squash,
                    (#[trigger] self.nodes@[a]).bias,
                    self.nodes@[a].weights@,
                    inputs@,
                    self.nodes@[a].output,
                ),
            decreases self.nodes@.len() - j,
        {
            let out: u64 = self.nodes[j].activation(inputs, step, squash);
            self.nodes[j].output = out;
            j += 1;
        }
    }

    /// A layer of `layer_size` nodes, each with `previous_layer_size` weights,
    /// every value zero.
    pub fn new(layer_size: usize, previous_layer_size: usize) -> (layer: Layer)
        ensures
            layer.is_blank(layer_size as nat, previous_layer_size as nat),
            layer.uniform(previous_layer_size as nat),
    {
        let mut nodes: Vec<Node> = Vec::new();
        let mut j: usize = 0;
        while j < layer_size
            invariant
                j <= layer_size,
                nodes@.len() == j,
                forall|a: int| 0 <= a < j ==> (#[trigger] nodes@[a]).is_blank(previous_layer_size as nat),
            decreases layer_size - j,
        {
            let mut weights: Vec<u64> = Vec::new();
            let mut k: usize = 0;
            while k < previous_layer_size
                invariant
                    k <= previous_layer_size,
                    weights@ =~= zeros(k as nat),
                decreases previous_layer_size - k,
            {
                weights.push(ZERO_BITS);
                k += 1;
            }
            nodes.push(Node { output: ZERO_BITS, bias: ZERO_BITS, weights });
            j += 1;
        }
        Layer { nodes }
    }
}

impl NeuralNet {
    /// The number of weights that each node of layer `i` must have: none in
    /// the input layer, one per node of the preceding layer elsewhere.
    pub open spec fn incoming(&self, i: int) -> nat {
        if i <= 0 {
            0
        } else {
            self.layers@[i - 1].nodes@.len()
        }
    }

    /// The invariant of a network: at least one layer, and in every layer
    /// each node has one weight per node of the layer before it.
    pub open spec fn wf(&self) -> bool {
        &&& self.layers@.len() >= 1
        &&& forall|i: int| 0 <= i < self.layers@.len() ==> (#[trigger] self.layers@[i]).uniform(self.incoming(i))
    }

    /// The network has the layer sizes `sizes`.
    pub open spec fn has_shape(&self, sizes: Seq<usize>) -> bool {
        &&& self.layers@.len() == sizes.len()
        &&& forall|i: int| 0 <= i < sizes.len() ==> (#[trigger] self.layers@[i]).nodes@.len() == sizes[i]
    }

    /// The network has the layer sizes `sizes` and every value in it is zero.
    pub open spec fn is_blank(&self, sizes: Seq<usize>) -> bool {
        &&& self.layers@.len() == sizes.len()
        &&& forall|i: int| 0 <= i < sizes.len() ==> (#[trigger] self.layers@[i]).is_blank(sizes[i] as nat, fan_in(sizes, i))
    }

    /// Builds the network with one layer per entry of `layer_sizes`, all
    /// values zero. An empty list, or one that holds a zero, is refused.
    pub fn new(layer_sizes: &Vec<usize>) -> (r: Result<NeuralNet, NetError>)
        ensures
            r is Ok <==> valid_topology(layer_sizes@),
            r is Err ==> r == Err::<NeuralNet, NetError>(NetError::InvalidTopology),
            r matches Ok(net) ==> net.wf() && net.has_shape(layer_sizes@) && net.is_blank(layer_sizes@),
    {
        if layer_sizes.len() == 0 {
            return Err(NetError::InvalidTopology);
        }
        let mut c: usize = 0;
        while c < layer_sizes.len()
            invariant
                c <= layer_sizes@.len(),
                forall|a: int| 0 <= a < c ==> layer_sizes@[a] > 0,
            decreases layer_sizes@.len() - c,
        {
            if layer_sizes[c] == 0 {
                return Err(NetError::InvalidTopology);
            }
            c += 1;
        }
        let mut layers: Vec<Layer> = Vec::new();
        let mut input_size: usize = 0;
        let mut i: usize = 0;
        while i < layer_sizes.len()
            invariant
                i <= layer_sizes@.len(),
                layers@.len() == i,
                input_size as nat == fan_in(layer_sizes@, i as int),
                forall|a: int| 0 <= a < i ==> (#[trigger] layers@[a]).is_blank(layer_sizes@[a] as nat, fan_in(layer_sizes@, a)),
                forall|a: int| 0 <= a < i ==> (#[trigger] layers@[a]).uniform(fan_in(layer_sizes@, a)),
            decreases layer_sizes@.len() - i,
        {
            let layer = Layer::new(layer_sizes[i], input_size);
            input_size = layer_sizes[i];
            layers.push(layer);
            i += 1;
        }
        let net = NeuralNet { layers };
        proof {
            assert forall|a: int| 0 <= a < net.layers@.len() implies (#[trigger] net.layers@[a]).uniform(net.incoming(a)) by {
                if a > 0 {
                    assert(net.layers@[a - 1].is_blank(layer_sizes@[a - 1] as nat, fan_in(layer_sizes@, a - 1)));
                }
            }
        }
        Ok(net)
    }

    /// The biases and the weights are those of `other`.
    pub open spec fn same_parameters(&self, other: NeuralNet) -> bool {
        &&& self.layers@.len() == other.layers@.len()
        &&& forall|i: int| 0 <= i < self.layers@.len() ==> (#[trigger] self.layers@[i]).same_parameters(other.layers@[i])
    }

    /// The layers, the nodes and the numbers of weights are those of `other`,
    /// and so is every output.
    pub open spec fn same_frame(&self, other: NeuralNet) -> bool {
        &&& self.layers@.len() == other.layers@.len()
        &&& forall|i: int| 0 <= i < self.layers@.len() ==> (#[trigger] self.layers@[i]).same_frame(other.layers@[i])
    }

    /// Every bias and every weight is a draw within its interval.
    pub open spec fn drawn_from<B: Fn() -> u64, W: Fn() -> u64>(&self, draw_bias: B, draw_weight: W) -> bool {
        forall|i: int| 0 <= i < self.layers@.len() ==> (#[trigger] self.layers@[i]).drawn_from(draw_bias, draw_weight)
    }

    /// Every layer after the first holds the activations of its nodes on the
    /// outputs of the layer before it.
    pub open spec fn propagated<A: Fn(u64, u64, u64) -> u64, S: Fn(u64) -> u64>(&self, step: A, squash: S) -> bool {
        forall|i: int| 1 <= i < self.layers@.len() ==> (#[trigger] self.layers@[i]).computed_from(
            step,
            squash,
            self.layers@[i - 1].outputs(),
        )
    }

    /// The state after a forward pass of `input` through `before`: the same
    /// biases and weights, the input in the first layer, and every further
    /// layer computed from the one before it.
    pub open spec fn is_pass_of<A: Fn(u64, u64, u64) -> u64, S: Fn(u64) -> u64>(
        &self,
        before: NeuralNet,
        input: Seq<u64>,
        step: A,
        squash: S,
    ) -> bool {
        &&& self.wf()
        &&& self.same_parameters(before)
        &&& self.layers@[0].outputs() == input
        &&& self.propagated(step, squash)
    }

    /// Whether the network meets its invariant.
    pub fn is_well_formed(&self) -> (ok: bool)
        ensures
            ok == self.wf(),
    {
        if self.layers.len() == 0 {
            return false;
        }
        let mut expected: usize = 0;
        let mut i: usize = 0;
        while i < self.layers.len()
            invariant
                i <= self.layers@.len(),
                expected as nat == self.incoming(i as int),
                forall|a: int| 0 <= a < i ==> (#[trigger] self.layers@[a]).uniform(self.incoming(a)),
            decreases self.layers@.len() - i,
        {
            if !self.layers[i].has_fan_in(expected) {
                return false;
            }
            expected = self.layers[i].nodes.len();
            i += 1;
        }
        true
    }

    /// A copy of the outputs of the last layer: the result of the latest
    /// forward pass.
    pub fn outputs(&self) -> (values: Vec<u64>)
        requires
            self.wf(),
        ensures
            values@ == self.layers@[self.layers@.len() - 1].outputs(),
    {
        self.layers[self.layers.len() - 1].snapshot()
    }

    /// Replaces every bias by a draw of `draw_bias` and every weight by a
    /// draw of `draw_weight`, layer by layer and node by node, each node's
    /// bias before its weights. A bias must lie in the closed unit interval,
    /// a weight in the half-open one: if a draw does not, the network is
    /// left as it was. Outputs and shape never change.
    pub fn initialize<B: Fn() -> u64, W: Fn() -> u64>(&mut self, draw_bias: B, draw_weight: W) -> (r: Result<(), NetError>)
        requires
            old(self).wf(),
            draw_bias.requires(()),
            draw_weight.requires(()),
        ensures
            final(self).wf(),
            final(self).same_frame(*old(self)),
            draws_in_range(draw_bias, draw_weight) ==> r is Ok,
            r is Err ==> r == Err::<(), NetError>(NetError::ParameterOutOfRange) && *final(self) == *old(self),
            r is Ok ==> final(self).drawn_from(draw_bias, draw_weight),
    {
        let mut layers: Vec<Layer> = Vec::new();
        let mut i: usize = 0;
        while i < self.layers.len()
            invariant
                i <= self.layers@.len(),
                layers@.len() == i,
                *self == *old(self),
                self.wf(),
                draw_bias.requires(()),
                draw_weight.requires(()),
                forall|a: int| 0 <= a < i ==> (#[trigger] layers@[a]).same_frame(self.layers@[a]),
                forall|a: int| 0 <= a < i ==> (#[trigger] layers@[a]).drawn_from(draw_bias, draw_weight),
            decreases self.layers@.len() - i,
        {
            match self.layers[i].redrawn(&draw_bias, &draw_weight) {
                Ok(layer) => {
                    layers.push(layer);
                },
                Err(e) => {
                    return Err(e);
                },
            }
            i += 1;
        }
        let ghost before = *self;
        self.layers = layers;
        proof {
            assert forall|a: int| 0 <= a < self.layers@.len() implies (#[trigger] self.layers@[a]).uniform(
                self.incoming(a),
            ) by {
                assert(self.layers@[a].same_frame(before.layers@[a]));
                assert(before.layers@[a].uniform(before.incoming(a)));
                if a > 0 {
                    assert(self.layers@[a - 1].same_frame(before.layers@[a - 1]));
                }
                assert forall|j: int| 0 <= j < self.layers@[a].nodes@.len() implies (#[trigger] self.layers@[a].nodes@[j]).weights@.len()
                    == self.incoming(a) by {
                    assert(self.layers@[a].nodes@[j].same_frame(before.layers@[a].nodes@[j]));
                }
            }
        }
        Ok(())
    }

    /// One forward pass. `input` becomes the outputs of the first layer,
    /// value for value; then each further layer, in ascending order, gets
    /// for every node the activation on the outputs of the layer before it:
    /// `step` folded over the weights and those outputs from the bias on,
    /// then `squash`. An input of another length than the first layer is
    /// refused before anything is written.
    pub fn forward<A: Fn(u64, u64, u64) -> u64, S: Fn(u64) -> u64>(&mut self, input: &Vec<u64>, step: A, squash: S) -> (r: Result<(), NetError>)
        requires
            old(self).wf(),
            forall|a: u64, w: u64, x: u64| step.requires((a, w, x)),
            forall|s: u64| squash.requires((s,)),
        ensures
            final(self).wf(),
            r is Ok <==> input@.len() == old(self).layers@[0].nodes@.len(),
            r is Err ==> r == Err::<(), NetError>(NetError::InputLengthMismatch) && *final(self) == *old(self),
            r is Ok ==> final(self).is_pass_of(*old(self), input@, step, squash),
    {
        if input.len() != self.layers[0].nodes.len() {
            return Err(NetError::InputLengthMismatch);
        }
        self.layers[0].load(input);
        proof {
            lemma_parameters_keep_wf(*old(self), *self);
        }
        let mut i: usize = 1;
        while i < self.layers.len()
            invariant
                1 <= i <= self.layers@.len(),
                self.wf(),
                self.same_parameters(*old(self)),
                self.layers@[0].outputs() == input@,
                forall|a: u64, w: u64, x: u64| step.requires((a, w, x)),
                forall|s: u64| squash.requires((s,)),
                forall|a: int| 1 <= a < i ==> (#[trigger] self.layers@[a]).computed_from(
                    step,
                    squash,
                    self.layers@[a - 1].outputs(),
                ),
            decreases self.layers@.len() - i,
        {
            let ghost before = *self;
            let inputs = self.layers[i - 1].snapshot();
            assert(self.layers@[i as int].uniform(self.incoming(i as int)));
            self.layers[i].process(&inputs, &step, &squash);
            proof {
                assert forall|a: int| 0 <= a < self.layers@.len() implies (#[trigger] self.layers@[a]).same_parameters(
                    before.layers@[a],
                ) by {}
                lemma_parameters_keep_wf(before, *self);
                lemma_parameters_chain(*self, before, *old(self));
                assert forall|a: int| 1 <= a < i + 1 implies (#[trigger] self.layers@[a]).computed_from(
                    step,
                    squash,
                    self.layers@[a - 1].outputs(),
                ) by {
                    if a < i {
                        assert(self.layers@[a] == before.layers@[a]);
                        assert(self.layers@[a - 1] == before.layers@[a - 1]);
                    }
                }
            }
            i += 1;
        }
        Ok(())
    }
}

/// A network with the biases and weights of a well-formed one is well-formed.
pub proof fn lemma_parameters_keep_wf(before: NeuralNet, after: NeuralNet)
    requires
        before.wf(),
        after.same_parameters(before),
    ensures
        after.wf(),
{
    assert forall|i: int| 0 <= i < after.layers@.len() implies (#[trigger] after.layers@[i]).uniform(after.incoming(i)) by {
        assert(after.layers@[i].same_parameters(before.layers@[i]));
        assert(before.layers@[i].uniform(before.incoming(i)));
        if i > 0 {
            assert(after.layers@[i - 1].same_parameters(before.layers@[i - 1]));
        }
        assert forall|j: int| 0 <= j < after.layers@[i].nodes@.len() implies (#[trigger] after.layers@[i].nodes@[j]).weights@.len()
            == after.incoming(i) by {
            assert(after.layers@[i].nodes@[j].same_parameters(before.layers@[i].nodes@[j]));
        }
    }
}

/// Having the same biases and weights carries over from one network to the
/// next.
pub proof fn lemma_parameters_chain(a: NeuralNet, b: NeuralNet, c: NeuralNet)
    requires
        a.same_parameters(b),
        b.same_parameters(c),
    ensures
        a.same_parameters(c),
{
    assert forall|i: int| 0 <= i < a.layers@.len() implies (#[trigger] a.layers@[i]).same_parameters(c.layers@[i]) by {
        assert(a.layers@[i].same_parameters(b.layers@[i]));
        assert(b.layers@[i].same_parameters(c.layers@[i]));
        assert forall|j: int| 0 <= j < a.layers@[i].nodes@.len() implies (#[trigger] a.layers@[i].nodes@[j]).same_parameters(
            c.layers@[i].nodes@[j],
        ) by {
            assert(a.layers@[i].nodes@[j].same_parameters(b.layers@[i].nodes@[j]));
            assert(b.layers@[i].nodes@[j].same_parameters(c.layers@[i].nodes@[j]));
        }
    }
}

} // verus!
