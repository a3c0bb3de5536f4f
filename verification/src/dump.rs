//! A read-only snapshot of a network as a list of records, one per line of a
//! textual dump, in the order in which the lines are to be written.

use vstd::prelude::*;
use crate::network::{NeuralNet, Node};

verus! {

/// What a layer is for, by its place in the network.
#[derive(Debug, Clone, Copy, PartialEq, Eq)]
pub enum Role {
    Input,
    Hidden,
    Output,
}

/// One line of a dump.
#[derive(Debug, Clone, Copy, PartialEq, Eq)]
pub enum DumpLine {
    /// The number of layers; the first line.
    Summary { layers: usize },
    /// A layer: its index, its number of nodes and its role.
    LayerHead { index: usize, nodes: usize, role: Role },
    /// A node: the bit patterns of its bias and of its output.
    NodeHead { bias: u64, output: u64 },
    /// A weight of the node above: its index and its bit pattern.
    Weight { index: usize, value: u64 },
}

impl Role {
    /// The role of layer `index` among `count` layers: the first is the
    /// input; of the others the last is the output; the rest are hidden.
    pub open spec fn of(index: int, count: int) -> Role {
        if index == 0 {
            Role::Input
        } else if index == count - 1 {
            Role::Output
        } else {
            Role::Hidden
        }
    }

    /// The word by which a dump names the role.
    pub open spec fn word(self) -> Seq<char> {
        match self {
            Role::Input => "input"@,
            Role::Hidden => "hidden"@,
            Role::Output => "output"@,
        }
    }

    /// The role of layer `index` among `count` layers.
    pub fn for_layer(index: usize, count: usize) -> (role: Role)
        ensures
            role == Role::of(index as int, count as int),
    {
        if index == 0 {
            Role::Input
        } else if count > 0 && index == count - 1 {
            Role::Output
        } else {
            Role::Hidden
        }
    }

    /// The word by which a dump names the role.
    pub fn label(&self) -> (text: &'static str)
        ensures
            text@ == self.word(),
    {
        match self {
            Role::Input => "input",
            Role::Hidden => "hidden",
            Role::Output => "output",
        }
    }
}

/// The lines of the first `upto` weights, in index order.
pub open spec fn weight_lines(weights: Seq<u64>, upto: nat) -> Seq<DumpLine> {
    Seq::new(upto, |k: int| DumpLine::Weight { index: k as usize, value: weights[k] })
}

/// The lines of a node: its head, then its weights.
pub open spec fn node_lines(node: Node) -> Seq<DumpLine> {
    seq![DumpLine::NodeHead { bias: node.bias, output: node.output }] + weight_lines(
        node.weights@,
        node.weights@.len(),
    )
}

/// The lines of the first `upto` nodes, in node order.
pub open spec fn nodes_lines(nodes: Seq<Node>, upto: nat) -> Seq<DumpLine>
    decreases upto,
{
    if upto == 0 {
        Seq::empty()
    } else {
        nodes_lines(nodes, (upto - 1) as nat) + node_lines(nodes[upto - 1])
    }
}

/// The lines of layer `i`: its head, then its nodes.
pub open spec fn layer_lines(net: NeuralNet, i: int) -> Seq<DumpLine> {
    seq![
        DumpLine::LayerHead {
            index: i as usize,
            nodes: net.layers@[i].nodes@.len() as usize,
            role: Role::of(i, net.layers@.len() as int),
        },
    ] + nodes_lines(net.layers@[i].nodes@, net.layers@[i].nodes@.len())
}

/// The lines of the first `upto` layers, in layer order.
pub open spec fn layers_lines(net: NeuralNet, upto: nat) -> Seq<DumpLine>
    decreases upto,
{
    if upto == 0 {
        Seq::empty()
    } else {
        layers_lines(net, (upto - 1) as nat) + layer_lines(net, upto - 1)
    }
}

/// The whole dump: the summary, then every layer.
pub open spec fn dump_lines(net: NeuralNet) -> Seq<DumpLine> {
    seq![DumpLine::Summary { layers: net.layers@.len() as usize }] + layers_lines(net, net.layers@.len())
}

/// Appends the lines of `node`.
fn push_node(lines: &mut Vec<DumpLine>, node: &Node)
    ensures
        final(lines)@ == old(lines)@ + node_lines(*node),
{
    lines.push(DumpLine::NodeHead { bias: node.bias, output: node.output });
    let mut k: usize = 0;
    while k < node.weights.len()
        invariant
            k <= node.weights@.len(),
            lines@ =~= old(lines)@ + (seq![DumpLine::NodeHead { bias: node.bias, output: node.output }]
                + weight_lines(node.weights@, k as nat)),
        decreases node.weights@.len() - k,
    {
        lines.push(DumpLine::Weight { index: k, value: node.weights[k] });
        k += 1;
    }
}

/// Appends the lines of layer `i` of `net`.
fn push_layer(lines: &mut Vec<DumpLine>, net: &NeuralNet, i: usize)
    requires
        i < net.layers@.len(),
    ensures
        final(lines)@ == old(lines)@ + layer_lines(*net, i as int),
{
    let layer = &net.layers[i];
    let head = DumpLine::LayerHead {
        index: i,
        nodes: layer.nodes.len(),
        role: Role::for_layer(i, net.layers.len()),
    };
    lines.push(head);
    let mut j: usize = 0;
    while j < layer.nodes.len()
        invariant
            j <= layer.nodes@.len(),
            lines@ =~= old(lines)@ + (seq![head] + nodes_lines(layer.nodes@, j as nat)),
        decreases layer.nodes@.len() - j,
    {
        push_node(lines, &layer.nodes[j]);
        proof {
            assert(((j + 1) as nat - 1) as nat == j as nat);
        }
        j += 1;
    }
}

impl NeuralNet {
    /// The network as the lines of a dump: the number of layers; for each
    /// layer its index, size and role; for each node its bias and output,
    /// followed by its weights, numbered from zero. Nothing is changed.
    pub fn dump(&self) -> (lines: Vec<DumpLine>)
        ensures
            lines@ == dump_lines(*self),
    {
        let mut lines: Vec<DumpLine> = Vec::new();
        lines.push(DumpLine::Summary { layers: self.layers.len() });
        let mut i: usize = 0;
        while i < self.layers.len()
            invariant
                i <= self.layers@.len(),
                lines@ =~= seq![DumpLine::Summary { layers: self.layers@.len() as usize }] + layers_lines(
                    *self,
                    i as nat,
                ),
            decreases self.layers@.len() - i,
        {
            push_layer(&mut lines, self, i);
            proof {
                assert(((i + 1) as nat - 1) as nat == i as nat);
            }
            i += 1;
        }
        lines
    }
}

} // verus!
