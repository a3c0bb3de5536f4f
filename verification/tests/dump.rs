use neuralnet::{DumpLine, NeuralNet, Role};

#[test]
fn the_lines_come_in_layer_node_and_weight_order() {
    let mut net = NeuralNet::new(&vec![1, 2]).unwrap();
    net.layers[0].nodes[0].output = 9;
    net.layers[1].nodes[0].bias = 1;
    net.layers[1].nodes[0].output = 2;
    net.layers[1].nodes[0].weights = vec![3];
    net.layers[1].nodes[1].bias = 4;
    net.layers[1].nodes[1].output = 5;
    net.layers[1].nodes[1].weights = vec![6];
    assert_eq!(
        net.dump(),
        vec![
            DumpLine::Summary { layers: 2 },
            DumpLine::LayerHead { index: 0, nodes: 1, role: Role::Input },
            DumpLine::NodeHead { bias: 0, output: 9 },
            DumpLine::LayerHead { index: 1, nodes: 2, role: Role::Output },
            DumpLine::NodeHead { bias: 1, output: 2 },
            DumpLine::Weight { index: 0, value: 3 },
            DumpLine::NodeHead { bias: 4, output: 5 },
            DumpLine::Weight { index: 0, value: 6 },
        ]
    );
}

#[test]
fn weights_are_numbered_from_zero() {
    let mut net = NeuralNet::new(&vec![3, 1]).unwrap();
    net.layers[1].nodes[0].weights = vec![7, 8, 9];
    let lines = net.dump();
    assert_eq!(lines.len(), 1 + (1 + 3) + (1 + 1 + 3));
    assert_eq!(lines[6], DumpLine::NodeHead { bias: 0, output: 0 });
    assert_eq!(lines[7], DumpLine::Weight { index: 0, value: 7 });
    assert_eq!(lines[8], DumpLine::Weight { index: 1, value: 8 });
    assert_eq!(lines[9], DumpLine::Weight { index: 2, value: 9 });
}

#[test]
fn roles_follow_the_index() {
    assert_eq!(Role::for_layer(0, 3), Role::Input);
    assert_eq!(Role::for_layer(1, 3), Role::Hidden);
    assert_eq!(Role::for_layer(2, 3), Role::Output);
    assert_eq!(Role::for_layer(0, 1), Role::Input);
    assert_eq!(Role::for_layer(1, 2), Role::Output);
    assert_eq!(Role::for_layer(1, 4), Role::Hidden);
    assert_eq!(Role::for_layer(3, 4), Role::Output);
}

#[test]
fn roles_have_their_words() {
    assert_eq!(Role::Input.label(), "input");
    assert_eq!(Role::Hidden.label(), "hidden");
    assert_eq!(Role::Output.label(), "output");
}

#[test]
fn a_dump_names_the_role_of_every_layer() {
    let net = NeuralNet::new(&vec![2, 4, 3, 2]).unwrap();
    let heads: Vec<DumpLine> =
        net.dump().into_iter().filter(|l| matches!(l, DumpLine::LayerHead { .. })).collect();
    assert_eq!(
        heads,
        vec![
            DumpLine::LayerHead { index: 0, nodes: 2, role: Role::Input },
            DumpLine::LayerHead { index: 1, nodes: 4, role: Role::Hidden },
            DumpLine::LayerHead { index: 2, nodes: 3, role: Role::Hidden },
            DumpLine::LayerHead { index: 3, nodes: 2, role: Role::Output },
        ]
    );
}

#[test]
fn a_dump_changes_nothing() {
    let net = NeuralNet::new(&vec![2, 2]).unwrap();
    let first = net.dump();
    assert_eq!(net.dump(), first);
    assert_eq!(first[0], DumpLine::Summary { layers: 2 });
}
