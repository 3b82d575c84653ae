use coc::interaction_net::{
    prepare_interaction, settle_wire, contract_wire_node, insert_wire_node, interact, is_pair_linked, link_many_pairs, link_pair,
    new_node, retract, unlink_many_pairs, unlink_pair, DataNode, Net, OutputNode, OutputNodeInner,
    Port, PortCell, Signature,
};

/// Nodes whose data is their number of auxiliary ports; two meeting nodes
/// connect their former neighbours pairwise.
struct Annihilate;

impl Signature<usize> for Annihilate {
    fn num_auxiliary_ports(node_data: &usize) -> usize {
        *node_data
    }

    fn link(
        net: &mut Net<usize>,
        _left: DataNode,
        _right: DataNode,
        left_ports: &[Port],
        right_ports: &[Port],
    ) {
        for (l, r) in left_ports.iter().zip(right_ports.iter()) {
            link_pair(net, *l, *r);
        }
    }
}

fn output(net: &mut Net<usize>) -> Port {
    OutputNode::new(net, OutputNodeInner { connection: PortCell::new() }).port()
}

#[test]
fn link_and_unlink_a_pair() {
    let mut net: Net<usize> = Net::new();
    let a = output(&mut net);
    let b = output(&mut net);
    link_pair(&mut net, a, b);
    assert!(is_pair_linked(&net, a, b));
    assert_eq!(a.get_linked(&net), Some(b));
    unlink_pair(&mut net, a, b);
    assert!(!is_pair_linked(&net, a, b));
    assert_eq!(b.get_linked(&net), None);
}

#[test]
fn link_and_unlink_many_pairs() {
    let mut net: Net<usize> = Net::new();
    let ports: Vec<Port> = (0..4).map(|_| output(&mut net)).collect();
    link_many_pairs(&mut net, &[(ports[0], ports[1]), (ports[2], ports[3])]);
    assert!(is_pair_linked(&net, ports[0], ports[1]));
    assert!(is_pair_linked(&net, ports[2], ports[3]));
    unlink_many_pairs(&mut net, &[(ports[0], ports[1]), (ports[2], ports[3])]);
    assert!(ports.iter().all(|p| p.get_linked(&net).is_none()));
}

#[test]
fn wire_insertion_then_contraction_restores_the_link() {
    let mut net: Net<usize> = Net::new();
    let a = output(&mut net);
    let b = output(&mut net);
    link_pair(&mut net, a, b);
    let wire = insert_wire_node(&mut net, &a);
    assert_eq!(a.get_linked(&net), Some(wire.side_a()));
    assert_eq!(b.get_linked(&net), Some(wire.side_b()));
    assert!(!is_pair_linked(&net, a, b));
    contract_wire_node(&mut net, &wire);
    assert!(is_pair_linked(&net, a, b));
    assert_eq!(wire.side_a().get_linked(&net), None);
    assert_eq!(wire.side_b().get_linked(&net), None);
}

#[test]
fn retract_returns_the_neighbour() {
    let mut net: Net<usize> = Net::new();
    let a = output(&mut net);
    let b = output(&mut net);
    link_pair(&mut net, a, b);
    assert_eq!(retract(&mut net, &a), b);
    assert_eq!(a.get_linked(&net), None);
    assert_eq!(b.get_linked(&net), None);
}

#[test]
fn new_node_has_the_signature_arity() {
    let mut net: Net<usize> = Net::new();
    let node = new_node::<usize, Annihilate>(&mut net, 3);
    assert_eq!(node.auxiliary_ports(&net).len(), 3);
    assert_eq!(*net.data(node), 3);
    assert_eq!(node.principal().get_linked(&net), None);
}

#[test]
fn annihilation_connects_the_neighbours() {
    let mut net: Net<usize> = Net::new();
    let a = new_node::<usize, Annihilate>(&mut net, 2);
    let b = new_node::<usize, Annihilate>(&mut net, 2);
    let outs: Vec<Port> = (0..4).map(|_| output(&mut net)).collect();
    link_pair(&mut net, a.principal(), b.principal());
    link_pair(&mut net, a.auxiliary(0), outs[0]);
    link_pair(&mut net, a.auxiliary(1), outs[1]);
    link_pair(&mut net, b.auxiliary(0), outs[2]);
    link_pair(&mut net, b.auxiliary(1), outs[3]);
    assert!(interact::<usize, Annihilate>(&mut net, &a, &b));
    assert!(is_pair_linked(&net, outs[0], outs[2]));
    assert!(is_pair_linked(&net, outs[1], outs[3]));
    assert_eq!(a.principal().get_linked(&net), None);
    assert_eq!(a.auxiliary(0).get_linked(&net), None);
    assert_eq!(b.auxiliary(1).get_linked(&net), None);
}

/// Every port of the net that is connected is connected back.
fn backlinks_hold(net: &Net<usize>) -> bool {
    let mut ports: Vec<Port> = Vec::new();
    for i in 0..net.data_nodes.len() {
        let node = DataNode { index: i };
        ports.push(node.principal());
        ports.extend(node.auxiliary_ports(net));
    }
    for i in 0..net.wire_nodes.len() {
        let wire = coc::interaction_net::WireNode { index: i };
        ports.push(wire.side_a());
        ports.push(wire.side_b());
    }
    for i in 0..net.output_nodes.len() {
        ports.push(OutputNode { index: i }.port());
    }
    ports.iter().all(|p| match p.get_linked(net) {
        Some(q) => q.get_linked(net) == Some(*p),
        None => true,
    })
}

#[test]
fn interaction_keeps_backlinks() {
    let mut net: Net<usize> = Net::new();
    let a = new_node::<usize, Annihilate>(&mut net, 3);
    let b = new_node::<usize, Annihilate>(&mut net, 3);
    let c = new_node::<usize, Annihilate>(&mut net, 1);
    let x = output(&mut net);
    let y = output(&mut net);
    link_pair(&mut net, a.principal(), b.principal());
    link_pair(&mut net, a.auxiliary(0), b.auxiliary(2));
    link_pair(&mut net, a.auxiliary(1), c.principal());
    link_pair(&mut net, a.auxiliary(2), c.auxiliary(0));
    link_pair(&mut net, b.auxiliary(0), x);
    link_pair(&mut net, b.auxiliary(1), y);
    assert!(backlinks_hold(&net));
    assert!(interact::<usize, Annihilate>(&mut net, &a, &b));
    assert!(backlinks_hold(&net));
    assert!(is_pair_linked(&net, c.principal(), y));
    assert!(is_pair_linked(&net, c.auxiliary(0), x));
}

#[test]
fn annihilation_of_nodes_wired_to_each_other() {
    // a's first auxiliary port leads to b's first: after the rule joins them
    // pairwise, two of the wires close into a loop, which is dissolved and
    // reported
    let mut net: Net<usize> = Net::new();
    let a = new_node::<usize, Annihilate>(&mut net, 2);
    let b = new_node::<usize, Annihilate>(&mut net, 2);
    let x = output(&mut net);
    let y = output(&mut net);
    link_pair(&mut net, a.principal(), b.principal());
    link_pair(&mut net, a.auxiliary(0), b.auxiliary(0));
    link_pair(&mut net, a.auxiliary(1), x);
    link_pair(&mut net, b.auxiliary(1), y);
    assert!(!interact::<usize, Annihilate>(&mut net, &a, &b));
    assert!(is_pair_linked(&net, x, y));
    assert!(backlinks_hold(&net));
}

#[test]
fn preparation_hands_free_wire_sides_to_the_rule() {
    let mut net: Net<usize> = Net::new();
    let a = new_node::<usize, Annihilate>(&mut net, 1);
    let b = new_node::<usize, Annihilate>(&mut net, 1);
    let x = output(&mut net);
    let y = output(&mut net);
    link_pair(&mut net, a.principal(), b.principal());
    link_pair(&mut net, a.auxiliary(0), x);
    link_pair(&mut net, b.auxiliary(0), y);
    let (wires, left, right) = prepare_interaction(&mut net, &a, &b);
    assert_eq!(wires.len(), 2);
    assert_eq!(left, vec![wires[0].side_a()]);
    assert_eq!(right, vec![wires[1].side_a()]);
    assert_eq!(a.principal().get_linked(&net), None);
    assert_eq!(a.auxiliary(0).get_linked(&net), None);
    assert_eq!(b.auxiliary(0).get_linked(&net), None);
    assert_eq!(wires[0].side_a().get_linked(&net), None);
    assert!(is_pair_linked(&net, wires[0].side_b(), x));
    assert!(is_pair_linked(&net, wires[1].side_b(), y));
    // a rule that joins the two free sides; settling then joins x and y
    link_pair(&mut net, left[0], right[0]);
    assert!(settle_wire(&mut net, wires[0]));
    assert!(is_pair_linked(&net, wires[1].side_a(), x));
    assert!(settle_wire(&mut net, wires[1]));
    assert!(is_pair_linked(&net, x, y));
}

#[test]
fn settling_a_looped_wire_dissolves_it() {
    let mut net: Net<usize> = Net::new();
    let wire = coc::interaction_net::WireNode::new(
        &mut net,
        coc::interaction_net::WireNodeInner { side_a: PortCell::new(), side_b: PortCell::new() },
    );
    link_pair(&mut net, wire.side_a(), wire.side_b());
    assert!(!settle_wire(&mut net, wire));
    assert_eq!(wire.side_a().get_linked(&net), None);
    assert_eq!(wire.side_b().get_linked(&net), None);
}
