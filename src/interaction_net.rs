use vstd::prelude::*;

verus! {

/// Which port of a data node.
#[derive(Clone, Copy, PartialEq, Eq, Structural, Debug)]
pub enum DataPortType {
    Principal,
    Auxiliary(usize),
}

/// Which side of a wire.
#[derive(Clone, Copy, PartialEq, Eq, Structural, Debug)]
pub enum WireSide {
    SideA,
    SideB,
}

/// Handle of a data node of a net.
#[derive(Clone, Copy, PartialEq, Eq, Structural, Debug)]
pub struct DataNode {
    pub index: usize,
}

/// Handle of a wire node of a net.
#[derive(Clone, Copy, PartialEq, Eq, Structural, Debug)]
pub struct WireNode {
    pub index: usize,
}

/// Handle of an output node of a net.
#[derive(Clone, Copy, PartialEq, Eq, Structural, Debug)]
pub struct OutputNode {
    pub index: usize,
}

/// Handle of a node of any kind.
#[derive(Clone, Copy, PartialEq, Eq, Structural, Debug)]
pub enum Node {
    DataNode(DataNode),
    WireNode(WireNode),
    OutputNode(OutputNode),
}

/// One port of one node.
#[derive(Clone, Copy, PartialEq, Eq, Structural, Debug)]
pub enum Port {
    DataPort { node: DataNode, port_type: DataPortType },
    WirePort { node: WireNode, side: WireSide },
    OutputPort { node: OutputNode },
}

/// The port that a port is connected to, if any.
#[derive(Clone, Copy, PartialEq, Eq, Structural, Debug)]
pub struct PortCell(pub Option<Port>);

/// A node carrying user data, with a principal port and auxiliary ports.
pub struct DataNodeInner<T> {
    pub data: T,
    pub principal_port: PortCell,
    pub auxiliary_ports: Vec<PortCell>,
}

/// A wire: two ports joined through no node data.
pub struct WireNodeInner {
    pub side_a: PortCell,
    pub side_b: PortCell,
}

/// A boundary node with one port.
pub struct OutputNodeInner {
    pub connection: PortCell,
}

/// The nodes of an interaction net, each kind in its own arena; handles index
/// into them.
pub struct Net<T> {
    pub data_nodes: Vec<DataNodeInner<T>>,
    pub wire_nodes: Vec<WireNodeInner>,
    pub output_nodes: Vec<OutputNodeInner>,
}

impl<T> Net<T> {
    /// `p` names a port of a node of this net.
    pub open spec fn has_port(self, p: Port) -> bool {
        match p {
            Port::DataPort { node, port_type } => node.index < self.data_nodes@.len() && match port_type {
                DataPortType::Principal => true,
                DataPortType::Auxiliary(i) => i < self.data_nodes@[node.index as int].auxiliary_ports@.len(),
            },
            Port::WirePort { node, .. } => node.index < self.wire_nodes@.len(),
            Port::OutputPort { node } => node.index < self.output_nodes@.len(),
        }
    }

    /// The content of the cell of `p`.
    pub open spec fn cell_of(self, p: Port) -> Option<Port> {
        match p {
            Port::DataPort { node, port_type } => match port_type {
                DataPortType::Principal => self.data_nodes@[node.index as int].principal_port.0,
                DataPortType::Auxiliary(i) => self.data_nodes@[node.index as int].auxiliary_ports@[i as int].0,
            },
            Port::WirePort { node, side } => match side {
                WireSide::SideA => self.wire_nodes@[node.index as int].side_a.0,
                WireSide::SideB => self.wire_nodes@[node.index as int].side_b.0,
            },
            Port::OutputPort { node } => self.output_nodes@[node.index as int].connection.0,
        }
    }

    /// The connections of the net: each connected port to its neighbour.
    pub open spec fn links(self) -> Map<Port, Port> {
        Map::new(
            |p: Port| self.has_port(p) && self.cell_of(p) is Some,
            |p: Port| self.cell_of(p)->0,
        )
    }

    /// Backlink invariant: the neighbour of a connected port is a port of the
    /// net connected back to it.
    pub open spec fn wf(self) -> bool {
        forall|p: Port| #[trigger]
            self.links().contains_key(p) ==> self.links().contains_key(self.links()[p])
                && self.links()[self.links()[p]] == p
    }

    /// `other` has the nodes of `self`, with the same data and arities, and
    /// perhaps more.
    pub open spec fn grows_to(self, other: Net<T>) -> bool {
        &&& other.data_nodes@.len() >= self.data_nodes@.len()
        &&& other.wire_nodes@.len() >= self.wire_nodes@.len()
        &&& other.output_nodes@.len() >= self.output_nodes@.len()
        &&& forall|i: int|
            0 <= i < self.data_nodes@.len() ==> (#[trigger] other.data_nodes@[i]).data
                == self.data_nodes@[i].data && other.data_nodes@[i].auxiliary_ports@.len()
                == self.data_nodes@[i].auxiliary_ports@.len()
    }

    /// `other` has exactly the nodes of `self`.
    pub open spec fn same_nodes(self, other: Net<T>) -> bool {
        &&& self.grows_to(other)
        &&& other.data_nodes@.len() == self.data_nodes@.len()
        &&& other.wire_nodes@.len() == self.wire_nodes@.len()
        &&& other.output_nodes@.len() == self.output_nodes@.len()
    }

    /// An empty net.
    pub fn new() -> (r: Net<T>)
        ensures
            r.wf(),
            r.links() == Map::<Port, Port>::empty(),
            r.data_nodes@.len() == 0,
            r.wire_nodes@.len() == 0,
            r.output_nodes@.len() == 0,
    {
        let r = Net { data_nodes: Vec::new(), wire_nodes: Vec::new(), output_nodes: Vec::new() };
        assert(r.links() =~= Map::<Port, Port>::empty());
        r
    }

    /// The data of `node`.
    pub fn data(&self, node: DataNode) -> (r: &T)
        requires
            node.index < self.data_nodes@.len(),
        ensures
            *r == self.data_nodes@[node.index as int].data,
    {
        &self.data_nodes[node.index].data
    }
}

impl PortCell {
    /// An empty cell.
    pub fn new() -> (r: PortCell)
        ensures
            r.0 is None,
    {
        PortCell(None)
    }
}

/// Backlinks: in a well-formed net, when the cell of a port holds `q`, the
/// cell of `q` holds that port.
pub proof fn lemma_backlink<T>(net: Net<T>, p: Port, q: Port)
    requires
        net.wf(),
        net.has_port(p),
        net.cell_of(p) == Some(q),
    ensures
        net.has_port(q),
        net.cell_of(q) == Some(p),
{
    assert(net.links().contains_key(p));
}

/// A growing net keeps every port it had.
pub proof fn lemma_grows_keeps_ports<T>(a: Net<T>, b: Net<T>, p: Port)
    requires
        a.grows_to(b),
        a.has_port(p),
    ensures
        b.has_port(p),
{
    match p {
        Port::DataPort { node, .. } => {
            assert(b.data_nodes@[node.index as int].auxiliary_ports@.len()
                == a.data_nodes@[node.index as int].auxiliary_ports@.len());
        },
        _ => {},
    }
}

impl DataNode {
    /// Adds a data node to `net`; its cells must be empty.
    pub fn new<T>(net: &mut Net<T>, inner: DataNodeInner<T>) -> (r: DataNode)
        requires
            inner.principal_port.0 is None,
            forall|i: int| 0 <= i < inner.auxiliary_ports@.len() ==> (#[trigger] inner.auxiliary_ports@[i]).0 is None,
        ensures
            r.index == old(net).data_nodes@.len(),
            final(net).data_nodes@ == old(net).data_nodes@.push(inner),
            final(net).wire_nodes@ == old(net).wire_nodes@,
            final(net).output_nodes@ == old(net).output_nodes@,
            final(net).links() == old(net).links(),
            old(net).grows_to(*final(net)),
    {
        let index = net.data_nodes.len();
        net.data_nodes.push(inner);
        assert(final(net).links() =~= old(net).links());
        DataNode { index }
    }

    /// The port of this node of the given type.
    pub fn port(&self, port_type: DataPortType) -> (r: Port)
        ensures
            r == (Port::DataPort { node: *self, port_type }),
    {
        Port::DataPort { node: *self, port_type }
    }

    /// The principal port.
    pub fn principal(&self) -> (r: Port)
        ensures
            r == (Port::DataPort { node: *self, port_type: DataPortType::Principal }),
    {
        self.port(DataPortType::Principal)
    }

    /// The auxiliary port at `index`.
    pub fn auxiliary(&self, index: usize) -> (r: Port)
        ensures
            r == (Port::DataPort { node: *self, port_type: DataPortType::Auxiliary(index) }),
    {
        self.port(DataPortType::Auxiliary(index))
    }

    /// The auxiliary ports, in order.
    pub fn auxiliary_ports<T>(&self, net: &Net<T>) -> (r: Vec<Port>)
        requires
            self.index < net.data_nodes@.len(),
        ensures
            r@.len() == net.data_nodes@[self.index as int].auxiliary_ports@.len(),
            forall|i: int| 0 <= i < r@.len() ==> #[trigger] r@[i] == (Port::DataPort {
                node: *self,
                port_type: DataPortType::Auxiliary(i as usize),
            }),
    {
        let n = net.data_nodes[self.index].auxiliary_ports.len();
        let mut out: Vec<Port> = Vec::new();
        let mut i: usize = 0;
        while i < n
            invariant
                i <= n,
                out@.len() == i,
                forall|j: int| 0 <= j < i ==> #[trigger] out@[j] == (Port::DataPort {
                    node: *self,
                    port_type: DataPortType::Auxiliary(j as usize),
                }),
            decreases n - i,
        {
            out.push(self.auxiliary(i));
            i += 1;
        }
        out
    }
}

impl WireNode {
    /// Adds a wire node to `net`; its cells must be empty.
    pub fn new<T>(net: &mut Net<T>, inner: WireNodeInner) -> (r: WireNode)
        requires
            inner.side_a.0 is None,
            inner.side_b.0 is None,
        ensures
            r.index == old(net).wire_nodes@.len(),
            final(net).data_nodes@ == old(net).data_nodes@,
            final(net).wire_nodes@ == old(net).wire_nodes@.push(inner),
            final(net).output_nodes@ == old(net).output_nodes@,
            final(net).links() == old(net).links(),
            old(net).grows_to(*final(net)),
    {
        let index = net.wire_nodes.len();
        net.wire_nodes.push(inner);
        assert(final(net).links() =~= old(net).links());
        WireNode { index }
    }

    /// The port on the given side.
    pub fn port(&self, side: WireSide) -> (r: Port)
        ensures
            r == (Port::WirePort { node: *self, side }),
    {
        Port::WirePort { node: *self, side }
    }

    /// The port on side A.
    pub fn side_a(&self) -> (r: Port)
        ensures
            r == (Port::WirePort { node: *self, side: WireSide::SideA }),
    {
        self.port(WireSide::SideA)
    }

    /// The port on side B.
    pub fn side_b(&self) -> (r: Port)
        ensures
            r == (Port::WirePort { node: *self, side: WireSide::SideB }),
    {
        self.port(WireSide::SideB)
    }
}

impl OutputNode {
    /// Adds an output node to `net`; its cell must be empty.
    pub fn new<T>(net: &mut Net<T>, inner: OutputNodeInner) -> (r: OutputNode)
        requires
            inner.connection.0 is None,
        ensures
            r.index == old(net).output_nodes@.len(),
            final(net).data_nodes@ == old(net).data_nodes@,
            final(net).wire_nodes@ == old(net).wire_nodes@,
            final(net).output_nodes@ == old(net).output_nodes@.push(inner),
            final(net).links() == old(net).links(),
            old(net).grows_to(*final(net)),
    {
        let index = net.output_nodes.len();
        net.output_nodes.push(inner);
        assert(final(net).links() =~= old(net).links());
        OutputNode { index }
    }

    /// Its port.
    pub fn port(&self) -> (r: Port)
        ensures
            r == (Port::OutputPort { node: *self }),
    {
        Port::OutputPort { node: *self }
    }
}

impl Port {
    /// The node this port belongs to.
    pub fn node(&self) -> (r: Node)
        ensures
            r == match *self {
                Port::DataPort { node, .. } => Node::DataNode(node),
                Port::WirePort { node, .. } => Node::WireNode(node),
                Port::OutputPort { node } => Node::OutputNode(node),
            },
    {
        match self {
            Port::DataPort { node, .. } => Node::DataNode(*node),
            Port::WirePort { node, .. } => Node::WireNode(*node),
            Port::OutputPort { node } => Node::OutputNode(*node),
        }
    }

    /// The cell of this port.
    pub fn cell<'a, T>(&self, net: &'a Net<T>) -> (r: &'a PortCell)
        requires
            net.has_port(*self),
        ensures
            r.0 == net.cell_of(*self),
    {
        match *self {
            Port::DataPort { node, port_type } => match port_type {
                DataPortType::Principal => &net.data_nodes[node.index].principal_port,
                DataPortType::Auxiliary(n) => &net.data_nodes[node.index].auxiliary_ports[n],
            },
            Port::WirePort { node, side } => match side {
                WireSide::SideA => &net.wire_nodes[node.index].side_a,
                WireSide::SideB => &net.wire_nodes[node.index].side_b,
            },
            Port::OutputPort { node } => &net.output_nodes[node.index].connection,
        }
    }

    /// The neighbour of this port, if any.
    pub fn get_linked<T>(&self, net: &Net<T>) -> (r: Option<Port>)
        requires
            net.has_port(*self),
        ensures
            r == net.cell_of(*self),
            r matches Some(q) ==> net.links().contains_key(*self) && net.links()[*self] == q,
            r is None ==> !net.links().contains_key(*self),
    {
        self.cell(net).0
    }

    /// Overwrites the cell of this port, touching no other cell.
    pub fn set_linked<T>(&self, net: &mut Net<T>, value: Option<Port>)
        requires
            old(net).has_port(*self),
        ensures
            old(net).same_nodes(*final(net)),
            forall|p: Port| #[trigger] final(net).has_port(p) == old(net).has_port(p),
            final(net).links() == match value {
                Some(q) => old(net).links().insert(*self, q),
                None => old(net).links().remove(*self),
            },
    {
        let ghost before = *net;
        match *self {
            Port::DataPort { node, port_type } => match port_type {
                DataPortType::Principal => {
                    net.data_nodes[node.index].principal_port = PortCell(value);
                },
                DataPortType::Auxiliary(n) => {
                    net.data_nodes[node.index].auxiliary_ports[n] = PortCell(value);
                },
            },
            Port::WirePort { node, side } => match side {
                WireSide::SideA => {
                    net.wire_nodes[node.index].side_a = PortCell(value);
                },
                WireSide::SideB => {
                    net.wire_nodes[node.index].side_b = PortCell(value);
                },
            },
            Port::OutputPort { node } => {
                net.output_nodes[node.index].connection = PortCell(value);
            },
        }
        proof {
            assert forall|p: Port| #[trigger] net.has_port(p) == before.has_port(p) by {}
            assert forall|p: Port| p != *self && before.has_port(p) implies #[trigger] net.cell_of(p) == before.cell_of(p) by {}
            match value {
                Some(q) => assert(net.links() =~= before.links().insert(*self, q)),
                None => assert(net.links() =~= before.links().remove(*self)),
            }
        }
    }

    /// Empties the cell of this port and returns what it held, without
    /// touching the neighbour's cell.
    pub fn take_linked<T>(&self, net: &mut Net<T>) -> (r: Option<Port>)
        requires
            old(net).has_port(*self),
        ensures
            r == old(net).cell_of(*self),
            r matches Some(q) ==> old(net).links().contains_key(*self) && old(net).links()[*self]
                == q,
            r is None ==> !old(net).links().contains_key(*self),
            old(net).same_nodes(*final(net)),
            forall|p: Port| #[trigger] final(net).has_port(p) == old(net).has_port(p),
            final(net).links() == old(net).links().remove(*self),
    {
        let out = self.cell(net).0;
        self.set_linked(net, None);
        out
    }
}


/// Connects two free ports to each other.
pub fn link_pair<T>(net: &mut Net<T>, left: Port, right: Port)
    requires
        old(net).wf(),
        old(net).has_port(left),
        old(net).has_port(right),
        !old(net).links().contains_key(left),
        !old(net).links().contains_key(right),
    ensures
        final(net).wf(),
        old(net).same_nodes(*final(net)),
        forall|p: Port| #[trigger] final(net).has_port(p) == old(net).has_port(p),
        final(net).links() == old(net).links().insert(left, right).insert(right, left),
{
    left.set_linked(net, Some(right));
    right.set_linked(net, Some(left));
}

/// `links` with each pair of `pairs` connected, in order.
pub open spec fn with_pairs(links: Map<Port, Port>, pairs: Seq<(Port, Port)>) -> Map<Port, Port>
    decreases pairs.len(),
{
    if pairs.len() == 0 {
        links
    } else {
        let (l, r) = pairs.last();
        with_pairs(links, pairs.drop_last()).insert(l, r).insert(r, l)
    }
}

/// `links` with both ports of each pair of `pairs` disconnected.
pub open spec fn without_pairs(links: Map<Port, Port>, pairs: Seq<(Port, Port)>) -> Map<Port, Port>
    decreases pairs.len(),
{
    if pairs.len() == 0 {
        links
    } else {
        let (l, r) = pairs.last();
        without_pairs(links, pairs.drop_last()).remove(l).remove(r)
    }
}

/// No port occurs in two different pairs.
pub open spec fn pairs_disjoint(pairs: Seq<(Port, Port)>) -> bool {
    forall|i: int, j: int|
        0 <= i < pairs.len() && 0 <= j < pairs.len() && i != j ==> {
            &&& (#[trigger] pairs[i]).0 != (#[trigger] pairs[j]).0
            &&& pairs[i].0 != pairs[j].1
            &&& pairs[i].1 != pairs[j].0
            &&& pairs[i].1 != pairs[j].1
        }
}

/// Connects each pair of free ports.
pub fn link_many_pairs<T>(net: &mut Net<T>, pairs: &[(Port, Port)])
    requires
        old(net).wf(),
        pairs_disjoint(pairs@),
        forall|i: int|
            0 <= i < pairs@.len() ==> old(net).has_port((#[trigger] pairs@[i]).0) && old(
                net,
            ).has_port(pairs@[i].1) && !old(net).links().contains_key(pairs@[i].0) && !old(
                net,
            ).links().contains_key(pairs@[i].1),
    ensures
        final(net).wf(),
        old(net).same_nodes(*final(net)),
        final(net).links() == with_pairs(old(net).links(), pairs@),
{
    let mut i: usize = 0;
    assert(pairs@.subrange(0, 0) =~= Seq::<(Port, Port)>::empty());
    while i < pairs.len()
        invariant
            i <= pairs@.len(),
            net.wf(),
            old(net).same_nodes(*net),
            pairs_disjoint(pairs@),
            net.links() == with_pairs(old(net).links(), pairs@.subrange(0, i as int)),
            forall|j: int|
                i <= j < pairs@.len() ==> old(net).has_port((#[trigger] pairs@[j]).0) && old(
                    net,
                ).has_port(pairs@[j].1) && !net.links().contains_key(pairs@[j].0)
                    && !net.links().contains_key(pairs@[j].1),
        decreases pairs@.len() - i,
    {
        let (left, right) = pairs[i];
        link_pair(net, left, right);
        proof {
            assert(pairs@.subrange(0, i + 1).drop_last() =~= pairs@.subrange(0, i as int));
            assert forall|j: int| i + 1 <= j < pairs@.len() implies old(net).has_port(
                (#[trigger] pairs@[j]).0,
            ) && old(net).has_port(pairs@[j].1) && !net.links().contains_key(pairs@[j].0)
                && !net.links().contains_key(pairs@[j].1) by {
                assert(pairs@[j] != pairs@[i as int] || j == i);
            }
        }
        i += 1;
    }
    assert(pairs@.subrange(0, pairs@.len() as int) =~= pairs@);
}

/// Disconnects two ports connected to each other.
pub fn unlink_pair<T>(net: &mut Net<T>, left: Port, right: Port)
    requires
        old(net).wf(),
        old(net).links().contains_key(left),
        old(net).links()[left] == right,
    ensures
        final(net).wf(),
        old(net).same_nodes(*final(net)),
        forall|p: Port| #[trigger] final(net).has_port(p) == old(net).has_port(p),
        final(net).links() == old(net).links().remove(left).remove(right),
{
    left.set_linked(net, None);
    right.set_linked(net, None);
}

/// Disconnects each pair of ports connected to each other.
pub fn unlink_many_pairs<T>(net: &mut Net<T>, pairs: &[(Port, Port)])
    requires
        old(net).wf(),
        pairs_disjoint(pairs@),
        forall|i: int|
            0 <= i < pairs@.len() ==> old(net).links().contains_key((#[trigger] pairs@[i]).0)
                && old(net).links()[pairs@[i].0] == pairs@[i].1,
    ensures
        final(net).wf(),
        old(net).same_nodes(*final(net)),
        final(net).links() == without_pairs(old(net).links(), pairs@),
{
    let mut i: usize = 0;
    assert(pairs@.subrange(0, 0) =~= Seq::<(Port, Port)>::empty());
    while i < pairs.len()
        invariant
            i <= pairs@.len(),
            net.wf(),
            old(net).same_nodes(*net),
            pairs_disjoint(pairs@),
            net.links() == without_pairs(old(net).links(), pairs@.subrange(0, i as int)),
            forall|j: int|
                i <= j < pairs@.len() ==> net.links().contains_key((#[trigger] pairs@[j]).0)
                    && net.links()[pairs@[j].0] == pairs@[j].1,
        decreases pairs@.len() - i,
    {
        let (left, right) = pairs[i];
        unlink_pair(net, left, right);
        proof {
            assert(pairs@.subrange(0, i + 1).drop_last() =~= pairs@.subrange(0, i as int));
            assert forall|j: int| i + 1 <= j < pairs@.len() implies net.links().contains_key(
                (#[trigger] pairs@[j]).0,
            ) && net.links()[pairs@[j].0] == pairs@[j].1 by {
                assert(pairs@[j] != pairs@[i as int] || j == i);
            }
        }
        i += 1;
    }
    assert(pairs@.subrange(0, pairs@.len() as int) =~= pairs@);
}

/// Whether `left` and `right` are connected to each other.
pub fn is_pair_linked<T>(net: &Net<T>, left: Port, right: Port) -> (r: bool)
    requires
        net.has_port(left),
        net.has_port(right),
    ensures
        r == (net.links().contains_key(left) && net.links()[left] == right
            && net.links().contains_key(right) && net.links()[right] == left),
{
    let left_linked = match left.get_linked(net) {
        Some(p) => p,
        None => {
            return false;
        },
    };
    let right_linked = match right.get_linked(net) {
        Some(p) => p,
        None => {
            return false;
        },
    };
    left_linked == right && right_linked == left
}

/// The connections after a wire `wire` was spliced in at `port`.
pub open spec fn inserted_wire<T>(before: Net<T>, after: Net<T>, port: Port, wire: WireNode) -> bool {
    let a = Port::WirePort { node: wire, side: WireSide::SideA };
    let b = Port::WirePort { node: wire, side: WireSide::SideB };
    let q = before.links()[port];
    &&& wire.index == before.wire_nodes@.len()
    &&& before.grows_to(after)
    &&& after.wire_nodes@.len() == before.wire_nodes@.len() + 1
    &&& after.data_nodes@.len() == before.data_nodes@.len()
    &&& after.output_nodes@.len() == before.output_nodes@.len()
    &&& after.links() == before.links().insert(port, a).insert(a, port).insert(q, b).insert(b, q)
}

/// The connections after the wire `wire` was contracted.
pub open spec fn contracted_wire<T>(before: Net<T>, after: Net<T>, wire: WireNode) -> bool {
    let a = Port::WirePort { node: wire, side: WireSide::SideA };
    let b = Port::WirePort { node: wire, side: WireSide::SideB };
    let x = before.links()[a];
    let y = before.links()[b];
    &&& before.same_nodes(after)
    &&& after.links() == before.links().remove(a).remove(b).insert(x, y).insert(y, x)
}

/// The wire `wire` can be contracted: both sides are connected, to ports
/// other than its own.
pub open spec fn contractible<T>(net: Net<T>, wire: WireNode) -> bool {
    let a = Port::WirePort { node: wire, side: WireSide::SideA };
    let b = Port::WirePort { node: wire, side: WireSide::SideB };
    &&& net.links().contains_key(a)
    &&& net.links().contains_key(b)
    &&& net.links()[a] != a
    &&& net.links()[a] != b
    &&& net.links()[b] != a
    &&& net.links()[b] != b
}

/// Removes a wire, connecting its two neighbours to each other.
pub fn contract_wire_node<T>(net: &mut Net<T>, wire_node: &WireNode)
    requires
        old(net).wf(),
        contractible(*old(net), *wire_node),
    ensures
        final(net).wf(),
        contracted_wire(*old(net), *final(net), *wire_node),
{
    let ghost before = *net;
    let side_a = wire_node.side_a();
    let side_b = wire_node.side_b();
    let left = match side_a.take_linked(net) {
        Some(p) => p,
        None => vstd::pervasive::unreached(),
    };
    let right = match side_b.take_linked(net) {
        Some(p) => p,
        None => vstd::pervasive::unreached(),
    };
    let left_wire_backlink = left.take_linked(net);
    let right_wire_backlink = right.take_linked(net);
    assert(left_wire_backlink == Some(side_a));
    assert(right_wire_backlink == Some(side_b));
    link_pair(net, left, right);
    assert(net.links() =~= before.links().remove(side_a).remove(side_b).insert(
        left,
        right,
    ).insert(right, left));
}

/// Splices a fresh wire between `port` and its neighbour.
pub fn insert_wire_node<T>(net: &mut Net<T>, port: &Port) -> (r: WireNode)
    requires
        old(net).wf(),
        old(net).links().contains_key(*port),
        old(net).links()[*port] != *port,
    ensures
        final(net).wf(),
        inserted_wire(*old(net), *final(net), *port, r),
{
    let ghost before = *net;
    let linked = match port.take_linked(net) {
        Some(p) => p,
        None => vstd::pervasive::unreached(),
    };
    let backlink = linked.take_linked(net);
    assert(backlink == Some(*port));
    let wire = WireNode::new(net, WireNodeInner { side_a: PortCell::new(), side_b: PortCell::new() });
    proof {
        lemma_grows_keeps_ports(before, *net, *port);
        lemma_grows_keeps_ports(before, *net, linked);
    }
    let side_a = wire.side_a();
    let side_b = wire.side_b();
    link_pair(net, *port, side_a);
    link_pair(net, linked, side_b);
    assert(net.links() =~= before.links().insert(*port, side_a).insert(side_a, *port).insert(
        linked,
        side_b,
    ).insert(side_b, linked));
    wire
}

/// Disconnects `port` from its neighbour and returns the neighbour.
pub fn retract<T>(net: &mut Net<T>, port: &Port) -> (r: Port)
    requires
        old(net).wf(),
        old(net).links().contains_key(*port),
    ensures
        r == old(net).links()[*port],
        final(net).wf(),
        old(net).same_nodes(*final(net)),
        final(net).links() == old(net).links().remove(*port).remove(r),
{
    let out = match port.get_linked(net) {
        Some(p) => p,
        None => vstd::pervasive::unreached(),
    };
    unlink_pair(net, *port, out);
    out
}

/// Inserting a wire at a connected port and contracting it again leaves
/// every connection of the net as it was.
pub proof fn lemma_wire_neutral<T>(
    n0: Net<T>,
    n1: Net<T>,
    n2: Net<T>,
    port: Port,
    wire: WireNode,
)
    requires
        n0.wf(),
        n0.links().contains_key(port),
        n0.links()[port] != port,
        inserted_wire(n0, n1, port, wire),
        contracted_wire(n1, n2, wire),
    ensures
        contractible(n1, wire),
        n2.links() == n0.links(),
{
    let a = Port::WirePort { node: wire, side: WireSide::SideA };
    let b = Port::WirePort { node: wire, side: WireSide::SideB };
    assert(!n0.links().contains_key(a));
    assert(!n0.links().contains_key(b));
    let q = n0.links()[port];
    assert(n0.links()[q] == port);
    assert(n2.links() =~= n0.links());
}


/// The port of `wire` on `side`.
pub open spec fn wire_port(wire: WireNode, side: WireSide) -> Port {
    Port::WirePort { node: wire, side }
}

/// `p` is a port of the data node `node`.
pub open spec fn port_of(node: DataNode, p: Port) -> bool {
    p matches Port::DataPort { node: n, .. } && n == node
}

/// `p` is an auxiliary port of `node` in `net`.
pub open spec fn is_auxiliary_of<T>(net: Net<T>, node: DataNode, p: Port) -> bool {
    p matches Port::DataPort { node: n, port_type: DataPortType::Auxiliary(i) } && n == node && i
        < net.data_nodes@[node.index as int].auxiliary_ports@.len()
}

/// The number of auxiliary ports of `node`.
pub open spec fn arity<T>(net: Net<T>, node: DataNode) -> nat {
    net.data_nodes@[node.index as int].auxiliary_ports@.len()
}

/// The `j`-th auxiliary port of the pair `a`, `b`: those of `a` first, then
/// those of `b`; `na` is the number of auxiliary ports of `a`.
pub open spec fn pair_auxiliary(a: DataNode, b: DataNode, na: nat, j: nat) -> Port {
    if j < na {
        Port::DataPort { node: a, port_type: DataPortType::Auxiliary(j as usize) }
    } else {
        Port::DataPort { node: b, port_type: DataPortType::Auxiliary((j - na) as usize) }
    }
}

/// The position of `p` among the auxiliary ports of the pair `a`, `b`, or -1.
pub open spec fn pair_index(a: DataNode, b: DataNode, na: nat, p: Port) -> int {
    match p {
        Port::DataPort { node, port_type: DataPortType::Auxiliary(i) } => if node == a && i < na {
            i as int
        } else if node == b && node != a {
            na + i
        } else {
            -1
        },
        _ => -1,
    }
}

/// Where a connection to `q` leads once wires stand in front of the first
/// `count` auxiliary ports of the pair: to the far side of the wire in front
/// of `q`, if there is one, else to `q` itself.
pub open spec fn relinked(
    a: DataNode,
    b: DataNode,
    na: nat,
    wires: Seq<WireNode>,
    count: int,
    q: Port,
) -> Port {
    let k = pair_index(a, b, na, q);
    if 0 <= k < count {
        wire_port(wires[k], WireSide::SideB)
    } else {
        q
    }
}

/// The state that `prepare_interaction` leaves from `before`: both nodes
/// disconnected; a fresh wire `wires[j]` for the `j`-th auxiliary port, its
/// side A free and listed in `left` (ports of `a`) or `right` (ports of
/// `b`), its side B connected to where that port led; every connection that
/// led to an auxiliary port of the pair now leading to the side B of the wire
/// in front of it; every other connection kept.
pub open spec fn prepared<T>(
    before: Net<T>,
    after: Net<T>,
    a: DataNode,
    b: DataNode,
    wires: Seq<WireNode>,
    left: Seq<Port>,
    right: Seq<Port>,
) -> bool {
    let na = arity(before, a);
    let n = na + arity(before, b);
    let w0 = before.wire_nodes@.len();
    &&& wires.len() == n
    &&& forall|j: int| 0 <= j < n ==> (#[trigger] wires[j]).index == w0 + j
    &&& left.len() == na
    &&& forall|i: int| 0 <= i < na ==> #[trigger] left[i] == wire_port(wires[i], WireSide::SideA)
    &&& right.len() == arity(before, b)
    &&& forall|i: int|
        0 <= i < right.len() ==> #[trigger] right[i] == wire_port(wires[na + i], WireSide::SideA)
    &&& before.grows_to(after)
    &&& after.wire_nodes@.len() == w0 + n
    &&& after.data_nodes@.len() == before.data_nodes@.len()
    &&& after.output_nodes@.len() == before.output_nodes@.len()
    &&& after.wf()
    &&& forall|p: Port|
        port_of(a, p) || port_of(b, p) ==> !(#[trigger] after.links().contains_key(p))
    &&& forall|j: int|
        0 <= j < n ==> !after.links().contains_key(
            wire_port(#[trigger] wires[j], WireSide::SideA),
        )
    &&& forall|j: int|
        0 <= j < n ==> after.links().contains_key(wire_port(#[trigger] wires[j], WireSide::SideB))
            && after.links()[wire_port(wires[j], WireSide::SideB)] == relinked(
            a,
            b,
            na,
            wires,
            n as int,
            before.links()[pair_auxiliary(a, b, na, j as nat)],
        )
    &&& forall|p: Port|
        #[trigger] before.links().contains_key(p) && !port_of(a, p) && !port_of(b, p)
            ==> after.links().contains_key(p) && after.links()[p] == relinked(
            a,
            b,
            na,
            wires,
            n as int,
            before.links()[p],
        )
    &&& forall|p: Port|
        !before.links().contains_key(p) && !(p matches Port::WirePort { node, .. } && node.index
            >= w0) ==> !(#[trigger] after.links().contains_key(p))
}

/// `p` is a connected port that neither belongs to `a` or `b` nor leads to
/// one of their ports: an interaction of `a` and `b` keeps its connection.
pub open spec fn kept<T>(net: Net<T>, a: DataNode, b: DataNode, p: Port) -> bool {
    &&& net.links().contains_key(p)
    &&& !port_of(a, p)
    &&& !port_of(b, p)
    &&& !port_of(a, net.links()[p])
    &&& !port_of(b, net.links()[p])
}

/// What a rule may do to the net: keep it well formed and every node and
/// connection it had, connect each listed port, and connect no other port of
/// the net as it was.
pub open spec fn rule_post<T>(
    before: Net<T>,
    after: Net<T>,
    left: Seq<Port>,
    right: Seq<Port>,
) -> bool {
    &&& after.wf()
    &&& before.grows_to(after)
    &&& forall|p: Port| #[trigger]
        before.links().contains_key(p) ==> after.links().contains_key(p) && after.links()[p]
            == before.links()[p]
    &&& forall|i: int| 0 <= i < left.len() ==> after.links().contains_key(#[trigger] left[i])
    &&& forall|i: int| 0 <= i < right.len() ==> after.links().contains_key(#[trigger] right[i])
    &&& forall|p: Port|
        before.has_port(p) && !before.links().contains_key(p) && !left.contains(p)
            && !right.contains(p) ==> !(#[trigger] after.links().contains_key(p))
}

/// The rules of an interaction system: the shape of a node, and what takes
/// the place of two nodes that meet at their principal ports.
pub trait Signature<T> {
    /// The number of auxiliary ports of a node carrying `node_data`.
    fn num_auxiliary_ports(node_data: &T) -> usize;

    /// Rewires the net after `left` and `right` met. `left_ports` and
    /// `right_ports` stand for their former auxiliary neighbours, in order,
    /// and are free; the rule connects each of them, keeps every connection
    /// that it found, and connects no other port that the net had.
    fn link(
        net: &mut Net<T>,
        left: DataNode,
        right: DataNode,
        left_ports: &[Port],
        right_ports: &[Port],
    )
        requires
            old(net).wf(),
            forall|i: int|
                0 <= i < left_ports@.len() ==> old(net).has_port(#[trigger] left_ports@[i])
                    && !old(net).links().contains_key(left_ports@[i]),
            forall|i: int|
                0 <= i < right_ports@.len() ==> old(net).has_port(#[trigger] right_ports@[i])
                    && !old(net).links().contains_key(right_ports@[i]),
        ensures
            rule_post(*old(net), *final(net), left_ports@, right_ports@),
    ;
}

/// Adds a node carrying `data`, with as many free auxiliary ports as the
/// signature gives it.
pub fn new_node<T, S: Signature<T>>(net: &mut Net<T>, data: T) -> (r: DataNode)
    requires
        old(net).wf(),
    ensures
        final(net).wf(),
        r.index == old(net).data_nodes@.len(),
        final(net).data_nodes@.len() == old(net).data_nodes@.len() + 1,
        final(net).data_nodes@[r.index as int].data == data,
        exists|n: usize|
            call_ensures(S::num_auxiliary_ports, (&data,), n) && arity(*final(net), r) == n,
        final(net).wire_nodes@.len() == old(net).wire_nodes@.len(),
        final(net).output_nodes@.len() == old(net).output_nodes@.len(),
        old(net).grows_to(*final(net)),
        final(net).links() == old(net).links(),
{
    let num_aux_ports = S::num_auxiliary_ports(&data);
    let mut auxiliary_ports: Vec<PortCell> = Vec::new();
    let mut i: usize = 0;
    while i < num_aux_ports
        invariant
            i <= num_aux_ports,
            auxiliary_ports@.len() == i,
            forall|j: int| 0 <= j < i ==> (#[trigger] auxiliary_ports@[j]).0 is None,
        decreases num_aux_ports - i,
    {
        auxiliary_ports.push(PortCell::new());
        i += 1;
    }
    let r = DataNode::new(
        net,
        DataNodeInner { data, principal_port: PortCell::new(), auxiliary_ports },
    );
    assert(arity(*net, r) == num_aux_ports);
    r
}

/// The connections after the wire `wire` was taken out without being
/// contracted: each of its sides disconnected from whatever it touched.
pub open spec fn dissolved(links: Map<Port, Port>, wire: WireNode) -> Map<Port, Port> {
    let a = wire_port(wire, WireSide::SideA);
    let b = wire_port(wire, WireSide::SideB);
    let first = if links.contains_key(a) {
        links.remove(a).remove(links[a])
    } else {
        links
    };
    if first.contains_key(b) {
        first.remove(b).remove(first[b])
    } else {
        first
    }
}

/// One wire taken out of the net: contracted where it is contractible, else
/// dissolved.
pub open spec fn settled<T>(before: Net<T>, after: Net<T>, wire: WireNode) -> bool {
    &&& before.same_nodes(after)
    &&& after.wf()
    &&& if contractible(before, wire) {
        contracted_wire(before, after, wire)
    } else {
        after.links() == dissolved(before.links(), wire)
    }
}

/// Takes the wire `wire` out of the net's connections: contracts it where
/// both sides lead elsewhere and returns `true`; else disconnects whatever
/// its sides touch and returns `false`.
pub fn settle_wire<T>(net: &mut Net<T>, wire: WireNode) -> (r: bool)
    requires
        old(net).wf(),
        wire.index < old(net).wire_nodes@.len(),
    ensures
        r == contractible(*old(net), wire),
        settled(*old(net), *final(net), wire),
        !final(net).links().contains_key(wire_port(wire, WireSide::SideA)),
        !final(net).links().contains_key(wire_port(wire, WireSide::SideB)),
        forall|p: Port| #[trigger]
            final(net).links().contains_key(p) ==> old(net).links().contains_key(p),
{
    let ghost before = *net;
    let side_a = wire.side_a();
    let side_b = wire.side_b();
    let x = side_a.get_linked(net);
    let y = side_b.get_linked(net);
    if let (Some(x), Some(y)) = (x, y) {
        if x != side_a && x != side_b && y != side_a && y != side_b {
            contract_wire_node(net, &wire);
            return true;
        }
    }
    match side_a.get_linked(net) {
        Some(x) => unlink_pair(net, side_a, x),
        None => {},
    }
    let ghost middle = *net;
    assert(middle.links() =~= if before.links().contains_key(side_a) {
        before.links().remove(side_a).remove(before.links()[side_a])
    } else {
        before.links()
    });
    match side_b.get_linked(net) {
        Some(y) => unlink_pair(net, side_b, y),
        None => {},
    }
    assert(net.links() =~= dissolved(before.links(), wire));
    false
}

/// The auxiliary ports of `a`, then those of `b`.
pub fn collect_auxiliary<T>(net: &Net<T>, a: &DataNode, b: &DataNode) -> (r: Vec<Port>)
    requires
        a.index < net.data_nodes@.len(),
        b.index < net.data_nodes@.len(),
    ensures
        r@.len() == arity(*net, *a) + arity(*net, *b),
        forall|j: int|
            0 <= j < r@.len() ==> #[trigger] r@[j] == pair_auxiliary(
                *a,
                *b,
                arity(*net, *a),
                j as nat,
            ),
{
    let ports_a = a.auxiliary_ports(net);
    let ports_b = b.auxiliary_ports(net);
    let mut ports: Vec<Port> = Vec::new();
    let mut i: usize = 0;
    while i < ports_a.len()
        invariant
            i <= ports_a@.len(),
            ports@ == ports_a@.subrange(0, i as int),
        decreases ports_a@.len() - i,
    {
        ports.push(ports_a[i]);
        i += 1;
    }
    let mut i: usize = 0;
    while i < ports_b.len()
        invariant
            i <= ports_b@.len(),
            ports@ == ports_a@ + ports_b@.subrange(0, i as int),
        decreases ports_b@.len() - i,
    {
        ports.push(ports_b[i]);
        i += 1;
    }
    proof {
        let na = arity(*net, *a);
        assert(ports_b@.subrange(0, ports_b@.len() as int) =~= ports_b@);
        assert forall|j: int| 0 <= j < ports@.len() implies #[trigger] ports@[j]
            == pair_auxiliary(*a, *b, na, j as nat) by {
            if j >= na {
                assert(ports@[j] == ports_b@[j - na]);
            }
        }
    }
    ports
}

/// The connections while wires are spliced in front of the auxiliary ports
/// `ports` of the pair `a`, `b`, the first `count` of them done, the wires
/// being `wires`, from the connections of `start`.
pub open spec fn splicing<T>(
    start: Net<T>,
    net: Net<T>,
    a: DataNode,
    b: DataNode,
    na: nat,
    ports: Seq<Port>,
    wires: Seq<WireNode>,
    count: int,
) -> bool {
    let n = ports.len();
    let w0 = start.wire_nodes@.len();
    &&& 0 <= count <= n
    &&& wires.len() == count
    &&& net.wf()
    &&& start.grows_to(net)
    &&& net.data_nodes@.len() == start.data_nodes@.len()
    &&& net.output_nodes@.len() == start.output_nodes@.len()
    &&& net.wire_nodes@.len() == w0 + count
    &&& forall|j: int| 0 <= j < count ==> (#[trigger] wires[j]).index == w0 + j
    &&& forall|j: int|
        0 <= j < count ==> net.links().contains_key(#[trigger] ports[j]) && net.links()[ports[j]]
            == wire_port(wires[j], WireSide::SideA)
    &&& forall|j: int|
        0 <= j < count ==> net.links().contains_key(wire_port(#[trigger] wires[j], WireSide::SideB))
            && net.links()[wire_port(wires[j], WireSide::SideB)] == relinked(
            a,
            b,
            na,
            wires,
            count,
            start.links()[ports[j]],
        )
    &&& forall|j: int|
        count <= j < n ==> net.links().contains_key(#[trigger] ports[j]) && net.links()[ports[j]]
            == relinked(a, b, na, wires, count, start.links()[ports[j]])
    &&& forall|p: Port| #[trigger]
        start.links().contains_key(p) && !port_of(a, p) && !port_of(b, p)
            ==> net.links().contains_key(p) && net.links()[p] == relinked(
            a,
            b,
            na,
            wires,
            count,
            start.links()[p],
        )
    &&& forall|p: Port|
        !start.links().contains_key(p) && !(p matches Port::WirePort { node, .. } && node.index
            >= w0) ==> !(#[trigger] net.links().contains_key(p))
}

/// Splices a fresh wire in front of each port of `ports`, the auxiliary
/// ports of the pair `a`, `b` in order.
#[verifier::loop_isolation(false)]
#[verifier::rlimit(60)]
pub fn splice_wires<T>(
    net: &mut Net<T>,
    ports: &Vec<Port>,
    Ghost(a): Ghost<DataNode>,
    Ghost(b): Ghost<DataNode>,
    Ghost(na): Ghost<nat>,
) -> (r: Vec<WireNode>)
    requires
        old(net).wf(),
        a != b,
        na <= ports@.len(),
        forall|j: int|
            0 <= j < ports@.len() ==> #[trigger] ports@[j] == pair_auxiliary(a, b, na, j as nat),
        forall|p: Port| 0 <= #[trigger] pair_index(a, b, na, p) < ports@.len() ==> p == ports@[pair_index(a, b, na, p)],
        forall|j: int|
            0 <= j < ports@.len() ==> old(net).links().contains_key(#[trigger] ports@[j])
                && old(net).links()[ports@[j]] != ports@[j],
    ensures
        splicing(*old(net), *final(net), a, b, na, ports@, r@, ports@.len() as int),
{
    let ghost n0 = *old(net);
    let ghost n = ports@.len();
    let len = ports.len();
    assert forall|j: int| 0 <= j < n implies pair_index(a, b, na, #[trigger] ports@[j]) == j by {
        assert(j < len);
        assert(ports@[j] == pair_auxiliary(a, b, na, j as nat));
        if j >= na {
            assert(((j - na) as usize) as int == j - na);
        } else {
            assert((j as usize) as int == j);
        }
    }
    let mut wires: Vec<WireNode> = Vec::new();
    let mut i: usize = 0;
    while i < ports.len()
        invariant
            splicing(n0, *net, a, b, na, ports@, wires@, i as int),
        decreases n - i,
    {
        let ghost before = *net;
        let ghost p = ports@[i as int];
        let wire = insert_wire_node(net, &ports[i]);
        proof {
            let q = before.links()[p];
            let wb = wire_port(wire, WireSide::SideB);
            let ws = wires@.push(wire);
            assert(before.links()[q] == p);
            assert forall|x: Port|
                relinked(a, b, na, ws, i + 1, x) == if x == p {
                    wb
                } else {
                    relinked(a, b, na, wires@, i as int, x)
                } by {
                let k = pair_index(a, b, na, x);
                if x == p {
                    assert(k == i);
                } else if 0 <= k < i + 1 {
                    if k == i {
                        assert(x == ports@[k]);
                    }
                    assert(ws[k] == wires@[k]);
                }
            }
            assert forall|j: int| 0 <= j < i implies net.links().contains_key(#[trigger] ports@[j])
                && net.links()[ports@[j]] == wire_port(ws[j], WireSide::SideA) by {
                assert(ports@[j] != p);
                assert(ports@[j] != q);
                assert(ws[j] == wires@[j]);
            }
            assert forall|j: int| 0 <= j < i + 1 implies (#[trigger] ws[j]).index == n0.wire_nodes@.len() + j by {}
            assert forall|j: int| 0 <= j < i implies net.links().contains_key(
                wire_port(#[trigger] ws[j], WireSide::SideB),
            ) && net.links()[wire_port(ws[j], WireSide::SideB)] == relinked(
                a,
                b,
                na,
                ws,
                i + 1,
                n0.links()[ports@[j]],
            ) by {
                assert(ws[j] == wires@[j]);
                let sb = wire_port(wires@[j], WireSide::SideB);
                if n0.links()[ports@[j]] == p {
                    assert(before.links()[sb] == p);
                    assert(q == sb);
                }
            }
            assert forall|j: int| i + 1 <= j < n implies net.links().contains_key(
                #[trigger] ports@[j],
            ) && net.links()[ports@[j]] == relinked(a, b, na, ws, i + 1, n0.links()[ports@[j]]) by {
                assert(ports@[j] != p);
                if n0.links()[ports@[j]] == p {
                    assert(before.links()[ports@[j]] == p);
                    assert(q == ports@[j]);
                }
            }
            assert forall|x: Port| #[trigger]
                n0.links().contains_key(x) && !port_of(a, x) && !port_of(b, x) implies net.links().contains_key(
                x,
            ) && net.links()[x] == relinked(a, b, na, ws, i + 1, n0.links()[x]) by {
                if n0.links()[x] == p {
                    assert(before.links()[x] == p);
                    assert(q == x);
                }
            }
        }
        wires.push(wire);
        i += 1;
    }
    wires
}

/// Disconnects each port of `ports` from the side A of its wire; returns the
/// freed sides A, the first `na` of them and the others.
#[verifier::loop_isolation(false)]
pub fn detach_wires<T>(net: &mut Net<T>, ports: &Vec<Port>, wires: &Vec<WireNode>, na: usize) -> (r: (
    Vec<Port>,
    Vec<Port>,
))
    requires
        old(net).wf(),
        wires@.len() == ports@.len(),
        na <= ports@.len(),
        forall|j1: int, j2: int|
            0 <= j1 < ports@.len() && 0 <= j2 < ports@.len() && j1 != j2 ==> #[trigger] ports@[j1]
                != #[trigger] ports@[j2],
        forall|j: int| 0 <= j < ports@.len() ==> (#[trigger] ports@[j]) is DataPort,
        forall|j1: int, j2: int|
            0 <= j1 < wires@.len() && 0 <= j2 < wires@.len() && j1 != j2 ==> #[trigger] wires@[j1]
                != #[trigger] wires@[j2],
        forall|j: int|
            0 <= j < ports@.len() ==> old(net).links().contains_key(#[trigger] ports@[j])
                && old(net).links()[ports@[j]] == wire_port(wires@[j], WireSide::SideA),
    ensures
        final(net).wf(),
        old(net).same_nodes(*final(net)),
        final(net).links() == old(net).links().remove_keys(
            Set::new(
                |x: Port|
                    exists|j: int|
                        0 <= j < ports@.len() && (x == ports@[j] || x == wire_port(
                            wires@[j],
                            WireSide::SideA,
                        )),
            ),
        ),
        r.0@.len() == na,
        r.1@.len() == ports@.len() - na,
        forall|j: int| 0 <= j < na ==> #[trigger] r.0@[j] == wire_port(wires@[j], WireSide::SideA),
        forall|j: int|
            0 <= j < r.1@.len() ==> #[trigger] r.1@[j] == wire_port(wires@[na + j], WireSide::SideA),
{
    let ghost n = ports@.len();
    let ghost n1 = *old(net);
    let mut linked_a: Vec<Port> = Vec::new();
    let mut linked_b: Vec<Port> = Vec::new();
    let mut i: usize = 0;
    while i < ports.len()
        invariant
            i <= n,
            net.wf(),
            n1.same_nodes(*net),
            forall|j: int|
                i <= j < n ==> net.links().contains_key(#[trigger] ports@[j])
                    && net.links()[ports@[j]] == wire_port(wires@[j], WireSide::SideA),
            net.links() == n1.links().remove_keys(
                Set::new(
                    |x: Port|
                        exists|j: int|
                            0 <= j < i && (x == ports@[j] || x == wire_port(
                                wires@[j],
                                WireSide::SideA,
                            )),
                ),
            ),
            i <= na ==> linked_a@.len() == i && linked_b@.len() == 0,
            i > na ==> linked_a@.len() == na && linked_b@.len() == i - na,
            forall|j: int|
                0 <= j < linked_a@.len() ==> #[trigger] linked_a@[j] == wire_port(
                    wires@[j],
                    WireSide::SideA,
                ),
            forall|j: int|
                0 <= j < linked_b@.len() ==> #[trigger] linked_b@[j] == wire_port(
                    wires@[na + j],
                    WireSide::SideA,
                ),
        decreases n - i,
    {
        let ghost before = *net;
        let out = retract(net, &ports[i]);
        proof {
            let s_old = Set::new(
                |x: Port|
                    exists|j: int|
                        0 <= j < i && (x == ports@[j] || x == wire_port(wires@[j], WireSide::SideA)),
            );
            let s_new = Set::new(
                |x: Port|
                    exists|j: int|
                        0 <= j < i + 1 && (x == ports@[j] || x == wire_port(
                            wires@[j],
                            WireSide::SideA,
                        )),
            );
            assert(s_new =~= s_old.insert(ports@[i as int]).insert(
                wire_port(wires@[i as int], WireSide::SideA),
            ));
            assert(net.links() =~= n1.links().remove_keys(s_new));
            assert forall|j: int| i + 1 <= j < n implies net.links().contains_key(
                #[trigger] ports@[j],
            ) && net.links()[ports@[j]] == wire_port(wires@[j], WireSide::SideA) by {
                assert(ports@[j] != ports@[i as int]);
                assert(wires@[j] != wires@[i as int]);
            }
        }
        if i < na {
            linked_a.push(out);
        } else {
            linked_b.push(out);
        }
        i += 1;
    }
    (linked_a, linked_b)
}

/// Splices a wire in front of every auxiliary port of `node_a`, then of
/// `node_b`, after disconnecting their principal ports, and detaches the
/// wires from the two nodes. Returns the wires and their free sides A, those
/// in front of `node_a` and those in front of `node_b`.
#[verifier::rlimit(60)]
pub fn prepare_interaction<T>(net: &mut Net<T>, node_a: &DataNode, node_b: &DataNode) -> (r: (
    Vec<WireNode>,
    Vec<Port>,
    Vec<Port>,
))
    requires
        old(net).wf(),
        node_a.index < old(net).data_nodes@.len(),
        node_b.index < old(net).data_nodes@.len(),
        node_a != node_b,
        old(net).links().contains_key(
            Port::DataPort { node: *node_a, port_type: DataPortType::Principal },
        ),
        old(net).links()[Port::DataPort { node: *node_a, port_type: DataPortType::Principal }]
            == (Port::DataPort { node: *node_b, port_type: DataPortType::Principal }),
        forall|p: Port|
            is_auxiliary_of(*old(net), *node_a, p) || is_auxiliary_of(*old(net), *node_b, p)
                ==> #[trigger] old(net).links().contains_key(p) && old(net).links()[p] != p,
    ensures
        prepared(*old(net), *final(net), *node_a, *node_b, r.0@, r.1@, r.2@),
{
    let ghost n_start = *net;
    let ghost a = *node_a;
    let ghost b = *node_b;
    let ghost na = arity(n_start, a);
    let pa = node_a.principal();
    let pb = node_b.principal();
    unlink_pair(net, pa, pb);
    let ghost n0 = *net;
    let ports = collect_auxiliary(net, node_a, node_b);
    let ghost n = ports@.len();
    let na_exec = node_a.auxiliary_ports(net).len();
    proof {
        assert forall|j: int| 0 <= j < n implies n0.links().contains_key(#[trigger] ports@[j])
            && n0.links()[ports@[j]] != ports@[j] && n0.links()[ports@[j]] == n_start.links()[ports@[j]] by {
            assert(j < ports.len());
            assert(ports@[j] == pair_auxiliary(a, b, na, j as nat));
            if j >= na {
                assert(((j - na) as usize) as int == j - na);
                assert(is_auxiliary_of(n_start, b, ports@[j]));
            } else {
                assert((j as usize) as int == j);
                assert(is_auxiliary_of(n_start, a, ports@[j]));
            }
        }
        assert forall|p: Port| 0 <= #[trigger] pair_index(a, b, na, p) < n implies p
            == ports@[pair_index(a, b, na, p)] by {}
    }
    let wires = splice_wires(net, &ports, Ghost(a), Ghost(b), Ghost(na));
    let ghost n1 = *net;
    proof {
        assert forall|j1: int, j2: int|
            0 <= j1 < n && 0 <= j2 < n && j1 != j2 implies #[trigger] ports@[j1]
            != #[trigger] ports@[j2] by {
            assert(pair_index(a, b, na, ports@[j1]) == j1);
            assert(pair_index(a, b, na, ports@[j2]) == j2);
        }
        assert forall|j1: int, j2: int|
            0 <= j1 < n && 0 <= j2 < n && j1 != j2 implies #[trigger] wires@[j1]
            != #[trigger] wires@[j2] by {
            assert(wires@[j1].index != wires@[j2].index);
        }
        assert(forall|j: int| 0 <= j < n ==> (#[trigger] ports@[j]) is DataPort);
    }
    let (linked_a, linked_b) = detach_wires(net, &ports, &wires, na_exec);
    proof {
        let w0 = n_start.wire_nodes@.len();
        let removed = Set::new(
            |x: Port|
                exists|j: int|
                    0 <= j < n && (x == ports@[j] || x == wire_port(wires@[j], WireSide::SideA)),
        );
        assert forall|x: Port| port_of(a, x) || port_of(b, x) implies !(
        #[trigger] net.links().contains_key(x)) by {
            if n1.links().contains_key(x) {
                let k = pair_index(a, b, na, x);
                if 0 <= k < n {
                    assert(removed.contains(x));
                } else {
                    assert(!n0.links().contains_key(x));
                }
            }
        }
        assert forall|j: int| 0 <= j < n implies !net.links().contains_key(
            wire_port(#[trigger] wires@[j], WireSide::SideA),
        ) by {
            assert(removed.contains(wire_port(wires@[j], WireSide::SideA)));
        }
        assert forall|j: int| 0 <= j < n implies net.links().contains_key(
            wire_port(#[trigger] wires@[j], WireSide::SideB),
        ) && net.links()[wire_port(wires@[j], WireSide::SideB)] == relinked(
            a,
            b,
            na,
            wires@,
            n as int,
            n_start.links()[pair_auxiliary(a, b, na, j as nat)],
        ) by {
            let x = wire_port(wires@[j], WireSide::SideB);
            assert(!removed.contains(x));
            assert(ports@[j] == pair_auxiliary(a, b, na, j as nat));
        }
        assert forall|x: Port| #[trigger]
            n_start.links().contains_key(x) && !port_of(a, x) && !port_of(b, x) implies net.links().contains_key(
            x,
        ) && net.links()[x] == relinked(a, b, na, wires@, n as int, n_start.links()[x]) by {
            assert(!removed.contains(x));
            assert(n0.links().contains_key(x));
        }
        assert forall|x: Port|
            !n_start.links().contains_key(x) && !(x matches Port::WirePort { node, .. }
                && node.index >= w0) implies !(#[trigger] net.links().contains_key(x)) by {
            assert(!n0.links().contains_key(x));
        }
    }
    (wires, linked_a, linked_b)
}

/// `p` is a side of one of `wires`.
pub open spec fn side_of(wires: Seq<WireNode>, p: Port) -> bool {
    p matches Port::WirePort { node, .. } && wires.contains(node)
}

/// Takes each wire of `wires` out in turn (`settle_wire`); returns whether
/// every one could be contracted. `trace` in the contract holds the net
/// before each step and after the last.
#[verifier::loop_isolation(false)]
pub fn settle_wires<T>(net: &mut Net<T>, wires: &Vec<WireNode>) -> (r: bool)
    requires
        old(net).wf(),
        forall|j: int| 0 <= j < wires@.len() ==> (#[trigger] wires@[j]).index < old(net).wire_nodes@.len(),
    ensures
        exists|trace: Seq<Net<T>>|
            {
                &&& trace.len() == wires@.len() + 1
                &&& trace[0] == *old(net)
                &&& trace.last() == *final(net)
                &&& forall|j: int|
                    0 <= j < wires@.len() ==> settled(#[trigger] trace[j], trace[j + 1], wires@[j])
                &&& r == forall|j: int|
                    0 <= j < wires@.len() ==> contractible(#[trigger] trace[j], wires@[j])
            },
        final(net).wf(),
        old(net).same_nodes(*final(net)),
        forall|j: int|
            0 <= j < wires@.len() ==> !final(net).links().contains_key(
                wire_port(#[trigger] wires@[j], WireSide::SideA),
            ) && !final(net).links().contains_key(wire_port(wires@[j], WireSide::SideB)),
        forall|p: Port| #[trigger]
            final(net).links().contains_key(p) ==> old(net).links().contains_key(p),
        forall|p: Port|
            #[trigger] old(net).links().contains_key(p) && !side_of(wires@, p) && !side_of(
                wires@,
                old(net).links()[p],
            ) ==> final(net).links().contains_key(p) && final(net).links()[p] == old(
                net,
            ).links()[p],
{
    let ghost n2 = *net;
    let ghost n = wires@.len();
    let mut all = true;
    let ghost mut trace = seq![*net];
    let mut i: usize = 0;
    while i < wires.len()
        invariant
            i <= n,
            net.wf(),
            n2.same_nodes(*net),
            trace.len() == i + 1,
            trace[0] == n2,
            trace.last() == *net,
            forall|j: int| 0 <= j < i ==> settled(#[trigger] trace[j], trace[j + 1], wires@[j]),
            all == forall|j: int| 0 <= j < i ==> contractible(#[trigger] trace[j], wires@[j]),
            forall|j: int|
                0 <= j < i ==> !net.links().contains_key(
                    wire_port(#[trigger] wires@[j], WireSide::SideA),
                ) && !net.links().contains_key(wire_port(wires@[j], WireSide::SideB)),
            forall|p: Port| #[trigger] net.links().contains_key(p) ==> n2.links().contains_key(p),
            forall|p: Port|
                #[trigger] n2.links().contains_key(p) && !side_of(wires@, p) && !side_of(
                    wires@,
                    n2.links()[p],
                ) ==> net.links().contains_key(p) && net.links()[p] == n2.links()[p],
        decreases n - i,
    {
        let ghost before = *net;
        let ghost w = wires@[i as int];
        let ok = settle_wire(net, wires[i]);
        proof {
            assert(wires@.contains(w));
            assert forall|p: Port|
                #[trigger] n2.links().contains_key(p) && !side_of(wires@, p) && !side_of(
                    wires@,
                    n2.links()[p],
                ) implies net.links().contains_key(p) && net.links()[p] == n2.links()[p] by {
                let q = n2.links()[p];
                assert(before.links()[q] == p);
                assert(p != wire_port(w, WireSide::SideA) && p != wire_port(w, WireSide::SideB));
                assert(q != wire_port(w, WireSide::SideA) && q != wire_port(w, WireSide::SideB));
            }
            let old_trace = trace;
            trace = trace.push(*net);
            assert(trace[i as int] == before);
            assert forall|j: int| 0 <= j < i + 1 implies settled(#[trigger] trace[j], trace[j + 1], wires@[j]) by {
                if j < i {
                    assert(trace[j] == old_trace[j] && trace[j + 1] == old_trace[j + 1]);
                }
            }
            assert((all && ok) == forall|j: int| 0 <= j < i + 1 ==> contractible(#[trigger] trace[j], wires@[j])) by {
                assert forall|j: int| 0 <= j < i implies trace[j] == old_trace[j] by {}
            }
        }
        all = all && ok;
        i += 1;
    }
    all
}

/// What an interaction leaves, from what its three steps state: the two
/// nodes disconnected, every kept connection kept, and the new wires
/// disconnected.
pub proof fn lemma_interaction_outcome<T>(
    n_start: Net<T>,
    n1: Net<T>,
    n2: Net<T>,
    n3: Net<T>,
    a: DataNode,
    b: DataNode,
    wires: Seq<WireNode>,
    left: Seq<Port>,
    right: Seq<Port>,
)
    requires
        n_start.wf(),
        a.index < n_start.data_nodes@.len(),
        b.index < n_start.data_nodes@.len(),
        prepared(n_start, n1, a, b, wires, left, right),
        rule_post(n1, n2, left, right),
        n2.same_nodes(n3),
        forall|j: int|
            0 <= j < wires.len() ==> !n3.links().contains_key(
                wire_port(#[trigger] wires[j], WireSide::SideA),
            ) && !n3.links().contains_key(wire_port(wires[j], WireSide::SideB)),
        forall|p: Port| #[trigger] n3.links().contains_key(p) ==> n2.links().contains_key(p),
        forall|p: Port|
            #[trigger] n2.links().contains_key(p) && !side_of(wires, p) && !side_of(
                wires,
                n2.links()[p],
            ) ==> n3.links().contains_key(p) && n3.links()[p] == n2.links()[p],
    ensures
        n_start.grows_to(n3),
        forall|p: Port|
            port_of(a, p) || port_of(b, p) ==> !(#[trigger] n3.links().contains_key(p)),
        forall|p: Port|
            #[trigger] kept(n_start, a, b, p) ==> n3.links().contains_key(p) && n3.links()[p]
                == n_start.links()[p],
        forall|w: WireNode|
            n_start.wire_nodes@.len() <= w.index < n_start.wire_nodes@.len() + wires.len() ==> {
                &&& !(#[trigger] n3.links().contains_key(wire_port(w, WireSide::SideA)))
                &&& !n3.links().contains_key(wire_port(w, WireSide::SideB))
            },
{
    let w0 = n_start.wire_nodes@.len();
    let n = wires.len();
    let na = arity(n_start, a);
    assert forall|x: Port| port_of(a, x) || port_of(b, x) implies !(
    #[trigger] n3.links().contains_key(x)) by {
        if left.contains(x) {
            let i = choose|i: int| 0 <= i < left.len() && left[i] == x;
            assert(left[i] == wire_port(wires[i], WireSide::SideA));
        }
        if right.contains(x) {
            let i = choose|i: int| 0 <= i < right.len() && right[i] == x;
            assert(right[i] == wire_port(wires[na + i], WireSide::SideA));
        }
        assert(!n1.links().contains_key(x));
        if !n1.has_port(x) {
            match x {
                Port::DataPort { node, .. } => {
                    if node.index < n1.data_nodes@.len() {
                        assert(n2.data_nodes@[node.index as int].auxiliary_ports@.len()
                            == n1.data_nodes@[node.index as int].auxiliary_ports@.len());
                    }
                },
                _ => {},
            }
            assert(!n2.has_port(x));
        }
        assert(!n2.links().contains_key(x));
    }
    assert forall|x: Port| #[trigger] kept(n_start, a, b, x) implies n3.links().contains_key(x)
        && n3.links()[x] == n_start.links()[x] by {
        let q = n_start.links()[x];
        assert(pair_index(a, b, na, q) == -1);
        assert(n1.links()[x] == q);
        assert(n_start.has_port(q));
        assert(n_start.has_port(x));
        if side_of(wires, x) {
            let k = choose|k: int| 0 <= k < n && wires[k] == x->WirePort_node;
            assert(wires[k].index >= w0);
        }
        if side_of(wires, q) {
            let k = choose|k: int| 0 <= k < n && wires[k] == q->WirePort_node;
            assert(wires[k].index >= w0);
        }
    }
    assert forall|w: WireNode|
        w0 <= w.index < w0 + n implies !(#[trigger] n3.links().contains_key(
        wire_port(w, WireSide::SideA),
    )) && !n3.links().contains_key(wire_port(w, WireSide::SideB)) by {
        let k = w.index - w0;
        assert(0 <= k < n);
        assert(wires[k].index == w0 + k);
        assert(wires[k] == w);
    }
}

/// Lets two data nodes connected principal to principal interact: wires are
/// spliced in front of their auxiliary ports and detached from the nodes
/// (`prepare_interaction`), the signature's rule connects the wires' free
/// sides, and each wire is taken out again (`settle_wires`). Returns whether
/// every wire could be contracted; a wire that the rule left unusable, such
/// as one joined to itself, is dissolved instead.
#[verifier::rlimit(60)]
pub fn interact<T, S: Signature<T>>(net: &mut Net<T>, node_a: &DataNode, node_b: &DataNode) -> (r:
    bool)
    requires
        old(net).wf(),
        node_a.index < old(net).data_nodes@.len(),
        node_b.index < old(net).data_nodes@.len(),
        node_a != node_b,
        old(net).links().contains_key(
            Port::DataPort { node: *node_a, port_type: DataPortType::Principal },
        ),
        old(net).links()[Port::DataPort { node: *node_a, port_type: DataPortType::Principal }]
            == (Port::DataPort { node: *node_b, port_type: DataPortType::Principal }),
        forall|p: Port|
            is_auxiliary_of(*old(net), *node_a, p) || is_auxiliary_of(*old(net), *node_b, p)
                ==> #[trigger] old(net).links().contains_key(p) && old(net).links()[p] != p,
    ensures
        exists|
            prepared_net: Net<T>,
            linked_net: Net<T>,
            wires: Seq<WireNode>,
            left: Seq<Port>,
            right: Seq<Port>,
            trace: Seq<Net<T>>,
        |
            {
                &&& prepared(*old(net), prepared_net, *node_a, *node_b, wires, left, right)
                &&& rule_post(prepared_net, linked_net, left, right)
                &&& trace.len() == wires.len() + 1
                &&& trace[0] == linked_net
                &&& trace.last() == *final(net)
                &&& forall|j: int|
                    0 <= j < wires.len() ==> settled(#[trigger] trace[j], trace[j + 1], wires[j])
                &&& r == forall|j: int|
                    0 <= j < wires.len() ==> contractible(#[trigger] trace[j], wires[j])
            },
        final(net).wf(),
        old(net).grows_to(*final(net)),
        forall|p: Port|
            port_of(*node_a, p) || port_of(*node_b, p) ==> !(
            #[trigger] final(net).links().contains_key(p)),
        forall|p: Port|
            #[trigger] kept(*old(net), *node_a, *node_b, p) ==> final(net).links().contains_key(p)
                && final(net).links()[p] == old(net).links()[p],
        forall|w: WireNode|
            old(net).wire_nodes@.len() <= w.index < old(net).wire_nodes@.len() + arity(
                *old(net),
                *node_a,
            ) + arity(*old(net), *node_b) ==> {
                &&& !(#[trigger] final(net).links().contains_key(wire_port(w, WireSide::SideA)))
                &&& !final(net).links().contains_key(wire_port(w, WireSide::SideB))
            },
{
    let ghost n_start = *net;
    let ghost a = *node_a;
    let ghost b = *node_b;
    let ghost w0 = n_start.wire_nodes@.len();
    let (wires, linked_a, linked_b) = prepare_interaction(net, node_a, node_b);
    let ghost n1 = *net;
    let ghost n = wires@.len();
    S::link(net, *node_a, *node_b, linked_a.as_slice(), linked_b.as_slice());
    let ghost n2 = *net;
    proof {
        assert forall|j: int| 0 <= j < n implies (#[trigger] wires@[j]).index < n2.wire_nodes@.len() by {}
    }
    let r = settle_wires(net, &wires);
    proof {
        let trace = choose|trace: Seq<Net<T>>|
            {
                &&& trace.len() == wires@.len() + 1
                &&& trace[0] == n2
                &&& trace.last() == *net
                &&& forall|j: int|
                    0 <= j < wires@.len() ==> settled(#[trigger] trace[j], trace[j + 1], wires@[j])
                &&& r == forall|j: int|
                    0 <= j < wires@.len() ==> contractible(#[trigger] trace[j], wires@[j])
            };
        lemma_interaction_outcome(n_start, n1, n2, *net, a, b, wires@, linked_a@, linked_b@);
    }
    r
}

} // verus!
