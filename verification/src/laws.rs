//! What holds of the model whatever the sequence of operations: the laws
//! that relate one operation to the next.

use vstd::prelude::*;

use crate::component::{ComponentType, ComponentView};
use crate::error::{ErrorView, Missing};
use crate::network::NetworkView;
use crate::position::SwitchPosition;

verus! {

/// One operation on a network, with its arguments.
pub enum Operation {
    CreateNode(Seq<char>),
    CreateComponent(ComponentType, Seq<char>),
    RemoveNode(Seq<char>),
    RemoveComponent(Seq<char>),
    Connect(Seq<char>, Seq<char>, usize),
    Disconnect(Seq<char>, Seq<char>),
    Open(Seq<char>),
    Close(Seq<char>),
}

impl NetworkView {
    /// What the operation gives on this network.
    pub open spec fn apply(self, op: Operation) -> Result<NetworkView, ErrorView> {
        match op {
            Operation::CreateNode(name) => self.create_node(name),
            Operation::CreateComponent(kind, name) => self.create_component(kind, name),
            Operation::RemoveNode(name) => self.remove_node(name),
            Operation::RemoveComponent(name) => self.remove_component(name),
            Operation::Connect(node, component, terminal) => self.connect(
                node,
                component,
                terminal,
            ),
            Operation::Disconnect(node, component) => self.disconnect(node, component),
            Operation::Open(component) => self.open(component),
            Operation::Close(component) => self.close(component),
        }
    }

    /// The network after the operation: a refused one changes nothing.
    pub open spec fn step(self, op: Operation) -> NetworkView {
        match self.apply(op) {
            Ok(next) => next,
            Err(_) => self,
        }
    }

    /// The network after the operations, performed in order.
    pub open spec fn run(self, ops: Seq<Operation>) -> NetworkView
        decreases ops.len(),
    {
        if ops.len() == 0 {
            self
        } else {
            self.run(ops.drop_last()).step(ops.last())
        }
    }
}

/// An empty network is well formed.
pub proof fn law_empty_well_formed(name: Seq<char>)
    ensures
        NetworkView::empty(name).wf(),
{
    assert(NetworkView::empty(name).component_names() =~= Seq::empty());
}

/// Every operation leaves a well-formed network well formed, whether it
/// succeeds or is refused: no name is used twice among nodes and components,
/// no component is on one node with two terminals, and every wired terminal
/// is on a node of the network.
pub proof fn law_invariant_kept(net: NetworkView, op: Operation)
    requires
        net.wf(),
    ensures
        net.step(op).wf(),
{
    match op {
        Operation::CreateNode(name) => net.lemma_create_node(name),
        Operation::CreateComponent(kind, name) => net.lemma_create_component(kind, name),
        Operation::RemoveNode(name) => net.lemma_remove_node(name),
        Operation::RemoveComponent(name) => net.lemma_remove_component(name),
        Operation::Connect(node, component, terminal) => net.lemma_connect(
            node,
            component,
            terminal,
        ),
        Operation::Disconnect(node, component) => net.lemma_disconnect(node, component),
        Operation::Open(component) => net.lemma_switch(component),
        Operation::Close(component) => net.lemma_switch(component),
    }
}

/// Every sequence of operations leaves a well-formed network well formed.
pub proof fn law_invariant_kept_through(net: NetworkView, ops: Seq<Operation>)
    requires
        net.wf(),
    ensures
        net.run(ops).wf(),
    decreases ops.len(),
{
    if ops.len() > 0 {
        law_invariant_kept_through(net, ops.drop_last());
        law_invariant_kept(net.run(ops.drop_last()), ops.last());
    }
}

/// After the removal of a node no terminal in the network is on it, and
/// the name is free for a new node or component.
pub proof fn law_removed_node_is_gone(net: NetworkView, name: Seq<char>, kind: ComponentType)
    requires
        net.wf(),
        net.remove_node(name) is Ok,
    ensures
        forall|j: int|
            0 <= j < net.remove_node(name)->Ok_0.components.len() ==> !(
            #[trigger] net.remove_node(name)->Ok_0.components[j]).touches(name),
        net.remove_node(name)->Ok_0.create_node(name) is Ok,
        net.remove_node(name)->Ok_0.create_component(kind, name) is Ok,
        net.remove_node(name)->Ok_0.remove_node(name) == Err::<NetworkView, ErrorView>(
            ErrorView::NotFound(Missing::Node),
        ),
{
    let next = net.remove_node(name)->Ok_0;
    net.lemma_remove_node(name);
    net.nodes.index_of_first_ensures(name);
    next.nodes.index_of_first_ensures(name);
    assert(next.component_names() =~= net.component_names());
    if next.has_component(name) {
        let j = choose|j: int|
            0 <= j < net.component_names().len() && net.component_names()[j] == name;
        assert(!net.has_node(net.components[j].name));
    }
}

/// A switch has two positions and moves between them in a cycle of two:
/// an open one cannot be opened but can be closed, a closed one cannot be
/// closed but can be opened, and each move is undone by the other.
pub proof fn law_switch_cycle(position: SwitchPosition)
    ensures
        SwitchPosition::Open.open() == Err::<SwitchPosition, ErrorView>(ErrorView::AlreadyOpen),
        SwitchPosition::Open.close() == Ok::<SwitchPosition, ErrorView>(SwitchPosition::Close),
        SwitchPosition::Close.close() == Err::<SwitchPosition, ErrorView>(
            ErrorView::AlreadyClosed,
        ),
        SwitchPosition::Close.open() == Ok::<SwitchPosition, ErrorView>(SwitchPosition::Open),
        position.close() matches Ok(closed) ==> closed.open() == Ok::<SwitchPosition, ErrorView>(
            position,
        ),
        position.open() matches Ok(opened) ==> opened.close() == Ok::<SwitchPosition, ErrorView>(
            position,
        ),
        position.open() is Ok || position.close() is Ok,
        !(position.open() is Ok && position.close() is Ok),
{
}

/// A terminal that was wired to one node refuses another node as occupied,
/// provided the component is not on that other node already.
pub proof fn law_terminal_occupied(
    component: ComponentView,
    first: Seq<char>,
    second: Seq<char>,
    terminal: usize,
)
    requires
        component.wf(),
        first != second,
        component.connect(first, terminal) is Ok,
        !component.touches(second),
    ensures
        component.connect(first, terminal)->Ok_0.connect(second, terminal) == Err::<
            ComponentView,
            ErrorView,
        >(ErrorView::TerminalOccupied),
{
    let next = component.connect(first, terminal)->Ok_0;
    let others = next.terminals.update(terminal as int, None);
    others.index_of_first_ensures(Some(second));
    component.terminals.update(terminal as int, None).index_of_first_ensures(Some(first));
    if others.contains(Some(second)) {
        let k = choose|k: int| 0 <= k < others.len() && others[k] == Some(second);
        assert(component.terminals[k] == Some(second));
    }
}

/// A component that was wired to a node on one terminal refuses that node
/// on each of its other terminals, and names the terminal that holds it.
pub proof fn law_one_terminal_per_node(
    component: ComponentView,
    node: Seq<char>,
    terminal: usize,
    other: usize,
)
    requires
        component.wf(),
        component.connect(node, terminal) is Ok,
        other != terminal,
        other < component.terminals.len(),
    ensures
        component.connect(node, terminal)->Ok_0.connect(node, other) == Err::<
            ComponentView,
            ErrorView,
        >(ErrorView::DuplicateNodeOnComponent { node, other_index: terminal }),
{
    let next = component.connect(node, terminal)->Ok_0;
    let before = component.terminals.update(terminal as int, None);
    before.index_of_first_ensures(Some(node));
    let others = next.terminals.update(other as int, None);
    others.index_of_first_ensures(Some(node));
    assert(others[terminal as int] == Some(node));
    assert forall|k: int| 0 <= k < others.len() && k != terminal implies others[k] != Some(
        node,
    ) by {
        if k != other {
            assert(before[k] == component.terminals[k]);
        }
    }
}

/// Disconnecting a component from a node that none of its terminals is on
/// fails, and says that there is no connection.
pub proof fn law_disconnect_unconnected(component: ComponentView, node: Seq<char>)
    requires
        !component.touches(node),
    ensures
        component.disconnect(node) == Err::<ComponentView, ErrorView>(ErrorView::NotConnected),
{
    component.terminals.index_of_first_ensures(Some(node));
}

/// After a connection, disconnecting succeeds once, gives back the
/// component as it was before the connection, and fails the second time.
pub proof fn law_disconnect_once(component: ComponentView, node: Seq<char>, terminal: usize)
    requires
        component.wf(),
        component.connect(node, terminal) is Ok,
    ensures
        component.connect(node, terminal)->Ok_0.disconnect(node) == Ok::<
            ComponentView,
            ErrorView,
        >(component),
        component.disconnect(node) == Err::<ComponentView, ErrorView>(ErrorView::NotConnected),
{
    let next = component.connect(node, terminal)->Ok_0;
    let before = component.terminals.update(terminal as int, None);
    before.index_of_first_ensures(Some(node));
    assert(before =~= component.terminals);
    component.terminals.index_of_first_ensures(Some(node));
    next.terminals.index_of_first_ensures(Some(node));
    assert(next.terminals[terminal as int] == Some(node));
    assert forall|k: int| 0 <= k < next.terminals.len() && k != terminal implies next.terminals[k]
        != Some(node) by {
        assert(before[k] == component.terminals[k]);
    }
    assert(next.terminals.update(terminal as int, None) =~= component.terminals);
}

/// A node stays in the network through every operation but its removal.
pub proof fn lemma_node_stays(net: NetworkView, name: Seq<char>, op: Operation)
    requires
        net.has_node(name),
        op != Operation::RemoveNode(name),
    ensures
        net.step(op).has_node(name),
{
    let next = net.step(op);
    let at = choose|i: int| 0 <= i < net.nodes.len() && net.nodes[i] == name;
    match op {
        Operation::CreateNode(other) => {
            if net.apply(op) is Ok {
                assert(next.nodes[at] == name);
            }
        },
        Operation::RemoveNode(other) => {
            net.nodes.index_of_first_ensures(other);
            if let Some(index) = net.nodes.index_of_first(other) {
                if at < index {
                    assert(next.nodes[at] == name);
                } else {
                    assert(next.nodes[at - 1] == name);
                }
            }
        },
        _ => {},
    }
}

/// A node stays in the network through every sequence of operations that
/// does not remove it.
pub proof fn lemma_node_stays_through(net: NetworkView, name: Seq<char>, ops: Seq<Operation>)
    requires
        net.has_node(name),
        forall|i: int| 0 <= i < ops.len() ==> ops[i] != Operation::RemoveNode(name),
    ensures
        net.run(ops).has_node(name),
    decreases ops.len(),
{
    if ops.len() > 0 {
        lemma_node_stays_through(net, name, ops.drop_last());
        lemma_node_stays(net.run(ops.drop_last()), name, ops.last());
    }
}

/// Once a node was created, its name is taken: creating a node or a
/// component of any type under that name is refused as a conflict, after
/// every sequence of operations that does not remove the node.
pub proof fn law_name_stays_taken(
    net: NetworkView,
    name: Seq<char>,
    ops: Seq<Operation>,
    kind: ComponentType,
)
    requires
        net.create_node(name) is Ok,
        forall|i: int| 0 <= i < ops.len() ==> ops[i] != Operation::RemoveNode(name),
    ensures
        net.create_node(name)->Ok_0.run(ops).create_node(name) == Err::<NetworkView, ErrorView>(
            ErrorView::NameConflict,
        ),
        net.create_node(name)->Ok_0.run(ops).create_component(kind, name) == Err::<
            NetworkView,
            ErrorView,
        >(ErrorView::NameConflict),
{
    let created = net.create_node(name)->Ok_0;
    assert(created.nodes[net.nodes.len() as int] == name);
    lemma_node_stays_through(created, name, ops);
}

/// Disconnecting a component from a node that it is not wired to fails,
/// where both names resolve, and says that there is no connection.
pub proof fn law_network_disconnect_unconnected(
    net: NetworkView,
    node: Seq<char>,
    component: Seq<char>,
)
    requires
        net.has_node(node),
        net.component_index(component) matches Some(index) && !net.components[index].touches(
            node,
        ),
    ensures
        net.disconnect(node, component) == Err::<NetworkView, ErrorView>(ErrorView::NotConnected),
{
    net.component_names().index_of_first_ensures(component);
    law_disconnect_unconnected(net.components[net.component_index(component).unwrap()], node);
}

/// After a connection in a network, disconnecting the same node and
/// component succeeds once, gives back the network as it was before the
/// connection, and fails the second time.
pub proof fn law_network_disconnect_once(
    net: NetworkView,
    node: Seq<char>,
    component: Seq<char>,
    terminal: usize,
)
    requires
        net.wf(),
        net.connect(node, component, terminal) is Ok,
    ensures
        net.connect(node, component, terminal)->Ok_0.disconnect(node, component) == Ok::<
            NetworkView,
            ErrorView,
        >(net),
        net.disconnect(node, component) == Err::<NetworkView, ErrorView>(ErrorView::NotConnected),
{
    let next = net.connect(node, component, terminal)->Ok_0;
    net.component_names().index_of_first_ensures(component);
    let index = net.component_index(component).unwrap();
    assert(net.components[index].wf());
    law_disconnect_once(net.components[index], node, terminal);
    assert(next.component_names() =~= net.component_names());
    assert(next.components.update(index, net.components[index]) =~= net.components);
}

} // verus!
