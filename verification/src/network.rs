//! The network: the registry of nodes and components, under one namespace.

use vstd::prelude::*;
use vstd::string::StringExecFns;

use crate::component::{Component, ComponentType, ComponentView};
use crate::error::{follows, Error, ErrorView, Missing};
use crate::node::Node;

verus! {

/// What a network holds, as plain values: its name, the names of its nodes
/// and its components, both in the order in which they were created.
pub struct NetworkView {
    pub name: Seq<char>,
    pub nodes: Seq<Seq<char>>,
    pub components: Seq<ComponentView>,
}

impl NetworkView {
    /// The names of the components, in order.
    pub open spec fn component_names(self) -> Seq<Seq<char>> {
        Seq::new(self.components.len(), |i: int| self.components[i].name)
    }

    /// Whether a node has this name.
    pub open spec fn has_node(self, name: Seq<char>) -> bool {
        self.nodes.contains(name)
    }

    /// Whether a component has this name.
    pub open spec fn has_component(self, name: Seq<char>) -> bool {
        self.component_names().contains(name)
    }

    /// Where the component of this name stands.
    pub open spec fn component_index(self, name: Seq<char>) -> Option<int> {
        self.component_names().index_of_first(name)
    }

    /// Every component is well formed, no name is used twice among nodes and
    /// components together, and every wired terminal is on a node of this
    /// network.
    pub open spec fn wf(self) -> bool {
        &&& forall|i: int| 0 <= i < self.components.len() ==> (#[trigger] self.components[i]).wf()
        &&& self.nodes.no_duplicates()
        &&& self.component_names().no_duplicates()
        &&& forall|j: int|
            0 <= j < self.components.len() ==> !self.has_node(
                (#[trigger] self.components[j]).name,
            )
        &&& forall|j: int, node: Seq<char>|
            0 <= j < self.components.len() && (#[trigger] self.components[j].touches(node))
                ==> self.has_node(node)
    }

    /// An empty network.
    pub open spec fn empty(name: Seq<char>) -> NetworkView {
        NetworkView { name, nodes: Seq::empty(), components: Seq::empty() }
    }

    /// Creating a node: refused when the name is in use.
    pub open spec fn create_node(self, name: Seq<char>) -> Result<NetworkView, ErrorView> {
        if self.has_node(name) || self.has_component(name) {
            Err(ErrorView::NameConflict)
        } else {
            Ok(NetworkView { nodes: self.nodes.push(name), ..self })
        }
    }

    /// Creating a component: refused when the name is in use.
    pub open spec fn create_component(self, kind: ComponentType, name: Seq<char>) -> Result<
        NetworkView,
        ErrorView,
    > {
        if self.has_node(name) || self.has_component(name) {
            Err(ErrorView::NameConflict)
        } else {
            Ok(
                NetworkView {
                    components: self.components.push(ComponentView::fresh(kind, name)),
                    ..self
                },
            )
        }
    }

    /// Removing a node: it leaves the registry, and every terminal that was
    /// on it is unwired.
    pub open spec fn remove_node(self, name: Seq<char>) -> Result<NetworkView, ErrorView> {
        match self.nodes.index_of_first(name) {
            Some(index) => Ok(
                NetworkView {
                    nodes: self.nodes.remove(index),
                    components: Seq::new(
                        self.components.len(),
                        |j: int| self.components[j].without(name),
                    ),
                    ..self
                },
            ),
            None => Err(ErrorView::NotFound(Missing::Node)),
        }
    }

    /// Removing a component, and with it the wiring of its terminals.
    pub open spec fn remove_component(self, name: Seq<char>) -> Result<NetworkView, ErrorView> {
        match self.component_index(name) {
            Some(index) => Ok(NetworkView { components: self.components.remove(index), ..self }),
            None => Err(ErrorView::NotFound(Missing::Component)),
        }
    }

    /// Which of a node name and a component name does not resolve.
    pub open spec fn missing(self, node: Seq<char>, component: Seq<char>) -> Option<Missing> {
        if !self.has_node(node) && !self.has_component(component) {
            Some(Missing::Both)
        } else if !self.has_node(node) {
            Some(Missing::Node)
        } else if !self.has_component(component) {
            Some(Missing::Component)
        } else {
            None
        }
    }

    /// The network with one component replaced by what an operation on that
    /// component gave, or the operation's error.
    pub open spec fn with_component(self, index: int, outcome: Result<ComponentView, ErrorView>)
        -> Result<NetworkView, ErrorView> {
        match outcome {
            Ok(next) => Ok(NetworkView { components: self.components.update(index, next), ..self }),
            Err(e) => Err(e),
        }
    }

    /// Wiring a terminal of a component to a node: both names must resolve,
    /// then the component decides.
    pub open spec fn connect(self, node: Seq<char>, component: Seq<char>, terminal: usize)
        -> Result<NetworkView, ErrorView> {
        match self.missing(node, component) {
            Some(missing) => Err(ErrorView::NotFound(missing)),
            None => {
                let index = self.component_index(component).unwrap();
                self.with_component(index, self.components[index].connect(node, terminal))
            },
        }
    }

    /// Unwiring a component from a node: both names must resolve, then the
    /// component decides.
    pub open spec fn disconnect(self, node: Seq<char>, component: Seq<char>) -> Result<
        NetworkView,
        ErrorView,
    > {
        match self.missing(node, component) {
            Some(missing) => Err(ErrorView::NotFound(missing)),
            None => {
                let index = self.component_index(component).unwrap();
                self.with_component(index, self.components[index].disconnect(node))
            },
        }
    }

    /// Opening the switch of the component of this name.
    pub open spec fn open(self, component: Seq<char>) -> Result<NetworkView, ErrorView> {
        match self.component_index(component) {
            Some(index) => self.with_component(index, self.components[index].open()),
            None => Err(ErrorView::NotFound(Missing::Component)),
        }
    }

    /// Closing the switch of the component of this name.
    pub open spec fn close(self, component: Seq<char>) -> Result<NetworkView, ErrorView> {
        match self.component_index(component) {
            Some(index) => self.with_component(index, self.components[index].close()),
            None => Err(ErrorView::NotFound(Missing::Component)),
        }
    }

    /// Creating a node keeps the network well formed.
    pub proof fn lemma_create_node(self, name: Seq<char>)
        requires
            self.wf(),
        ensures
            self.create_node(name) matches Ok(next) ==> next.wf(),
    {
        if let Ok(next) = self.create_node(name) {
            assert(next.component_names() =~= self.component_names());
            assert forall|j: int| 0 <= j < next.components.len() implies !next.has_node(
                (#[trigger] next.components[j]).name,
            ) by {
                assert(self.component_names()[j] == self.components[j].name);
                assert(!self.has_node(self.components[j].name));
            }
            assert forall|j: int, node: Seq<char>|
                0 <= j < next.components.len() && (#[trigger] next.components[j].touches(
                    node,
                )) implies next.has_node(node) by {
                assert(self.components[j].touches(node));
                let k = choose|k: int| 0 <= k < self.nodes.len() && self.nodes[k] == node;
                assert(next.nodes[k] == node);
            }
        }
    }

    /// Creating a component keeps the network well formed.
    pub proof fn lemma_create_component(self, kind: ComponentType, name: Seq<char>)
        requires
            self.wf(),
        ensures
            self.create_component(kind, name) matches Ok(next) ==> next.wf(),
    {
        if let Ok(next) = self.create_component(kind, name) {
            let fresh = ComponentView::fresh(kind, name);
            assert(next.component_names() =~= self.component_names().push(name));
            assert forall|j: int| 0 <= j < next.components.len() implies (
            #[trigger] next.components[j]).wf() && !next.has_node(next.components[j].name) by {
                if j < self.components.len() {
                    assert(self.components[j].wf());
                    assert(!self.has_node(self.components[j].name));
                }
            }
            assert forall|j: int, node: Seq<char>|
                0 <= j < next.components.len() && (#[trigger] next.components[j].touches(
                    node,
                )) implies next.has_node(node) by {
                if j < self.components.len() {
                    assert(self.components[j].touches(node));
                } else {
                    let t = choose|t: int|
                        0 <= t < fresh.terminals.len() && fresh.terminals[t] == Some(node);
                    assert(false);
                }
            }
        }
    }

    /// Removing a node keeps the network well formed: no terminal stays on
    /// the node that left.
    pub proof fn lemma_remove_node(self, name: Seq<char>)
        requires
            self.wf(),
        ensures
            self.remove_node(name) matches Ok(next) ==> next.wf() && !next.has_node(name),
    {
        if let Ok(next) = self.remove_node(name) {
            self.nodes.index_of_first_ensures(name);
            let index = self.nodes.index_of_first(name).unwrap();
            assert(next.component_names() =~= self.component_names());
            assert forall|k: int| 0 <= k < next.components.len() implies (
            #[trigger] next.components[k]).wf() && !next.has_node(next.components[k].name) by {
                assert(self.components[k].wf());
                self.components[k].lemma_without(name);
                assert(!self.has_node(self.components[k].name));
            }
            assert forall|k: int, other: Seq<char>|
                0 <= k < next.components.len() && (#[trigger] next.components[k].touches(
                    other,
                )) implies next.has_node(other) by {
                assert(self.components[k].wf());
                self.components[k].lemma_without(name);
                assert(self.components[k].touches(other));
                let i = choose|i: int| 0 <= i < self.nodes.len() && self.nodes[i] == other;
                if i < index {
                    assert(next.nodes[i] == other);
                } else {
                    assert(next.nodes[i - 1] == other);
                }
            }
            if next.has_node(name) {
                let i = choose|i: int| 0 <= i < next.nodes.len() && next.nodes[i] == name;
                if i < index {
                    assert(self.nodes[i] == name);
                } else {
                    assert(self.nodes[i + 1] == name);
                }
            }
        }
    }

    /// Removing a component keeps the network well formed.
    pub proof fn lemma_remove_component(self, name: Seq<char>)
        requires
            self.wf(),
        ensures
            self.remove_component(name) matches Ok(next) ==> next.wf() && !next.has_component(
                name,
            ),
    {
        if let Ok(next) = self.remove_component(name) {
            self.component_names().index_of_first_ensures(name);
            let index = self.component_index(name).unwrap();
            assert(next.component_names() =~= self.component_names().remove(index));
            assert forall|k: int| 0 <= k < next.components.len() implies (
            #[trigger] next.components[k]).wf() && !next.has_node(next.components[k].name) by {
                if k < index {
                    assert(self.components[k].wf());
                    assert(!self.has_node(self.components[k].name));
                } else {
                    assert(self.components[k + 1].wf());
                    assert(!self.has_node(self.components[k + 1].name));
                }
            }
            assert forall|k: int, other: Seq<char>|
                0 <= k < next.components.len() && (#[trigger] next.components[k].touches(
                    other,
                )) implies next.has_node(other) by {
                if k < index {
                    assert(self.components[k].touches(other));
                } else {
                    assert(self.components[k + 1].touches(other));
                }
            }
            if next.has_component(name) {
                let names = self.component_names();
                let i = choose|i: int|
                    0 <= i < next.component_names().len() && next.component_names()[i] == name;
                if i < index {
                    assert(names[i] == name);
                } else {
                    assert(names[i + 1] == name);
                }
            }
        }
    }

    /// Putting a well-formed component of the same name in the place of
    /// one keeps the network well formed, where the new one is on no node
    /// that the old one was not on, but for one that the network holds.
    pub proof fn lemma_with_component(self, index: int, next: ComponentView, node: Seq<char>)
        requires
            self.wf(),
            0 <= index < self.components.len(),
            next.wf(),
            next.name == self.components[index].name,
            self.has_node(node),
            forall|other: Seq<char>|
                next.touches(other) ==> self.components[index].touches(other) || other == node,
        ensures
            self.with_component(index, Ok(next))->Ok_0.wf(),
    {
        let after = self.with_component(index, Ok(next))->Ok_0;
        assert(after.component_names() =~= self.component_names());
        assert forall|k: int| 0 <= k < after.components.len() implies (
        #[trigger] after.components[k]).wf() && !after.has_node(after.components[k].name) by {
            assert(self.components[k].wf());
            assert(!self.has_node(self.components[k].name));
        }
        assert forall|k: int, other: Seq<char>|
            0 <= k < after.components.len() && (#[trigger] after.components[k].touches(
                other,
            )) implies after.has_node(other) by {
            if k != index {
                assert(self.components[k].touches(other));
            } else if self.components[k].touches(other) {
            }
        }
    }

    /// A connection keeps the network well formed.
    pub proof fn lemma_connect(self, node: Seq<char>, component: Seq<char>, terminal: usize)
        requires
            self.wf(),
        ensures
            self.connect(node, component, terminal) matches Ok(next) ==> next.wf(),
    {
        if self.connect(node, component, terminal) is Ok {
            self.component_names().index_of_first_ensures(component);
            let index = self.component_index(component).unwrap();
            assert(self.components[index].wf());
            self.components[index].lemma_connect(node, terminal);
            self.lemma_with_component(
                index,
                self.components[index].connect(node, terminal)->Ok_0,
                node,
            );
        }
    }

    /// A disconnection keeps the network well formed.
    pub proof fn lemma_disconnect(self, node: Seq<char>, component: Seq<char>)
        requires
            self.wf(),
        ensures
            self.disconnect(node, component) matches Ok(next) ==> next.wf(),
    {
        if self.disconnect(node, component) is Ok {
            self.component_names().index_of_first_ensures(component);
            let index = self.component_index(component).unwrap();
            assert(self.components[index].wf());
            self.components[index].lemma_disconnect(node);
            self.lemma_with_component(
                index,
                self.components[index].disconnect(node)->Ok_0,
                node,
            );
        }
    }

    /// Opening and closing a switch keep the network well formed.
    pub proof fn lemma_switch(self, component: Seq<char>)
        requires
            self.wf(),
        ensures
            self.open(component) matches Ok(next) ==> next.wf(),
            self.close(component) matches Ok(next) ==> next.wf(),
    {
        if let Some(index) = self.component_index(component) {
            self.component_names().index_of_first_ensures(component);
            let old = self.components[index];
            assert(old.wf());
            if let Ok(next) = old.open() {
                self.lemma_switched(index, next);
            }
            if let Ok(next) = old.close() {
                self.lemma_switched(index, next);
            }
        }
    }

    /// A component that differs from the one in its place by the position
    /// of its switch alone can take that place.
    proof fn lemma_switched(self, index: int, next: ComponentView)
        requires
            self.wf(),
            0 <= index < self.components.len(),
            next == (ComponentView { position: next.position, ..self.components[index] }),
            next.position is Some <==> self.components[index].position is Some,
        ensures
            self.with_component(index, Ok(next))->Ok_0.wf(),
    {
        let after = self.with_component(index, Ok(next))->Ok_0;
        assert(self.components[index].wf());
        assert(after.component_names() =~= self.component_names());
        assert forall|k: int| 0 <= k < after.components.len() implies (
        #[trigger] after.components[k]).wf() && !after.has_node(after.components[k].name) by {
            assert(self.components[k].wf());
            assert(!self.has_node(self.components[k].name));
        }
        assert forall|k: int, other: Seq<char>|
            0 <= k < after.components.len() && (#[trigger] after.components[k].touches(
                other,
            )) implies after.has_node(other) by {
            assert(self.components[k].touches(other));
        }
    }
}

/// A network which contains nodes and components.
#[derive(Debug)]
pub struct Network {
    name: String,
    nodes: Vec<Node>,
    components: Vec<Component>,
}

impl View for Network {
    type V = NetworkView;

    closed spec fn view(&self) -> NetworkView {
        NetworkView {
            name: self.name@,
            nodes: Seq::new(self.nodes@.len(), |i: int| self.nodes@[i]@),
            components: Seq::new(self.components@.len(), |i: int| self.components@[i]@),
        }
    }
}

impl Network {
    /// The network is well formed: see [`NetworkView::wf`].
    pub open spec fn wf(&self) -> bool {
        self@.wf()
    }

    /// Constructor, sets the network name.
    pub fn new(name: &str) -> (network: Network)
        ensures
            network.wf(),
            network@ == NetworkView::empty(name@),
    {
        let network = Network {
            name: String::from_str(name),
            nodes: Vec::new(),
            components: Vec::new(),
        };
        proof {
            assert(network@.nodes =~= Seq::empty());
            assert(network@.components =~= Seq::empty());
        }
        network
    }

    /// Return the network name.
    pub fn name(&self) -> (name: &String)
        ensures
            name@ == self@.name,
    {
        &self.name
    }

    /// The line that shows this network: `Network ` and the name.
    pub fn display(&self) -> (line: String)
        ensures
            line@ == "Network "@ + self@.name,
    {
        String::from_str("Network ").concat(self.name.as_str())
    }

    /// Where the node of this name stands.
    fn find_node(&self, name: &String) -> (found: Option<usize>)
        ensures
            match found {
                Some(index) => self@.nodes.index_of_first(name@) == Some(index as int) && index
                    < self.nodes@.len() && self.nodes@[index as int]@ == name@ && self@.has_node(
                    name@,
                ),
                None => self@.nodes.index_of_first(name@) is None && !self@.has_node(name@),
            },
    {
        let mut i: usize = 0;
        while i < self.nodes.len()
            invariant
                i <= self.nodes@.len(),
                forall|k: int| 0 <= k < i ==> self@.nodes[k] != name@,
            decreases self.nodes@.len() - i,
        {
            if *self.nodes[i].name() == *name {
                proof {
                    self@.nodes.index_of_first_ensures(name@);
                    assert(self@.nodes[i as int] == name@);
                }
                return Some(i);
            }
            i += 1;
        }
        proof {
            self@.nodes.index_of_first_ensures(name@);
        }
        None
    }

    /// Where the component of this name stands.
    fn find_component(&self, name: &String) -> (found: Option<usize>)
        ensures
            match found {
                Some(index) => self@.component_index(name@) == Some(index as int) && index
                    < self.components@.len() && self.components@[index as int]@.name == name@
                    && self@.has_component(name@),
                None => self@.component_index(name@) is None && !self@.has_component(name@),
            },
    {
        let ghost names = self@.component_names();
        let mut i: usize = 0;
        while i < self.components.len()
            invariant
                i <= self.components@.len(),
                names == self@.component_names(),
                forall|k: int| 0 <= k < i ==> names[k] != name@,
            decreases self.components@.len() - i,
        {
            if *self.components[i].name() == *name {
                proof {
                    names.index_of_first_ensures(name@);
                    assert(names[i as int] == name@);
                }
                return Some(i);
            }
            i += 1;
        }
        proof {
            names.index_of_first_ensures(name@);
        }
        None
    }

    /// Check if a given name already exists in the network. Used to enforce
    /// unique names between all nodes and components within the network.
    pub fn check_name(&self, name: &str) -> (r: Result<(), Error>)
        ensures
            r is Ok <==> !self@.has_node(name@) && !self@.has_component(name@),
            r is Err ==> r == Err::<(), Error>(Error::NameConflict),
    {
        let key = String::from_str(name);
        if self.find_node(&key).is_some() || self.find_component(&key).is_some() {
            Err(Error::NameConflict)
        } else {
            Ok(())
        }
    }

    /// Create a node with the given name if the name is not already used in
    /// this network.
    pub fn create_node(&mut self, name: &str) -> (r: Result<(), Error>)
        requires
            old(self).wf(),
        ensures
            final(self).wf(),
            follows(r, old(self)@, final(self)@, old(self)@.create_node(name@)),
    {
        if self.check_name(name).is_err() {
            return Err(Error::NameConflict);
        }
        let ghost before = self@;
        self.nodes.push(Node::new(name));
        proof {
            assert(self@.nodes =~= before.nodes.push(name@));
            assert(self@.components =~= before.components);
            before.lemma_create_node(name@);
        }
        Ok(())
    }

    /// Return the number of nodes in the network.
    pub fn node_count(&self) -> (count: usize)
        ensures
            count == self@.nodes.len(),
    {
        self.nodes.len()
    }

    /// Get a reference to the node with the given name if it exists.
    pub fn get_node(&self, name: &str) -> (r: Result<&Node, Error>)
        ensures
            match r {
                Ok(node) => self@.has_node(name@) && node@ == name@,
                Err(e) => !self@.has_node(name@) && e == Error::NotFound(Missing::Node),
            },
    {
        let key = String::from_str(name);
        match self.find_node(&key) {
            Some(index) => {
                proof {
                    self@.nodes.index_of_first_ensures(name@);
                }
                Ok(&self.nodes[index])
            },
            None => Err(Error::NotFound(Missing::Node)),
        }
    }

    /// Create a component of a given type with a given name, if the name is
    /// not already in use in this network.
    pub fn create_component(&mut self, kind: ComponentType, name: &str) -> (r: Result<(), Error>)
        requires
            old(self).wf(),
        ensures
            final(self).wf(),
            follows(r, old(self)@, final(self)@, old(self)@.create_component(kind, name@)),
    {
        if self.check_name(name).is_err() {
            return Err(Error::NameConflict);
        }
        let ghost before = self@;
        self.components.push(Component::new(kind, name));
        proof {
            assert(self@.nodes =~= before.nodes);
            assert(self@.components =~= before.components.push(ComponentView::fresh(kind, name@)));
            before.lemma_create_component(kind, name@);
        }
        Ok(())
    }

    /// Return the number of components in the network.
    pub fn component_count(&self) -> (count: usize)
        ensures
            count == self@.components.len(),
    {
        self.components.len()
    }

    /// Get a reference to the component with the given name, if it exists in
    /// the network.
    pub fn get_component(&self, name: &str) -> (r: Result<&Component, Error>)
        ensures
            match r {
                Ok(component) => self@.component_index(name@) is Some && component@
                    == self@.components[self@.component_index(name@).unwrap()],
                Err(e) => self@.component_index(name@) is None && e == Error::NotFound(
                    Missing::Component,
                ),
            },
    {
        match self.resolve_component(name) {
            Ok(index) => Ok(&self.components[index]),
            Err(e) => Err(e),
        }
    }

    /// Remove a node with the given name from the network, if it exists.
    /// Every terminal that was wired to it is unwired.
    pub fn remove_node(&mut self, name: &str) -> (r: Result<(), Error>)
        requires
            old(self).wf(),
        ensures
            final(self).wf(),
            follows(r, old(self)@, final(self)@, old(self)@.remove_node(name@)),
    {
        let key = String::from_str(name);
        let index = match self.find_node(&key) {
            Some(index) => index,
            None => {
                return Err(Error::NotFound(Missing::Node));
            },
        };
        let ghost before = self@;
        let node = self.nodes.remove(index);
        proof {
            assert(self@.nodes =~= before.nodes.remove(index as int));
            assert(self@.components =~= before.components);
        }
        let count = self.components.len();
        let mut j: usize = 0;
        while j < count
            invariant
                j <= count,
                count == before.components.len(),
                before.wf(),
                node@ == name@,
                self@.name == before.name,
                self@.nodes == before.nodes.remove(index as int),
                self@.components.len() == count,
                forall|k: int| 0 <= k < j ==> self@.components[k] == before.components[k].without(name@),
                forall|k: int| j <= k < count ==> self@.components[k] == before.components[k],
            decreases count - j,
        {
            let ghost stage = self@;
            proof {
                assert(self.components@[j as int]@ == stage.components[j as int]);
                assert(before.components[j as int].wf());
            }
            let _ = self.components[j].disconnect(&node);
            proof {
                assert(self@.nodes =~= stage.nodes);
                assert(self@.components =~= stage.components.update(
                    j as int,
                    before.components[j as int].without(name@),
                ));
            }
            j += 1;
        }
        proof {
            assert(self@.components =~= Seq::new(
                before.components.len(),
                |k: int| before.components[k].without(name@),
            ));
            before.lemma_remove_node(name@);
        }
        Ok(())
    }

    /// Remove a component with the given name, if it exists in the network.
    pub fn remove_component(&mut self, name: &str) -> (r: Result<(), Error>)
        requires
            old(self).wf(),
        ensures
            final(self).wf(),
            follows(r, old(self)@, final(self)@, old(self)@.remove_component(name@)),
    {
        let index = match self.resolve_component(name) {
            Ok(index) => index,
            Err(e) => {
                return Err(e);
            },
        };
        let ghost before = self@;
        let _ = self.components.remove(index);
        proof {
            assert(self@.nodes =~= before.nodes);
            assert(self@.components =~= before.components.remove(index as int));
            before.lemma_remove_component(name@);
        }
        Ok(())
    }

    /// Where the node and the component of these names stand, or which of
    /// the two names does not resolve.
    fn resolve(&self, node_name: &str, component_name: &str) -> (r: Result<(usize, usize), Error>)
        ensures
            match r {
                Ok((n, c)) => self@.missing(node_name@, component_name@) is None && n
                    < self.nodes@.len() && self.nodes@[n as int]@ == node_name@ && c
                    < self.components@.len() && self@.component_index(component_name@) == Some(
                    c as int,
                ),
                Err(e) => self@.missing(node_name@, component_name@) matches Some(missing) && e
                    == Error::NotFound(missing),
            },
    {
        let node_key = String::from_str(node_name);
        let component_key = String::from_str(component_name);
        match (self.find_node(&node_key), self.find_component(&component_key)) {
            (None, None) => Err(Error::NotFound(Missing::Both)),
            (None, Some(_)) => Err(Error::NotFound(Missing::Node)),
            (Some(_), None) => Err(Error::NotFound(Missing::Component)),
            (Some(n), Some(c)) => Ok((n, c)),
        }
    }

    /// Where the component of this name stands, or that there is none.
    fn resolve_component(&self, component_name: &str) -> (r: Result<usize, Error>)
        ensures
            match r {
                Ok(c) => c < self.components@.len() && self@.component_index(component_name@)
                    == Some(c as int),
                Err(e) => self@.component_index(component_name@) is None && e == Error::NotFound(
                    Missing::Component,
                ),
            },
    {
        let key = String::from_str(component_name);
        match self.find_component(&key) {
            Some(c) => Ok(c),
            None => Err(Error::NotFound(Missing::Component)),
        }
    }

    /// An operation on one component, which left the rest of the network
    /// as it was, did to the network what it did to the component.
    proof fn lemma_one_component(
        prior: Network,
        now: Network,
        c: int,
        r: Result<(), Error>,
        outcome: Result<ComponentView, ErrorView>,
    )
        requires
            0 <= c < prior.components@.len(),
            now.name == prior.name,
            now.nodes == prior.nodes,
            now.components@.len() == prior.components@.len(),
            forall|k: int|
                0 <= k < prior.components@.len() && k != c ==> now.components@[k]
                    == prior.components@[k],
            follows(r, prior.components@[c]@, now.components@[c]@, outcome),
        ensures
            follows(r, prior@, now@, prior@.with_component(c, outcome)),
    {
        assert(now@.nodes =~= prior@.nodes);
        if r is Ok {
            assert(now@.components =~= prior@.components.update(c, now.components@[c]@));
        } else {
            assert(now@.components =~= prior@.components);
        }
    }

    /// Connect a component terminal to a node.
    pub fn connect(&mut self, node_name: &str, component_name: &str, terminal: usize) -> (r:
        Result<(), Error>)
        requires
            old(self).wf(),
        ensures
            final(self).wf(),
            follows(
                r,
                old(self)@,
                final(self)@,
                old(self)@.connect(node_name@, component_name@, terminal),
            ),
    {
        let (n, c) = match self.resolve(node_name, component_name) {
            Ok(found) => found,
            Err(e) => {
                return Err(e);
            },
        };
        let ghost prior = *self;
        let node = self.nodes[n].clone();
        proof {
            assert(prior@.components[c as int].wf());
        }
        let r = self.components[c].connect(node, terminal);
        proof {
            Self::lemma_one_component(
                prior,
                *self,
                c as int,
                r,
                prior@.components[c as int].connect(node_name@, terminal),
            );
            prior@.lemma_connect(node_name@, component_name@, terminal);
        }
        r
    }

    /// Disconnect a component from a node if it is connected.
    pub fn disconnect(&mut self, node_name: &str, component_name: &str) -> (r: Result<(), Error>)
        requires
            old(self).wf(),
        ensures
            final(self).wf(),
            follows(
                r,
                old(self)@,
                final(self)@,
                old(self)@.disconnect(node_name@, component_name@),
            ),
    {
        let (n, c) = match self.resolve(node_name, component_name) {
            Ok(found) => found,
            Err(e) => {
                return Err(e);
            },
        };
        let ghost prior = *self;
        let node = self.nodes[n].clone();
        proof {
            assert(prior@.components[c as int].wf());
        }
        let r = self.components[c].disconnect(&node);
        proof {
            Self::lemma_one_component(
                prior,
                *self,
                c as int,
                r,
                prior@.components[c as int].disconnect(node_name@),
            );
            prior@.lemma_disconnect(node_name@, component_name@);
        }
        r
    }

    /// Opens the switch of the component with the given name.
    pub fn open(&mut self, component_name: &str) -> (r: Result<(), Error>)
        requires
            old(self).wf(),
        ensures
            final(self).wf(),
            follows(r, old(self)@, final(self)@, old(self)@.open(component_name@)),
    {
        let c = match self.resolve_component(component_name) {
            Ok(c) => c,
            Err(e) => {
                return Err(e);
            },
        };
        let ghost prior = *self;
        let r = self.components[c].open();
        proof {
            Self::lemma_one_component(prior, *self, c as int, r, prior@.components[c as int].open());
            prior@.lemma_switch(component_name@);
        }
        r
    }

    /// Closes the switch of the component with the given name.
    pub fn close(&mut self, component_name: &str) -> (r: Result<(), Error>)
        requires
            old(self).wf(),
        ensures
            final(self).wf(),
            follows(r, old(self)@, final(self)@, old(self)@.close(component_name@)),
    {
        let c = match self.resolve_component(component_name) {
            Ok(c) => c,
            Err(e) => {
                return Err(e);
            },
        };
        let ghost prior = *self;
        let r = self.components[c].close();
        proof {
            Self::lemma_one_component(
                prior,
                *self,
                c as int,
                r,
                prior@.components[c as int].close(),
            );
            prior@.lemma_switch(component_name@);
        }
        r
    }

    /// The line of each node in the network, in the order of creation.
    pub fn list_nodes(&self) -> (lines: Vec<String>)
        ensures
            lines@.len() == self@.nodes.len(),
            forall|i: int| 0 <= i < lines@.len() ==> lines@[i]@ == "Node "@ + self@.nodes[i],
    {
        let mut lines: Vec<String> = Vec::new();
        let mut i: usize = 0;
        while i < self.nodes.len()
            invariant
                i <= self.nodes@.len(),
                lines@.len() == i,
                forall|k: int| 0 <= k < i ==> lines@[k]@ == "Node "@ + self@.nodes[k],
            decreases self.nodes@.len() - i,
        {
            lines.push(self.nodes[i].display());
            i += 1;
        }
        lines
    }

    /// The line of each component in the network, in the order of creation.
    pub fn list_components(&self) -> (lines: Vec<String>)
        ensures
            lines@.len() == self@.components.len(),
            forall|i: int|
                0 <= i < lines@.len() ==> lines@[i]@ == "Component "@ + self@.components[i].name
                    + " of type "@ + self@.components[i].kind.label(),
    {
        let mut lines: Vec<String> = Vec::new();
        let mut i: usize = 0;
        while i < self.components.len()
            invariant
                i <= self.components@.len(),
                lines@.len() == i,
                forall|k: int|
                    0 <= k < i ==> lines@[k]@ == "Component "@ + self@.components[k].name
                        + " of type "@ + self@.components[k].kind.label(),
            decreases self.components@.len() - i,
        {
            lines.push(self.components[i].display());
            i += 1;
        }
        lines
    }
}

} // verus!
