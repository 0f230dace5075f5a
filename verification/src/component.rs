//! Components: switchgear and transformers, each with a fixed row of
//! terminals and, for switchgear, a position.

use vstd::prelude::*;
use vstd::string::StringExecFns;

use crate::error::{follows, Error, ErrorView};
use crate::node::Node;
use crate::position::{SwitchPosition, SwitchgearPosition};
use crate::terminal::Terminal;

verus! {

/// Component Type
#[derive(Debug, Clone, Copy, PartialEq, Eq, Structural)]
pub enum ComponentType {
    /// Circuit Breaker
    CircuitBreaker,
    /// Disconnector
    Disconnector,
    /// Earthing Switch
    EarthingSwitch,
    /// Voltage Transformer
    VoltageTransformer,
    /// Transformer
    Transformer,
}

impl ComponentType {
    /// How many terminals a component of this type has.
    pub open spec fn terminals(self) -> nat {
        match self {
            ComponentType::CircuitBreaker => 2,
            ComponentType::Disconnector => 2,
            ComponentType::EarthingSwitch => 1,
            ComponentType::VoltageTransformer => 1,
            ComponentType::Transformer => 3,
        }
    }

    /// Whether a component of this type has a switch position.
    pub open spec fn switchgear(self) -> bool {
        match self {
            ComponentType::CircuitBreaker => true,
            ComponentType::Disconnector => true,
            ComponentType::EarthingSwitch => true,
            ComponentType::VoltageTransformer => false,
            ComponentType::Transformer => false,
        }
    }

    /// The type's name as a listing shows it.
    pub open spec fn label(self) -> Seq<char> {
        match self {
            ComponentType::CircuitBreaker => "CircuitBreaker"@,
            ComponentType::Disconnector => "Disconnector"@,
            ComponentType::EarthingSwitch => "EarthingSwitch"@,
            ComponentType::VoltageTransformer => "VoltageTransformer"@,
            ComponentType::Transformer => "Transformer"@,
        }
    }

    /// How many terminals a component of this type has.
    pub fn terminal_count(self) -> (count: usize)
        ensures
            count == self.terminals(),
    {
        match self {
            ComponentType::CircuitBreaker => 2,
            ComponentType::Disconnector => 2,
            ComponentType::EarthingSwitch => 1,
            ComponentType::VoltageTransformer => 1,
            ComponentType::Transformer => 3,
        }
    }

    /// Whether a component of this type can be opened and closed.
    pub fn is_switchgear(self) -> (switchgear: bool)
        ensures
            switchgear == self.switchgear(),
    {
        match self {
            ComponentType::CircuitBreaker => true,
            ComponentType::Disconnector => true,
            ComponentType::EarthingSwitch => true,
            ComponentType::VoltageTransformer => false,
            ComponentType::Transformer => false,
        }
    }

    /// The type's name as a listing shows it.
    pub fn name(self) -> (name: &'static str)
        ensures
            name@ == self.label(),
    {
        match self {
            ComponentType::CircuitBreaker => "CircuitBreaker",
            ComponentType::Disconnector => "Disconnector",
            ComponentType::EarthingSwitch => "EarthingSwitch",
            ComponentType::VoltageTransformer => "VoltageTransformer",
            ComponentType::Transformer => "Transformer",
        }
    }
}

/// What a component is, as plain values: its name, its type, its switch
/// position if it has one, and for each terminal the name of the node it is
/// wired to.
pub struct ComponentView {
    pub name: Seq<char>,
    pub kind: ComponentType,
    pub position: Option<SwitchPosition>,
    pub terminals: Seq<Option<Seq<char>>>,
}

impl ComponentView {
    /// The terminals and the position fit the type, and no two terminals
    /// are wired to the same node.
    pub open spec fn wf(self) -> bool {
        &&& self.terminals.len() == self.kind.terminals()
        &&& self.position is Some <==> self.kind.switchgear()
        &&& forall|i: int, j: int|
            0 <= i < j < self.terminals.len() && self.terminals[i] is Some ==> self.terminals[i]
                != self.terminals[j]
    }

    /// A new component: nothing wired, and the switch, if any, open.
    pub open spec fn fresh(kind: ComponentType, name: Seq<char>) -> ComponentView {
        ComponentView {
            name,
            kind,
            position: if kind.switchgear() {
                Some(SwitchPosition::Open)
            } else {
                None
            },
            terminals: Seq::new(kind.terminals(), |i: int| None),
        }
    }

    /// The lowest terminal other than `index` that is wired to `node`.
    pub open spec fn other_terminal_on(self, node: Seq<char>, index: int) -> Option<int> {
        self.terminals.update(index, None).index_of_first(Some(node))
    }

    /// The lowest terminal that is wired to `node`.
    pub open spec fn terminal_on(self, node: Seq<char>) -> Option<int> {
        self.terminals.index_of_first(Some(node))
    }

    /// Whether some terminal is wired to `node`.
    pub open spec fn touches(self, node: Seq<char>) -> bool {
        self.terminals.contains(Some(node))
    }

    /// Wiring terminal `index` to `node`. The index must exist; then no
    /// other terminal may be on that node; then the terminal must be free.
    pub open spec fn connect(self, node: Seq<char>, index: usize) -> Result<
        ComponentView,
        ErrorView,
    > {
        if index >= self.terminals.len() {
            Err(
                ErrorView::TerminalOutOfRange {
                    index,
                    available: self.terminals.len() as usize,
                },
            )
        } else if let Some(other) = self.other_terminal_on(node, index as int) {
            Err(ErrorView::DuplicateNodeOnComponent { node, other_index: other as usize })
        } else if self.terminals[index as int] is Some {
            Err(ErrorView::TerminalOccupied)
        } else {
            Ok(ComponentView { terminals: self.terminals.update(index as int, Some(node)), ..self })
        }
    }

    /// Unwiring the lowest terminal that is on `node`.
    pub open spec fn disconnect(self, node: Seq<char>) -> Result<ComponentView, ErrorView> {
        match self.terminal_on(node) {
            Some(index) => Ok(
                ComponentView { terminals: self.terminals.update(index, None), ..self },
            ),
            None => Err(ErrorView::NotConnected),
        }
    }

    /// The component with its terminal on `node`, if it has one, unwired.
    pub open spec fn without(self, node: Seq<char>) -> ComponentView {
        match self.disconnect(node) {
            Ok(next) => next,
            Err(_) => self,
        }
    }

    /// A well-formed component is on a node with one terminal at most, so
    /// unwiring one terminal leaves none on that node, and leaves the others
    /// as they were.
    pub proof fn lemma_without(self, node: Seq<char>)
        requires
            self.wf(),
        ensures
            self.without(node).wf(),
            !self.without(node).touches(node),
            forall|other: Seq<char>|
                other != node ==> (self.without(node).touches(other) <==> self.touches(other)),
            !self.touches(node) ==> self.without(node) == self,
    {
        self.terminals.index_of_first_ensures(Some(node));
        let next = self.without(node);
        match self.terminal_on(node) {
            Some(index) => {
                assert forall|other: Seq<char>| other != node implies (next.touches(other)
                    <==> self.touches(other)) by {
                    if self.touches(other) {
                        let k = choose|k: int|
                            0 <= k < self.terminals.len() && self.terminals[k] == Some(other);
                        assert(next.terminals[k] == Some(other));
                    }
                    if next.touches(other) {
                        let k = choose|k: int|
                            0 <= k < next.terminals.len() && next.terminals[k] == Some(other);
                        assert(self.terminals[k] == Some(other));
                    }
                }
                if next.touches(node) {
                    let k = choose|k: int|
                        0 <= k < next.terminals.len() && next.terminals[k] == Some(node);
                    assert(self.terminals[k] == Some(node));
                    assert(k != index);
                }
            },
            None => {},
        }
    }

    /// A connection keeps the component well formed and its name, and puts
    /// it on no node but the one that was connected.
    pub proof fn lemma_connect(self, node: Seq<char>, index: usize)
        requires
            self.wf(),
        ensures
            self.connect(node, index) matches Ok(next) ==> next.wf() && next.name == self.name
                && next.kind == self.kind && forall|other: Seq<char>|
                next.touches(other) ==> self.touches(other) || other == node,
    {
        if let Ok(next) = self.connect(node, index) {
            let others = self.terminals.update(index as int, None);
            others.index_of_first_ensures(Some(node));
            assert forall|k: int| 0 <= k < self.terminals.len() && k != index implies next.terminals[k]
                != Some(node) by {
                assert(others[k] == self.terminals[k]);
            }
            assert forall|other: Seq<char>| next.touches(other) implies self.touches(other)
                || other == node by {
                let t = choose|t: int|
                    0 <= t < next.terminals.len() && next.terminals[t] == Some(other);
                if t != index {
                    assert(self.terminals[t] == Some(other));
                }
            }
        }
    }

    /// A disconnection keeps the component well formed and its name, and
    /// puts it on no node that it was not on.
    pub proof fn lemma_disconnect(self, node: Seq<char>)
        requires
            self.wf(),
        ensures
            self.disconnect(node) matches Ok(next) ==> next.wf() && next.name == self.name
                && next.kind == self.kind && forall|other: Seq<char>|
                next.touches(other) ==> self.touches(other),
    {
        if let Ok(next) = self.disconnect(node) {
            self.terminals.index_of_first_ensures(Some(node));
            assert forall|other: Seq<char>| next.touches(other) implies self.touches(other) by {
                let t = choose|t: int|
                    0 <= t < next.terminals.len() && next.terminals[t] == Some(other);
                assert(self.terminals[t] == Some(other));
            }
        }
    }

    /// The component with its switch in another position.
    pub open spec fn with_position(self, outcome: Result<SwitchPosition, ErrorView>) -> Result<
        ComponentView,
        ErrorView,
    > {
        match outcome {
            Ok(position) => Ok(ComponentView { position: Some(position), ..self }),
            Err(e) => Err(e),
        }
    }

    /// Opening the switch, which only switchgear has.
    pub open spec fn open(self) -> Result<ComponentView, ErrorView> {
        match self.position {
            Some(position) => self.with_position(position.open()),
            None => Err(ErrorView::NotSwitchgear),
        }
    }

    /// Closing the switch, which only switchgear has.
    pub open spec fn close(self) -> Result<ComponentView, ErrorView> {
        match self.position {
            Some(position) => self.with_position(position.close()),
            None => Err(ErrorView::NotSwitchgear),
        }
    }
}

/// A named piece of switchgear or a transformer.
#[derive(Debug)]
pub struct Component {
    name: String,
    kind: ComponentType,
    position: Option<SwitchgearPosition>,
    terminals: Vec<Terminal>,
}

impl View for Component {
    type V = ComponentView;

    closed spec fn view(&self) -> ComponentView {
        ComponentView {
            name: self.name@,
            kind: self.kind,
            position: match self.position {
                Some(position) => Some(position@),
                None => None,
            },
            terminals: Seq::new(self.terminals@.len(), |i: int| self.terminals@[i]@),
        }
    }
}

impl Component {
    /// The component is well formed: see [`ComponentView::wf`].
    pub open spec fn wf(&self) -> bool {
        self@.wf()
    }

    /// A new component of the given type: nothing wired, the switch open.
    pub fn new(kind: ComponentType, name: &str) -> (component: Component)
        ensures
            component.wf(),
            component@ == ComponentView::fresh(kind, name@),
    {
        let count = kind.terminal_count();
        let mut terminals: Vec<Terminal> = Vec::new();
        while terminals.len() < count
            invariant
                terminals@.len() <= count,
                forall|i: int| 0 <= i < terminals@.len() ==> terminals@[i]@ is None,
            decreases count - terminals@.len(),
        {
            terminals.push(Terminal::new());
        }
        let position = if kind.is_switchgear() {
            Some(SwitchgearPosition::new())
        } else {
            None
        };
        let component = Component { name: String::from_str(name), kind, position, terminals };
        proof {
            assert(component@.terminals =~= ComponentView::fresh(kind, name@).terminals);
        }
        component
    }

    /// Returns the type of the component.
    pub fn component_type(&self) -> (kind: ComponentType)
        ensures
            kind == self@.kind,
    {
        self.kind
    }

    /// Returns the name of the component.
    pub fn name(&self) -> (name: &String)
        ensures
            name@ == self@.name,
    {
        &self.name
    }

    /// How many terminals the component has.
    pub fn terminal_count(&self) -> (count: usize)
        ensures
            count == self@.terminals.len(),
    {
        self.terminals.len()
    }

    /// Returns the terminal with the given index.
    pub fn terminal(&self, index: usize) -> (r: Result<&Terminal, Error>)
        ensures
            match r {
                Ok(terminal) => index < self@.terminals.len() && terminal@
                    == self@.terminals[index as int],
                Err(e) => index >= self@.terminals.len() && e == (Error::TerminalOutOfRange {
                    index,
                    available: self@.terminals.len() as usize,
                }),
            },
    {
        if index < self.terminals.len() {
            Ok(&self.terminals[index])
        } else {
            Err(Error::TerminalOutOfRange { index, available: self.terminals.len() })
        }
    }

    /// Returns the switch position, which only switchgear has.
    pub fn position(&self) -> (r: Result<&SwitchgearPosition, Error>)
        ensures
            match r {
                Ok(position) => self@.position == Some(position@),
                Err(e) => self@.position is None && e == Error::NotSwitchgear,
            },
    {
        match &self.position {
            Some(position) => Ok(position),
            None => Err(Error::NotSwitchgear),
        }
    }

    /// Connect the component to a node on a given terminal index.
    pub fn connect(&mut self, node: Node, terminal_index: usize) -> (r: Result<(), Error>)
        requires
            old(self).wf(),
        ensures
            final(self).wf(),
            follows(r, old(self)@, final(self)@, old(self)@.connect(node@, terminal_index)),
    {
        let count = self.terminals.len();
        if terminal_index >= count {
            return Err(Error::TerminalOutOfRange { index: terminal_index, available: count });
        }
        let ghost others = self@.terminals.update(terminal_index as int, None);
        let mut i: usize = 0;
        while i < count
            invariant
                i <= count,
                count == self.terminals@.len(),
                *self == *old(self),
                self.wf(),
                others == self@.terminals.update(terminal_index as int, None),
                terminal_index < count,
                forall|k: int| 0 <= k < i ==> others[k] != Some(node@),
            decreases count - i,
        {
            if i != terminal_index && self.terminals[i].is_on(node.name()) {
                proof {
                    others.index_of_first_ensures(Some(node@));
                    assert(others[i as int] == Some(node@));
                }
                return Err(
                    Error::DuplicateNodeOnComponent { node: node.name().clone(), other_index: i },
                );
            }
            i += 1;
        }
        proof {
            others.index_of_first_ensures(Some(node@));
        }
        let ghost before = self@;
        let r = self.terminals[terminal_index].connect(node);
        proof {
            if r is Ok {
                assert(self@.terminals =~= before.terminals.update(
                    terminal_index as int,
                    Some(node@),
                ));
                before.lemma_connect(node@, terminal_index);
            } else {
                assert(self@.terminals =~= before.terminals);
            }
        }
        r
    }

    /// Disconnect the component from the given node: the lowest terminal
    /// that is on it is unwired.
    pub fn disconnect(&mut self, node: &Node) -> (r: Result<(), Error>)
        requires
            old(self).wf(),
        ensures
            final(self).wf(),
            follows(r, old(self)@, final(self)@, old(self)@.disconnect(node@)),
    {
        let count = self.terminals.len();
        let mut i: usize = 0;
        while i < count
            invariant
                i <= count,
                count == self.terminals@.len(),
                *self == *old(self),
                self.wf(),
                forall|k: int| 0 <= k < i ==> self@.terminals[k] != Some(node@),
            decreases count - i,
        {
            if self.terminals[i].is_on(node.name()) {
                let ghost before = self@;
                proof {
                    before.terminals.index_of_first_ensures(Some(node@));
                    assert(before.terminals[i as int] == Some(node@));
                }
                let r = self.terminals[i].disconnect();
                proof {
                    assert(self@.terminals =~= before.terminals.update(i as int, None));
                    before.lemma_disconnect(node@);
                }
                return r;
            }
            i += 1;
        }
        proof {
            self@.terminals.index_of_first_ensures(Some(node@));
        }
        Err(Error::NotConnected)
    }

    /// Opens the switch. Only switchgear has one.
    pub fn open(&mut self) -> (r: Result<(), Error>)
        ensures
            old(self).wf() ==> final(self).wf(),
            follows(r, old(self)@, final(self)@, old(self)@.open()),
    {
        match &mut self.position {
            Some(position) => position.open(),
            None => Err(Error::NotSwitchgear),
        }
    }

    /// Closes the switch. Only switchgear has one.
    pub fn close(&mut self) -> (r: Result<(), Error>)
        ensures
            old(self).wf() ==> final(self).wf(),
            follows(r, old(self)@, final(self)@, old(self)@.close()),
    {
        match &mut self.position {
            Some(position) => position.close(),
            None => Err(Error::NotSwitchgear),
        }
    }

    /// The line that a listing shows for this component: its name and type.
    pub fn display(&self) -> (line: String)
        ensures
            line@ == "Component "@ + self@.name + " of type "@ + self@.kind.label(),
    {
        String::from_str("Component ").concat(self.name.as_str()).concat(" of type ").concat(
            self.kind.name(),
        )
    }
}

} // verus!
