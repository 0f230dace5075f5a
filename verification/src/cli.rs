//! The command line: what a line of input asks for, and what each command
//! does to a network. Reading the line and printing the reply are left to
//! the caller.

use vstd::prelude::*;
use vstd::string::StringExecFns;

use crate::component::ComponentType;
use crate::error::{Error, ErrorView, Missing};
use crate::network::{Network, NetworkView};
use crate::text::{
    fold, index_of_text, is_word, parse_index, same_text, texts, tokens, words,
};

verus! {

/// A CLI command
#[derive(Debug, PartialEq)]
pub enum Command<'a> {
    /// Create component / node command
    Create([&'a str; 2]),
    /// Delete component / node command
    Delete(&'a str),
    /// List all components + nodes command
    List(),
    /// Show component / node command
    Show(&'a str),
    /// Connect component and node command
    Connect([&'a str; 3]),
    /// Disconnected component and node command
    Disconnect([&'a str; 2]),
    /// Open switchgear command
    Open(&'a str),
    /// Close switchgear command
    Close(&'a str),
    /// Exit program command
    Exit,
    /// Display help command
    Help,
    /// Unknown command
    Undefined,
}

/// A command with its arguments as sequences of characters.
pub enum CommandView {
    Create(Seq<char>, Seq<char>),
    Delete(Seq<char>),
    List,
    Show(Seq<char>),
    Connect(Seq<char>, Seq<char>, Seq<char>),
    Disconnect(Seq<char>, Seq<char>),
    Open(Seq<char>),
    Close(Seq<char>),
    Exit,
    Help,
    Undefined,
}

impl<'a> View for Command<'a> {
    type V = CommandView;

    open spec fn view(&self) -> CommandView {
        match *self {
            Command::Create(args) => CommandView::Create(args[0]@, args[1]@),
            Command::Delete(arg) => CommandView::Delete(arg@),
            Command::List() => CommandView::List,
            Command::Show(arg) => CommandView::Show(arg@),
            Command::Connect(args) => CommandView::Connect(args[0]@, args[1]@, args[2]@),
            Command::Disconnect(args) => CommandView::Disconnect(args[0]@, args[1]@),
            Command::Open(arg) => CommandView::Open(arg@),
            Command::Close(arg) => CommandView::Close(arg@),
            Command::Exit => CommandView::Exit,
            Command::Help => CommandView::Help,
            Command::Undefined => CommandView::Undefined,
        }
    }
}

/// The command that a line of input asks for. The tokens of the line are
/// its longest runs of characters that are no white space. The first token,
/// in any case of its letters, names the command; the tokens behind it are
/// its arguments, and those that the command has no use for are passed
/// over. A line without a token is undefined, as is a command that lacks an
/// argument and a first token that names no command.
pub open spec fn parse(line: Seq<char>) -> CommandView {
    let tokens = words(line);
    let word = fold(tokens[0]);
    let given = tokens.len();
    if given == 0 {
        CommandView::Undefined
    } else if word == "create"@ {
        if given < 3 {
            CommandView::Undefined
        } else {
            CommandView::Create(tokens[1], tokens[2])
        }
    } else if word == "delete"@ {
        if given < 2 {
            CommandView::Undefined
        } else {
            CommandView::Delete(tokens[1])
        }
    } else if word == "list"@ {
        CommandView::List
    } else if word == "show"@ {
        if given < 2 {
            CommandView::Undefined
        } else {
            CommandView::Show(tokens[1])
        }
    } else if word == "connect"@ {
        if given < 4 {
            CommandView::Undefined
        } else {
            CommandView::Connect(tokens[1], tokens[2], tokens[3])
        }
    } else if word == "disconnect"@ {
        if given < 3 {
            CommandView::Undefined
        } else {
            CommandView::Disconnect(tokens[1], tokens[2])
        }
    } else if word == "open"@ {
        if given < 2 {
            CommandView::Undefined
        } else {
            CommandView::Open(tokens[1])
        }
    } else if word == "close"@ {
        if given < 2 {
            CommandView::Undefined
        } else {
            CommandView::Close(tokens[1])
        }
    } else if word == "exit"@ {
        CommandView::Exit
    } else if word == "help"@ {
        CommandView::Help
    } else {
        CommandView::Undefined
    }
}

/// Reads a line of input as a command.
pub fn process_input(buf: &str) -> (command: Command<'_>)
    ensures
        command@ == parse(buf@),
{
    let split = tokens(buf);
    let given = split.len();
    proof {
        let all = texts(split@);
        assert(all.len() == given);
        assert(forall|k: int| 0 <= k < given ==> all[k] == split@[k]@);
    }
    if given == 0 {
        return Command::Undefined;
    }
    let word = split[0];
    if is_word(word, "create") {
        if given < 3 {
            Command::Undefined
        } else {
            Command::Create([split[1], split[2]])
        }
    } else if is_word(word, "delete") {
        if given < 2 {
            Command::Undefined
        } else {
            Command::Delete(split[1])
        }
    } else if is_word(word, "list") {
        Command::List()
    } else if is_word(word, "show") {
        if given < 2 {
            Command::Undefined
        } else {
            Command::Show(split[1])
        }
    } else if is_word(word, "connect") {
        if given < 4 {
            Command::Undefined
        } else {
            Command::Connect([split[1], split[2], split[3]])
        }
    } else if is_word(word, "disconnect") {
        if given < 3 {
            Command::Undefined
        } else {
            Command::Disconnect([split[1], split[2]])
        }
    } else if is_word(word, "open") {
        if given < 2 {
            Command::Undefined
        } else {
            Command::Open(split[1])
        }
    } else if is_word(word, "close") {
        if given < 2 {
            Command::Undefined
        } else {
            Command::Close(split[1])
        }
    } else if is_word(word, "exit") {
        Command::Exit
    } else if is_word(word, "help") {
        Command::Help
    } else {
        Command::Undefined
    }
}

/// What a `create` command can make.
#[derive(Debug, Clone, Copy, PartialEq, Eq, Structural)]
pub enum Entity {
    /// A node.
    Node,
    /// A component of the given type.
    Component(ComponentType),
}

/// Which kind of entity a name was found to be.
#[derive(Debug, Clone, Copy, PartialEq, Eq, Structural)]
pub enum Found {
    /// The name of a node.
    Node,
    /// The name of a component.
    Component,
}

/// What a command that was carried out has to tell.
#[derive(Debug, PartialEq, Eq)]
pub enum Reply {
    /// The entity was created.
    Created(Entity),
    /// The node or the component of the name was deleted.
    Deleted(Found),
    /// The lines of the nodes and of the components.
    Listing { nodes: Vec<String>, components: Vec<String> },
    /// The line of the entity.
    Shown(String),
    /// The network was changed as asked.
    Done,
    /// The session is to end.
    Exit,
    /// The help text is to be shown.
    Help,
}

/// Why a command was not carried out.
#[derive(Debug, PartialEq, Eq)]
pub enum Rejection {
    /// The network refused the operation.
    Refused(Error),
    /// The first argument of `create` names nothing that can be created.
    UnknownType,
    /// The third argument of `connect` is no index.
    TerminalNotANumber,
    /// The line is no command.
    InvalidCommand,
}

/// A [`Reply`] with its texts as sequences of characters.
pub enum ReplyView {
    Created(Entity),
    Deleted(Found),
    Listing { nodes: Seq<Seq<char>>, components: Seq<Seq<char>> },
    Shown(Seq<char>),
    Done,
    Exit,
    Help,
}

/// A [`Rejection`] with its texts as sequences of characters.
pub enum RejectionView {
    Refused(ErrorView),
    UnknownType,
    TerminalNotANumber,
    InvalidCommand,
}

impl View for Reply {
    type V = ReplyView;

    open spec fn view(&self) -> ReplyView {
        match *self {
            Reply::Created(entity) => ReplyView::Created(entity),
            Reply::Deleted(found) => ReplyView::Deleted(found),
            Reply::Listing { nodes, components } => ReplyView::Listing {
                nodes: Seq::new(nodes@.len(), |i: int| nodes@[i]@),
                components: Seq::new(components@.len(), |i: int| components@[i]@),
            },
            Reply::Shown(line) => ReplyView::Shown(line@),
            Reply::Done => ReplyView::Done,
            Reply::Exit => ReplyView::Exit,
            Reply::Help => ReplyView::Help,
        }
    }
}

impl View for Rejection {
    type V = RejectionView;

    open spec fn view(&self) -> RejectionView {
        match *self {
            Rejection::Refused(e) => RejectionView::Refused(e@),
            Rejection::UnknownType => RejectionView::UnknownType,
            Rejection::TerminalNotANumber => RejectionView::TerminalNotANumber,
            Rejection::InvalidCommand => RejectionView::InvalidCommand,
        }
    }
}

impl RejectionView {
    /// The rejection in words.
    pub open spec fn text(self) -> Seq<char> {
        match self {
            RejectionView::Refused(e) => e.text(),
            RejectionView::UnknownType => "This type does not exist (cb, ds, es, vt, tf, node)"@,
            RejectionView::TerminalNotANumber =>
                "Terminal (3rd argument) is not an unsigned integer"@,
            RejectionView::InvalidCommand => "Invalid command; type 'help' to see valid commands"@,
        }
    }
}

impl Rejection {
    /// The message that describes the rejection.
    pub fn message(&self) -> (text: String)
        ensures
            text@ == self@.text(),
    {
        match self {
            Rejection::Refused(e) => e.message(),
            Rejection::UnknownType => String::from_str(
                "This type does not exist (cb, ds, es, vt, tf, node)",
            ),
            Rejection::TerminalNotANumber => String::from_str(
                "Terminal (3rd argument) is not an unsigned integer",
            ),
            Rejection::InvalidCommand => String::from_str(
                "Invalid command; type 'help' to see valid commands",
            ),
        }
    }
}

/// The network that a command leaves behind, and what it returns.
pub struct Outcome {
    pub network: NetworkView,
    pub result: Result<ReplyView, RejectionView>,
}

/// The outcome that a network and a returned value make up.
pub open spec fn outcome_of(network: NetworkView, r: Result<Reply, Rejection>) -> Outcome {
    Outcome {
        network,
        result: match r {
            Ok(reply) => Ok(reply@),
            Err(rejection) => Err(rejection@),
        },
    }
}

/// The outcome of a command that rests on one operation of the network:
/// the new network and the reply where the operation succeeds, the old
/// network and the refusal where it does not.
pub open spec fn settled(
    network: NetworkView,
    step: Result<NetworkView, ErrorView>,
    reply: ReplyView,
) -> Outcome {
    match step {
        Ok(next) => Outcome { network: next, result: Ok(reply) },
        Err(e) => Outcome { network, result: Err(RejectionView::Refused(e)) },
    }
}

/// The outcome of a command that changes nothing.
pub open spec fn unchanged(network: NetworkView, result: Result<ReplyView, RejectionView>)
    -> Outcome {
    Outcome { network, result }
}

/// What the first argument of `create` names.
pub open spec fn entity_of(word: Seq<char>) -> Option<Entity> {
    if word == "cb"@ {
        Some(Entity::Component(ComponentType::CircuitBreaker))
    } else if word == "ds"@ {
        Some(Entity::Component(ComponentType::Disconnector))
    } else if word == "es"@ {
        Some(Entity::Component(ComponentType::EarthingSwitch))
    } else if word == "vt"@ {
        Some(Entity::Component(ComponentType::VoltageTransformer))
    } else if word == "tf"@ {
        Some(Entity::Component(ComponentType::Transformer))
    } else if word == "node"@ {
        Some(Entity::Node)
    } else {
        None
    }
}

/// The line that shows a node.
pub open spec fn node_line(name: Seq<char>) -> Seq<char> {
    "Node "@ + name
}

/// The line that shows a component.
pub open spec fn component_line(name: Seq<char>, kind: ComponentType) -> Seq<char> {
    "Component "@ + name + " of type "@ + kind.label()
}

impl NetworkView {
    /// `create`: the kind must be known, then the network decides.
    pub open spec fn on_create(self, kind: Seq<char>, name: Seq<char>) -> Outcome {
        match entity_of(kind) {
            Some(Entity::Node) => settled(
                self,
                self.create_node(name),
                ReplyView::Created(Entity::Node),
            ),
            Some(Entity::Component(kind)) => settled(
                self,
                self.create_component(kind, name),
                ReplyView::Created(Entity::Component(kind)),
            ),
            None => unchanged(self, Err(RejectionView::UnknownType)),
        }
    }

    /// `delete`: the node of that name is removed, or else the component.
    pub open spec fn on_delete(self, name: Seq<char>) -> Outcome {
        if self.has_node(name) {
            settled(self, self.remove_node(name), ReplyView::Deleted(Found::Node))
        } else if self.has_component(name) {
            settled(self, self.remove_component(name), ReplyView::Deleted(Found::Component))
        } else {
            unchanged(self, Err(RejectionView::Refused(ErrorView::NotFound(Missing::Both))))
        }
    }

    /// `list`: the lines of all nodes and all components, in the order of
    /// their creation.
    pub open spec fn on_list(self) -> Outcome {
        unchanged(
            self,
            Ok(
                ReplyView::Listing {
                    nodes: Seq::new(self.nodes.len(), |i: int| node_line(self.nodes[i])),
                    components: Seq::new(
                        self.components.len(),
                        |i: int| component_line(self.components[i].name, self.components[i].kind),
                    ),
                },
            ),
        )
    }

    /// `show`: the line of the node of that name, or else of the component.
    pub open spec fn on_show(self, name: Seq<char>) -> Outcome {
        if self.has_node(name) {
            unchanged(self, Ok(ReplyView::Shown(node_line(name))))
        } else if let Some(index) = self.component_index(name) {
            unchanged(
                self,
                Ok(ReplyView::Shown(component_line(name, self.components[index].kind))),
            )
        } else {
            unchanged(self, Err(RejectionView::Refused(ErrorView::NotFound(Missing::Both))))
        }
    }

    /// `connect`: the terminal must be an index, then the network decides.
    pub open spec fn on_connect(self, node: Seq<char>, component: Seq<char>, terminal: Seq<char>)
        -> Outcome {
        match index_of_text(terminal) {
            Some(index) => settled(self, self.connect(node, component, index), ReplyView::Done),
            None => unchanged(self, Err(RejectionView::TerminalNotANumber)),
        }
    }

    /// What a command does to the network, and what it returns.
    pub open spec fn execute(self, command: CommandView) -> Outcome {
        match command {
            CommandView::Create(kind, name) => self.on_create(kind, name),
            CommandView::Delete(name) => self.on_delete(name),
            CommandView::List => self.on_list(),
            CommandView::Show(name) => self.on_show(name),
            CommandView::Connect(node, component, terminal) => self.on_connect(
                node,
                component,
                terminal,
            ),
            CommandView::Disconnect(node, component) => settled(
                self,
                self.disconnect(node, component),
                ReplyView::Done,
            ),
            CommandView::Open(name) => settled(self, self.open(name), ReplyView::Done),
            CommandView::Close(name) => settled(self, self.close(name), ReplyView::Done),
            CommandView::Exit => unchanged(self, Ok(ReplyView::Exit)),
            CommandView::Help => unchanged(self, Ok(ReplyView::Help)),
            CommandView::Undefined => unchanged(self, Err(RejectionView::InvalidCommand)),
        }
    }
}

/// What the first argument of `create` names.
pub fn entity(word: &str) -> (named: Option<Entity>)
    ensures
        named == entity_of(word@),
{
    if same_text(word, "cb") {
        Some(Entity::Component(ComponentType::CircuitBreaker))
    } else if same_text(word, "ds") {
        Some(Entity::Component(ComponentType::Disconnector))
    } else if same_text(word, "es") {
        Some(Entity::Component(ComponentType::EarthingSwitch))
    } else if same_text(word, "vt") {
        Some(Entity::Component(ComponentType::VoltageTransformer))
    } else if same_text(word, "tf") {
        Some(Entity::Component(ComponentType::Transformer))
    } else if same_text(word, "node") {
        Some(Entity::Node)
    } else {
        None
    }
}

/// The reply where the operation succeeded, its refusal where it did not.
fn settle(step: Result<(), Error>, reply: Reply) -> (r: Result<Reply, Rejection>)
    ensures
        match step {
            Ok(_) => r == Ok::<Reply, Rejection>(reply),
            Err(e) => r == Err::<Reply, Rejection>(Rejection::Refused(e)),
        },
{
    match step {
        Ok(_) => Ok(reply),
        Err(e) => Err(Rejection::Refused(e)),
    }
}

/// Carries out a `create` command.
pub fn create(net: &mut Network, kind: &str, name: &str) -> (r: Result<Reply, Rejection>)
    requires
        old(net).wf(),
    ensures
        final(net).wf(),
        outcome_of(final(net)@, r) == old(net)@.on_create(kind@, name@),
{
    match entity(kind) {
        Some(Entity::Node) => settle(net.create_node(name), Reply::Created(Entity::Node)),
        Some(Entity::Component(kind)) => settle(
            net.create_component(kind, name),
            Reply::Created(Entity::Component(kind)),
        ),
        None => Err(Rejection::UnknownType),
    }
}

/// Carries out a `delete` command.
pub fn delete(net: &mut Network, name: &str) -> (r: Result<Reply, Rejection>)
    requires
        old(net).wf(),
    ensures
        final(net).wf(),
        outcome_of(final(net)@, r) == old(net)@.on_delete(name@),
{
    proof {
        net@.nodes.index_of_first_ensures(name@);
        net@.component_names().index_of_first_ensures(name@);
    }
    match net.remove_node(name) {
        Ok(_) => Ok(Reply::Deleted(Found::Node)),
        Err(_) => match net.remove_component(name) {
            Ok(_) => Ok(Reply::Deleted(Found::Component)),
            Err(_) => Err(Rejection::Refused(Error::NotFound(Missing::Both))),
        },
    }
}

/// Carries out a `list` command.
pub fn list(net: &Network) -> (r: Result<Reply, Rejection>)
    ensures
        outcome_of(net@, r) == net@.on_list(),
{
    let nodes = net.list_nodes();
    let components = net.list_components();
    let reply = Reply::Listing { nodes, components };
    proof {
        let expected = net@.on_list().result->Ok_0;
        assert(reply@->Listing_nodes =~= expected->Listing_nodes);
        assert(reply@->Listing_components =~= expected->Listing_components);
    }
    Ok(reply)
}

/// Carries out a `show` command.
pub fn show(net: &Network, name: &str) -> (r: Result<Reply, Rejection>)
    ensures
        outcome_of(net@, r) == net@.on_show(name@),
{
    match net.get_node(name) {
        Ok(node) => Ok(Reply::Shown(node.display())),
        Err(_) => match net.get_component(name) {
            Ok(component) => {
                proof {
                    net@.component_names().index_of_first_ensures(name@);
                }
                Ok(Reply::Shown(component.display()))
            },
            Err(_) => Err(Rejection::Refused(Error::NotFound(Missing::Both))),
        },
    }
}

/// Carries out a `connect` command.
pub fn connect(net: &mut Network, node_name: &str, component_name: &str, terminal: &str) -> (r:
    Result<Reply, Rejection>)
    requires
        old(net).wf(),
    ensures
        final(net).wf(),
        outcome_of(final(net)@, r) == old(net)@.on_connect(
            node_name@,
            component_name@,
            terminal@,
        ),
{
    match parse_index(terminal) {
        Some(index) => settle(net.connect(node_name, component_name, index), Reply::Done),
        None => Err(Rejection::TerminalNotANumber),
    }
}

/// Carries out a `disconnect` command.
pub fn disconnect(net: &mut Network, node_name: &str, component_name: &str) -> (r: Result<
    Reply,
    Rejection,
>)
    requires
        old(net).wf(),
    ensures
        final(net).wf(),
        outcome_of(final(net)@, r) == settled(
            old(net)@,
            old(net)@.disconnect(node_name@, component_name@),
            ReplyView::Done,
        ),
{
    settle(net.disconnect(node_name, component_name), Reply::Done)
}

/// Carries out an `open` command.
pub fn open(net: &mut Network, switchgear_name: &str) -> (r: Result<Reply, Rejection>)
    requires
        old(net).wf(),
    ensures
        final(net).wf(),
        outcome_of(final(net)@, r) == settled(
            old(net)@,
            old(net)@.open(switchgear_name@),
            ReplyView::Done,
        ),
{
    settle(net.open(switchgear_name), Reply::Done)
}

/// Carries out a `close` command.
pub fn close(net: &mut Network, switchgear_name: &str) -> (r: Result<Reply, Rejection>)
    requires
        old(net).wf(),
    ensures
        final(net).wf(),
        outcome_of(final(net)@, r) == settled(
            old(net)@,
            old(net)@.close(switchgear_name@),
            ReplyView::Done,
        ),
{
    settle(net.close(switchgear_name), Reply::Done)
}

/// Carries out a command on the network and says what is to be told.
pub fn execute_command(net: &mut Network, cmd: Command) -> (r: Result<Reply, Rejection>)
    requires
        old(net).wf(),
    ensures
        final(net).wf(),
        outcome_of(final(net)@, r) == old(net)@.execute(cmd@),
{
    match cmd {
        Command::Create(args) => create(net, args[0], args[1]),
        Command::Delete(arg) => delete(net, arg),
        Command::List() => list(net),
        Command::Show(arg) => show(net, arg),
        Command::Connect(args) => connect(net, args[0], args[1], args[2]),
        Command::Disconnect(args) => disconnect(net, args[0], args[1]),
        Command::Open(arg) => open(net, arg),
        Command::Close(arg) => close(net, arg),
        Command::Exit => Ok(Reply::Exit),
        Command::Help => Ok(Reply::Help),
        Command::Undefined => Err(Rejection::InvalidCommand),
    }
}

} // verus!
