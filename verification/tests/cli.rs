use hvnv::cli::{
    close, connect, create, delete, disconnect, entity, execute_command, list, open,
    process_input, show, Command, Entity, Rejection, Found, Reply,
};
use hvnv::component::ComponentType;
use hvnv::error::{Error, Missing};
use hvnv::network::Network;

#[test]
fn cli_process_input() {
    assert_eq!(process_input("create Arg1 Arg2"), Command::Create(["Arg1", "Arg2"]));
    assert_eq!(process_input("Create Arg1 Arg2"), Command::Create(["Arg1", "Arg2"]));
    assert_eq!(process_input("create Arg1 Arg2 junk data here"), Command::Create(["Arg1", "Arg2"]));
    assert_eq!(process_input("create"), Command::Undefined);
    assert_eq!(process_input("create Arg1"), Command::Undefined);

    assert_eq!(process_input("delete Arg1"), Command::Delete("Arg1"));
    assert_eq!(process_input("Delete Arg1"), Command::Delete("Arg1"));
    assert_eq!(process_input("delete Arg1 junk data here"), Command::Delete("Arg1"));
    assert_eq!(process_input("delete"), Command::Undefined);

    assert_eq!(process_input("list"), Command::List());
    assert_eq!(process_input("List"), Command::List());
    assert_eq!(process_input("list junk data here"), Command::List());

    assert_eq!(process_input("show Arg1"), Command::Show("Arg1"));
    assert_eq!(process_input("Show Arg1"), Command::Show("Arg1"));
    assert_eq!(process_input("show Arg1 junk data here"), Command::Show("Arg1"));
    assert_eq!(process_input("show"), Command::Undefined);

    assert_eq!(process_input("connect Arg1 Arg2 Arg3"), Command::Connect(["Arg1", "Arg2", "Arg3"]));
    assert_eq!(process_input("Connect Arg1 Arg2 Arg3"), Command::Connect(["Arg1", "Arg2", "Arg3"]));
    assert_eq!(process_input("connect Arg1 Arg2 Arg3 junk data here"), Command::Connect(["Arg1", "Arg2", "Arg3"]));
    assert_eq!(process_input("connect"), Command::Undefined);
    assert_eq!(process_input("connect Arg1"), Command::Undefined);
    assert_eq!(process_input("connect Arg1 Arg2"), Command::Undefined);

    assert_eq!(process_input("disconnect Arg1 Arg2"), Command::Disconnect(["Arg1", "Arg2"]));
    assert_eq!(process_input("Disconnect Arg1 Arg2"), Command::Disconnect(["Arg1", "Arg2"]));
    assert_eq!(process_input("disconnect Arg1 Arg2 junk data here"), Command::Disconnect(["Arg1", "Arg2"]));
    assert_eq!(process_input("disconnect"), Command::Undefined);
    assert_eq!(process_input("disconnect Arg1"), Command::Undefined);

    assert_eq!(process_input("open Arg1"), Command::Open("Arg1"));
    assert_eq!(process_input("Open Arg1"), Command::Open("Arg1"));
    assert_eq!(process_input("open Arg1 junk data here"), Command::Open("Arg1"));
    assert_eq!(process_input("open"), Command::Undefined);

    assert_eq!(process_input("close Arg1"), Command::Close("Arg1"));
    assert_eq!(process_input("Close Arg1"), Command::Close("Arg1"));
    assert_eq!(process_input("close Arg1 junk data here"), Command::Close("Arg1"));
    assert_eq!(process_input("close"), Command::Undefined);

    assert_eq!(process_input("exit"), Command::Exit);
    assert_eq!(process_input("Exit"), Command::Exit);
    assert_eq!(process_input("exit and some more stuff"), Command::Exit);

    assert_eq!(process_input("help"), Command::Help);
    assert_eq!(process_input("Help"), Command::Help);
    assert_eq!(process_input("help and some more stuff"), Command::Help);

    assert_eq!(process_input(""), Command::Undefined);
    assert_eq!(process_input("thisisnotacommand"), Command::Undefined);
    assert_eq!(process_input("This Is Also Not A Command!"), Command::Undefined);
}

#[test]
fn cli_commands() {
    let net = &mut Network::new("net");

    // Create
    assert!(execute_command(net, Command::Create(["cb", "1"])).is_ok());
    assert_eq!(net.get_component("1").unwrap().component_type(), ComponentType::CircuitBreaker);

    assert!(execute_command(net, Command::Create(["ds", "2"])).is_ok());
    assert_eq!(net.get_component("2").unwrap().component_type(), ComponentType::Disconnector);

    assert!(execute_command(net, Command::Create(["es", "3"])).is_ok());
    assert_eq!(net.get_component("3").unwrap().component_type(), ComponentType::EarthingSwitch);

    assert!(execute_command(net, Command::Create(["vt", "4"])).is_ok());
    assert_eq!(net.get_component("4").unwrap().component_type(), ComponentType::VoltageTransformer);

    assert!(execute_command(net, Command::Create(["tf", "5"])).is_ok());
    assert_eq!(net.get_component("5").unwrap().component_type(), ComponentType::Transformer);

    assert!(execute_command(net, Command::Create(["node", "6"])).is_ok());
    assert_eq!(net.get_node("6").unwrap().name(), "6");

    assert!(execute_command(net, Command::Create(["node", "7"])).is_ok());

    assert!(execute_command(net, Command::Create(["garb", "name"])).is_err());

    // Delete
    assert!(execute_command(net, Command::Delete("i dont exist")).is_err());
    assert!(execute_command(net, Command::Delete("7")).is_ok());
    assert!(net.get_node("7").is_err());
    assert!(execute_command(net, Command::Delete("5")).is_ok());
    assert!(net.get_component("5").is_err());

    // List
    assert!(execute_command(net, Command::List()).is_ok());

    // Show
    assert!(execute_command(net, Command::Show("i dont exist")).is_err());
    assert!(execute_command(net, Command::Show("6")).is_ok());
    assert!(execute_command(net, Command::Show("4")).is_ok());

    // Connect
    assert!(execute_command(net, Command::Connect(["6", "1", "z"])).is_err());
    assert!(execute_command(net, Command::Connect(["1", "6", "0"])).is_err());
    assert!(execute_command(net, Command::Connect(["6", "1", "0"])).is_ok());
    assert!(net.get_component("1").unwrap().terminal(0).unwrap().get_node().is_ok());

    // Disconnect
    assert!(execute_command(net, Command::Disconnect(["1", "6"])).is_err());
    assert!(execute_command(net, Command::Disconnect(["6", "1"])).is_ok());
    assert!(net.get_component("1").unwrap().terminal(0).unwrap().get_node().is_err());

    // Open / Close
    assert!(execute_command(net, Command::Open("4")).is_err());
    assert!(execute_command(net, Command::Close("4")).is_err());

    assert!(net.get_component("1").unwrap().position().unwrap().is_open());
    assert!(execute_command(net, Command::Open("1")).is_err());
    assert!(execute_command(net, Command::Close("1")).is_ok());
    assert!(net.get_component("1").unwrap().position().unwrap().is_closed());
    assert!(execute_command(net, Command::Close("1")).is_err());
    assert!(execute_command(net, Command::Open("1")).is_ok());
    assert!(net.get_component("1").unwrap().position().unwrap().is_open());
}

#[test]
fn cli_process_input_edges() {
    // white space of any kind and any length parts the tokens
    assert_eq!(process_input("  \t show a \r\n"), Command::Show("a"));
    assert_eq!(process_input("\u{3000}exit\u{a0}"), Command::Exit);
    assert_eq!(process_input("delete  a"), Command::Delete("a"));
    assert_eq!(process_input("create  cb CB1"), Command::Create(["cb", "CB1"]));
    assert_eq!(process_input("create cb  x"), Command::Create(["cb", "x"]));
    assert_eq!(process_input("show\ta"), Command::Show("a"));
    assert_eq!(process_input("list\tx"), Command::List());
    assert_eq!(
        process_input("connect\u{2003}N1 \t CB1\n0\r\n"),
        Command::Connect(["N1", "CB1", "0"])
    );
    assert_eq!(process_input("connect a b c d"), Command::Connect(["a", "b", "c"]));
    // white space is no argument
    assert_eq!(process_input("delete  "), Command::Undefined);
    assert_eq!(process_input("create cb \t "), Command::Undefined);
    // a line without a token is no command
    assert_eq!(process_input("   "), Command::Undefined);
    assert_eq!(process_input("\t\r\n"), Command::Undefined);
    // only the command's letters are folded
    assert_eq!(process_input("cReAtE Node N1"), Command::Create(["Node", "N1"]));
    assert_eq!(process_input("DISCONNECT N1 CB1"), Command::Disconnect(["N1", "CB1"]));
    assert_eq!(process_input("OPEN é"), Command::Open("é"));
    assert_eq!(process_input("lıst"), Command::Undefined);
    assert_eq!(process_input("l\u{130}st"), Command::Undefined);
    assert_eq!(process_input("creat"), Command::Undefined);
    assert_eq!(process_input("creates a b"), Command::Undefined);
    assert_eq!(process_input("close ü x"), Command::Close("ü"));
}

#[test]
fn cli_entity_words() {
    assert_eq!(entity("cb"), Some(Entity::Component(ComponentType::CircuitBreaker)));
    assert_eq!(entity("ds"), Some(Entity::Component(ComponentType::Disconnector)));
    assert_eq!(entity("es"), Some(Entity::Component(ComponentType::EarthingSwitch)));
    assert_eq!(entity("vt"), Some(Entity::Component(ComponentType::VoltageTransformer)));
    assert_eq!(entity("tf"), Some(Entity::Component(ComponentType::Transformer)));
    assert_eq!(entity("node"), Some(Entity::Node));
    assert_eq!(entity("CB"), None);
    assert_eq!(entity("nodes"), None);
    assert_eq!(entity(""), None);
}

#[test]
fn cli_replies() {
    let mut net = Network::new("net");

    assert_eq!(create(&mut net, "node", "n"), Ok(Reply::Created(Entity::Node)));
    assert_eq!(
        create(&mut net, "cb", "c"),
        Ok(Reply::Created(Entity::Component(ComponentType::CircuitBreaker)))
    );
    assert_eq!(create(&mut net, "vt", "n"), Err(Rejection::Refused(Error::NameConflict)));
    assert_eq!(create(&mut net, "node", "c"), Err(Rejection::Refused(Error::NameConflict)));
    assert_eq!(create(&mut net, "bus", "b"), Err(Rejection::UnknownType));
    assert_eq!(net.node_count(), 1);
    assert_eq!(net.component_count(), 1);

    assert_eq!(show(&net, "n"), Ok(Reply::Shown(String::from("Node n"))));
    assert_eq!(
        show(&net, "c"),
        Ok(Reply::Shown(String::from("Component c of type CircuitBreaker")))
    );
    assert_eq!(show(&net, "x"), Err(Rejection::Refused(Error::NotFound(Missing::Both))));

    assert_eq!(
        list(&net),
        Ok(Reply::Listing {
            nodes: vec![String::from("Node n")],
            components: vec![String::from("Component c of type CircuitBreaker")],
        })
    );

    assert_eq!(connect(&mut net, "n", "c", "one"), Err(Rejection::TerminalNotANumber));
    assert_eq!(connect(&mut net, "n", "c", "-1"), Err(Rejection::TerminalNotANumber));
    assert_eq!(connect(&mut net, "n", "c", ""), Err(Rejection::TerminalNotANumber));
    assert_eq!(
        connect(&mut net, "n", "c", "2"),
        Err(Rejection::Refused(Error::TerminalOutOfRange { index: 2, available: 2 }))
    );
    assert_eq!(connect(&mut net, "n", "c", "+1"), Ok(Reply::Done));
    assert_eq!(
        connect(&mut net, "n", "c", "00"),
        Err(Rejection::Refused(Error::DuplicateNodeOnComponent {
            node: String::from("n"),
            other_index: 1
        }))
    );
    assert_eq!(
        connect(&mut net, "c", "n", "0"),
        Err(Rejection::Refused(Error::NotFound(Missing::Both)))
    );
    assert_eq!(disconnect(&mut net, "n", "c"), Ok(Reply::Done));
    assert_eq!(disconnect(&mut net, "n", "c"), Err(Rejection::Refused(Error::NotConnected)));

    assert_eq!(open(&mut net, "c"), Err(Rejection::Refused(Error::AlreadyOpen)));
    assert_eq!(close(&mut net, "c"), Ok(Reply::Done));
    assert_eq!(close(&mut net, "c"), Err(Rejection::Refused(Error::AlreadyClosed)));
    assert_eq!(open(&mut net, "c"), Ok(Reply::Done));
    assert_eq!(open(&mut net, "n"), Err(Rejection::Refused(Error::NotFound(Missing::Component))));

    assert_eq!(delete(&mut net, "n"), Ok(Reply::Deleted(Found::Node)));
    assert_eq!(delete(&mut net, "c"), Ok(Reply::Deleted(Found::Component)));
    assert_eq!(delete(&mut net, "c"), Err(Rejection::Refused(Error::NotFound(Missing::Both))));
    assert_eq!(net.node_count(), 0);
    assert_eq!(net.component_count(), 0);
}

#[test]
fn cli_execute_without_change() {
    let mut net = Network::new("net");
    assert_eq!(execute_command(&mut net, Command::Exit), Ok(Reply::Exit));
    assert_eq!(execute_command(&mut net, Command::Help), Ok(Reply::Help));
    assert_eq!(execute_command(&mut net, Command::Undefined), Err(Rejection::InvalidCommand));
    assert_eq!(
        execute_command(&mut net, Command::List()),
        Ok(Reply::Listing { nodes: vec![], components: vec![] })
    );
    assert_eq!(net.node_count(), 0);
    assert_eq!(net.component_count(), 0);
}

#[test]
fn cli_line_to_network() {
    let mut net = Network::new("net");
    for line in ["create node N1", "CREATE cb CB1", "connect N1 CB1 0", "close CB1"] {
        assert!(execute_command(&mut net, process_input(line)).is_ok());
    }
    let cb = net.get_component("CB1").unwrap();
    assert_eq!(cb.terminal(0).unwrap().get_node().unwrap().name(), "N1");
    assert!(cb.position().unwrap().is_closed());
    assert_eq!(
        execute_command(&mut net, process_input("connect N1 CB1 1")),
        Err(Rejection::Refused(Error::DuplicateNodeOnComponent {
            node: String::from("N1"),
            other_index: 0
        }))
    );
}

#[test]
fn cli_rejection_messages() {
    assert_eq!(
        Rejection::InvalidCommand.message(),
        "Invalid command; type 'help' to see valid commands"
    );
    assert_eq!(
        Rejection::UnknownType.message(),
        "This type does not exist (cb, ds, es, vt, tf, node)"
    );
    assert_eq!(
        Rejection::TerminalNotANumber.message(),
        "Terminal (3rd argument) is not an unsigned integer"
    );
    assert_eq!(Rejection::Refused(Error::AlreadyOpen).message(), "Switchgear already open");
    assert_eq!(
        Rejection::Refused(Error::TerminalOutOfRange { index: 12, available: 3 }).message(),
        "No terminal with index 12; the component only has 3 terminals"
    );
}
