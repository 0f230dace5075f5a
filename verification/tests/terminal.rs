use hvnv::error::Error;
use hvnv::node::Node;
use hvnv::terminal::Terminal;

#[test]
fn node_name() {
    let n = Node::new("node");
    assert_eq!(n.name(), "node")
}

#[test]
fn node_display_and_identity() {
    let n = Node::new("busbar 1");
    assert_eq!(n.display(), "Node busbar 1");
    assert_eq!(Node::new("").display(), "Node ");
    assert!(n == n.clone());
    assert!(n == Node::new("busbar 1"));
    assert!(n != Node::new("busbar 2"));
    assert_eq!(n.clone().name(), "busbar 1");
}

#[test]
fn terminal_connect() {
    let n = Node::new("node");
    let mut t = Terminal::new();

    assert!(t.disconnect().is_err());
    assert!(t.get_node().is_err());

    t.connect(n.clone()).unwrap();
    assert!(t.get_node().unwrap() == &n);
    assert!(t.connect(n).is_err());

    t.disconnect().unwrap();
    assert!(t.get_node().is_err());
}

#[test]
fn terminal_errors() {
    let mut t = Terminal::new();
    assert_eq!(t.disconnect(), Err(Error::NotConnected));
    assert_eq!(t.get_node().err(), Some(Error::NotConnected));
    assert!(!t.is_on(&String::from("a")));

    assert_eq!(t.connect(Node::new("a")), Ok(()));
    assert!(t.is_on(&String::from("a")));
    assert!(!t.is_on(&String::from("b")));
    assert_eq!(t.connect(Node::new("b")), Err(Error::TerminalOccupied));
    assert_eq!(t.get_node().unwrap().name(), "a");

    assert_eq!(t.disconnect(), Ok(()));
    assert_eq!(t.disconnect(), Err(Error::NotConnected));
}
