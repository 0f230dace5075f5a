use hvnv::component::{Component, ComponentType};
use hvnv::error::Error;
use hvnv::node::Node;

fn create_test_components() -> (Component, Component, Component, Component, Component) {
    let cb = Component::new(ComponentType::CircuitBreaker, "cb");
    let ds = Component::new(ComponentType::Disconnector, "ds");
    let es = Component::new(ComponentType::EarthingSwitch, "es");
    let vt = Component::new(ComponentType::VoltageTransformer, "vt");
    let tf = Component::new(ComponentType::Transformer, "tf");

    (cb, ds, es, vt, tf)
}

#[test]
fn component_names() {
    let (cb, ds, es, vt, tf) = create_test_components();

    assert_eq!(cb.name(), "cb");
    assert_eq!(ds.name(), "ds");
    assert_eq!(es.name(), "es");
    assert_eq!(vt.name(), "vt");
    assert_eq!(tf.name(), "tf");
}

#[test]
fn component_types() {
    let (cb, ds, es, vt, tf) = create_test_components();

    assert_eq!(cb.component_type(), ComponentType::CircuitBreaker);
    assert_eq!(ds.component_type(), ComponentType::Disconnector);
    assert_eq!(es.component_type(), ComponentType::EarthingSwitch);
    assert_eq!(vt.component_type(), ComponentType::VoltageTransformer);
    assert_eq!(tf.component_type(), ComponentType::Transformer)
}

#[test]
fn component_terminals() {
    let (cb, ds, es, vt, tf) = create_test_components();

    assert_eq!(cb.terminal_count(), 2);
    assert_eq!(ds.terminal_count(), 2);
    assert_eq!(es.terminal_count(), 1);
    assert_eq!(vt.terminal_count(), 1);
    assert_eq!(tf.terminal_count(), 3);

    assert!(cb.terminal(2).is_err());
    assert!(ds.terminal(2).is_err());
    assert!(es.terminal(1).is_err());
    assert!(vt.terminal(1).is_err());
    assert!(tf.terminal(3).is_err());
}

#[test]
fn component_connect() {
    let n = Node::new("node");
    let n2 = Node::new("node2");
    let mut cb = Component::new(ComponentType::CircuitBreaker, "cb");

    assert!(cb.disconnect(&n).is_err());
    assert!(cb.connect(n.clone(), 2).is_err());
    assert!(cb.connect(n.clone(), 0).is_ok());
    assert!(cb.connect(n.clone(), 0).is_err());
    assert!(cb.connect(n.clone(), 1).is_err());
    assert!(cb.connect(n2.clone(), 1).is_ok());
    assert!(cb.disconnect(&n2).is_ok());
    assert!(cb.connect(n2.clone(), 0).is_err());
}

#[test]
fn component_type_tables() {
    assert_eq!(ComponentType::CircuitBreaker.terminal_count(), 2);
    assert_eq!(ComponentType::Disconnector.terminal_count(), 2);
    assert_eq!(ComponentType::EarthingSwitch.terminal_count(), 1);
    assert_eq!(ComponentType::VoltageTransformer.terminal_count(), 1);
    assert_eq!(ComponentType::Transformer.terminal_count(), 3);

    assert!(ComponentType::CircuitBreaker.is_switchgear());
    assert!(ComponentType::Disconnector.is_switchgear());
    assert!(ComponentType::EarthingSwitch.is_switchgear());
    assert!(!ComponentType::VoltageTransformer.is_switchgear());
    assert!(!ComponentType::Transformer.is_switchgear());

    assert_eq!(ComponentType::CircuitBreaker.name(), "CircuitBreaker");
    assert_eq!(ComponentType::Disconnector.name(), "Disconnector");
    assert_eq!(ComponentType::EarthingSwitch.name(), "EarthingSwitch");
    assert_eq!(ComponentType::VoltageTransformer.name(), "VoltageTransformer");
    assert_eq!(ComponentType::Transformer.name(), "Transformer");
}

#[test]
fn component_fresh_state() {
    let (cb, _ds, es, vt, tf) = create_test_components();

    for i in 0..3 {
        assert!(tf.terminal(i).unwrap().get_node().is_err());
    }
    assert_eq!(
        tf.terminal(3).err(),
        Some(Error::TerminalOutOfRange { index: 3, available: 3 })
    );
    assert_eq!(
        es.terminal(7).err(),
        Some(Error::TerminalOutOfRange { index: 7, available: 1 })
    );
    assert!(cb.position().unwrap().is_open());
    assert!(es.position().unwrap().is_open());
    assert_eq!(vt.position().err(), Some(Error::NotSwitchgear));
    assert_eq!(tf.position().err(), Some(Error::NotSwitchgear));
    assert_eq!(cb.display(), "Component cb of type CircuitBreaker");
    assert_eq!(vt.display(), "Component vt of type VoltageTransformer");
}

#[test]
fn component_connect_errors_in_order() {
    let a = Node::new("a");
    let b = Node::new("b");
    let mut tf = Component::new(ComponentType::Transformer, "tf");

    assert_eq!(tf.connect(a.clone(), 1), Ok(()));
    assert_eq!(tf.terminal(1).unwrap().get_node().unwrap().name(), "a");
    assert!(tf.terminal(0).unwrap().get_node().is_err());

    // the index is looked at first, even where the node is on the component
    assert_eq!(
        tf.connect(a.clone(), 3),
        Err(Error::TerminalOutOfRange { index: 3, available: 3 })
    );
    // then the other terminals
    assert_eq!(
        tf.connect(a.clone(), 0),
        Err(Error::DuplicateNodeOnComponent { node: String::from("a"), other_index: 1 })
    );
    assert_eq!(
        tf.connect(a.clone(), 2),
        Err(Error::DuplicateNodeOnComponent { node: String::from("a"), other_index: 1 })
    );
    // then the terminal itself
    assert_eq!(tf.connect(a.clone(), 1), Err(Error::TerminalOccupied));
    assert_eq!(tf.connect(b.clone(), 1), Err(Error::TerminalOccupied));

    assert_eq!(tf.connect(b.clone(), 2), Ok(()));
    // a node on another terminal wins over an occupied terminal
    assert_eq!(
        tf.connect(b.clone(), 1),
        Err(Error::DuplicateNodeOnComponent { node: String::from("b"), other_index: 2 })
    );
    assert_eq!(tf.terminal(1).unwrap().get_node().unwrap().name(), "a");
    assert_eq!(tf.terminal(2).unwrap().get_node().unwrap().name(), "b");
}

#[test]
fn component_disconnect_once() {
    let a = Node::new("a");
    let b = Node::new("b");
    let mut ds = Component::new(ComponentType::Disconnector, "ds");

    assert_eq!(ds.disconnect(&a), Err(Error::NotConnected));
    assert_eq!(ds.connect(a.clone(), 1), Ok(()));
    assert_eq!(ds.connect(b.clone(), 0), Ok(()));
    assert_eq!(ds.disconnect(&a), Ok(()));
    assert!(ds.terminal(1).unwrap().get_node().is_err());
    assert_eq!(ds.terminal(0).unwrap().get_node().unwrap().name(), "b");
    assert_eq!(ds.disconnect(&a), Err(Error::NotConnected));
    assert_eq!(ds.connect(a.clone(), 1), Ok(()));
}

#[test]
fn component_open_close() {
    let (mut cb, mut ds, mut es, mut vt, mut tf) = create_test_components();

    assert_eq!(cb.open(), Err(Error::AlreadyOpen));
    assert_eq!(cb.close(), Ok(()));
    assert!(cb.position().unwrap().is_closed());
    assert_eq!(cb.close(), Err(Error::AlreadyClosed));
    assert_eq!(cb.open(), Ok(()));
    assert!(cb.position().unwrap().is_open());

    assert_eq!(ds.close(), Ok(()));
    assert_eq!(es.close(), Ok(()));
    assert_eq!(vt.open(), Err(Error::NotSwitchgear));
    assert_eq!(vt.close(), Err(Error::NotSwitchgear));
    assert_eq!(tf.open(), Err(Error::NotSwitchgear));
    assert_eq!(tf.close(), Err(Error::NotSwitchgear));
}
