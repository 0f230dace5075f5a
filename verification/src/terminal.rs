//! Terminals: the connection points of a component.

use vstd::prelude::*;

use crate::error::Error;
use crate::node::Node;

verus! {

/// A connection point of a component. It is wired to at most one node.
#[derive(Debug)]
pub struct Terminal {
    node: Option<Node>,
}

impl View for Terminal {
    type V = Option<Seq<char>>;

    /// The name of the node that the terminal is wired to, if any.
    closed spec fn view(&self) -> Option<Seq<char>> {
        match self.node {
            Some(node) => Some(node@),
            None => None,
        }
    }
}

impl Terminal {
    /// An unconnected terminal.
    pub fn new() -> (terminal: Terminal)
        ensures
            terminal@ is None,
    {
        Terminal { node: None }
    }

    /// Wires the terminal to `node`; refused when it is wired already.
    pub fn connect(&mut self, node: Node) -> (r: Result<(), Error>)
        ensures
            old(self)@ is None ==> r == Ok::<(), Error>(()) && final(self)@ == Some(node@),
            old(self)@ is Some ==> r == Err::<(), Error>(Error::TerminalOccupied) && final(self)@
                == old(self)@,
    {
        match self.node {
            Some(_) => Err(Error::TerminalOccupied),
            None => {
                self.node = Some(node);
                Ok(())
            },
        }
    }

    /// Removes the wiring; refused when there is none.
    pub fn disconnect(&mut self) -> (r: Result<(), Error>)
        ensures
            old(self)@ is Some ==> r == Ok::<(), Error>(()) && final(self)@ is None,
            old(self)@ is None ==> r == Err::<(), Error>(Error::NotConnected) && final(self)@
                is None,
    {
        match self.node {
            Some(_) => {
                self.node = None;
                Ok(())
            },
            None => Err(Error::NotConnected),
        }
    }

    /// The node that the terminal is wired to.
    pub fn get_node(&self) -> (r: Result<&Node, Error>)
        ensures
            match r {
                Ok(node) => self@ == Some(node@),
                Err(e) => self@ is None && e == Error::NotConnected,
            },
    {
        match &self.node {
            Some(node) => Ok(node),
            None => Err(Error::NotConnected),
        }
    }

    /// Whether the terminal is wired to the node called `name`.
    pub fn is_on(&self, name: &String) -> (on: bool)
        ensures
            on == (self@ == Some(name@)),
    {
        match &self.node {
            Some(node) => *node.name() == *name,
            None => false,
        }
    }
}

} // verus!
