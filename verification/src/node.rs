//! Bus bars: the passive points that component terminals are wired to.

use vstd::prelude::*;
use vstd::std_specs::cmp::PartialEqSpecImpl;
use vstd::string::StringExecFns;

verus! {

/// A named bus bar. A node is identified by its name: two values with the
/// same name stand for the same node.
#[derive(Debug)]
pub struct Node {
    name: String,
}

impl View for Node {
    type V = Seq<char>;

    closed spec fn view(&self) -> Seq<char> {
        self.name@
    }
}

impl Node {
    /// A node with the given name.
    pub fn new(name: &str) -> (node: Node)
        ensures
            node@ == name@,
    {
        Node { name: String::from_str(name) }
    }

    /// The node's name.
    pub fn name(&self) -> (name: &String)
        ensures
            name@ == self@,
    {
        &self.name
    }

    /// The line that a listing shows for this node: `Node ` and the name.
    pub fn display(&self) -> (line: String)
        ensures
            line@ == "Node "@ + self@,
    {
        String::from_str("Node ").concat(self.name.as_str())
    }
}

impl Clone for Node {
    fn clone(&self) -> (copy: Node)
        ensures
            copy@ == self@,
    {
        Node { name: self.name.clone() }
    }
}

impl PartialEq for Node {
    fn eq(&self, other: &Node) -> (same: bool) {
        self.name == other.name
    }
}

impl PartialEqSpecImpl for Node {
    open spec fn obeys_eq_spec() -> bool {
        true
    }

    open spec fn eq_spec(&self, other: &Node) -> bool {
        self@ == other@
    }
}

impl Eq for Node {

}

} // verus!
