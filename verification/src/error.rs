//! The failures that operations on the substation model can report.

use vstd::prelude::*;
use vstd::string::StringExecFns;

use crate::text::{digits_of, index_text};

verus! {

/// Which of the two names given to a lookup did not resolve.
#[derive(Debug, Clone, Copy, PartialEq, Eq, Structural)]
pub enum Missing {
    /// No node has the name.
    Node,
    /// No component has the name.
    Component,
    /// Neither a node nor a component was found.
    Both,
}

/// Why an operation was refused. Every refusal leaves the model unchanged.
#[derive(Debug, PartialEq, Eq)]
pub enum Error {
    /// A node or component of that name exists already.
    NameConflict,
    /// A name did not resolve to an entity of the kind asked for.
    NotFound(Missing),
    /// The component has only `available` terminals, numbered from zero.
    TerminalOutOfRange { index: usize, available: usize },
    /// The terminal is connected to a node already.
    TerminalOccupied,
    /// The component touches that node on terminal `other_index` already.
    DuplicateNodeOnComponent { node: String, other_index: usize },
    /// There is no connection to remove.
    NotConnected,
    /// The switch is open already.
    AlreadyOpen,
    /// The switch is closed already.
    AlreadyClosed,
    /// The component has no switch position.
    NotSwitchgear,
}

/// What an [`Error`] says, with the node's name as a sequence of characters.
pub enum ErrorView {
    NameConflict,
    NotFound(Missing),
    TerminalOutOfRange { index: usize, available: usize },
    TerminalOccupied,
    DuplicateNodeOnComponent { node: Seq<char>, other_index: usize },
    NotConnected,
    AlreadyOpen,
    AlreadyClosed,
    NotSwitchgear,
}

impl View for Error {
    type V = ErrorView;

    open spec fn view(&self) -> ErrorView {
        match *self {
            Error::NameConflict => ErrorView::NameConflict,
            Error::NotFound(missing) => ErrorView::NotFound(missing),
            Error::TerminalOutOfRange { index, available } => ErrorView::TerminalOutOfRange {
                index,
                available,
            },
            Error::TerminalOccupied => ErrorView::TerminalOccupied,
            Error::DuplicateNodeOnComponent { node, other_index } => {
                ErrorView::DuplicateNodeOnComponent { node: node@, other_index }
            },
            Error::NotConnected => ErrorView::NotConnected,
            Error::AlreadyOpen => ErrorView::AlreadyOpen,
            Error::AlreadyClosed => ErrorView::AlreadyClosed,
            Error::NotSwitchgear => ErrorView::NotSwitchgear,
        }
    }
}

impl ErrorView {
    /// The error in words.
    pub open spec fn text(self) -> Seq<char> {
        match self {
            ErrorView::NameConflict => "A node or component with this name already exists"@,
            ErrorView::NotFound(Missing::Node) => "No node with this name exists"@,
            ErrorView::NotFound(Missing::Component) => "No component with this name exists"@,
            ErrorView::NotFound(Missing::Both) => "No node or component with this name exists"@,
            ErrorView::TerminalOutOfRange { index, available } => "No terminal with index "@
                + digits_of(index as nat) + "; the component only has "@ + digits_of(
                available as nat,
            ) + " terminals"@,
            ErrorView::TerminalOccupied => "Terminal already connected"@,
            ErrorView::DuplicateNodeOnComponent { node, other_index } =>
                "The component is already connected to node "@ + node + " on terminal "@
                    + digits_of(other_index as nat),
            ErrorView::NotConnected => "Terminal not connected"@,
            ErrorView::AlreadyOpen => "Switchgear already open"@,
            ErrorView::AlreadyClosed => "Switchgear already closed"@,
            ErrorView::NotSwitchgear => "The component is no switchgear"@,
        }
    }
}

impl Error {
    /// The message that describes the error.
    pub fn message(&self) -> (text: String)
        ensures
            text@ == self@.text(),
    {
        match self {
            Error::NameConflict => String::from_str(
                "A node or component with this name already exists",
            ),
            Error::NotFound(Missing::Node) => String::from_str("No node with this name exists"),
            Error::NotFound(Missing::Component) => String::from_str(
                "No component with this name exists",
            ),
            Error::NotFound(Missing::Both) => String::from_str(
                "No node or component with this name exists",
            ),
            Error::TerminalOutOfRange { index, available } => String::from_str(
                "No terminal with index ",
            ).concat(index_text(*index).as_str()).concat("; the component only has ").concat(
                index_text(*available).as_str(),
            ).concat(" terminals"),
            Error::TerminalOccupied => String::from_str("Terminal already connected"),
            Error::DuplicateNodeOnComponent { node, other_index } => String::from_str(
                "The component is already connected to node ",
            ).concat(node.as_str()).concat(" on terminal ").concat(
                index_text(*other_index).as_str(),
            ),
            Error::NotConnected => String::from_str("Terminal not connected"),
            Error::AlreadyOpen => String::from_str("Switchgear already open"),
            Error::AlreadyClosed => String::from_str("Switchgear already closed"),
            Error::NotSwitchgear => String::from_str("The component is no switchgear"),
        }
    }
}

/// An operation that went from state `pre` to state `post` and returned `r`
/// did what `model` prescribes: on `Ok(next)` it succeeded and left `next`
/// behind, on `Err(e)` it reported `e` and changed nothing.
pub open spec fn follows<S>(r: Result<(), Error>, pre: S, post: S, model: Result<S, ErrorView>) -> bool {
    match model {
        Ok(next) => r is Ok && post == next,
        Err(e) => r is Err && r->Err_0@ == e && post == pre,
    }
}

} // verus!
