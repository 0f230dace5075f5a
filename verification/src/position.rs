//! The open/closed state machine carried by every piece of switchgear.

use vstd::prelude::*;

use crate::error::{follows, Error, ErrorView};

verus! {

/// The two states a switch can be in.
#[derive(Debug, Clone, Copy, PartialEq, Eq, Structural)]
pub enum SwitchPosition {
    /// Contacts apart: no current path.
    Open,
    /// Contacts together.
    Close,
}

impl SwitchPosition {
    /// Closing: from open to closed, and refused when closed.
    pub open spec fn close(self) -> Result<SwitchPosition, ErrorView> {
        match self {
            SwitchPosition::Open => Ok(SwitchPosition::Close),
            SwitchPosition::Close => Err(ErrorView::AlreadyClosed),
        }
    }

    /// Opening: from closed to open, and refused when open.
    pub open spec fn open(self) -> Result<SwitchPosition, ErrorView> {
        match self {
            SwitchPosition::Close => Ok(SwitchPosition::Open),
            SwitchPosition::Open => Err(ErrorView::AlreadyOpen),
        }
    }
}

/// Switchgear position: starts open and changes only through
/// [`SwitchgearPosition::open`] and [`SwitchgearPosition::close`].
#[derive(Debug, Clone, Copy)]
pub struct SwitchgearPosition {
    position: SwitchPosition,
}

impl View for SwitchgearPosition {
    type V = SwitchPosition;

    closed spec fn view(&self) -> SwitchPosition {
        self.position
    }
}

impl SwitchgearPosition {
    /// A fresh switch, which is open.
    pub fn new() -> (pos: SwitchgearPosition)
        ensures
            pos@ == SwitchPosition::Open,
    {
        SwitchgearPosition { position: SwitchPosition::Open }
    }

    /// True if closed.
    pub fn is_closed(&self) -> (closed: bool)
        ensures
            closed == (self@ == SwitchPosition::Close),
    {
        self.position == SwitchPosition::Close
    }

    /// True if open.
    pub fn is_open(&self) -> (open: bool)
        ensures
            open == (self@ == SwitchPosition::Open),
    {
        self.position == SwitchPosition::Open
    }

    /// Closes the switch; refused when it is closed already.
    pub fn close(&mut self) -> (r: Result<(), Error>)
        ensures
            follows(r, old(self)@, final(self)@, old(self)@.close()),
    {
        if self.is_closed() {
            Err(Error::AlreadyClosed)
        } else {
            self.position = SwitchPosition::Close;
            Ok(())
        }
    }

    /// Opens the switch; refused when it is open already.
    pub fn open(&mut self) -> (r: Result<(), Error>)
        ensures
            follows(r, old(self)@, final(self)@, old(self)@.open()),
    {
        if self.is_open() {
            Err(Error::AlreadyOpen)
        } else {
            self.position = SwitchPosition::Open;
            Ok(())
        }
    }
}

} // verus!
