//! Components, the error of a closed port, and memory cells between a putter and a
//! getter.
use vstd::prelude::*;

verus! {

/// Something that runs as a component of a protocol.
pub trait Component {
    fn run(&mut self);
}

/// The port's peer is gone.
#[derive(Debug, Copy, Clone)]
pub struct PortClosed;

/// A result whose error, whatever it was, means that the port was closed.
pub trait ClosedErrorable<T> {
    fn closed_err(self) -> Result<T, PortClosed>;
}

impl<T, E> ClosedErrorable<T> for Result<T, E> {
    fn closed_err(self) -> (r: Result<T, PortClosed>)
        ensures
            self is Ok <==> r is Ok,
            r matches Ok(v) ==> self == Ok::<T, E>(v),
    {
        match self {
            Ok(v) => Ok(v),
            Err(_) => Err(PortClosed),
        }
    }
}

/// What one side of a memory cell signals to the threads waiting on it.
#[derive(Debug, Copy, Clone, PartialEq, Eq, Structural)]
pub enum Readiness {
    /// Nothing to do on this side.
    Idle,
    /// A datum can be read.
    Readable,
    /// A datum can be written.
    Writable,
}

/// A memory cell between a putter and a getter: it holds at most one datum, signals on
/// its `full` side while it holds one and on its `empty` side while it does not, and
/// takes no more data once shut down.
pub struct Memory<T> {
    pub shutdown: bool,
    pub data: Option<T>,
    pub full: Readiness,
    pub empty: Readiness,
}

impl<T> Default for Memory<T> {
    /// An open, empty cell that signals nothing yet.
    fn default() -> (r: Self)
        ensures
            !r.shutdown,
            r.data is None,
            r.full == Readiness::Idle,
            r.empty == Readiness::Idle,
    {
        Memory { shutdown: false, data: None, full: Readiness::Idle, empty: Readiness::Idle }
    }
}

impl<T> Memory<T> {
    /// Closes the cell: both sides are woken (the getter may still take a datum that is
    /// left). Does nothing to a cell already shut down.
    pub fn shutdown(&mut self)
        ensures
            final(self).shutdown,
            final(self).data == old(self).data,
            old(self).shutdown ==> final(self).full == old(self).full && final(self).empty == old(self).empty,
            !old(self).shutdown ==> final(self).full == Readiness::Readable && final(self).empty == Readiness::Writable,
    {
        if !self.shutdown {
            self.shutdown = true;
            self.empty = Readiness::Writable;
            self.full = Readiness::Readable;
        }
    }

    /// Stores `datum`. Refused, with the datum handed back, once the cell is shut down.
    /// Into a full cell the datum is stored all the same, and the datum it held comes
    /// back as the error.
    pub fn put(&mut self, datum: T) -> (r: Result<(), T>)
        ensures
            old(self).shutdown ==> r == Err::<(), T>(datum) && *final(self) == *old(self),
            !old(self).shutdown ==> final(self).data == Some(datum) && final(self).shutdown == old(self).shutdown,
            !old(self).shutdown && old(self).data is None ==> r is Ok && final(self).full == Readiness::Readable
                && final(self).empty == Readiness::Idle,
            !old(self).shutdown && old(self).data is Some ==> r == Err::<(), T>(old(self).data->0)
                && final(self).full == old(self).full && final(self).empty == old(self).empty,
    {
        if self.shutdown {
            return Err(datum);
        }
        let was = self.data.take();
        self.data = Some(datum);
        match was {
            None => {
                self.update_ready();
                Ok(())
            },
            Some(x) => Err(x),
        }
    }

    /// Takes the datum out, also after a shut down; `PortClosed` where there is none.
    pub fn get(&mut self) -> (r: Result<T, PortClosed>)
        ensures
            final(self).shutdown == old(self).shutdown,
            old(self).data is None ==> r is Err && *final(self) == *old(self),
            old(self).data is Some ==> r == Ok::<T, PortClosed>(old(self).data->0) && final(self).data is None
                && final(self).full == Readiness::Idle && final(self).empty == Readiness::Writable,
    {
        match self.data.take() {
            Some(x) => {
                self.update_ready();
                Ok(x)
            },
            None => Err(PortClosed),
        }
    }

    /// The datum, where the cell holds one and is not shut down.
    pub fn peek(&self) -> (r: Result<&T, PortClosed>)
        ensures
            !self.shutdown && self.data is Some ==> r == Ok::<&T, PortClosed>(&self.data->0),
            self.shutdown || self.data is None ==> r is Err,
    {
        if self.shutdown {
            return Err(PortClosed);
        }
        match self.data.as_ref() {
            Some(x) => Ok(x),
            None => Err(PortClosed),
        }
    }

    /// Signals on the side that can act: `empty` while there is no datum, else `full`.
    pub fn update_ready(&mut self)
        ensures
            final(self).shutdown == old(self).shutdown,
            final(self).data == old(self).data,
            old(self).data is None ==> final(self).empty == Readiness::Writable && final(self).full == Readiness::Idle,
            old(self).data is Some ==> final(self).empty == Readiness::Idle && final(self).full == Readiness::Readable,
    {
        if self.data.is_none() {
            self.empty = Readiness::Writable;
            self.full = Readiness::Idle;
        } else {
            self.empty = Readiness::Idle;
            self.full = Readiness::Readable;
        }
    }
}

/// Why a put did not happen; the datum comes back where it was not consumed.
#[derive(Debug)]
pub enum TryPutErr<T: Sized> {
    PortClosed(Option<T>),
    PeerNotReady(T),
}

} // verus!
