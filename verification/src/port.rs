//! A port's two halves and what they share: the datum in flight, and the tokens under
//! which the selectors registered with each half are told of the other half's actions.
use vstd::prelude::*;

verus! {

/// A token was not registered.
#[derive(Debug, Copy, Clone)]
pub struct TokenError;

/// What happened at a registered port, by its token.
#[derive(Debug, Copy, Clone, PartialEq, Eq, Structural)]
pub enum PortEvent {
    DeregisteredPut(usize),
    DeregisteredGet(usize),
    Get(usize),
    Put(usize),
    Dropped(usize),
}

/// The token, if any, as the event `f` makes of it.
pub open spec fn notify(token: Option<usize>, f: spec_fn(usize) -> PortEvent) -> Option<PortEvent> {
    match token {
        Some(t) => Some(f(t)),
        None => None,
    }
}

/// What a port's putter and getter share.
pub struct PortCell<T> {
    /// The datum put and not yet taken.
    pub datum: Option<T>,
    /// The token under which the putter's selector hears of gets.
    pub update_putter: Option<usize>,
    /// The token under which the getter's selector hears of puts.
    pub update_getter: Option<usize>,
}

impl<T> PortCell<T> {
    /// An empty cell that nobody listens to.
    pub fn new() -> (r: Self)
        ensures
            r.datum is None,
            r.update_putter is None,
            r.update_getter is None,
    {
        PortCell { datum: None, update_putter: None, update_getter: None }
    }

    /// Whether a datum waits.
    pub fn occupied(&self) -> (r: bool)
        ensures
            r == self.datum is Some,
    {
        self.datum.is_some()
    }

    /// Puts `datum`, replacing any datum left; answers the event for the getter's
    /// selector, and the datum replaced (to be dropped).
    pub fn put(&mut self, datum: T) -> (r: (Option<PortEvent>, Option<T>))
        ensures
            final(self).datum == Some(datum),
            final(self).update_putter == old(self).update_putter,
            final(self).update_getter == old(self).update_getter,
            r.0 == notify(old(self).update_getter, |t: usize| PortEvent::Put(t)),
            r.1 == old(self).datum,
    {
        let was = self.datum.take();
        self.datum = Some(datum);
        let e = match self.update_getter {
            Some(t) => Some(PortEvent::Put(t)),
            None => None,
        };
        (e, was)
    }

    /// Takes the datum, if any; answers the event for the putter's selector too.
    pub fn get(&mut self) -> (r: (Option<PortEvent>, Option<T>))
        ensures
            final(self).datum is None,
            final(self).update_putter == old(self).update_putter,
            final(self).update_getter == old(self).update_getter,
            r.0 == notify(old(self).update_putter, |t: usize| PortEvent::Get(t)),
            r.1 == old(self).datum,
    {
        let was = self.datum.take();
        let e = match self.update_putter {
            Some(t) => Some(PortEvent::Get(t)),
            None => None,
        };
        (e, was)
    }

    /// Registers the getter's selector under `token`; answers the event that tells the
    /// selector registered before, if any, that it no longer is.
    pub fn register_getter(&mut self, token: usize) -> (r: Option<PortEvent>)
        ensures
            final(self).update_getter == Some(token),
            final(self).update_putter == old(self).update_putter,
            final(self).datum == old(self).datum,
            r == notify(old(self).update_getter, |t: usize| PortEvent::DeregisteredGet(t)),
    {
        let e = match self.update_getter {
            Some(t) => Some(PortEvent::DeregisteredGet(t)),
            None => None,
        };
        self.update_getter = Some(token);
        e
    }

    /// The event that tells the getter's selector that the putter is gone.
    pub fn putter_dropped(&self) -> (r: Option<PortEvent>)
        ensures
            r == notify(self.update_getter, |t: usize| PortEvent::Dropped(t)),
    {
        match self.update_getter {
            Some(t) => Some(PortEvent::Dropped(t)),
            None => None,
        }
    }

    /// The event that tells the putter's selector that the getter is gone.
    pub fn getter_dropped(&self) -> (r: Option<PortEvent>)
        ensures
            r == notify(self.update_putter, |t: usize| PortEvent::Dropped(t)),
    {
        match self.update_putter {
            Some(t) => Some(PortEvent::Dropped(t)),
            None => None,
        }
    }
}

/// The getter's half of a port: it remembers having seen a datum, so that a peek need
/// not look at the cell again.
pub struct GetPort {
    pub know_occupied: bool,
}

impl GetPort {
    /// The datum waiting in `cell`, if the getter knows of one, having looked where it
    /// did not yet.
    pub fn peek<'a, T>(&mut self, cell: &'a PortCell<T>) -> (r: Option<&'a T>)
        ensures
            final(self).know_occupied == (old(self).know_occupied || cell.datum is Some),
            final(self).know_occupied ==> r == (match cell.datum {
                Some(ref d) => Some(d),
                None => None,
            }),
            !final(self).know_occupied ==> r is None,
    {
        if !self.know_occupied {
            self.know_occupied = cell.occupied();
        }
        if self.know_occupied {
            cell.datum.as_ref()
        } else {
            None
        }
    }

    /// Takes the datum: the getter no longer knows of one.
    pub fn get<T>(&mut self, cell: &mut PortCell<T>) -> (r: (Option<PortEvent>, Option<T>))
        ensures
            !final(self).know_occupied,
            final(cell).datum is None,
            final(cell).update_putter == old(cell).update_putter,
            final(cell).update_getter == old(cell).update_getter,
            r.0 == notify(old(cell).update_putter, |t: usize| PortEvent::Get(t)),
            r.1 == old(cell).datum,
    {
        self.know_occupied = false;
        cell.get()
    }
}

/// No port was registered.
#[derive(Debug, Copy, Clone)]
pub struct NoneRegisteredError;

} // verus!
