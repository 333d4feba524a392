//! Outcomes of waiting at a port, and claiming several getters' putters at once.
use vstd::prelude::*;

verus! {

/// Why a put did not happen; the datum comes back.
pub enum TryPutErr<T> {
    PeerDropped(T),
    Timeout(T),
}

/// How a wait at a port ended.
#[derive(Debug, Copy, Clone, PartialEq, Eq, Structural)]
pub enum WaitResult {
    Rendezvous,
    PeerDropped,
    Timeout,
}

impl WaitResult {
    /// Whether the peer was met.
    pub fn was_rendezvous(self) -> (r: bool)
        ensures
            r == (self == WaitResult::Rendezvous),
    {
        match self {
            WaitResult::Rendezvous => true,
            _ => false,
        }
    }
}

/// A getter whose putter can be claimed without taking the datum.
pub trait Catcallable {
    /// Whether the getter now holds its putter (so that a peek or get will not block).
    spec fn holds_putter(&self) -> bool;

    /// How many times the putter was asked for.
    spec fn catcalls(&self) -> usize;

    /// How many times a claimed putter was released.
    spec fn releases(&self) -> usize;

    /// What the last ask for the putter answered, if it was ever asked for.
    spec fn last_catcall(&self) -> Option<Result<bool, ()>>;

    /// Tries to claim the putter: `Ok(true)` if it is now held, `Ok(false)` if it was not
    /// ready, `Err(())` if the port is dead.
    fn catcall(&mut self) -> (r: Result<bool, ()>)
        requires
            old(self).catcalls() < usize::MAX,
        ensures
            r == Ok::<bool, ()>(true) ==> final(self).holds_putter(),
            r == Ok::<bool, ()>(false) ==> !final(self).holds_putter(),
            final(self).catcalls() == old(self).catcalls() + 1,
            final(self).releases() == old(self).releases(),
            final(self).last_catcall() == Some(r),
    ;

    /// Releases a claimed putter; `true` if released or the port is dead.
    fn try_release_putter(&mut self) -> (r: bool)
        requires
            old(self).releases() < usize::MAX,
        ensures
            r ==> !final(self).holds_putter(),
            final(self).catcalls() == old(self).catcalls(),
            final(self).releases() == old(self).releases() + 1,
            final(self).last_catcall() == old(self).last_catcall(),
    ;
}

/// Why claiming several putters failed outright.
#[derive(Debug, Copy, Clone, PartialEq, Eq, Structural)]
pub enum CatcallFailure {
    /// The port at this index is dead.
    Dead(usize),
    /// The putter at this index could not be released.
    NotReleased(usize),
}

/// `after` is `before` asked once for its putter, which answered `answer`, and released
/// `released` more times.
pub open spec fn asked<C: Catcallable>(before: C, after: C, answer: Result<bool, ()>, released: nat) -> bool {
    &&& after.catcalls() == before.catcalls() + 1
    &&& after.last_catcall() == Some(answer)
    &&& after.releases() == before.releases() + released
}

/// Claims the putters of all of `cs` in order, asking each once. When one is not ready,
/// releases once each of those claimed before it and answers `Ok(false)`; when all were
/// claimed, `Ok(true)`. A dead port stops the claiming (the putters claimed before it
/// stay held), and so does a putter that cannot be released; the getters not reached are
/// left as they were.
pub fn catcall_all_or_release<C: Catcallable>(cs: &mut Vec<C>) -> (r: Result<bool, CatcallFailure>)
    requires
        forall|k: int|
            0 <= k < old(cs)@.len() ==> (#[trigger] old(cs)@[k]).catcalls() < usize::MAX && old(cs)@[k].releases()
                < usize::MAX,
    ensures
        final(cs)@.len() == old(cs)@.len(),
        r == Ok::<bool, CatcallFailure>(true) ==> forall|k: int|
            0 <= k < old(cs)@.len() ==> {
                &&& asked(old(cs)@[k], #[trigger] final(cs)@[k], Ok(true), 0)
                &&& final(cs)@[k].holds_putter()
            },
        r == Ok::<bool, CatcallFailure>(false) ==> exists|m: int|
            0 <= m < old(cs)@.len() && asked(old(cs)@[m], #[trigger] final(cs)@[m], Ok(false), 0)
                && !final(cs)@[m].holds_putter() && (forall|k: int|
                0 <= k < m ==> asked(old(cs)@[k], #[trigger] final(cs)@[k], Ok(true), 1)
                    && !final(cs)@[k].holds_putter()) && (forall|k: int|
                m < k < old(cs)@.len() ==> #[trigger] final(cs)@[k] == old(cs)@[k]),
        r matches Err(CatcallFailure::Dead(i)) ==> {
            &&& i < old(cs)@.len()
            &&& asked(old(cs)@[i as int], final(cs)@[i as int], Err(()), 0)
            &&& forall|k: int|
                0 <= k < i ==> asked(old(cs)@[k], #[trigger] final(cs)@[k], Ok(true), 0)
                    && final(cs)@[k].holds_putter()
            &&& forall|k: int| i < k < old(cs)@.len() ==> #[trigger] final(cs)@[k] == old(cs)@[k]
        },
        r matches Err(CatcallFailure::NotReleased(j)) ==> exists|m: int|
            j < m < old(cs)@.len() && asked(old(cs)@[m], #[trigger] final(cs)@[m], Ok(false), 0)
                && !final(cs)@[m].holds_putter() && asked(old(cs)@[j as int], final(cs)@[j as int], Ok(true), 1)
                && (forall|k: int|
                0 <= k < j ==> asked(old(cs)@[k], #[trigger] final(cs)@[k], Ok(true), 1)
                    && !final(cs)@[k].holds_putter()) && (forall|k: int|
                j < k < m ==> asked(old(cs)@[k], #[trigger] final(cs)@[k], Ok(true), 0)
                    && final(cs)@[k].holds_putter()) && (forall|k: int|
                m < k < old(cs)@.len() ==> #[trigger] final(cs)@[k] == old(cs)@[k]),
{
    let n = cs.len();
    let mut i: usize = 0;
    while i < n
        invariant
            n == old(cs)@.len(),
            cs@.len() == n,
            i <= n,
            forall|k: int|
                0 <= k < i ==> asked(old(cs)@[k], #[trigger] cs@[k], Ok(true), 0) && cs@[k].holds_putter(),
            forall|k: int| i <= k < n ==> #[trigger] cs@[k] == old(cs)@[k],
            forall|k: int|
                0 <= k < old(cs)@.len() ==> (#[trigger] old(cs)@[k]).catcalls() < usize::MAX && old(cs)@[k].releases()
                    < usize::MAX,
        decreases n - i,
    {
        let ghost before = cs@;
        let mut c = cs.remove(i);
        assert(c.catcalls() < usize::MAX) by {
            assert(c == old(cs)@[i as int]);
        }
        let res = c.catcall();
        cs.insert(i, c);
        proof {
            assert forall|k: int| 0 <= k < n && k != i implies #[trigger] cs@[k] == before[k] by {}
            assert(asked(old(cs)@[i as int], cs@[i as int], res, 0));
        }
        match res {
            Err(e) => {
                proof {
                    assert(e == ());
                    assert(res == Err::<bool, ()>(()));
                    assert(asked(old(cs)@[i as int], cs@[i as int], Err(()), 0));
                    assert forall|k: int| i < k < n implies #[trigger] cs@[k] == old(cs)@[k] by {
                        assert(cs@[k] == before[k]);
                    }
                }
                return Err(CatcallFailure::Dead(i));
            },
            Ok(false) => {
                let mut j: usize = 0;
                while j < i
                    invariant
                        n == old(cs)@.len(),
                        cs@.len() == n,
                        j <= i,
                        i < n,
                        forall|k: int|
                            0 <= k < j ==> asked(old(cs)@[k], #[trigger] cs@[k], Ok(true), 1)
                                && !cs@[k].holds_putter(),
                        forall|k: int|
                            j <= k < i ==> asked(old(cs)@[k], #[trigger] cs@[k], Ok(true), 0) && cs@[k].holds_putter(),
                        asked(old(cs)@[i as int], cs@[i as int], Ok(false), 0),
                        !cs@[i as int].holds_putter(),
                        forall|k: int| i < k < n ==> #[trigger] cs@[k] == old(cs)@[k],
                        forall|k: int|
                            0 <= k < old(cs)@.len() ==> (#[trigger] old(cs)@[k]).catcalls() < usize::MAX
                                && old(cs)@[k].releases() < usize::MAX,
                    decreases i - j,
                {
                    let ghost before2 = cs@;
                    let mut c2 = cs.remove(j);
                    assert(c2.releases() < usize::MAX) by {
                        assert(c2 == before2[j as int]);
                        assert(asked(old(cs)@[j as int], c2, Ok(true), 0));
                        assert(old(cs)@[j as int].releases() < usize::MAX);
                    }
                    let released = c2.try_release_putter();
                    cs.insert(j, c2);
                    proof {
                        assert forall|k: int| 0 <= k < n && k != j implies #[trigger] cs@[k] == before2[k] by {}
                        assert(asked(old(cs)@[j as int], cs@[j as int], Ok(true), 1));
                    }
                    if !released {
                        proof {
                            assert(asked(old(cs)@[i as int], cs@[i as int], Ok(false), 0));
                        }
                        return Err(CatcallFailure::NotReleased(j));
                    }
                    j += 1;
                }
                proof {
                    assert(asked(old(cs)@[i as int], cs@[i as int], Ok(false), 0));
                }
                return Ok(false);
            },
            Ok(true) => {},
        }
        i += 1;
    }
    Ok(true)
}

} // verus!
