//! Actions of a protocol run without threads, and the messages its ports exchange.
use vstd::prelude::*;

verus! {

/// Data moves from `from` to each of `to`.
pub struct Action {
    pub from: usize,
    pub to: Vec<usize>,
}

impl Action {
    pub fn new(from: usize, to: Vec<usize>) -> (r: Self)
        ensures
            r.from == from,
            r.to@ == to@,
    {
        Self { from, to }
    }
}

/// Memory cells have putter ids from `num_ports` on; counted from there, the `len` putter
/// slots come first and the getter slots after them. The getter slot of the cell whose
/// putter id is `id`.
pub fn mem_id_p2g(num_ports: usize, len: usize, id: usize) -> (r: usize)
    requires
        num_ports <= id,
        id - num_ports < len,
        id - num_ports + len <= usize::MAX,
    ensures
        r == id - num_ports + len,
{
    let mem_idx = id - num_ports;
    mem_idx + len
}

/// The putter slot of the cell whose getter slot is `id - num_ports` (slots counted as in
/// [`mem_id_p2g`]).
pub fn mem_id_g2p(num_ports: usize, len: usize, id: usize) -> (r: usize)
    requires
        num_ports <= id,
        len <= id - num_ports < 2 * len,
    ensures
        r == id - num_ports - len,
{
    let mem_idx = id - num_ports;
    mem_idx - len
}

/// Hands out the items of a sequence, each marked with whether it is the first call.
pub struct WithFirst<T> {
    pub items: Vec<T>,
    pub pos: usize,
    pub first: bool,
}

impl<T: Copy> WithFirst<T> {
    pub fn new(items: Vec<T>) -> (r: Self)
        ensures
            r.items@ == items@,
            r.pos == 0,
            r.first,
    {
        WithFirst { items, pos: 0, first: true }
    }

    /// The next item, marked `true` only on the first call (whether or not an item is
    /// left then).
    pub fn next(&mut self) -> (r: Option<(bool, T)>)
        requires
            old(self).pos <= old(self).items@.len(),
        ensures
            final(self).items@ == old(self).items@,
            !final(self).first,
            final(self).pos <= final(self).items@.len(),
            old(self).pos < old(self).items@.len() ==> r == Some((old(self).first, old(self).items@[old(self).pos as int]))
                && final(self).pos == old(self).pos + 1,
            old(self).pos == old(self).items@.len() ==> r is None && final(self).pos == old(self).pos,
    {
        let first = self.first;
        self.first = false;
        if self.pos < self.items.len() {
            let x = self.items[self.pos];
            self.pos = self.pos + 1;
            Some((first, x))
        } else {
            None
        }
    }
}

/// Messages between ports about who moves or clones a datum.
#[derive(Debug, Copy, Clone, PartialEq, Eq, Structural)]
pub enum MetaMsg {
    PutterWaitFor(usize),
    PortMove { src_putter: usize },
    PortClone { src_putter: usize },
    MemFollowerClone { leader_getter: usize, mem_p_id: usize },
    MemLeaderMove { mem_p_id: usize, wait_sum: usize },
    IMovedIt,
    IClonedIt,
}

/// Where a getter takes its datum from.
#[derive(Debug, Copy, Clone, PartialEq, Eq, Structural)]
pub enum GetSource {
    /// The datum a port putter offers.
    PortPutter(usize),
    /// The datum held by the memory cell with this putter id.
    MemCell(usize),
}

/// What a getter does with the message the protocol sent it: it first awaits
/// `await_clones` messages [`MetaMsg::IClonedIt`] (the other getters having cloned the
/// datum), then moves (`moves`) or clones the datum out of `source`, then sends `reply`
/// if there is one.
#[derive(Debug, Copy, Clone, PartialEq, Eq, Structural)]
pub struct GetPlan {
    pub source: GetSource,
    pub moves: bool,
    pub await_clones: usize,
    pub reply: Option<Reply>,
}

/// A message `msg` for the port `to`.
#[derive(Debug, Copy, Clone, PartialEq, Eq, Structural)]
pub struct Reply {
    pub to: usize,
    pub msg: MetaMsg,
}

/// The plan of a getter that received `m`: a port getter told to move or clone tells the
/// putter it did; the leader of a memory cell's getters waits for the `wait_sum` others
/// to clone and then moves, telling nobody; a follower clones and tells the leader.
/// `None` for a message a getter is never sent.
pub fn get_plan(m: MetaMsg) -> (r: Option<GetPlan>)
    ensures
        match m {
            MetaMsg::PortMove { src_putter } => r == Some(
                GetPlan {
                    source: GetSource::PortPutter(src_putter),
                    moves: true,
                    await_clones: 0,
                    reply: Some(Reply { to: src_putter, msg: MetaMsg::IMovedIt }),
                },
            ),
            MetaMsg::PortClone { src_putter } => r == Some(
                GetPlan {
                    source: GetSource::PortPutter(src_putter),
                    moves: false,
                    await_clones: 0,
                    reply: Some(Reply { to: src_putter, msg: MetaMsg::IClonedIt }),
                },
            ),
            MetaMsg::MemLeaderMove { mem_p_id, wait_sum } => r == Some(
                GetPlan { source: GetSource::MemCell(mem_p_id), moves: true, await_clones: wait_sum, reply: None },
            ),
            MetaMsg::MemFollowerClone { leader_getter, mem_p_id } => r == Some(
                GetPlan {
                    source: GetSource::MemCell(mem_p_id),
                    moves: false,
                    await_clones: 0,
                    reply: Some(Reply { to: leader_getter, msg: MetaMsg::IClonedIt }),
                },
            ),
            _ => r is None,
        },
{
    match m {
        MetaMsg::PortMove { src_putter } => Some(
            GetPlan {
                source: GetSource::PortPutter(src_putter),
                moves: true,
                await_clones: 0,
                reply: Some(Reply { to: src_putter, msg: MetaMsg::IMovedIt }),
            },
        ),
        MetaMsg::PortClone { src_putter } => Some(
            GetPlan {
                source: GetSource::PortPutter(src_putter),
                moves: false,
                await_clones: 0,
                reply: Some(Reply { to: src_putter, msg: MetaMsg::IClonedIt }),
            },
        ),
        MetaMsg::MemLeaderMove { mem_p_id, wait_sum } => Some(
            GetPlan { source: GetSource::MemCell(mem_p_id), moves: true, await_clones: wait_sum, reply: None },
        ),
        MetaMsg::MemFollowerClone { leader_getter, mem_p_id } => Some(
            GetPlan {
                source: GetSource::MemCell(mem_p_id),
                moves: false,
                await_clones: 0,
                reply: Some(Reply { to: leader_getter, msg: MetaMsg::IClonedIt }),
            },
        ),
        _ => None,
    }
}

/// A value that can be duplicated.
pub trait TryClone: Sized {
    fn try_clone(&self) -> Self;
}

impl<T: Clone> TryClone for T {
    /// A clone of the value.
    fn try_clone(&self) -> (r: Self)
        ensures
            vstd::pervasive::cloned(*self, r),
    {
        self.clone()
    }
}

/// A value made from what a putter offers.
pub trait CloneFromPortPutter<T>: Sized {
    fn clone_from(t: &T) -> Self;
}

impl<T> CloneFromPortPutter<T> for () {
    fn clone_from(_t: &T) -> Self {
        ()
    }
}

} // verus!
