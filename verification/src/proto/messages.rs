//! Small codes exchanged between the coordinator and the port threads.
use crate::LocId;
use vstd::prelude::*;

verus! {

/// Flags about moving a putter's datum out: `MOVED` once a getter has moved it,
/// `DISABLED` when moving is not allowed at all (getters must clone).
#[derive(Debug, Clone, Copy, PartialEq, Eq, Structural)]
pub struct MoveFlags {
    pub move_flags: u8,
}

impl MoveFlags {
    pub const MOVE_FLAG_MOVED: u8 = 0b01;

    pub const MOVE_FLAG_DISABLED: u8 = 0b10;

    pub fn new() -> (r: Self)
        ensures
            r.move_flags == 0,
    {
        MoveFlags { move_flags: 0 }
    }

    /// A `Copy` datum was moved (copied) out.
    pub fn type_is_copy_i_moved(&mut self)
        ensures
            final(self).move_flags == Self::MOVE_FLAG_MOVED,
    {
        self.move_flags = Self::MOVE_FLAG_MOVED;
    }

    /// Whether the datum was moved out while moving was allowed.
    pub fn did_someone_move(&self) -> (r: bool)
        ensures
            r == (self.move_flags & 0b01 != 0 && self.move_flags & 0b10 == 0),
    {
        let x: u8 = self.move_flags;
        x & Self::MOVE_FLAG_MOVED != 0 && x & Self::MOVE_FLAG_DISABLED == 0
    }

    /// Sets the moved flag, granting permission to move only when no flag was set before.
    pub fn ask_for_move_permission(&mut self) -> (granted: bool)
        ensures
            granted == (old(self).move_flags == 0),
            final(self).move_flags == old(self).move_flags | 0b01,
    {
        let was = self.move_flags;
        self.move_flags = was | Self::MOVE_FLAG_MOVED;
        0 == was
    }

    /// Clears the moved flag before a datum is handed out, and stores the disabled flag
    /// when `move_enabled` holds (with it false, both flags are cleared). So after
    /// `reset(true)` the next ask for permission is refused, and after `reset(false)` it is
    /// granted.
    pub fn reset(&mut self, move_enabled: bool)
        ensures
            final(self).move_flags == (if move_enabled { 0b10u8 } else { 0u8 }),
    {
        let val = if move_enabled {
            Self::MOVE_FLAG_DISABLED
        } else {
            0
        };
        self.move_flags = val;
    }
}

/// How a getter takes a putter's datum.
#[derive(Debug, Clone, Copy, PartialEq, Eq, Structural)]
pub enum DataGetCase {
    CloneSignalMover,
    AwaitThenMove,
    MoveImmediately,
}

/// Bits of a message that carry the getter's case.
pub open spec fn case_mask() -> usize {
    0b11usize << 62usize
}

impl DataGetCase {
    pub open spec fn code(self) -> usize {
        match self {
            DataGetCase::CloneSignalMover => 0,
            DataGetCase::AwaitThenMove => 1,
            DataGetCase::MoveImmediately => 2,
        }
    }

    /// Whether this getter moves the datum.
    pub fn i_move(self) -> (r: bool)
        ensures
            r == !(self is CloneSignalMover),
    {
        match self {
            DataGetCase::CloneSignalMover => false,
            DataGetCase::AwaitThenMove | DataGetCase::MoveImmediately => true,
        }
    }

    /// Whether the mover must wait for the cloners first.
    pub fn mover_must_wait(self) -> (r: bool)
        ensures
            r == !(self is MoveImmediately),
    {
        match self {
            DataGetCase::CloneSignalMover | DataGetCase::AwaitThenMove => true,
            DataGetCase::MoveImmediately => false,
        }
    }

    /// Splits a message into the case (its two top bits) and the putter id (the rest).
    pub fn parse_msg(msg: u64) -> (r: (Self, LocId))
        requires
            msg >> 62u64 != 3,
        ensures
            r.0.code() == (msg >> 62u64) as usize,
            r.1 == (msg & !(0b11u64 << 62u64)) as usize,
    {
        let mask: u64 = 0b11u64 << 62u64;
        let top = (msg & mask) >> 62u64;
        assert(top == msg >> 62u64 && top < 4) by (bit_vector)
            requires
                mask == 0b11u64 << 62u64,
                top == (msg & mask) >> 62u64,
        ;
        let case = if top == 0 {
            DataGetCase::CloneSignalMover
        } else if top == 1 {
            DataGetCase::AwaitThenMove
        } else {
            DataGetCase::MoveImmediately
        };
        (case, (msg & !mask) as usize)
    }

    /// Puts the case in the two top bits of `msg`, which must be clear.
    pub fn include_in_msg(self, msg: u64) -> (r: u64)
        requires
            msg & (0b11u64 << 62u64) == 0,
        ensures
            r == msg | ((self.code() as u64) << 62u64),
    {
        let x: u64 = match self {
            DataGetCase::CloneSignalMover => 0b00,
            DataGetCase::AwaitThenMove => 0b01,
            DataGetCase::MoveImmediately => 0b10,
        };
        msg | (x << 62u64)
    }
}

/// The message that tells a getter that it takes no datum.
pub const NOTHING: u64 = 0xffff_ffff_ffff_ffffu64;

/// How many of `getters` want a datum (the rest only take part in the firing).
pub open spec fn data_count(getters: Seq<(LocId, bool)>) -> nat
    decreases getters.len(),
{
    if getters.len() == 0 {
        0
    } else {
        data_count(getters.drop_last()) + if getters.last().1 {
            1nat
        } else {
            0nat
        }
    }
}

/// How a getter that wants a datum takes it, being the `rank`-th of `count` such getters:
/// a lone getter moves it at once; otherwise the first moves it once the others have
/// cloned it.
pub open spec fn case_for(rank: nat, count: nat) -> DataGetCase {
    if count == 1 {
        DataGetCase::MoveImmediately
    } else if rank == 0 {
        DataGetCase::AwaitThenMove
    } else {
        DataGetCase::CloneSignalMover
    }
}

/// Of the getters that want a datum, exactly the first (rank 0) moves it; the others
/// clone it, and the mover waits for them unless it is alone.
pub proof fn law_first_moves(rank: nat, count: nat)
    requires
        rank < count,
    ensures
        !(case_for(rank, count) is CloneSignalMover) <==> rank == 0,
        case_for(rank, count) is MoveImmediately <==> count == 1,
{
}

/// Whether port getter `i` of `getters` moves the datum (rather than cloning it or
/// wanting none).
pub open spec fn moves_at(getters: Seq<(LocId, bool)>, i: int) -> bool {
    getters[i].1 && !(case_for(data_count(getters.take(i)), data_count(getters)) is CloneSignalMover)
}

proof fn lemma_count_grows(g: Seq<(LocId, bool)>, i: int, j: int)
    requires
        0 <= i <= j <= g.len(),
    ensures
        data_count(g.take(i)) <= data_count(g.take(j)),
        i < j && g[i].1 ==> data_count(g.take(i)) + 1 <= data_count(g.take(j)),
        data_count(g.take(j)) <= j,
    decreases j,
{
    if j > 0 {
        assert(g.take(j).drop_last() =~= g.take(j - 1));
        if i < j {
            lemma_count_grows(g, i, j - 1);
        }
        lemma_count_grows(g, j - 1, j - 1);
    } else {
        assert(g.take(0) =~= Seq::<(LocId, bool)>::empty());
    }
}

proof fn lemma_first_wanting(g: Seq<(LocId, bool)>)
    requires
        data_count(g) > 0,
    ensures
        exists|i: int| 0 <= i < g.len() && g[i].1 && #[trigger] data_count(g.take(i)) == 0,
    decreases g.len(),
{
    let pre = g.drop_last();
    if data_count(pre) > 0 {
        lemma_first_wanting(pre);
        let i = choose|i: int| 0 <= i < pre.len() && pre[i].1 && #[trigger] data_count(pre.take(i)) == 0;
        assert(g.take(i) =~= pre.take(i));
    } else {
        assert(g.take(g.len() - 1) =~= pre);
        assert(data_count(g.take(g.len() - 1)) == 0);
    }
}

/// A putter's datum is moved exactly once when some port getter wants it: by the first
/// such getter, every other one cloning it or wanting none. When no port getter wants it,
/// none moves it (and [`port_handout`] tells a port putter whether a memory cell took it).
pub proof fn law_datum_moved_once(getters: Seq<(LocId, bool)>)
    ensures
        data_count(getters) > 0 ==> exists|i: int|
            0 <= i < getters.len() && #[trigger] moves_at(getters, i) && forall|j: int|
                0 <= j < getters.len() && j != i ==> !#[trigger] moves_at(getters, j),
        data_count(getters) == 0 ==> forall|j: int| 0 <= j < getters.len() ==> !#[trigger] moves_at(getters, j),
{
    let n = data_count(getters);
    assert(getters.take(getters.len() as int) =~= getters);
    assert forall|j: int| 0 <= j < getters.len() && getters[j].1 implies data_count(getters.take(j)) + 1 <= n by {
        lemma_count_grows(getters, j, getters.len() as int);
    }
    assert forall|j: int| 0 <= j < getters.len() implies #[trigger] moves_at(getters, j) <==> (getters[j].1 && data_count(
        getters.take(j),
    ) == 0) by {
    }
    if n > 0 {
        lemma_first_wanting(getters);
        let i = choose|i: int| 0 <= i < getters.len() && getters[i].1 && #[trigger] data_count(getters.take(i)) == 0;
        assert(moves_at(getters, i));
        assert forall|j: int| 0 <= j < getters.len() && j != i implies !#[trigger] moves_at(getters, j) by {
            if j < i {
                lemma_count_grows(getters, j, i);
            } else {
                lemma_count_grows(getters, i, j);
            }
        }
    }
}

/// What the putter's firing tells its port getters and itself.
pub struct PortHandout {
    /// One message per port getter, in their order: [`NOTHING`] for a getter that wants
    /// no datum, else the putter's id carrying how that getter takes the datum.
    pub msgs: Vec<(LocId, u64)>,
    /// How many getters take part in handing the datum on (those that want it).
    pub countdown: usize,
    /// A port putter that no getter takes the datum from is told at once how many memory
    /// cells moved it (0 or 1).
    pub putter_reply: Option<usize>,
    /// A memory putter that no port getter takes the datum from empties itself.
    pub empty_putter: bool,
    /// Whether the datum written into memory cells is a clone (a port getter will take
    /// the original) rather than the datum moved.
    pub mem_gets_clone: bool,
}

/// Decides what a firing tells the port getters of `putter`: the getters that want no
/// datum are released with [`NOTHING`]; of those that want it, a lone one moves it at
/// once, and of two or more the first moves it after the others have cloned it.
pub fn port_handout(putter: LocId, getters: &Vec<(LocId, bool)>, mem_putter: bool, has_mem_getters: bool) -> (r:
    PortHandout)
    requires
        (putter as u64) & (0b11u64 << 62u64) == 0,
        putter <= u64::MAX,
    ensures
        r.msgs@.len() == getters@.len(),
        forall|i: int| 0 <= i < getters@.len() ==> (#[trigger] r.msgs@[i]).0 == getters@[i].0,
        forall|i: int| 0 <= i < getters@.len() && !getters@[i].1 ==> (#[trigger] r.msgs@[i]).1 == NOTHING,
        forall|i: int|
            0 <= i < getters@.len() && getters@[i].1 ==> (#[trigger] r.msgs@[i]).1 == (putter as u64 | ((case_for(
                data_count(getters@.take(i)),
                data_count(getters@),
            ).code() as u64) << 62u64)),
        r.countdown == data_count(getters@),
        r.putter_reply == (if !mem_putter && data_count(getters@) == 0 {
            Some(if has_mem_getters { 1usize } else { 0usize })
        } else {
            None
        }),
        r.empty_putter == (mem_putter && data_count(getters@) == 0),
        r.mem_gets_clone == (data_count(getters@) > 0),
{
    // count the getters that want the datum
    let mut count: usize = 0;
    let mut i: usize = 0;
    while i < getters.len()
        invariant
            i <= getters@.len(),
            count == data_count(getters@.take(i as int)),
            count <= i,
        decreases getters@.len() - i,
    {
        proof {
            assert(getters@.take(i + 1).drop_last() =~= getters@.take(i as int));
        }
        if getters[i].1 {
            count += 1;
        }
        i += 1;
    }
    proof {
        assert(getters@.take(getters@.len() as int) =~= getters@);
    }
    let id = putter as u64;
    let mut msgs: Vec<(LocId, u64)> = Vec::new();
    let mut rank: usize = 0;
    i = 0;
    while i < getters.len()
        invariant
            i <= getters@.len(),
            count == data_count(getters@),
            id == putter as u64,
            id & (0b11u64 << 62u64) == 0,
            rank == data_count(getters@.take(i as int)),
            rank <= i,
            msgs@.len() == i,
            forall|j: int| 0 <= j < i ==> (#[trigger] msgs@[j]).0 == getters@[j].0,
            forall|j: int| 0 <= j < i && !getters@[j].1 ==> (#[trigger] msgs@[j]).1 == NOTHING,
            forall|j: int|
                0 <= j < i && getters@[j].1 ==> (#[trigger] msgs@[j]).1 == (id | ((case_for(
                    data_count(getters@.take(j)),
                    count as nat,
                ).code() as u64) << 62u64)),
        decreases getters@.len() - i,
    {
        proof {
            assert(getters@.take(i + 1).drop_last() =~= getters@.take(i as int));
        }
        let (g, wants) = getters[i];
        if wants {
            let case = if count == 1 {
                DataGetCase::MoveImmediately
            } else if rank == 0 {
                DataGetCase::AwaitThenMove
            } else {
                DataGetCase::CloneSignalMover
            };
            msgs.push((g, case.include_in_msg(id)));
            rank += 1;
        } else {
            msgs.push((g, NOTHING));
        }
        i += 1;
    }
    let putter_reply = if !mem_putter && count == 0 {
        Some(if has_mem_getters { 1usize } else { 0usize })
    } else {
        None
    };
    PortHandout { msgs, countdown: count, putter_reply, empty_putter: mem_putter && count == 0, mem_gets_clone: count > 0 }
}

/// Outcome of a put with a time limit.
#[derive(Debug, Copy, Clone, Eq, PartialEq)]
pub enum PutTimeoutResult<T> {
    Timeout(T),
    Observed(T),
    Moved,
}

impl<T> PutTimeoutResult<T> {
    /// Whether the datum was moved out.
    pub fn moved(&self) -> (r: bool)
        ensures
            r == (*self is Moved),
    {
        match self {
            PutTimeoutResult::Timeout(_) | PutTimeoutResult::Observed(_) => false,
            PutTimeoutResult::Moved => true,
        }
    }

    /// The outcome as a `Result`: `Ok` when moved, else the datum and whether some
    /// getter observed it.
    pub fn into_result(self) -> (r: Result<(), (T, bool)>)
        ensures
            match self {
                PutTimeoutResult::Timeout(t) => r == Err::<(), (T, bool)>((t, false)),
                PutTimeoutResult::Observed(t) => r == Err::<(), (T, bool)>((t, true)),
                PutTimeoutResult::Moved => r == Ok::<(), (T, bool)>(()),
            },
    {
        match self {
            PutTimeoutResult::Timeout(t) => Err((t, false)),
            PutTimeoutResult::Observed(t) => Err((t, true)),
            PutTimeoutResult::Moved => Ok(()),
        }
    }
}

/// Whether `y` lies in `[start, end)`.
pub fn in_rng(start: usize, end: usize, y: usize) -> (r: bool)
    ensures
        r == (start <= y && y < end),
{
    start <= y && y < end
}


/// Reading a message back gives the case and the id it was written with: for an id that
/// leaves the two top bits clear, parsing `c.include_in_msg(id)` yields `c` and `id`.
pub proof fn law_msg_roundtrip(c: DataGetCase, id: u64)
    requires
        id & (0b11u64 << 62u64) == 0,
    ensures
        ((id | ((c.code() as u64) << 62u64)) >> 62u64) as usize == c.code(),
        ((id | ((c.code() as u64) << 62u64)) & !(0b11u64 << 62u64)) == id,
        (id | ((c.code() as u64) << 62u64)) >> 62u64 != 3,
{
    let k = c.code() as u64;
    assert(k < 3);
    assert(((id | (k << 62u64)) >> 62u64) == k && ((id | (k << 62u64)) & !(0b11u64 << 62u64)) == id) by (bit_vector)
        requires
            id & (0b11u64 << 62u64) == 0,
            k < 3,
    ;
}

} // verus!
