//! The getter's side of an earlier threaded design: the messages a getter receives and
//! sends, and what it does on each, as a step from state and message to state and
//! actions. The thread that waits for the messages and touches the data runs the steps.
use vstd::prelude::*;

verus! {

/// Messages between the protocol, putters and getters.
#[derive(Debug, Copy, Clone, PartialEq, Eq, Structural)]
pub enum MetaMsg {
    /// A getter to a putter or to the leading getter: it took the datum, moving it or not.
    CountMe { i_moved: bool },
    /// The protocol to a putter: how many getters will report.
    WaitFor { getter_count: usize },
    /// The protocol to a getter: take the datum of a port putter.
    GetFromPutter { putter_id: usize, move_allowed: bool },
    /// The protocol to a getter: take the datum of a memory cell.
    GetFromMem { mem_id: usize, move_allowed: bool },
    /// The protocol to a getter of a memory cell: collect the reports of the others.
    BeLeader { follower_count: usize },
    /// The protocol to a getter of a memory cell: report to `leader`.
    BeFollower { leader: usize },
}

/// Why a message could not be taken.
#[derive(Debug, Copy, Clone, PartialEq, Eq, Structural)]
pub enum GetErr {
    /// A second getter reported that it moved the datum.
    MovedTwice,
    /// The message was not one expected at this point.
    Unexpected,
}

/// Where a getter takes its datum from.
#[derive(Debug, Copy, Clone, PartialEq, Eq, Structural)]
pub enum GetSource {
    Putter(usize),
    Mem(usize),
}

/// Something the getter's thread does.
#[derive(Debug, Copy, Clone, PartialEq, Eq, Structural)]
pub enum GetAction {
    /// Take the datum from `source`: move it out if `moves`, clone it otherwise.
    Take { source: GetSource, moves: bool },
    /// Send `msg` to `to`.
    Send { to: usize, msg: MetaMsg },
    /// Hand control back to the protocol, which clears the memory cell once all are done.
    ClearMem { mem_id: usize },
}

/// Where a getter is in taking one datum.
#[derive(Debug, Copy, Clone, PartialEq, Eq, Structural)]
pub enum GetState {
    /// Waiting for the protocol to say where the datum is.
    AwaitingData,
    /// Took the datum of memory cell `mem_id` (moving it if `moved`); waiting to learn
    /// whether it leads.
    AwaitingRole { mem_id: usize, moved: bool },
    /// Leading the getters of `mem_id`: `remaining` reports still to come, `was_moved`
    /// whether the datum was moved so far.
    Leading { mem_id: usize, was_moved: bool, remaining: usize },
    /// The datum is taken and every report is in.
    Done,
}

/// One report counted: `Ok` with whether the datum has now been moved; refused when a
/// second getter moved it or the message is no report.
pub fn count_step(was_moved: bool, msg: MetaMsg) -> (r: Result<bool, GetErr>)
    ensures
        match msg {
            MetaMsg::CountMe { i_moved } => if i_moved && was_moved {
                r == Err::<bool, GetErr>(GetErr::MovedTwice)
            } else {
                r == Ok::<bool, GetErr>(was_moved || i_moved)
            },
            _ => r == Err::<bool, GetErr>(GetErr::Unexpected),
        },
{
    match msg {
        MetaMsg::CountMe { i_moved } => {
            if i_moved && was_moved {
                Err(GetErr::MovedTwice)
            } else {
                Ok(was_moved || i_moved)
            }
        },
        _ => Err(GetErr::Unexpected),
    }
}

/// The getter's step on `msg` in `state`: the next state and what to do, in order.
///
/// - Told where the datum of a port putter is, the getter takes it (moving it when
///   allowed) and reports to the putter; it is done.
/// - Told where the datum of a memory cell is, it takes it and waits for its role.
/// - As a leader of no others it is done; of others, it collects their reports.
/// - As a follower it reports to the leader and is done.
/// - Each report a leader counts hands control back to the protocol; a second move is
///   refused, and after the last report the leader is done.
/// - Any other message is refused.
pub fn get_step(state: GetState, msg: MetaMsg) -> (r: Result<(GetState, Vec<GetAction>), GetErr>)
    ensures
        match (state, msg) {
            (GetState::AwaitingData, MetaMsg::GetFromPutter { putter_id, move_allowed }) => r matches Ok((s, a))
                && s == GetState::Done && a@ == seq![
                GetAction::Take { source: GetSource::Putter(putter_id), moves: move_allowed },
                GetAction::Send { to: putter_id, msg: MetaMsg::CountMe { i_moved: move_allowed } },
            ],
            (GetState::AwaitingData, MetaMsg::GetFromMem { mem_id, move_allowed }) => r matches Ok((s, a))
                && s == (GetState::AwaitingRole { mem_id, moved: move_allowed }) && a@ == seq![
                GetAction::Take { source: GetSource::Mem(mem_id), moves: move_allowed },
            ],
            (GetState::AwaitingRole { mem_id, moved }, MetaMsg::BeLeader { follower_count }) => r matches Ok((s, a))
                && a@.len() == 0 && s == (if follower_count == 0 {
                GetState::Done
            } else {
                GetState::Leading { mem_id, was_moved: moved, remaining: follower_count }
            }),
            (GetState::AwaitingRole { mem_id, moved }, MetaMsg::BeFollower { leader }) => r matches Ok((s, a)) && s
                == GetState::Done && a@ == seq![GetAction::Send { to: leader, msg: MetaMsg::CountMe { i_moved: moved } }],
            (GetState::Leading { mem_id, was_moved, remaining }, _) => match msg {
                MetaMsg::CountMe { i_moved } => if i_moved && was_moved {
                    r == Err::<(GetState, Vec<GetAction>), GetErr>(GetErr::MovedTwice)
                } else {
                    r matches Ok((s, a)) && a@ == seq![GetAction::ClearMem { mem_id }] && s == (if remaining <= 1 {
                        GetState::Done
                    } else {
                        GetState::Leading { mem_id, was_moved: was_moved || i_moved, remaining: (remaining - 1) as usize }
                    })
                },
                _ => r == Err::<(GetState, Vec<GetAction>), GetErr>(GetErr::Unexpected),
            },
            _ => r == Err::<(GetState, Vec<GetAction>), GetErr>(GetErr::Unexpected),
        },
{
    match state {
        GetState::AwaitingData => match msg {
            MetaMsg::GetFromPutter { putter_id, move_allowed } => {
                let a = vec![
                    GetAction::Take { source: GetSource::Putter(putter_id), moves: move_allowed },
                    GetAction::Send { to: putter_id, msg: MetaMsg::CountMe { i_moved: move_allowed } },
                ];
                Ok((GetState::Done, a))
            },
            MetaMsg::GetFromMem { mem_id, move_allowed } => {
                let a = vec![GetAction::Take { source: GetSource::Mem(mem_id), moves: move_allowed }];
                Ok((GetState::AwaitingRole { mem_id, moved: move_allowed }, a))
            },
            _ => Err(GetErr::Unexpected),
        },
        GetState::AwaitingRole { mem_id, moved } => match msg {
            MetaMsg::BeLeader { follower_count } => {
                let s = if follower_count == 0 {
                    GetState::Done
                } else {
                    GetState::Leading { mem_id, was_moved: moved, remaining: follower_count }
                };
                Ok((s, Vec::new()))
            },
            MetaMsg::BeFollower { leader } => {
                let a = vec![GetAction::Send { to: leader, msg: MetaMsg::CountMe { i_moved: moved } }];
                Ok((GetState::Done, a))
            },
            _ => Err(GetErr::Unexpected),
        },
        GetState::Leading { mem_id, was_moved, remaining } => match count_step(was_moved, msg) {
            Ok(now_moved) => {
                let s = if remaining <= 1 {
                    GetState::Done
                } else {
                    GetState::Leading { mem_id, was_moved: now_moved, remaining: remaining - 1 }
                };
                Ok((s, vec![GetAction::ClearMem { mem_id }]))
            },
            Err(e) => Err(e),
        },
        GetState::Done => Err(GetErr::Unexpected),
    }
}

} // verus!
