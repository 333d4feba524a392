use reo_rs::sketches::shared_get::{count_step, get_step, GetAction, GetErr, GetSource, GetState, MetaMsg};
use reo_rs::sketches::preventative::{
    atomic, Deliberator, Env, HasBranches, Opts0, Opts1, Port, Putter, RuntimeDeliberation, State, TwoPorts,
};
use reo_rs::tokens::decimal::{E0, E1};

fn env() -> Env {
    Env { port0: Port::new(Putter::new()), port1: Port::new(Putter::new()) }
}

#[test]
fn tryit() {
    let mut env = env();
    let _ = atomic(&mut env, State::fresh(), 3);
    assert_eq!(env.port0.raw_port.sent, vec![5, 5, 5]);
    assert_eq!(env.port1.raw_port.sent, vec![2, 2, 2]);
}

#[test]
fn branches_from_deliberations() {
    let d = |port, new_state| RuntimeDeliberation { port, new_state };
    assert!(matches!(<State<TwoPorts, E0> as HasBranches>::branch(d(0, 1)), Some(Opts0::P0S1(_))));
    assert!(matches!(<State<TwoPorts, E0> as HasBranches>::branch(d(1, 0)), Some(Opts0::P1S0(_))));
    assert!(<State<TwoPorts, E0> as HasBranches>::branch(d(1, 1)).is_none());
    assert!(matches!(<State<TwoPorts, E1> as HasBranches>::branch(d(1, 0)), Some(Opts1::P1S0(_))));
    assert!(<State<TwoPorts, E1> as HasBranches>::branch(d(0, 1)).is_none());
    assert!(<State<TwoPorts, E0> as HasBranches>::only().is_none());
    assert!(<State<TwoPorts, E1> as HasBranches>::only().is_some());
}

#[test]
fn advance_asks_only_where_there_is_a_choice() {
    let mut env = env();
    assert_eq!(env.deliberate(), RuntimeDeliberation { port: 0, new_state: 1 });
    let s0: State<TwoPorts, E0> = State::fresh();
    assert!(matches!(s0.advance(&mut env), Some(Opts0::P0S1(_))));
    let s1: State<TwoPorts, E1> = State::fresh();
    assert!(matches!(s1.advance(&mut env), Some(Opts1::P1S0(_))));
    assert!(env.port0.raw_port.sent.is_empty());
}

#[test]
fn shared_getter_steps() {
    // a port putter's datum: take it and report
    let (s, a) = get_step(GetState::AwaitingData, MetaMsg::GetFromPutter { putter_id: 4, move_allowed: true }).unwrap();
    assert_eq!(s, GetState::Done);
    assert_eq!(
        a,
        vec![
            GetAction::Take { source: GetSource::Putter(4), moves: true },
            GetAction::Send { to: 4, msg: MetaMsg::CountMe { i_moved: true } },
        ]
    );
    // a memory cell's datum, then leading two others
    let (s, a) = get_step(GetState::AwaitingData, MetaMsg::GetFromMem { mem_id: 9, move_allowed: false }).unwrap();
    assert_eq!(s, GetState::AwaitingRole { mem_id: 9, moved: false });
    assert_eq!(a, vec![GetAction::Take { source: GetSource::Mem(9), moves: false }]);
    let (s, a) = get_step(s, MetaMsg::BeLeader { follower_count: 2 }).unwrap();
    assert_eq!(s, GetState::Leading { mem_id: 9, was_moved: false, remaining: 2 });
    assert!(a.is_empty());
    let (s, a) = get_step(s, MetaMsg::CountMe { i_moved: true }).unwrap();
    assert_eq!(s, GetState::Leading { mem_id: 9, was_moved: true, remaining: 1 });
    assert_eq!(a, vec![GetAction::ClearMem { mem_id: 9 }]);
    assert_eq!(get_step(s, MetaMsg::CountMe { i_moved: true }).err(), Some(GetErr::MovedTwice));
    let (s, _) = get_step(s, MetaMsg::CountMe { i_moved: false }).unwrap();
    assert_eq!(s, GetState::Done);
    assert_eq!(get_step(s, MetaMsg::CountMe { i_moved: false }).err(), Some(GetErr::Unexpected));
    // a follower reports to its leader
    let (s, a) = get_step(GetState::AwaitingRole { mem_id: 9, moved: true }, MetaMsg::BeFollower { leader: 2 }).unwrap();
    assert_eq!(s, GetState::Done);
    assert_eq!(a, vec![GetAction::Send { to: 2, msg: MetaMsg::CountMe { i_moved: true } }]);
    assert_eq!(get_step(GetState::AwaitingData, MetaMsg::WaitFor { getter_count: 1 }).err(), Some(GetErr::Unexpected));
    assert_eq!(count_step(false, MetaMsg::CountMe { i_moved: false }), Ok(false));
    assert_eq!(count_step(true, MetaMsg::CountMe { i_moved: false }), Ok(true));
}
