use reo_rs::threadless2::{get_plan, GetSource, MetaMsg, Reply};
use reo_rs::rba_builder::{Branch, Gcmd, Pred, Val};
use reo_rs::bitset::BitSet;
use reo_rs::port_backend::{catcall_all_or_release, CatcallFailure, Catcallable, WaitResult};
use reo_rs::port::{GetPort, PortCell, PortEvent};
use reo_rs::quatset::{proto_rule_can_fire, Quat, QuatSet};
use reo_rs::reo::{ClosedErrorable, Memory, PortClosed, Readiness};
use reo_rs::threadless2::{Action, WithFirst};
use reo_rs::threadless3::{BitIndexed, Mgid, Ppid};
use reo_rs::tokens::decimal::{Decimal, D1, D4, E2};
use reo_rs::tokens::{Booly, Discerned2, StateCheck, F, T, X};
use std::collections::{HashMap, HashSet};

struct Peer {
    ready: bool,
    dead: bool,
    released: bool,
    asks: usize,
    releases: usize,
    last: Option<Result<bool, ()>>,
}

impl Catcallable for Peer {
    fn holds_putter(&self) -> bool {
        self.ready && !self.released
    }
    fn catcalls(&self) -> usize {
        self.asks
    }
    fn releases(&self) -> usize {
        self.releases
    }
    fn last_catcall(&self) -> Option<Result<bool, ()>> {
        self.last
    }
    fn catcall(&mut self) -> Result<bool, ()> {
        self.asks += 1;
        let r = if self.dead { Err(()) } else { Ok(self.ready) };
        self.last = Some(r);
        r
    }
    fn try_release_putter(&mut self) -> bool {
        self.releases += 1;
        self.released = true;
        true
    }
}

fn peer(ready: bool) -> Peer {
    Peer { ready, dead: false, released: false, asks: 0, releases: 0, last: None }
}

#[test]
fn catcall_claims_or_releases() {
    let mut all = vec![peer(true), peer(true)];
    assert_eq!(catcall_all_or_release(&mut all), Ok(true));
    let mut some = vec![peer(true), peer(false), peer(true)];
    assert_eq!(catcall_all_or_release(&mut some), Ok(false));
    assert!(some[0].released && !some[2].released);
    assert_eq!((some[0].asks, some[0].releases), (1, 1));
    assert_eq!((some[1].asks, some[1].releases, some[1].last), (1, 0, Some(Ok(false))));
    assert_eq!((some[2].asks, some[2].releases), (0, 0));
    let mut dead = vec![peer(true), Peer { dead: true, ..peer(true) }];
    assert_eq!(catcall_all_or_release(&mut dead), Err(CatcallFailure::Dead(1)));
    assert_eq!((dead[0].asks, dead[0].releases, dead[1].last), (1, 0, Some(Err(()))));
}

#[test]
fn wait_and_closed() {
    assert!(WaitResult::Rendezvous.was_rendezvous());
    assert!(!WaitResult::Timeout.was_rendezvous());
    let ok: Result<u8, &str> = Ok(3);
    assert_eq!(ok.closed_err().ok(), Some(3));
    let bad: Result<u8, &str> = Err("gone");
    assert!(matches!(bad.closed_err(), Err(PortClosed)));
}

#[test]
fn with_first_marks_only_first_call() {
    let mut w = WithFirst::new(vec![10u32, 20]);
    assert_eq!(w.next(), Some((true, 10)));
    assert_eq!(w.next(), Some((false, 20)));
    assert_eq!(w.next(), None);
    let mut e = WithFirst::<u32>::new(vec![]);
    assert_eq!(e.next(), None);
    assert!(!e.first);
    let a = Action::new(1, vec![2, 3]);
    assert_eq!((a.from, a.to), (1, vec![2, 3]));
    assert_eq!(Ppid(4).bit(), 4);
    assert_eq!(Mgid(9).bit(), 9);
}

#[test]
fn type_level_numbers_and_truths() {
    assert_eq!(<D4<D1<E2>> as Decimal>::n(), 7);
    assert_eq!(T::bool_value(), Some(true));
    assert_eq!(X::bool_value(), None);
    let mut bits = BitSet::from_chunks(vec![0b01]);
    assert!(<(T, F) as StateCheck>::explains_state(&bits));
    assert!(<(X, F) as StateCheck>::explains_state(&bits));
    assert!(!<(F, X) as StateCheck>::explains_state(&bits));
    bits.set_to(1, true);
    assert!(!<(T, F) as StateCheck>::explains_state(&bits));
    let d: Discerned2<'_, ()> = Discerned2::trivial();
    assert!(d.data.is_none());
    d.match_nil();
}

#[test]
fn quats() {
    let mut q = QuatSet::default();
    q.set(1, Quat::TF);
    assert!(q.data.test(2) && !q.data.test(3));
    assert!(Quat::TT.first_is_true() && Quat::TT.second_is_true());
    assert!(!Quat::FT.first_is_true());
    let empty = QuatSet::default();
    assert!(proto_rule_can_fire(&empty, &empty, &empty));
}

#[test]
fn gcmd_new_and_apply() {
    let g = Gcmd::new(vec![(0, Val::T)], 7, vec![(0, Val::F), (2, Val::T)]);
    assert_eq!(g.input, [Val::T, Val::G, Val::G]);
    assert_eq!(g.output, [Val::F, Val::G, Val::T]);
    assert_eq!(g.involved, 7);
    // writing F over T clashes
    assert_eq!(g.apply(&[Val::T, Val::F, Val::F]), None);
    // generic outputs keep the state's value
    assert_eq!(g.apply(&[Val::F, Val::T, Val::F]), None);
    assert_eq!(g.apply(&[Val::F, Val::T, Val::T]), Some([Val::F, Val::T, Val::T]));
    let h = Gcmd::new(vec![], 1, vec![(1, Val::U)]);
    assert_eq!(h.apply(&[Val::T, Val::F, Val::T]), Some([Val::T, Val::U, Val::T]));
}

#[test]
fn rba_builder_rba_build() {
    let (a, b, c) = (0, 1, 2);
    let start: Pred = [Val::F, Val::F, Val::F];
    let mut states: HashSet<Pred> = HashSet::new();
    states.insert(start);
    let mut states_todo = vec![start];
    let mut opts: HashMap<Pred, Vec<Branch>> = HashMap::new();
    let gcmd = vec![
        Gcmd::new(vec![(a, Val::T), (c, Val::T)], 1, vec![(b, Val::U)]),
        Gcmd::new(vec![(a, Val::T), (c, Val::F)], 1, vec![(b, Val::T)]),
        Gcmd::new(vec![(b, Val::F)], 2, vec![(a, Val::T)]),
        Gcmd::new(vec![(c, Val::T)], 2, vec![(a, Val::T)]),
        Gcmd::new(vec![(b, Val::T), (c, Val::F)], 2, vec![(a, Val::T)]),
    ];
    while let Some(state) = states_todo.pop() {
        let mut o = vec![];
        for g in gcmd.iter() {
            if let Some(new_state) = g.apply(&state) {
                if states.insert(new_state) {
                    states_todo.push(new_state);
                }
                o.push(Branch { port: g.involved, dest: new_state });
            }
        }
        opts.insert(state, o);
    }
    // outputs never clash with Val::F,Val::F,F except where they write T over F
    assert!(opts.contains_key(&start));
    assert_eq!(opts.len(), states.len());
    let from_start: Vec<(u32, Pred)> = opts[&start].iter().map(|b| (b.port, b.dest)).collect();
    assert_eq!(from_start, vec![(1, [Val::F, Val::U, Val::F])]);
}

#[test]
fn memory_slots() {
    // 2 ports, 3 cells: putter ids 2, 3, 4; getter slots 3, 4, 5
    assert_eq!(reo_rs::threadless2::mem_id_p2g(2, 3, 2), 3);
    assert_eq!(reo_rs::threadless2::mem_id_p2g(2, 3, 4), 5);
    assert_eq!(reo_rs::threadless2::mem_id_g2p(2, 3, 5), 0);
    assert_eq!(reo_rs::threadless2::mem_id_g2p(2, 3, 7), 2);
}

#[test]
fn memory_cell_put_get_shutdown() {
    let mut m: Memory<u32> = Memory::default();
    assert!(m.peek().is_err());
    assert!(m.put(7).is_ok());
    assert_eq!(m.full, Readiness::Readable);
    assert_eq!(m.empty, Readiness::Idle);
    assert_eq!(*m.peek().unwrap(), 7);
    // a second put replaces the datum and hands the old one back
    assert_eq!(m.put(8), Err(7));
    assert_eq!(m.get().unwrap(), 8);
    assert_eq!(m.full, Readiness::Idle);
    assert_eq!(m.empty, Readiness::Writable);
    assert!(m.get().is_err());
    assert!(m.put(9).is_ok());
    m.shutdown();
    assert!(m.peek().is_err());
    assert_eq!(m.put(10), Err(10));
    // what is left can still be taken
    assert_eq!(m.get().unwrap(), 9);
}

#[test]
fn port_cell_events() {
    let mut cell: PortCell<u32> = PortCell::new();
    let mut half = GetPort { know_occupied: false };
    assert_eq!(half.peek(&cell), None);
    assert!(!half.know_occupied);
    // nobody listens yet
    assert_eq!(cell.put(1), (None, None));
    assert_eq!(cell.register_getter(4), None);
    assert_eq!(cell.register_getter(5), Some(PortEvent::DeregisteredGet(4)));
    // a second put replaces the datum and hands back the first
    assert_eq!(cell.put(2), (Some(PortEvent::Put(5)), Some(1)));
    assert_eq!(half.peek(&cell), Some(&2));
    assert!(half.know_occupied);
    cell.update_putter = Some(9);
    assert_eq!(half.get(&mut cell), (Some(PortEvent::Get(9)), Some(2)));
    assert!(!half.know_occupied);
    assert!(!cell.occupied());
    assert_eq!(cell.get(), (Some(PortEvent::Get(9)), None));
    assert_eq!(cell.putter_dropped(), Some(PortEvent::Dropped(5)));
    assert_eq!(cell.getter_dropped(), Some(PortEvent::Dropped(9)));
}

#[test]
fn getter_plans_follow_the_message() {
    let p = get_plan(MetaMsg::PortMove { src_putter: 3 }).unwrap();
    assert_eq!(p.source, GetSource::PortPutter(3));
    assert!(p.moves);
    assert_eq!(p.await_clones, 0);
    assert_eq!(p.reply, Some(Reply { to: 3, msg: MetaMsg::IMovedIt }));
    let p = get_plan(MetaMsg::PortClone { src_putter: 3 }).unwrap();
    assert!(!p.moves);
    assert_eq!(p.reply, Some(Reply { to: 3, msg: MetaMsg::IClonedIt }));
    let p = get_plan(MetaMsg::MemLeaderMove { mem_p_id: 7, wait_sum: 2 }).unwrap();
    assert_eq!(p.source, GetSource::MemCell(7));
    assert!(p.moves);
    assert_eq!(p.await_clones, 2);
    assert_eq!(p.reply, None);
    let p = get_plan(MetaMsg::MemFollowerClone { leader_getter: 1, mem_p_id: 7 }).unwrap();
    assert_eq!(p.source, GetSource::MemCell(7));
    assert!(!p.moves);
    assert_eq!(p.reply, Some(Reply { to: 1, msg: MetaMsg::IClonedIt }));
    assert!(get_plan(MetaMsg::IMovedIt).is_none());
    assert!(get_plan(MetaMsg::PutterWaitFor(2)).is_none());
}
