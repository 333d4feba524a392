use reo_rs::preventative_rba::{atomic, Mem2, Porty};

#[test]
fn preventative_rba_rba_like() {
    let mut porty = Porty::fresh();
    let _ = atomic(Mem2::fresh(), &mut porty, 8);
    assert_eq!(porty.taken, 16);
}
