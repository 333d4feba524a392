#[test]
fn logic_test_call() {
    let r = reo_rs::logic::test();
    assert_eq!(r, 0);
}
