use reo_rs::bitfield::{do_debug, And, Field, Or, RepField};

#[test]
fn fieldy() {
    let a = Field::from(10, vec![0, 4, 23]);
    let b = Field::from(10, vec![1, 2]);
    let c = RepField(0b11111111110);
    let chunks = do_debug(&And(&Or(&a, &b), &c));
    let printed: Vec<String> = chunks.iter().map(|ch| format!("{:064b}", ch)).collect();
    println!("{:?}", printed);
    assert_eq!(chunks, vec![0b10000u64]);
}
