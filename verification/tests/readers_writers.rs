use classic_sync::readers_writers::{Data, Reader, Writer};

#[test]
fn reads_see_writes_in_order() {
    let mut d = Data::new();
    assert!(d.read().is_empty());
    let w1 = Writer::new(1);
    let w2 = Writer::new(2);
    w1.write(&mut d);
    w2.write(&mut d);
    d.write(1);
    assert_eq!(Reader::new().read(&d), &vec![1, 2, 1]);
    assert_eq!(w2.id, 2);
}
