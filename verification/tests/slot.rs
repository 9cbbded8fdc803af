use archtrim::slot::ResultSlot;

#[test]
fn result_is_taken_once() {
    let mut slot: ResultSlot<Vec<u32>> = ResultSlot::new();
    assert!(!slot.is_full());
    assert_eq!(slot.take(), None);
    slot.deliver(vec![1, 2, 3]);
    assert!(slot.is_full());
    assert_eq!(slot.take(), Some(vec![1, 2, 3]));
    assert!(!slot.is_full());
    assert_eq!(slot.take(), None);
}

#[test]
fn later_result_takes_the_place_of_an_earlier_one() {
    let mut slot: ResultSlot<u8> = ResultSlot::new();
    slot.deliver(1);
    slot.deliver(2);
    assert_eq!(slot.take(), Some(2));
    assert_eq!(slot.take(), None);
}
