use thriller_core::IdCounter;

#[test]
fn test_id_generation() {
    let mut ids = IdCounter::new();
    let id1 = ids.next();
    assert!(id1 == 0);

    let id2 = ids.next();
    assert!(id2 == 1);

    let id3 = ids.next();
    assert!(id3 == 2);
}

#[test]
fn fresh_counter_is_not_exhausted() {
    let mut ids = IdCounter::new();
    assert!(!ids.is_exhausted());
    for expected in 0..100usize {
        assert!(!ids.is_exhausted());
        assert_eq!(ids.next(), expected);
    }
}
