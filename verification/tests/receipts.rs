use lau_conservation_guard::receipt_id;

#[test]
fn receipt_ids_are_cr_and_the_counter() {
    assert_eq!(receipt_id(1), "cr-1");
    assert_eq!(receipt_id(42), "cr-42");
    assert_eq!(receipt_id(0), "cr-0");
    assert_eq!(receipt_id(100), "cr-100");
    assert_eq!(receipt_id(u64::MAX), "cr-18446744073709551615");
}

#[test]
fn receipt_ids_differ_for_different_counters() {
    let r1 = receipt_id(1);
    let r2 = receipt_id(2);
    assert_ne!(r1, r2);
    assert!(r1.starts_with("cr-"));
    assert_ne!(receipt_id(1), receipt_id(10));
    assert_ne!(receipt_id(10), receipt_id(100));
}
