use tene_checkout::ledger::Ledger;

#[test]
fn decrement_succeeds_while_stock_lasts() {
    let mut ledger = Ledger::new();
    assert!(ledger.add_entry(7, None, 5));
    assert!(ledger.try_decrement(7, &None, 2));
    assert!(ledger.try_decrement(7, &None, 2));
    // 5 = 2 * 2 + 1: a third decrement of 2 must fail, and the quantity
    // never goes below zero
    assert!(!ledger.try_decrement(7, &None, 2));
    assert_eq!(ledger.quantity(7, &None), Some(1));
}

#[test]
fn decrement_of_missing_row_fails() {
    let mut ledger = Ledger::new();
    assert!(ledger.add_entry(7, None, 5));
    assert!(!ledger.try_decrement(8, &None, 1));
    assert!(!ledger.try_decrement(7, &Some("red".to_string()), 1));
    assert_eq!(ledger.quantity(7, &None), Some(5));
}

#[test]
fn variants_are_separate_rows() {
    let mut ledger = Ledger::new();
    assert!(ledger.add_entry(7, None, 5));
    assert!(ledger.add_entry(7, Some("red".to_string()), 3));
    assert!(ledger.add_entry(9, Some("red".to_string()), 4));
    assert!(ledger.try_decrement(7, &Some("red".to_string()), 3));
    assert_eq!(ledger.quantity(7, &Some("red".to_string())), Some(0));
    assert_eq!(ledger.quantity(7, &None), Some(5));
    assert_eq!(ledger.quantity(9, &Some("red".to_string())), Some(4));
}

#[test]
fn duplicate_row_is_refused() {
    let mut ledger = Ledger::new();
    assert!(ledger.add_entry(7, None, 5));
    assert!(!ledger.add_entry(7, None, 9));
    assert_eq!(ledger.quantity(7, &None), Some(5));
}

#[test]
fn release_restores_stock() {
    let mut ledger = Ledger::new();
    assert!(ledger.add_entry(7, Some("blue".to_string()), 2));
    assert!(ledger.try_decrement(7, &Some("blue".to_string()), 2));
    assert_eq!(ledger.quantity(7, &Some("blue".to_string())), Some(0));
    assert!(ledger.release(7, &Some("blue".to_string()), 2));
    assert_eq!(ledger.quantity(7, &Some("blue".to_string())), Some(2));
    assert!(!ledger.release(8, &None, 1));
}

#[test]
fn exact_stock_can_be_taken_in_one_step() {
    let mut ledger = Ledger::new();
    assert!(ledger.add_entry(1, None, 10));
    assert!(ledger.try_decrement(1, &None, 10));
    assert_eq!(ledger.quantity(1, &None), Some(0));
    assert!(!ledger.try_decrement(1, &None, 1));
}
