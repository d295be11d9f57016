use waterfurnace_symphony::transactions::TransactionList;
use waterfurnace_symphony::ClientError;

#[test]
fn fresh_table_hands_out_one_first() {
    let mut t: TransactionList<&str> = TransactionList::new();
    assert_eq!(t.next_transaction_id().ok(), Some(1));
}

#[test]
fn ids_increase_while_transactions_are_recorded() {
    let mut t: TransactionList<u32> = TransactionList::new();
    for expected in 1..=5u8 {
        let id = t.next_transaction_id().ok().unwrap();
        assert_eq!(id, expected);
        t.insert(id, id as u32 * 10);
    }
    assert_eq!(t.len(), 5);
}

#[test]
fn ids_skip_those_in_flight_and_wrap_after_255() {
    let mut t: TransactionList<()> = TransactionList::new();
    for _ in 0..254 {
        let id = t.next_transaction_id().ok().unwrap();
        if id != 2 {
            continue;
        }
        t.insert(id, ());
    }
    // The last id handed out was 254; 255 comes next, then the ids wrap,
    // skipping 2, which is still in flight.
    assert_eq!(t.next_transaction_id().ok(), Some(255));
    assert_eq!(t.next_transaction_id().ok(), Some(1));
    t.insert(1, ());
    assert_eq!(t.next_transaction_id().ok(), Some(3));
}

#[test]
fn full_table_reports_too_many_transactions() {
    let mut t: TransactionList<u8> = TransactionList::new();
    for _ in 0..255 {
        let id = t.next_transaction_id().ok().unwrap();
        t.insert(id, id);
    }
    assert_eq!(t.len(), 255);
    assert!(matches!(t.next_transaction_id(), Err(ClientError::TooManyTransactions)));
    // Freeing one id makes exactly that id available again.
    assert_eq!(t.take(77), Some(77));
    assert_eq!(t.next_transaction_id().ok(), Some(77));
}

#[test]
fn take_after_insert_returns_the_transaction_once() {
    let mut t: TransactionList<String> = TransactionList::new();
    t.insert(9, "nine".to_string());
    assert!(t.contains(9));
    assert_eq!(t.take(9), Some("nine".to_string()));
    assert_eq!(t.take(9), None);
    assert!(!t.contains(9));
}

#[test]
fn reset_forgets_everything_and_restarts_at_one() {
    let mut t: TransactionList<u8> = TransactionList::new();
    for _ in 0..10 {
        let id = t.next_transaction_id().ok().unwrap();
        t.insert(id, id);
    }
    t.reset();
    assert_eq!(t.len(), 0);
    assert_eq!(t.next_transaction_id().ok(), Some(1));
}
