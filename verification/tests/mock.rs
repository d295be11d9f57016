use waterfurnace_symphony::mock::{
    count_requested_zones, fake_zone_names, is_hello, session_accepted, read_reply_metrics, zone_of_metric, Chaos, DelayBound, FailProbability, TransactionOrder,
    NUM_ZONES,
};
use waterfurnace_symphony::transactions::TransactionList;
use waterfurnace_symphony::protocol::read_rlist_for;

#[test]
fn fail_probabilities() {
    assert_eq!(FailProbability::never().percent(), 0);
    assert_eq!(FailProbability::always().percent(), 100);
    assert_eq!(FailProbability::from_percent(40).percent(), 40);
}

#[test]
fn chaos_settings() {
    let c = Chaos::new();
    assert_eq!((c.failure.percent(), c.delay_min, c.delay_max), (0, 0, 0));
    let c = Chaos::none();
    assert_eq!(c.failure.percent(), 0);
    let c = Chaos::always_fail();
    assert_eq!((c.failure.percent(), c.delay_min, c.delay_max), (100, 0, 0));
    let c = Chaos::default().fail_at(FailProbability::from_percent(40));
    assert_eq!(c.failure.percent(), 40);
}

#[test]
fn chaos_delays() {
    let c = Chaos::new().delay_between_ms(DelayBound::Included(1000), DelayBound::Included(5000));
    assert_eq!((c.delay_min, c.delay_max), (1000, 5000));
    assert_eq!(c.delay_mean(), 3_000_000);
    let c = Chaos::new().delay_between_ms(DelayBound::Excluded(10), DelayBound::Excluded(20));
    assert_eq!((c.delay_min, c.delay_max), (11, 19));
    let c = Chaos::new().delay_between_ms(DelayBound::Unbounded, DelayBound::Included(7));
    assert_eq!((c.delay_min, c.delay_max), (0, 7));
    assert_eq!(c.delay_mean(), 3500);
    let c = Chaos::new().delay_between_ms(DelayBound::Included(1), DelayBound::Included(2));
    assert_eq!(c.delay_mean(), 1500);
    let c = Chaos { delay_min: u64::MAX, delay_max: u64::MAX, ..Chaos::new() };
    assert_eq!(c.delay_mean(), u64::MAX as u128 * 1000);
}

#[test]
fn mock_zone_names_keep_only_the_last() {
    let names = fake_zone_names(NUM_ZONES);
    assert_eq!(names.len(), 1);
    assert_eq!(names.get(&1).map(|s| s.as_str()), Some("Zone 3"));
    assert!(fake_zone_names(0).is_empty());
}

#[test]
fn zones_of_a_read_request() {
    assert_eq!(zone_of_metric("iz2_z1_roomtemp"), Some("z1".to_string()));
    assert_eq!(zone_of_metric("iz2_z12"), Some("z12".to_string()));
    assert_eq!(zone_of_metric("iz2_dehumid_humid_sp"), None);
    assert_eq!(zone_of_metric("TStatMode"), None);
    assert_eq!(count_requested_zones(&read_rlist_for(NUM_ZONES)), NUM_ZONES as usize);
    assert_eq!(count_requested_zones(&read_rlist_for(0)), 0);
    assert_eq!(count_requested_zones(&read_rlist_for(12)), 12);
    assert_eq!(count_requested_zones(&read_rlist_for(255)), 255);
    let mut rlist = read_rlist_for(2);
    rlist.push("iz2_z1_extra".to_string());
    rlist.push("iz2_z9".to_string());
    assert_eq!(count_requested_zones(&rlist), 3);
}

#[test]
fn transaction_ids_must_increase() {
    let mut order = TransactionOrder::new();
    assert_eq!(order.last_tid(), 0);
    assert!(order.accept(1));
    assert!(order.accept(5));
    assert!(!order.accept(5));
    assert!(!order.accept(2));
    assert_eq!(order.last_tid(), 5);
    assert!(order.accept(255));
    assert!(!order.accept(0));
}

#[test]
fn mock_accepts_the_ids_of_a_fresh_client() {
    let mut order = TransactionOrder::new();
    let mut table: TransactionList<()> = TransactionList::new();
    for _ in 0..255 {
        let tid = match table.next_transaction_id() {
            Ok(t) => t,
            Err(_) => panic!("the table ran out of ids"),
        };
        assert!(order.accept(tid));
        table.insert(tid, ());
    }
    assert_eq!(order.last_tid(), 255);
}

#[test]
fn read_replies_hold_every_requested_metric() {
    let rlist = vec!["TStatMode".to_string(), "iz2_z1_roomtemp".to_string(), "TStatMode".to_string()];
    let mut metrics = read_reply_metrics(2, &rlist);
    metrics.sort();
    assert_eq!(
        metrics,
        vec![("TStatMode".to_string(), 0), ("iz2_z1_roomtemp".to_string(), 0), ("zone".to_string(), 2)]
    );
    let rlist = vec!["zone".to_string()];
    assert_eq!(read_reply_metrics(7, &rlist), vec![("zone".to_string(), 0)]);
    assert_eq!(read_reply_metrics(0, &vec![]), vec![("zone".to_string(), 0)]);
    assert_eq!(read_reply_metrics(3, &read_rlist_for(NUM_ZONES)).len(), 34 + 2 * 3 + 1);
}

#[test]
fn greeting_and_session_checks() {
    assert!(is_hello("Hello"));
    assert!(!is_hello("hello"));
    assert!(!is_hello("Hello!"));
    assert!(session_accepted("0ddc0ffee0ddc0ffee0ddc0ffee"));
    assert!(!session_accepted("0ddc0ffee"));
}
