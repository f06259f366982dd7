use spark_dashboard::metrics::{
    counter_delta, delta_would_overflow, monitored_gpu_indexes, CounterTracker, EngineCounters,
};

#[test]
fn gpu_selection_all_one_or_none() {
    assert_eq!(monitored_gpu_indexes(None, 3), vec![0, 1, 2]);
    assert_eq!(monitored_gpu_indexes(None, 0), Vec::<u32>::new());
    assert_eq!(monitored_gpu_indexes(Some(1), 3), vec![1]);
    assert_eq!(monitored_gpu_indexes(Some(3), 3), Vec::<u32>::new());
    assert_eq!(monitored_gpu_indexes(Some(0), 0), Vec::<u32>::new());
}

#[test]
fn counter_delta_cases() {
    assert_eq!(counter_delta(Some(100), Some(130)), Some(30));
    assert_eq!(counter_delta(Some(100), Some(100)), Some(0));
    assert_eq!(counter_delta(Some(100), Some(5)), None);
    assert_eq!(counter_delta(None, Some(5)), None);
    assert_eq!(counter_delta(Some(5), None), None);
    assert!(delta_would_overflow(Some(-10), Some(i64::MAX)));
    assert!(!delta_would_overflow(Some(0), Some(i64::MAX)));
    assert!(!delta_would_overflow(Some(10), Some(-10)));
}

#[test]
fn tracker_remembers_last_reading_per_key() {
    let a = "http://a".to_string();
    let b = "http://b".to_string();
    let mut t = CounterTracker::new();
    assert_eq!(t.get(&a), None);
    assert_eq!(t.observe(&a, Some(10)), None);
    assert_eq!(t.observe(&b, Some(500)), None);
    assert_eq!(t.observe(&a, Some(25)), Some(15));
    assert_eq!(t.get(&a), Some(25));
    assert_eq!(t.observe(&a, None), None);
    assert_eq!(t.get(&a), Some(25));
    assert_eq!(t.observe(&a, Some(3)), None);
    assert_eq!(t.get(&a), Some(3));
    assert_eq!(t.get(&b), Some(500));
    t.set(&b, 7);
    assert_eq!(t.get(&b), Some(7));
}

#[test]
fn engine_counters_give_three_deltas() {
    let e = "http://localhost:8000".to_string();
    let mut c = EngineCounters::new();
    assert_eq!(c.observe(&e, (Some(100), Some(200), Some(5))), (None, None, None));
    assert!(!c.check_overflow(&e, (Some(150), Some(260), Some(7))));
    assert_eq!(c.observe(&e, (Some(150), Some(260), Some(7))), (Some(50), Some(60), Some(2)));
    assert_eq!(c.observe(&e, (Some(160), None, Some(1))), (Some(10), None, None));
    assert_eq!(c.observe(&e, (Some(160), Some(300), Some(2))), (Some(0), Some(40), Some(1)));
}

#[test]
fn successive_deltas_add_up() {
    let e = "e".to_string();
    let mut t = CounterTracker::new();
    t.observe(&e, Some(10));
    let d1 = t.observe(&e, Some(25)).unwrap();
    let d2 = t.observe(&e, Some(40)).unwrap();
    assert_eq!(d1 + d2, 40 - 10);
}
