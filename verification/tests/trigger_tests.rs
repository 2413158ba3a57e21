use streamql::column::Column;
use streamql::error::Error;
use streamql::scalar::DataType;
use streamql::trigger::{CountingTrigger, CountingTriggerPrototype, TriggerPrototype};

#[test]
fn counting_trigger_scenario() {
    // trigger_count = 3, key sequence [A, A, A, B, A, A]: A crosses the
    // threshold at its third occurrence and is queued once; the counter
    // resets and two more A's bring it back to 2; B only reaches 1.
    let mut t = CountingTrigger::new(vec![DataType::Int64], 3).unwrap();
    t.keys_received(&vec![Column::Int64(vec![7, 7, 7, 9, 7, 7])]);
    let out = t.poll();
    assert_eq!(out, vec![Column::Int64(vec![7])]);
    let out2 = t.poll();
    assert_eq!(out2, vec![Column::Int64(vec![])]);
}

#[test]
fn poll_twice_second_empty() {
    let mut t = CountingTrigger::new(vec![DataType::Int64], 1).unwrap();
    t.keys_received(&vec![Column::Int64(vec![5])]);
    assert_eq!(t.poll(), vec![Column::Int64(vec![5])]);
    assert_eq!(t.poll(), vec![Column::Int64(vec![])]);
}

#[test]
fn crossings_across_polls() {
    // threshold 2: three A's over the trigger's life give one complete
    // crossing; the fourth completes a second one.
    let mut t = CountingTrigger::new(vec![DataType::Int64], 2).unwrap();
    t.keys_received(&vec![Column::Int64(vec![1, 1])]);
    assert_eq!(t.poll(), vec![Column::Int64(vec![1])]);
    t.keys_received(&vec![Column::Int64(vec![1])]);
    assert_eq!(t.poll(), vec![Column::Int64(vec![])]);
    t.keys_received(&vec![Column::Int64(vec![1])]);
    assert_eq!(t.poll(), vec![Column::Int64(vec![1])]);
}

#[test]
fn double_crossing_between_polls_is_absorbed() {
    // threshold 1: the second occurrence of "x" crosses while "x" is
    // already pending, so the queue holds it once.
    let mut t = CountingTrigger::new(vec![DataType::Utf8], 1).unwrap();
    t.keys_received(&vec![Column::Utf8(vec![
        "x".to_string(),
        "y".to_string(),
        "x".to_string(),
    ])]);
    assert_eq!(
        t.poll(),
        vec![Column::Utf8(vec!["x".to_string(), "y".to_string()])]
    );
}

#[test]
fn poll_emits_keys_in_ascending_order() {
    // pending keys come out in ascending key order, not arrival order
    let mut t = CountingTrigger::new(vec![DataType::Int64], 1).unwrap();
    t.keys_received(&vec![Column::Int64(vec![2, 1])]);
    assert_eq!(t.poll(), vec![Column::Int64(vec![1, 2])]);
    let mut u = CountingTrigger::new(vec![DataType::Utf8], 1).unwrap();
    u.keys_received(&vec![Column::Utf8(vec!["b".to_string(), "a".to_string()])]);
    assert_eq!(
        u.poll(),
        vec![Column::Utf8(vec!["a".to_string(), "b".to_string()])]
    );
}

#[test]
fn composite_keys() {
    let mut t = CountingTrigger::new(vec![DataType::Int64, DataType::Utf8], 2).unwrap();
    t.keys_received(&vec![
        Column::Int64(vec![1, 1, 1]),
        Column::Utf8(vec!["a".to_string(), "a".to_string(), "b".to_string()]),
    ]);
    let out = t.poll();
    assert_eq!(
        out,
        vec![Column::Int64(vec![1]), Column::Utf8(vec!["a".to_string()])]
    );
}

#[test]
fn unsupported_key_type_fails_at_construction() {
    let r = CountingTrigger::new(vec![DataType::Float64], 3);
    assert_eq!(r.unwrap_err(), Error::Unexpected);
    let r2 = CountingTrigger::new(vec![DataType::Int64, DataType::Boolean], 3);
    assert!(r2.is_err());
}

#[test]
fn prototype_manufactures_trigger() {
    let proto = TriggerPrototype::Counting(CountingTriggerPrototype::new(2));
    let mut t = proto.create_trigger(vec![DataType::Int64]).unwrap();
    t.keys_received(&vec![Column::Int64(vec![4, 4])]);
    assert_eq!(t.poll(), vec![Column::Int64(vec![4])]);
    assert!(proto.create_trigger(vec![DataType::Float32]).is_err());
}
