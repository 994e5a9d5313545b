use polestar_models::scheduler_ordered::{Schedule, ScheduleKv};

fn entries(s: &Schedule<&'static str>) -> Vec<(Option<(u8, u8)>, &'static str)> {
    (0..s.len()).map(|i| {
        let (t, v) = s.get(i).unwrap();
        (t, *v)
    }).collect()
}

#[test]
fn test_remove() {
    let mut schedule = Schedule::new();
    schedule.insert(Some(2), "b");
    schedule.insert(Some(5), "w");
    schedule.insert(Some(2), "a");
    schedule.insert(None, "o");
    schedule.insert(Some(1), "z");
    schedule.insert(Some(1), "y");

    assert_eq!(schedule.remove_by(|v| *v == "a"), Some("a"));
    assert_eq!(schedule.remove_by(|v| *v == "o"), Some("o"));
}

#[test]
fn test_insert_and_pop() {
    let mut schedule = Schedule::new();
    schedule.insert(Some(2), "b");
    schedule.insert(Some(5), "w");
    schedule.insert(Some(2), "a");
    schedule.insert(None, "1");
    schedule.insert(Some(0), "o");
    schedule.insert(Some(1), "z");
    schedule.insert(None, "0");
    schedule.insert(Some(1), "y");
    schedule.insert(None, "0");

    assert_eq!(
        entries(&schedule),
        vec![
            (Some((0, 0)), "o"),
            (Some((1, 0)), "z"),
            (Some((1, 1)), "y"),
            (Some((2, 0)), "b"),
            (Some((2, 1)), "a"),
            (Some((5, 0)), "w"),
            (None, "0"),
            (None, "1"),
        ]
    );

    assert_eq!(schedule.pop(), Some("o"));

    assert_eq!(
        entries(&schedule),
        vec![
            (Some((1, 0)), "z"),
            (Some((1, 1)), "y"),
            (Some((2, 0)), "b"),
            (Some((2, 1)), "a"),
            (Some((5, 0)), "w"),
            (None, "0"),
            (None, "1"),
        ]
    );

    assert_eq!(schedule.pop(), Some("z"));

    assert_eq!(
        entries(&schedule),
        vec![
            (Some((0, 0)), "y"),
            (Some((1, 0)), "b"),
            (Some((1, 1)), "a"),
            (Some((4, 0)), "w"),
            (None, "0"),
            (None, "1"),
        ]
    );

    assert_eq!(schedule.pop(), Some("y"));

    assert_eq!(
        entries(&schedule),
        vec![
            (Some((1, 0)), "b"),
            (Some((1, 1)), "a"),
            (Some((4, 0)), "w"),
            (None, "0"),
            (None, "1"),
        ]
    );

    assert_eq!(schedule.pop(), Some("b"));

    assert_eq!(
        entries(&schedule),
        vec![(Some((0, 0)), "a"), (Some((3, 0)), "w"), (None, "0"), (None, "1"),]
    );

    assert_eq!(schedule.pop(), Some("a"));

    assert_eq!(entries(&schedule), vec![(Some((3, 0)), "w"), (None, "0"), (None, "1"),]);

    assert_eq!(schedule.pop(), Some("w"));

    assert_eq!(entries(&schedule), vec![(None, "0"), (None, "1"),]);

    assert_eq!(schedule.pop(), None);
}

#[test]
fn remove_by_finds_nothing_and_keeps_the_items() {
    let mut schedule = Schedule::new();
    schedule.insert(Some(1), "x");
    schedule.insert(None, "y");
    assert_eq!(schedule.remove_by(|v| *v == "q"), None);
    assert_eq!(entries(&schedule), vec![(Some((1, 0)), "x"), (None, "y")]);
}

#[test]
fn untimed_value_is_held_once_even_if_timed() {
    let mut schedule = Schedule::new();
    schedule.insert(Some(3), "x");
    schedule.insert(None, "x");
    assert_eq!(entries(&schedule), vec![(Some((3, 0)), "x")]);
}

#[test]
fn keyed_schedule_holds_one_value_per_key() {
    let mut s: ScheduleKv<u32, &'static str> = ScheduleKv::new();
    assert!(s.insert_kv(Some(2), 7, "a"));
    assert!(!s.insert_kv(Some(1), 7, "b"));
    assert!(s.insert_kv(None, 8, "c"));
    assert!(s.has_key(&7));
    assert!(!s.has_key(&9));
    assert_eq!(s.get_key(&7), Some(&"a"));
    assert_eq!(s.get_key(&8), Some(&"c"));
    assert_eq!(s.remove_key(&7), Some("a"));
    assert_eq!(s.remove_key(&7), None);
    assert!(!s.has_key(&7));
    assert_eq!(s.get_key(&8), Some(&"c"));
}
