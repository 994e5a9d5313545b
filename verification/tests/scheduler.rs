use polestar_models::scheduler::Schedule;

fn items<V: Clone>(s: &Schedule<V>) -> Vec<((u8, u8), V)> {
    s.items().iter().cloned().collect()
}

#[test]
fn test_schedule() {
    let mut schedule = Schedule::new();
    schedule.insert((2, "b"));
    schedule.insert((5, "w"));
    schedule.insert((2, "a"));
    schedule.insert((0, "o"));
    schedule.insert((1, "z"));
    schedule.insert((1, "y"));

    assert_eq!(
        items(&schedule),
        vec![
            ((0, 0), "o"),
            ((1, 0), "z"),
            ((1, 1), "y"),
            ((2, 0), "b"),
            ((2, 1), "a"),
            ((5, 0), "w")
        ]
    );

    assert_eq!(schedule.pop(), Some("o"));

    assert_eq!(
        items(&schedule),
        vec![
            ((1, 0), "z"),
            ((1, 1), "y"),
            ((2, 0), "b"),
            ((2, 1), "a"),
            ((5, 0), "w")
        ]
    );

    assert_eq!(schedule.pop(), Some("z"));

    assert_eq!(
        items(&schedule),
        vec![((0, 0), "y"), ((1, 0), "b"), ((1, 1), "a"), ((4, 0), "w")]
    );

    assert_eq!(schedule.pop(), Some("y"));

    assert_eq!(items(&schedule), vec![((1, 0), "b"), ((1, 1), "a"), ((4, 0), "w")]);

    assert_eq!(schedule.pop(), Some("b"));

    assert_eq!(items(&schedule), vec![((0, 0), "a"), ((3, 0), "w")]);

    assert_eq!(schedule.pop(), Some("a"));

    assert_eq!(items(&schedule), vec![((3, 0), "w")]);

    assert_eq!(schedule.pop(), Some("w"));
}
