use rusttracker::touch_state::{TouchCounter, TouchPhaseKind, TouchStep};

#[test]
fn two_finger_tap_ends_when_both_fingers_lift() {
    let mut t = TouchCounter::new();
    assert_eq!(t.touch(TouchPhaseKind::Started, 0, false), TouchStep::FirstDown);
    assert_eq!(t.touch(TouchPhaseKind::Started, 1, false), TouchStep::SecondDown);
    assert_eq!(t.max_touch_count(), 2);
    assert_eq!(t.touch(TouchPhaseKind::Ended, 0, false), TouchStep::Nothing);
    assert_eq!(t.touch_count(), 1);
    assert_eq!(t.touch(TouchPhaseKind::Ended, 1, false), TouchStep::MultiLifted);
    assert_eq!(t.touch_count(), 0);
    assert_eq!(t.max_touch_count(), 0);
}

#[test]
fn single_finger_swipes_end_with_a_single_lift() {
    let mut t = TouchCounter::new();
    assert_eq!(t.touch(TouchPhaseKind::Started, 0, false), TouchStep::FirstDown);
    assert_eq!(t.touch(TouchPhaseKind::Moved, 0, false), TouchStep::Nothing);
    assert_eq!(t.touch(TouchPhaseKind::Ended, 0, false), TouchStep::SingleLifted);
    assert_eq!(t.touch(TouchPhaseKind::Started, 0, false), TouchStep::FirstDown);
    assert_eq!(t.touch(TouchPhaseKind::Ended, 0, false), TouchStep::SingleLifted);
}

#[test]
fn scrubbing_follows_the_finger_until_it_lifts() {
    let mut t = TouchCounter::new();
    assert_eq!(t.touch(TouchPhaseKind::Started, 7, true), TouchStep::FirstDown);
    assert!(t.is_scrubbing());
    assert_eq!(t.touch(TouchPhaseKind::Moved, 7, false), TouchStep::ScrubMove);
    assert_eq!(t.touch(TouchPhaseKind::Moved, 7, false), TouchStep::ScrubMove);
    assert_eq!(t.touch(TouchPhaseKind::Ended, 7, false), TouchStep::ScrubEnd);
    assert!(!t.is_scrubbing());
    assert_eq!(t.touch(TouchPhaseKind::Moved, 7, false), TouchStep::Nothing);
}

#[test]
fn a_second_finger_stops_a_scrub() {
    let mut t = TouchCounter::new();
    t.touch(TouchPhaseKind::Started, 1, true);
    assert_eq!(t.touch(TouchPhaseKind::Started, 2, false), TouchStep::SecondDown);
    assert!(!t.is_scrubbing());
    assert_eq!(t.touch(TouchPhaseKind::Moved, 1, false), TouchStep::Nothing);
}

#[test]
fn three_fingers_count_as_one_gesture() {
    let mut t = TouchCounter::new();
    t.touch(TouchPhaseKind::Started, 1, false);
    t.touch(TouchPhaseKind::Started, 2, false);
    assert_eq!(t.touch(TouchPhaseKind::Started, 3, false), TouchStep::Nothing);
    assert_eq!(t.max_touch_count(), 3);
    assert_eq!(t.touch(TouchPhaseKind::Ended, 2, false), TouchStep::Nothing);
    assert_eq!(t.touch(TouchPhaseKind::Ended, 3, false), TouchStep::Nothing);
    assert_eq!(t.touch(TouchPhaseKind::Ended, 1, false), TouchStep::MultiLifted);
}

#[test]
fn a_repeated_start_of_the_same_finger_counts_once() {
    let mut t = TouchCounter::new();
    t.touch(TouchPhaseKind::Started, 4, false);
    assert_eq!(t.touch(TouchPhaseKind::Started, 4, false), TouchStep::FirstDown);
    assert_eq!(t.touch_count(), 1);
    assert_eq!(t.max_touch_count(), 1);
}

#[test]
fn cancelling_forgets_every_finger() {
    let mut t = TouchCounter::new();
    t.touch(TouchPhaseKind::Started, 1, true);
    t.touch(TouchPhaseKind::Started, 2, false);
    assert_eq!(t.touch(TouchPhaseKind::Cancelled, 0, false), TouchStep::Nothing);
    assert_eq!(t.touch_count(), 0);
    assert_eq!(t.max_touch_count(), 0);
    assert!(!t.is_scrubbing());
    assert_eq!(t.touch(TouchPhaseKind::Ended, 1, false), TouchStep::SingleLifted);
}

#[test]
fn a_scrub_from_start_to_lift() {
    let mut t = TouchCounter::new();
    let mut steps = vec![t.touch(TouchPhaseKind::Started, 9, true)];
    for id in [9, 9, 3] {
        steps.push(t.touch(TouchPhaseKind::Moved, id, false));
    }
    steps.push(t.touch(TouchPhaseKind::Ended, 9, false));
    assert_eq!(
        steps,
        vec![
            TouchStep::FirstDown,
            TouchStep::ScrubMove,
            TouchStep::ScrubMove,
            TouchStep::ScrubMove,
            TouchStep::ScrubEnd
        ]
    );
    assert_eq!(t.touch_count(), 0);
    assert!(!t.is_scrubbing());
}
