use rusttracker::tracker_view::{tracker_row_at, tracker_row_label};

fn patterns(lens: &[usize]) -> Vec<Vec<String>> {
    lens.iter()
        .map(|&n| (0..n).map(|i| format!("row {}", i)).collect())
        .collect()
}

#[test]
fn the_playing_row_is_drawn_in_the_middle() {
    let p = patterns(&[3, 2, 4]);
    assert_eq!(tracker_row_at(1, 0, 0, &vec![], &p), Some((1, 0)));
    assert_eq!(tracker_row_at(1, 5, 0, &vec![], &p), None);
}

#[test]
fn rows_below_run_into_the_next_patterns() {
    let p = patterns(&[3, 2, 4]);
    assert_eq!(tracker_row_at(1, 0, 1, &vec![], &p), Some((1, 1)));
    assert_eq!(tracker_row_at(1, 0, 2, &vec![], &p), Some((2, 0)));
    assert_eq!(tracker_row_at(1, 0, 5, &vec![], &p), Some((2, 3)));
    assert_eq!(tracker_row_at(1, 0, 6, &vec![], &p), None);
}

#[test]
fn empty_patterns_are_stepped_over() {
    let p = patterns(&[2, 0, 3]);
    assert_eq!(tracker_row_at(0, 1, 1, &vec![], &p), Some((2, 0)));
    assert_eq!(tracker_row_at(2, 0, -1, &vec![], &p), Some((0, 1)));
}

#[test]
fn rows_above_come_from_the_history_first() {
    let p = patterns(&[3, 2, 4]);
    let history = vec![(0, 2), (0, 1)];
    assert_eq!(tracker_row_at(1, 0, -1, &history, &p), Some((0, 2)));
    assert_eq!(tracker_row_at(1, 0, -2, &history, &p), Some((0, 1)));
    assert_eq!(tracker_row_at(1, 0, -3, &history, &p), Some((0, 0)));
    assert_eq!(tracker_row_at(1, 0, -1, &vec![(7, 0)], &p), None);
}

#[test]
fn rows_above_walk_back_without_history() {
    let p = patterns(&[3, 2, 4]);
    assert_eq!(tracker_row_at(1, 0, -1, &vec![], &p), Some((0, 2)));
    assert_eq!(tracker_row_at(1, 0, -3, &vec![], &p), Some((0, 0)));
    assert_eq!(tracker_row_at(1, 0, -4, &vec![], &p), None);
}

#[test]
fn orders_outside_the_song_draw_nothing() {
    let p = patterns(&[3, 2]);
    assert_eq!(tracker_row_at(-1, 0, 1, &vec![], &p), None);
    assert_eq!(tracker_row_at(5, 0, 0, &vec![], &p), None);
}

#[test]
fn row_labels_are_numbered_and_cut() {
    assert_eq!(tracker_row_label(5, "C-4 01 .. ...", 100), "05 | C-4 01 .. ...");
    assert_eq!(tracker_row_label(12, "abcdef", 3), "12 | abc");
    assert_eq!(tracker_row_label(123, "x", 0), "123 | ");
    assert_eq!(tracker_row_label(0, "äöü", 2), "00 | äö");
}
