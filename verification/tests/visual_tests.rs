use rusttracker::visual::{advance_heatmap_row, channel_display_order};

fn is_permutation_of_first(order: &[usize], n: usize) -> bool {
    let mut sorted = order.to_vec();
    sorted.sort();
    sorted == (0..n).collect::<Vec<usize>>()
}

#[test]
fn surround_layouts_fan_out_from_centre() {
    assert_eq!(channel_display_order(6, false), vec![4, 0, 2, 3, 1, 5]);
    assert_eq!(channel_display_order(8, false), vec![6, 4, 0, 2, 3, 1, 5, 7]);
    assert_eq!(
        channel_display_order(16, false),
        vec![14, 12, 10, 8, 6, 4, 0, 2, 3, 1, 5, 7, 9, 11, 13, 15]
    );
}

#[test]
fn tracker_channels_keep_their_order() {
    assert_eq!(channel_display_order(6, true), vec![0, 1, 2, 3, 4, 5]);
    assert_eq!(channel_display_order(8, true), (0..8).collect::<Vec<usize>>());
}

#[test]
fn other_layouts_keep_their_order() {
    assert_eq!(channel_display_order(0, false), Vec::<usize>::new());
    assert_eq!(channel_display_order(2, false), vec![0, 1]);
    assert_eq!(channel_display_order(7, false), (0..7).collect::<Vec<usize>>());
}

#[test]
fn at_most_thirty_two_channels_are_shown() {
    assert_eq!(channel_display_order(40, false), (0..32).collect::<Vec<usize>>());
    assert_eq!(channel_display_order(32, true).len(), 32);
}

#[test]
fn display_order_is_a_permutation() {
    for n in 0..40usize {
        for tracker in [false, true] {
            let order = channel_display_order(n, tracker);
            assert!(is_permutation_of_first(&order, n.min(32)), "n = {}, tracker = {}", n, tracker);
        }
    }
}

#[test]
fn heatmap_row_advances_by_pushes() {
    assert_eq!(advance_heatmap_row(0, 0, 3), (3, 3, true));
    assert_eq!(advance_heatmap_row(1020, 5, 10), (1, 10, true));
    assert_eq!(advance_heatmap_row(7, 0, 2048), (7, 2048, true));
}

#[test]
fn heatmap_row_waits_without_pushes() {
    assert_eq!(advance_heatmap_row(3, 10, 10), (3, 10, false));
}

#[test]
fn heatmap_counter_reset_is_followed() {
    assert_eq!(advance_heatmap_row(3, 10, 4), (3, 4, true));
}
