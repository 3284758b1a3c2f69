use rusttracker::tui_layout::{
    abbreviate_home, cells_per_item, heatmap_window, spectrum_labels, top_panel_percentages,
    track_info_title, vu_label,
};

#[test]
fn narrow_terminals_hide_the_heatmap() {
    assert_eq!(top_panel_percentages(40), (40, 0, 60));
    assert_eq!(top_panel_percentages(79), (40, 0, 60));
    assert_eq!(top_panel_percentages(80), (30, 40, 30));
    assert_eq!(top_panel_percentages(109), (30, 40, 30));
    assert_eq!(top_panel_percentages(110), (30, 50, 20));
}

#[test]
fn every_item_gets_at_least_one_column() {
    assert_eq!(cells_per_item(10, 3), 3);
    assert_eq!(cells_per_item(2, 5), 1);
    assert_eq!(cells_per_item(10, 0), 10);
    assert_eq!(cells_per_item(0, 0), 1);
}

#[test]
fn one_column_labels() {
    assert_eq!(vu_label(0, 1), "1");
    assert_eq!(vu_label(1, 1), " ");
    assert_eq!(vu_label(10, 1), "+");
}

#[test]
fn two_column_labels_are_right_aligned() {
    assert_eq!(vu_label(0, 2), " 1");
    assert_eq!(vu_label(11, 2), "  ");
    assert_eq!(vu_label(12, 2), "13");
}

#[test]
fn wider_labels_are_centred() {
    assert_eq!(vu_label(4, 5), "  5  ");
    assert_eq!(vu_label(0, 4), " 1  ");
    assert_eq!(vu_label(9, 4), " 10 ");
    assert_eq!(vu_label(99, 3), "100");
    assert_eq!(vu_label(999, 3), "1000");
}

#[test]
fn heatmap_shows_the_newest_rows() {
    assert_eq!(heatmap_window(240, 10), (110, 120));
    assert_eq!(heatmap_window(7, 10), (0, 3));
    assert_eq!(heatmap_window(0, 0), (0, 0));
}

#[test]
fn spectrum_labels_on_one_column_bins() {
    let mut expected = vec![' '; 128];
    for (start, text) in [(0, "0Hz"), (32, "2.5kHz"), (64, "5kHz"), (96, "7.5kHz"), (123, "10kHz")] {
        for (j, c) in text.chars().enumerate() {
            expected[start + j] = c;
        }
    }
    let expected: String = expected.into_iter().collect();
    assert_eq!(spectrum_labels(128, 1, 128), expected);
}

#[test]
fn spectrum_labels_need_enough_bins() {
    assert_eq!(spectrum_labels(20, 1, 64), " ".repeat(20));
}

#[test]
fn spectrum_labels_in_a_narrow_line() {
    assert_eq!(spectrum_labels(4, 1, 128), "10kH");
}

#[test]
fn track_panel_title_counts_tracks() {
    assert_eq!(track_info_title(2, 5), "Track Info (3/5)");
    assert_eq!(track_info_title(0, 1), "Track Info");
    assert_eq!(track_info_title(0, 0), "Track Info");
}

#[test]
fn home_is_shortened() {
    assert_eq!(abbreviate_home("/home/u/music/a.mp3", "/home/u", "~"), "~/music/a.mp3");
    assert_eq!(abbreviate_home("/srv/a.mp3", "/home/u", "~"), "/srv/a.mp3");
    assert_eq!(abbreviate_home("/x", "", "~"), "~/x");
}
