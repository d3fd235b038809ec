use spinn::render::{keymap_text, left_centered_line, loader_line, pad_right, status_line};

#[test]
fn one_column_frame_centers_at_column_forty() {
    let line = loader_line("█", 80);
    let cols: Vec<char> = line.chars().collect();
    assert_eq!(cols.len(), 80);
    assert_eq!(cols[39], '█');
    assert!(cols[..39].iter().all(|c| *c == ' '));
    assert!(cols[40..].iter().all(|c| *c == ' '));
}

#[test]
fn centering_counts_characters_not_bytes() {
    let line = loader_line("██", 10);
    assert_eq!(line, "    ██    ".to_string());
}

#[test]
fn odd_slack_puts_the_extra_space_on_the_right() {
    let line = loader_line("ab", 7);
    assert_eq!(line, "  ab   ".to_string());
}

#[test]
fn wide_frame_is_kept_whole() {
    assert_eq!(loader_line("abcdef", 4), "abcdef".to_string());
}

#[test]
fn status_line_pads_the_ordinal() {
    assert_eq!(
        status_line(100, 0, 11),
        "Interval: 100ms • Current: 01 • Frames: 11".to_string()
    );
    assert_eq!(
        status_line(250, 10, 11),
        "Interval: 250ms • Current: 11 • Frames: 11".to_string()
    );
    assert_eq!(
        status_line(1000, 2, 3),
        "Interval: 1000ms • Current: 3 • Frames: 3".to_string()
    );
}

#[test]
fn left_centering_uses_floor_division() {
    assert_eq!(left_centered_line("abc", 10), "   abc".to_string());
    assert_eq!(left_centered_line("abc", 3), "abc".to_string());
    assert_eq!(left_centered_line("abcd", 3), "abcd".to_string());
}

#[test]
fn pad_right_fills_to_width() {
    assert_eq!(pad_right("ab", 5), "ab   ".to_string());
    assert_eq!(pad_right("abcdef", 3), "abcdef".to_string());
}

#[test]
fn keymap_names_every_binding() {
    assert_eq!(keymap_text(), "l: Delay+, h: Delay-, j: Next, k: Previous, q: Quit".to_string());
}
