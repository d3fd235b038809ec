use spinn::term::{bg, bold, fg, italic, reset, rgb};

#[test]
fn rgb_builds_a_foreground_escape() {
    assert_eq!(rgb(1, 2, 3), "\x1b[38;2;1;2;3m".to_string());
    assert_eq!(rgb(255, 0, 128), "\x1b[38;2;255;0;128m".to_string());
}

#[test]
fn fg_reads_a_six_digit_triplet() {
    assert_eq!(fg("#ff8000"), "\x1b[38;2;255;128;0m".to_string());
    assert_eq!(fg("abc123"), "\x1b[38;2;171;193;35m".to_string());
}

#[test]
fn fg_reads_a_three_digit_triplet() {
    assert_eq!(fg("#fa0"), "\x1b[38;2;15;10;0m".to_string());
}

#[test]
fn bg_uses_the_background_code() {
    assert_eq!(bg("#102030"), "\x1b[48;2;16;32;48m".to_string());
}

#[test]
fn other_lengths_mean_white() {
    assert_eq!(fg("#abcd"), "\x1b[38;2;255;255;255m".to_string());
    assert_eq!(bg(""), "\x1b[48;2;255;255;255m".to_string());
}

#[test]
fn attribute_escapes() {
    assert_eq!(reset(), "\x1b[0m".to_string());
    assert_eq!(bold(), "\x1b[1m".to_string());
    assert_eq!(italic(), "\x1b[3m".to_string());
}
