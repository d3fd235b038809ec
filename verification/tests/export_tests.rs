use spinn::export::{as_array, as_list, as_string, export, SpinnExport};

fn frames(items: &[&str]) -> Vec<String> {
    items.iter().map(|f| f.to_string()).collect()
}

#[test]
fn list_single_line_round_trip() {
    let f = frames(&["a", "b"]);
    assert_eq!(as_list(&false, &'"', &f), "[ \"a\", \"b\" ]\n".to_string());
}

#[test]
fn array_single_line_with_single_quote() {
    let f = frames(&["x"]);
    assert_eq!(as_array(&false, &'\'', &f), "{ 'x' }\n".to_string());
}

#[test]
fn string_multi_line_one_frame_per_line() {
    let f = frames(&["a", "b"]);
    assert_eq!(as_string(&true, &'"', &f), "a\nb\n".to_string());
}

#[test]
fn string_single_line_space_joined() {
    let f = frames(&["a", "b", "c"]);
    assert_eq!(as_string(&false, &'"', &f), "a b c".to_string());
    let one = frames(&["solo"]);
    assert_eq!(as_string(&false, &'"', &one), "solo".to_string());
}

#[test]
fn list_multi_line_layout() {
    let f = frames(&["a", "b"]);
    assert_eq!(as_list(&true, &'"', &f), "[\n\t\"a\",\n\t\"b\",\n]\n".to_string());
}

#[test]
fn array_multi_line_layout() {
    let f = frames(&["q"]);
    assert_eq!(as_array(&true, &'*', &f), "{\n\t*q*,\n}\n".to_string());
}

#[test]
fn export_appends_blank_line() {
    let f = frames(&["a"]);
    assert_eq!(export(&SpinnExport::List, &'"', &false, &f), "[ \"a\" ]\n\n".to_string());
    assert_eq!(export(&SpinnExport::Array, &'"', &false, &f), "{ \"a\" }\n\n".to_string());
    assert_eq!(export(&SpinnExport::String, &'"', &false, &f), "a\n".to_string());
}

#[test]
fn empty_frame_list_exports_empty_brackets() {
    let f: Vec<String> = Vec::new();
    assert_eq!(as_list(&false, &'"', &f), "[ ]\n".to_string());
    assert_eq!(as_list(&true, &'"', &f), "[\n]\n".to_string());
    assert_eq!(as_string(&false, &'"', &f), "".to_string());
}

#[test]
fn quote_char_is_honoured() {
    let f = frames(&["f"]);
    assert_eq!(as_list(&false, &'|', &f), "[ |f| ]\n".to_string());
}
