use spinn::source::{parse_spinners, read_config};

#[test]
fn a_json_object_becomes_definitions() {
    let defs = parse_spinners("{\"dots\": [\".\", \"..\"], \"line\": [\"-\"]}");
    assert_eq!(defs.len(), 2);
    let mut names: Vec<String> = defs.iter().map(|d| d.name.clone()).collect();
    names.sort();
    assert_eq!(names, vec!["dots".to_string(), "line".to_string()]);
}

#[test]
fn malformed_text_is_an_empty_table() {
    assert!(parse_spinners("not json").is_empty());
    assert!(parse_spinners("[1, 2]").is_empty());
    assert!(parse_spinners("{\"a\": 3}").is_empty());
}

#[test]
fn read_config_merges_override_over_default() {
    let r = read_config(
        "{\"dots\": [\".\", \"..\"], \"line\": [\"-\"]}",
        Some("{\"dots\": [\"X\"], \"star\": [\"*\"]}"),
    );
    assert_eq!(
        r.sorted_names(),
        vec!["dots".to_string(), "line".to_string(), "star".to_string()]
    );
    assert_eq!(r.frames("dots").unwrap(), &vec!["X".to_string()]);
    assert_eq!(r.frames("line").unwrap(), &vec!["-".to_string()]);
}

#[test]
fn read_config_without_override_keeps_defaults() {
    let r = read_config("{\"dots\": [\".\"]}", None);
    assert_eq!(r.sorted_names(), vec!["dots".to_string()]);
}

#[test]
fn two_unreadable_documents_make_an_empty_registry() {
    let r = read_config("oops", Some("also bad"));
    assert!(r.sorted_names().is_empty());
}
