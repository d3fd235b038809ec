use spinn::registry::{build, Registry, SpinnerDef};

fn def(name: &str, frames: &[&str]) -> SpinnerDef {
    SpinnerDef {
        name: name.to_string(),
        frames: frames.iter().map(|f| f.to_string()).collect(),
    }
}

fn reg(names: &[(&str, &[&str])]) -> Registry {
    let defs: Vec<SpinnerDef> = names.iter().map(|(n, f)| def(n, f)).collect();
    build(defs, Vec::new())
}

#[test]
fn sorted_names_sorts_and_dedups() {
    let r = reg(&[("dots", &["a"]), ("arrow", &["b"]), ("moon", &["c"]), ("arrow", &["d"])]);
    let names = r.sorted_names();
    assert_eq!(names, vec!["arrow".to_string(), "dots".to_string(), "moon".to_string()]);
}

#[test]
fn next_wraps_in_sorted_order() {
    let r = reg(&[("b", &["1"]), ("a", &["1"]), ("c", &["1"])]);
    assert_eq!(r.next("a"), "b".to_string());
    assert_eq!(r.next("b"), "c".to_string());
    assert_eq!(r.next("c"), "a".to_string());
}

#[test]
fn prev_wraps_in_sorted_order() {
    let r = reg(&[("b", &["1"]), ("a", &["1"]), ("c", &["1"])]);
    assert_eq!(r.prev("a"), "c".to_string());
    assert_eq!(r.prev("b"), "a".to_string());
    assert_eq!(r.prev("c"), "b".to_string());
}

#[test]
fn ring_symmetry_on_members() {
    let r = reg(&[("dots", &["a"]), ("arrow", &["b"]), ("moon", &["c"])]);
    for name in ["arrow", "dots", "moon"] {
        assert_eq!(r.next(&r.prev(name)), name.to_string());
        assert_eq!(r.prev(&r.next(name)), name.to_string());
    }
}

#[test]
fn unknown_name_falls_back() {
    let r = reg(&[("a", &["1"]), ("b", &["1"])]);
    assert_eq!(r.next("zzz"), "a".to_string());
    assert_eq!(r.prev("zzz"), "b".to_string());
}

#[test]
fn single_entry_ring_loops_to_itself() {
    let r = reg(&[("only", &["1"])]);
    assert_eq!(r.next("only"), "only".to_string());
    assert_eq!(r.prev("only"), "only".to_string());
    assert_eq!(r.indicator("only"), (true, true), "the single name is first and last");
}

#[test]
fn indicator_marks_first_then_last() {
    let r = reg(&[("a", &["1"]), ("b", &["1"]), ("c", &["1"])]);
    assert_eq!(r.indicator("a"), (true, false));
    assert_eq!(r.indicator("b"), (false, false));
    assert_eq!(r.indicator("c"), (false, true));
    assert_eq!(r.indicator("zzz"), (false, false));
}

#[test]
fn override_replaces_default_whole() {
    let defaults = vec![def("dots", &["a", "b", "c"]), def("line", &["-"])];
    let overrides = vec![def("dots", &["X"])];
    let r = build(defaults, overrides);
    let frames = r.frames("dots").expect("dots should be present");
    assert_eq!(frames, &vec!["X".to_string()]);
    let line = r.frames("line").expect("line should be present");
    assert_eq!(line, &vec!["-".to_string()]);
}

#[test]
fn names_only_in_one_table_are_kept() {
    let defaults = vec![def("dots", &["a"])];
    let overrides = vec![def("extra", &["e"])];
    let r = build(defaults, overrides);
    assert!(r.has_name("dots"));
    assert!(r.has_name("extra"));
    assert!(!r.has_name("other"));
}

#[test]
fn invalid_definitions_are_dropped() {
    let defaults = vec![def("", &["a"]), def("empty", &[]), def("ok", &["x"])];
    let r = build(defaults, Vec::new());
    assert_eq!(r.sorted_names(), vec!["ok".to_string()]);
}

#[test]
fn find_reports_sorted_position() {
    let r = reg(&[("b", &["1"]), ("a", &["1"])]);
    assert_eq!(r.find("a"), Some(0));
    assert_eq!(r.find("b"), Some(1));
    assert_eq!(r.find("c"), None);
}
