use spinn::args::SpinnConfig;
use spinn::engine::{Spinn, SpinnEvent};
use spinn::export::SpinnExport;
use spinn::registry::{build, Registry, SpinnerDef};

fn def(name: &str, frames: &[&str]) -> SpinnerDef {
    SpinnerDef {
        name: name.to_string(),
        frames: frames.iter().map(|f| f.to_string()).collect(),
    }
}

fn registry() -> Registry {
    build(
        vec![def("arrow", &["<", ">"]), def("dots", &[".", "..", "..."]), def("moon", &["m"])],
        Vec::new(),
    )
}

fn config() -> SpinnConfig {
    SpinnConfig {
        show_help: None,
        export_as: None,
        multi_line: None,
        quote: None,
        source: None,
        pick: None,
        interval: None,
    }
}

#[test]
fn new_falls_back_to_first_sorted_name() {
    let s = Spinn::new(config(), registry());
    assert_eq!(s.pick, "arrow".to_string());
    assert_eq!(s.frame, 0);
    assert_eq!(s.interval, 100);
}

#[test]
fn new_honours_known_pick() {
    let mut c = config();
    c.pick = Some("dots".to_string());
    let s = Spinn::new(c, registry());
    assert_eq!(s.pick, "dots".to_string());
}

#[test]
fn new_clamps_interval_to_grid() {
    for (given, expect) in [(99u32, 100u32), (137, 100), (250, 250), (275, 250), (1001, 1000)] {
        let mut c = config();
        c.interval = Some(given);
        let s = Spinn::new(c, registry());
        assert_eq!(s.interval, expect, "interval {given}");
    }
}

#[test]
fn timeout_advances_and_wraps_cyclically() {
    let mut c = config();
    c.pick = Some("dots".to_string());
    let mut s = Spinn::new(c, registry());
    assert_eq!(s.frame, 0);
    s.step(SpinnEvent::Timeout);
    assert_eq!(s.frame, 1);
    s.step(SpinnEvent::Timeout);
    assert_eq!(s.frame, 2);
    s.step(SpinnEvent::Timeout);
    assert_eq!(s.frame, 0);
}

#[test]
fn frame_count_timeouts_return_to_start() {
    let mut c = config();
    c.pick = Some("dots".to_string());
    let mut s = Spinn::new(c, registry());
    s.step(SpinnEvent::Timeout);
    let start = s.frame;
    for _ in 0..3 {
        s.step(SpinnEvent::Timeout);
    }
    assert_eq!(s.frame, start);
}

#[test]
fn speed_keys_clamp_at_bounds() {
    let mut s = Spinn::new(config(), registry());
    assert_eq!(s.interval, 100);
    s.step(SpinnEvent::SpeedDown);
    assert_eq!(s.interval, 100, "decrement below 100 is a no-op");
    s.step(SpinnEvent::SpeedUp);
    assert_eq!(s.interval, 150);
    s.step(SpinnEvent::SpeedDown);
    assert_eq!(s.interval, 100);
    let mut c = config();
    c.interval = Some(1000);
    let mut top = Spinn::new(c, registry());
    top.step(SpinnEvent::SpeedUp);
    assert_eq!(top.interval, 1000, "increment above 1000 is a no-op");
}

#[test]
fn speed_keys_leave_frame_untouched() {
    let mut c = config();
    c.pick = Some("dots".to_string());
    let mut s = Spinn::new(c, registry());
    s.step(SpinnEvent::Timeout);
    assert_eq!(s.frame, 1);
    s.step(SpinnEvent::SpeedUp);
    assert_eq!(s.frame, 1);
    s.step(SpinnEvent::SpeedDown);
    assert_eq!(s.frame, 1);
}

#[test]
fn switching_spinner_resets_frame_index() {
    let mut c = config();
    c.pick = Some("dots".to_string());
    let mut s = Spinn::new(c, registry());
    s.step(SpinnEvent::Timeout);
    assert_eq!(s.frame, 1);
    s.step(SpinnEvent::NextSpinner);
    assert_eq!(s.pick, "moon".to_string());
    assert_eq!(s.frame, 0);
    s.step(SpinnEvent::Timeout);
    s.step(SpinnEvent::PrevSpinner);
    assert_eq!(s.pick, "dots".to_string());
    assert_eq!(s.frame, 0);
}

#[test]
fn loaders_fall_back_on_an_unknown_selection() {
    let mut s = Spinn::new(config(), registry());
    s.pick = "ghost".to_string();
    s.next_loader();
    assert_eq!(s.pick, "arrow".to_string(), "unknown selection clamps to the first name");
    s.pick = "ghost".to_string();
    s.prev_loader();
    assert_eq!(s.pick, "moon".to_string(), "unknown selection clamps to the last name");
}

#[test]
fn navigation_wraps_over_the_ring() {
    let mut s = Spinn::new(config(), registry());
    assert_eq!(s.pick, "arrow".to_string());
    s.step(SpinnEvent::PrevSpinner);
    assert_eq!(s.pick, "moon".to_string());
    s.step(SpinnEvent::NextSpinner);
    assert_eq!(s.pick, "arrow".to_string());
}

#[test]
fn quit_reports_done_and_changes_nothing() {
    let mut s = Spinn::new(config(), registry());
    let before = (s.pick.clone(), s.frame, s.interval);
    let quit = s.step(SpinnEvent::Quit);
    assert!(quit);
    assert_eq!((s.pick.clone(), s.frame, s.interval), before);
    assert!(!s.step(SpinnEvent::Other));
    assert_eq!((s.pick, s.frame, s.interval), before);
}

#[test]
fn indicator_follows_selection() {
    let mut s = Spinn::new(config(), registry());
    assert_eq!(s._show_indicator(), (true, false));
    s.step(SpinnEvent::NextSpinner);
    assert_eq!(s._show_indicator(), (false, false));
    s.step(SpinnEvent::NextSpinner);
    assert_eq!(s._show_indicator(), (false, true));
}

#[test]
fn layouts_lists_the_ring() {
    let s = Spinn::new(config(), registry());
    assert_eq!(
        s._layouts(),
        vec!["arrow".to_string(), "dots".to_string(), "moon".to_string()]
    );
}

#[test]
fn export_uses_selected_frames() {
    let mut c = config();
    c.pick = Some("arrow".to_string());
    c.export_as = Some(SpinnExport::List);
    c.multi_line = Some(false);
    let s = Spinn::new(c, registry());
    assert_eq!(s.export(), Some("[ \"<\", \">\" ]\n\n".to_string()));
}

#[test]
fn export_defaults_to_multi_line() {
    let mut c = config();
    c.pick = Some("moon".to_string());
    c.export_as = Some(SpinnExport::Array);
    let s = Spinn::new(c, registry());
    assert_eq!(s.export(), Some("{\n\t\"m\",\n}\n\n".to_string()));
}

#[test]
fn no_export_configured_exports_nothing() {
    let s = Spinn::new(config(), registry());
    assert_eq!(s.export(), None);
}
