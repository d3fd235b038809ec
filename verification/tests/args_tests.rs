use spinn::args::{get_config, parse_bool, parse_char, parse_u32, SpinnConfig};
use spinn::export::SpinnExport;

fn parse(args: &[&str]) -> SpinnConfig {
    let v: Vec<String> = args.iter().map(|a| a.to_string()).collect();
    get_config(&v)
}

#[test]
fn long_flags_set_fields() {
    let c = parse(&["--interval=250", "--source=spin.json", "--multiline=true", "--quote=%"]);
    assert_eq!(c.interval, Some(250));
    assert_eq!(c.source, Some("spin.json".to_string()));
    assert_eq!(c.multi_line, Some(true));
    assert_eq!(c.quote, Some('%'));
    assert!(c.show_help.is_none());
    assert!(c.pick.is_none());
}

#[test]
fn short_flags_set_fields() {
    let c = parse(&["-i=500", "-s=x.json", "-m=false", "-q=#"]);
    assert_eq!(c.interval, Some(500));
    assert_eq!(c.source, Some("x.json".to_string()));
    assert_eq!(c.multi_line, Some(false));
    assert_eq!(c.quote, Some('#'));
}

#[test]
fn export_codes_long_and_short() {
    assert!(matches!(parse(&["--export=list"]).export_as, Some(SpinnExport::List)));
    assert!(matches!(parse(&["--export=array"]).export_as, Some(SpinnExport::Array)));
    assert!(matches!(parse(&["--export=string"]).export_as, Some(SpinnExport::String)));
    assert!(matches!(parse(&["-e=l"]).export_as, Some(SpinnExport::List)));
    assert!(matches!(parse(&["-e=a"]).export_as, Some(SpinnExport::Array)));
    assert!(matches!(parse(&["-e=s"]).export_as, Some(SpinnExport::String)));
    assert!(parse(&["--export=bogus"]).export_as.is_none());
}

#[test]
fn bad_values_are_ignored() {
    assert_eq!(parse(&["--interval=soon"]).interval, None);
    assert_eq!(parse(&["--interval=+200"]).interval, Some(200));
    assert_eq!(parse(&["--interval=4294967296"]).interval, None);
    assert_eq!(parse(&["--interval=4294967295"]).interval, Some(4294967295));
    assert_eq!(parse(&["--multiline=yes"]).multi_line, None);
    assert_eq!(parse(&["--quote=ab"]).quote, None);
}

#[test]
fn bare_argument_picks_a_spinner() {
    let c = parse(&["dots"]);
    assert_eq!(c.pick, Some("dots".to_string()));
}

#[test]
fn help_stops_the_scan() {
    let c = parse(&["--help", "--interval=300"]);
    assert_eq!(c.show_help, Some(true));
    assert_eq!(c.interval, None);
    let c2 = parse(&["-h"]);
    assert_eq!(c2.show_help, Some(true));
}

#[test]
fn later_argument_wins() {
    let c = parse(&["--interval=200", "--interval=300"]);
    assert_eq!(c.interval, Some(300));
    let c2 = parse(&["a", "b"]);
    assert_eq!(c2.pick, Some("b".to_string()));
}

#[test]
fn value_is_cut_at_second_equals() {
    let c = parse(&["--source=a=b"]);
    assert_eq!(c.source, Some("a".to_string()));
}

#[test]
fn unknown_keys_change_nothing() {
    let c = parse(&["--verbose=1", "-z=9"]);
    assert_eq!(c.interval, None);
    assert!(c.pick.is_none());
}

#[test]
fn parse_u32_accepts_digits_and_a_leading_plus() {
    assert_eq!(parse_u32("0"), Some(0));
    assert_eq!(parse_u32("123"), Some(123));
    assert_eq!(parse_u32("+200"), Some(200));
    assert_eq!(parse_u32(""), None);
    assert_eq!(parse_u32("+"), None);
    assert_eq!(parse_u32("++5"), None);
    assert_eq!(parse_u32("12a"), None);
    assert_eq!(parse_u32("-5"), None);
}

#[test]
fn parse_bool_is_exact() {
    assert_eq!(parse_bool("true"), Some(true));
    assert_eq!(parse_bool("false"), Some(false));
    assert_eq!(parse_bool("True"), None);
}

#[test]
fn parse_char_wants_one_char() {
    assert_eq!(parse_char("x"), Some('x'));
    assert_eq!(parse_char("█"), Some('█'));
    assert_eq!(parse_char("xy"), None);
    assert_eq!(parse_char(""), None);
}
