//! Configuration parsing: maps a list of command-line arguments
//! (the program name already removed) to a typed configuration.
//! Unparsable values are dropped, never reported: configuration is
//! best-effort by design.

use vstd::prelude::*;
use vstd::string::*;

use crate::export::SpinnExport;
use crate::strutil::str_eq;

verus! {

/// The typed configuration a run starts from; every field optional,
/// absent meaning "use the default".
pub struct SpinnConfig {
    pub show_help: Option<bool>,
    pub export_as: Option<SpinnExport>,
    pub multi_line: Option<bool>,
    pub quote: Option<char>,
    pub source: Option<String>,
    pub pick: Option<String>,
    pub interval: Option<u32>,
}

/// The configuration as mathematical values.
pub struct ConfigView {
    pub show_help: Option<bool>,
    pub export_as: Option<SpinnExport>,
    pub multi_line: Option<bool>,
    pub quote: Option<char>,
    pub source: Option<Seq<char>>,
    pub pick: Option<Seq<char>>,
    pub interval: Option<u32>,
}

impl SpinnConfig {
    pub open spec fn view(self) -> ConfigView {
        ConfigView {
            show_help: self.show_help,
            export_as: self.export_as,
            multi_line: self.multi_line,
            quote: self.quote,
            source: match self.source {
                Some(s) => Some(s@),
                None => None,
            },
            pick: match self.pick {
                Some(s) => Some(s@),
                None => None,
            },
            interval: self.interval,
        }
    }
}

/// A configuration with nothing set.
pub open spec fn empty_config() -> ConfigView {
    ConfigView {
        show_help: None,
        export_as: None,
        multi_line: None,
        quote: None,
        source: None,
        pick: None,
        interval: None,
    }
}

/// Whether `c` is a decimal digit.
pub open spec fn is_digit(c: char) -> bool {
    48 <= c as u32 <= 57
}

/// The value of a decimal digit.
pub open spec fn digit_val(c: char) -> nat {
    (c as u32 - 48) as nat
}

/// Whether `s` is one or more decimal digits.
pub open spec fn all_digits(s: Seq<char>) -> bool {
    forall|i: int| 0 <= i < s.len() ==> is_digit(#[trigger] s[i])
}

/// The number a digit string denotes.
pub open spec fn dec_value(s: Seq<char>) -> nat
    decreases s.len(),
{
    if s.len() == 0 {
        0
    } else {
        dec_value(s.drop_last()) * 10 + digit_val(s.last())
    }
}

/// What a digit string yields: its number, if it is one or more
/// digits and the number fits.
pub open spec fn digits_u32_spec(s: Seq<char>) -> Option<u32> {
    if s.len() > 0 && all_digits(s) && dec_value(s) <= u32::MAX {
        Some(dec_value(s) as u32)
    } else {
        None
    }
}

/// What parsing an interval yields: an optional leading `+`, then one
/// or more digits denoting a number that fits.
pub open spec fn parse_u32_spec(s: Seq<char>) -> Option<u32> {
    if s.len() >= 1 && s[0] == '+' {
        digits_u32_spec(s.skip(1))
    } else {
        digits_u32_spec(s)
    }
}

/// What parsing a boolean yields.
pub open spec fn parse_bool_spec(s: Seq<char>) -> Option<bool> {
    if s == "true"@ {
        Some(true)
    } else if s == "false"@ {
        Some(false)
    } else {
        None
    }
}

/// What parsing a quote character yields: the character, if there is
/// exactly one.
pub open spec fn parse_char_spec(s: Seq<char>) -> Option<char> {
    if s.len() == 1 {
        Some(s[0])
    } else {
        None
    }
}

/// The position of the first `=`, or a negative value if there is none.
pub open spec fn eq_pos(s: Seq<char>) -> int
    decreases s.len(),
{
    if s.len() == 0 {
        -1
    } else if s[0] == '=' {
        0
    } else {
        let r = eq_pos(s.skip(1));
        if r < 0 {
            -1
        } else {
            r + 1
        }
    }
}

/// `eq_pos` finds exactly the first `=`.
pub proof fn lemma_eq_pos_at(s: Seq<char>, i: int)
    requires
        0 <= i < s.len(),
        s[i] == '=',
        forall|j: int| 0 <= j < i ==> s[j] != '=',
    ensures
        eq_pos(s) == i,
    decreases i,
{
    if i > 0 {
        assert(s.skip(1)[i - 1] == s[i]);
        assert forall|j: int| 0 <= j < i - 1 implies s.skip(1)[j] != '=' by {
            assert(s.skip(1)[j] == s[j + 1]);
        }
        lemma_eq_pos_at(s.skip(1), i - 1);
    }
}

/// Without an `=`, `eq_pos` reports none.
pub proof fn lemma_eq_pos_none(s: Seq<char>)
    requires
        forall|j: int| 0 <= j < s.len() ==> s[j] != '=',
    ensures
        eq_pos(s) < 0,
    decreases s.len(),
{
    if s.len() > 0 {
        assert forall|j: int| 0 <= j < s.len() - 1 implies s.skip(1)[j] != '=' by {
            assert(s.skip(1)[j] == s[j + 1]);
        }
        lemma_eq_pos_none(s.skip(1));
    }
}

/// With an `=` somewhere, `eq_pos` reports a position.
pub proof fn lemma_eq_pos_exists(s: Seq<char>, i: int)
    requires
        0 <= i < s.len(),
        s[i] == '=',
    ensures
        eq_pos(s) >= 0,
    decreases i,
{
    if i > 0 && s[0] != '=' {
        assert(s.skip(1)[i - 1] == s[i]);
        lemma_eq_pos_exists(s.skip(1), i - 1);
    }
}

/// The first `k` characters are all dashes.
pub open spec fn dash_prefix(s: Seq<char>, k: int) -> bool {
    0 <= k <= s.len() && (forall|j: int| 0 <= j < k ==> s[j] == '-')
}

/// The text with every leading `--` pair removed.
pub open spec fn trim_dashes2(s: Seq<char>) -> Seq<char>
    decreases s.len(),
{
    if s.len() >= 2 && s[0] == '-' && s[1] == '-' {
        trim_dashes2(s.skip(2))
    } else {
        s
    }
}

/// The text with every leading `-` removed.
pub open spec fn trim_dashes1(s: Seq<char>) -> Seq<char>
    decreases s.len(),
{
    if s.len() >= 1 && s[0] == '-' {
        trim_dashes1(s.skip(1))
    } else {
        s
    }
}

/// The key of a `key=value` argument body: what stands before the
/// first `=`.
pub open spec fn key_of(body: Seq<char>) -> Seq<char> {
    body.take(eq_pos(body))
}

/// The value of a `key=value` argument body: what stands between the
/// first `=` and the second, or the end.
pub open spec fn val_of(body: Seq<char>) -> Seq<char> {
    let rest = body.skip(eq_pos(body) + 1);
    if eq_pos(rest) >= 0 {
        rest.take(eq_pos(rest))
    } else {
        rest
    }
}

/// One long-form `key=value` applied to the configuration; an unknown
/// key changes nothing.
pub open spec fn apply_long(c: ConfigView, body: Seq<char>) -> ConfigView {
    let key = key_of(body);
    let val = val_of(body);
    if key == "interval"@ {
        ConfigView { interval: parse_u32_spec(val), ..c }
    } else if key == "source"@ {
        ConfigView { source: Some(val), ..c }
    } else if key == "multiline"@ {
        ConfigView { multi_line: parse_bool_spec(val), ..c }
    } else if key == "quote"@ {
        ConfigView { quote: parse_char_spec(val), ..c }
    } else if key == "export"@ {
        if val == "list"@ {
            ConfigView { export_as: Some(SpinnExport::List), ..c }
        } else if val == "array"@ {
            ConfigView { export_as: Some(SpinnExport::Array), ..c }
        } else if val == "string"@ {
            ConfigView { export_as: Some(SpinnExport::String), ..c }
        } else {
            c
        }
    } else {
        c
    }
}

/// One short-form `k=value` applied to the configuration.
pub open spec fn apply_short(c: ConfigView, body: Seq<char>) -> ConfigView {
    let key = key_of(body);
    let val = val_of(body);
    if key == "i"@ {
        ConfigView { interval: parse_u32_spec(val), ..c }
    } else if key == "s"@ {
        ConfigView { source: Some(val), ..c }
    } else if key == "m"@ {
        ConfigView { multi_line: parse_bool_spec(val), ..c }
    } else if key == "q"@ {
        ConfigView { quote: parse_char_spec(val), ..c }
    } else if key == "e"@ {
        if val == "l"@ {
            ConfigView { export_as: Some(SpinnExport::List), ..c }
        } else if val == "a"@ {
            ConfigView { export_as: Some(SpinnExport::Array), ..c }
        } else if val == "s"@ {
            ConfigView { export_as: Some(SpinnExport::String), ..c }
        } else {
            c
        }
    } else {
        c
    }
}

/// Whether the argument asks for help.
pub open spec fn is_help(a: Seq<char>) -> bool {
    a == "--help"@ || a == "-h"@
}

/// One argument applied to the configuration: a `--key=value`, a
/// `-k=value`, or otherwise an initial spinner selection.
pub open spec fn apply_arg(c: ConfigView, a: Seq<char>) -> ConfigView {
    if a.len() >= 2 && a[0] == '-' && a[1] == '-' && eq_pos(a) >= 0 {
        apply_long(c, trim_dashes2(a))
    } else if a.len() >= 1 && a[0] == '-' && eq_pos(a) >= 0 {
        apply_short(c, trim_dashes1(a))
    } else {
        ConfigView { pick: Some(a), ..c }
    }
}

/// The arguments from position `i` on applied in order; a help flag
/// is recorded and ends the scan.
pub open spec fn parse_from(c: ConfigView, args: Seq<Seq<char>>, i: int) -> ConfigView
    decreases args.len() - i,
{
    if i < 0 || i >= args.len() {
        c
    } else if is_help(args[i]) {
        ConfigView { show_help: Some(true), ..c }
    } else {
        parse_from(apply_arg(c, args[i]), args, i + 1)
    }
}

/// What parsing a whole argument list yields.
pub open spec fn parse_args_spec(args: Seq<Seq<char>>) -> ConfigView {
    parse_from(empty_config(), args, 0)
}

/// The position of the first `=` of `s`, scanned left to right.
fn find_eq(s: &str) -> (r: Option<usize>)
    ensures
        match r {
            Some(i) => i < s@.len() && eq_pos(s@) == i && s@[i as int] == '='
                && (forall|j: int| 0 <= j < i ==> s@[j] != '='),
            None => eq_pos(s@) < 0,
        },
{
    let n = s.unicode_len();
    let mut i: usize = 0;
    while i < n
        invariant
            i <= n,
            n == s@.len(),
            forall|j: int| 0 <= j < i ==> s@[j] != '=',
        decreases n - i,
    {
        if s.get_char(i) == '=' {
            proof {
                lemma_eq_pos_at(s@, i as int);
            }
            return Some(i);
        }
        i = i + 1;
    }
    proof {
        lemma_eq_pos_none(s@);
    }
    None
}

/// `s` with every leading `--` pair removed.
fn strip_dashes2<'a>(s: &'a str) -> (r: &'a str)
    ensures
        r@ == trim_dashes2(s@),
        exists|k: int| dash_prefix(s@, k) && r@ == s@.skip(k),
{
    let n = s.unicode_len();
    let mut k: usize = 0;
    proof {
        assert(s@.skip(0) =~= s@);
    }
    loop
        invariant
            k <= n,
            n == s@.len(),
            trim_dashes2(s@) == trim_dashes2(s@.skip(k as int)),
            forall|j: int| 0 <= j < k ==> s@[j] == '-',
        ensures
            k <= n,
            trim_dashes2(s@) == s@.skip(k as int),
            forall|j: int| 0 <= j < k ==> s@[j] == '-',
        decreases n - k,
    {
        if n - k < 2 {
            break;
        }
        proof {
            assert(s@.skip(k as int)[0] == s@[k as int]);
            assert(s@.skip(k as int)[1] == s@[k + 1]);
        }
        let a = s.get_char(k);
        let b = s.get_char(k + 1);
        if !(a == '-' && b == '-') {
            break;
        }
        proof {
            assert(s@.skip(k as int).skip(2) =~= s@.skip(k + 2));
        }
        k = k + 2;
    }
    let r = s.substring_char(k, n);
    proof {
        assert(r@ =~= s@.skip(k as int));
        assert(dash_prefix(s@, k as int) && r@ == s@.skip(k as int));
    }
    r
}

/// `s` with every leading `-` removed.
fn strip_dashes1<'a>(s: &'a str) -> (r: &'a str)
    ensures
        r@ == trim_dashes1(s@),
        exists|k: int| dash_prefix(s@, k) && r@ == s@.skip(k),
{
    let n = s.unicode_len();
    let mut k: usize = 0;
    proof {
        assert(s@.skip(0) =~= s@);
    }
    loop
        invariant
            k <= n,
            n == s@.len(),
            trim_dashes1(s@) == trim_dashes1(s@.skip(k as int)),
            forall|j: int| 0 <= j < k ==> s@[j] == '-',
        ensures
            k <= n,
            trim_dashes1(s@) == s@.skip(k as int),
            forall|j: int| 0 <= j < k ==> s@[j] == '-',
        decreases n - k,
    {
        if k >= n {
            break;
        }
        proof {
            assert(s@.skip(k as int)[0] == s@[k as int]);
        }
        let a = s.get_char(k);
        if a != '-' {
            break;
        }
        proof {
            assert(s@.skip(k as int).skip(1) =~= s@.skip(k + 1));
        }
        k = k + 1;
    }
    let r = s.substring_char(k, n);
    proof {
        assert(r@ =~= s@.skip(k as int));
        assert(dash_prefix(s@, k as int) && r@ == s@.skip(k as int));
    }
    r
}

/// Parses a decimal number that fits a `u32`, with an optional
/// leading `+`; anything else is `None`.
pub fn parse_u32(s: &str) -> (r: Option<u32>)
    ensures
        r == parse_u32_spec(s@),
{
    let full = s.unicode_len();
    let body = if full >= 1 && s.get_char(0) == '+' {
        s.substring_char(1, full)
    } else {
        s
    };
    proof {
        if full >= 1 && s@[0] == '+' {
            assert(body@ =~= s@.skip(1));
        }
        assert(parse_u32_spec(s@) == digits_u32_spec(body@));
    }
    parse_digits(body)
}

/// Parses a bare digit string that fits a `u32`.
fn parse_digits(s: &str) -> (r: Option<u32>)
    ensures
        r == digits_u32_spec(s@),
{
    let n = s.unicode_len();
    if n == 0 {
        return None;
    }
    let mut i: usize = 0;
    let mut val: u64 = 0;
    let mut over: bool = false;
    proof {
        assert(s@.take(0) =~= Seq::<char>::empty());
    }
    while i < n
        invariant
            i <= n,
            n == s@.len(),
            forall|j: int| 0 <= j < i ==> is_digit(#[trigger] s@[j]),
            over == (dec_value(s@.take(i as int)) > u32::MAX),
            !over ==> val == dec_value(s@.take(i as int)),
            val <= u32::MAX,
        decreases n - i,
    {
        let c = s.get_char(i);
        let cv = c as u32;
        if cv < 48 || cv > 57 {
            return None;
        }
        let d: u64 = (cv - 48) as u64;
        proof {
            assert(s@.take(i + 1).drop_last() =~= s@.take(i as int));
            assert(s@.take(i + 1).last() == s@[i as int]);
        }
        if !over {
            let next: u64 = val * 10 + d;
            if next > 0xffff_ffff {
                over = true;
            } else {
                val = next;
            }
        }
        i = i + 1;
    }
    proof {
        assert(s@.take(n as int) =~= s@);
    }
    if over {
        None
    } else {
        Some(val as u32)
    }
}

/// Parses `true` or `false`; anything else is `None`.
pub fn parse_bool(s: &str) -> (r: Option<bool>)
    ensures
        r == parse_bool_spec(s@),
{
    if str_eq(s, "true") {
        Some(true)
    } else if str_eq(s, "false") {
        Some(false)
    } else {
        None
    }
}

/// Parses a single character; anything else is `None`.
pub fn parse_char(s: &str) -> (r: Option<char>)
    ensures
        r == parse_char_spec(s@),
{
    if s.unicode_len() == 1 {
        Some(s.get_char(0))
    } else {
        None
    }
}

/// Splits an argument body at its first `=` into key and value, the
/// value again cut at the next `=`.
fn split_key_val<'a>(body: &'a str) -> (r: (&'a str, &'a str))
    requires
        eq_pos(body@) >= 0,
    ensures
        r.0@ == key_of(body@),
        r.1@ == val_of(body@),
{
    let n = body.unicode_len();
    let e = match find_eq(body) {
        Some(e) => e,
        None => 0,
    };
    let key = body.substring_char(0, e);
    let rest = body.substring_char(e + 1, n);
    proof {
        assert(key@ =~= key_of(body@));
        assert(rest@ =~= body@.skip(eq_pos(body@) + 1));
    }
    let val = match find_eq(rest) {
        Some(e2) => rest.substring_char(0, e2),
        None => rest,
    };
    proof {
        assert(val@ =~= val_of(body@));
    }
    (key, val)
}

fn apply_long_exec(config: &mut SpinnConfig, body: &str)
    requires
        eq_pos(body@) >= 0,
    ensures
        final(config).view() == apply_long(old(config).view(), body@),
{
    let (key, val) = split_key_val(body);
    if str_eq(key, "interval") {
        config.interval = parse_u32(val);
    } else if str_eq(key, "source") {
        config.source = Some(val.to_owned());
    } else if str_eq(key, "multiline") {
        config.multi_line = parse_bool(val);
    } else if str_eq(key, "quote") {
        config.quote = parse_char(val);
    } else if str_eq(key, "export") {
        if str_eq(val, "list") {
            config.export_as = Some(SpinnExport::List);
        } else if str_eq(val, "array") {
            config.export_as = Some(SpinnExport::Array);
        } else if str_eq(val, "string") {
            config.export_as = Some(SpinnExport::String);
        }
    }
}

fn apply_short_exec(config: &mut SpinnConfig, body: &str)
    requires
        eq_pos(body@) >= 0,
    ensures
        final(config).view() == apply_short(old(config).view(), body@),
{
    let (key, val) = split_key_val(body);
    if str_eq(key, "i") {
        config.interval = parse_u32(val);
    } else if str_eq(key, "s") {
        config.source = Some(val.to_owned());
    } else if str_eq(key, "m") {
        config.multi_line = parse_bool(val);
    } else if str_eq(key, "q") {
        config.quote = parse_char(val);
    } else if str_eq(key, "e") {
        if str_eq(val, "l") {
            config.export_as = Some(SpinnExport::List);
        } else if str_eq(val, "a") {
            config.export_as = Some(SpinnExport::Array);
        } else if str_eq(val, "s") {
            config.export_as = Some(SpinnExport::String);
        }
    }
}

/// Removing a dash prefix cannot remove an `=`.
proof fn lemma_body_keeps_eq(raw: Seq<char>, body: Seq<char>, i: int)
    requires
        0 <= i < raw.len(),
        raw[i] == '=',
        exists|k: int| dash_prefix(raw, k) && body == raw.skip(k),
    ensures
        eq_pos(body) >= 0,
{
    let k = choose|k: int| dash_prefix(raw, k) && body == raw.skip(k);
    assert(i >= k);
    assert(body[i - k] == raw[i]);
    lemma_eq_pos_exists(body, i - k);
}

/// Maps an argument list (without the program name) to the typed
/// configuration, scanning left to right; a later argument wins, and
/// `--help` or `-h` ends the scan.
pub fn get_config(args: &Vec<String>) -> (r: SpinnConfig)
    ensures
        r.view() == parse_args_spec(args.deep_view()),
{
    let ghost argv = args.deep_view();
    let mut config = SpinnConfig {
        show_help: None,
        export_as: None,
        multi_line: None,
        quote: None,
        source: None,
        pick: None,
        interval: None,
    };
    proof {
        assert(config.view() == empty_config());
    }
    let n = args.len();
    let mut position: usize = 0;
    while position < n
        invariant
            position <= n,
            n == argv.len(),
            argv == args.deep_view(),
            parse_from(empty_config(), argv, 0) == parse_from(
                config.view(),
                argv,
                position as int,
            ),
        decreases n - position,
    {
        let item = &args[position];
        proof {
            assert(item@ == argv[position as int]);
        }
        let item_len = item.as_str().unicode_len();
        let eq_at = find_eq(item.as_str());
        let ghost eq_idx: int = match eq_at {
            Some(i) => i as int,
            None => -1,
        };
        let has_eq = match eq_at {
            Some(_) => true,
            None => false,
        };
        let dash2 = item_len >= 2 && {
            let a = item.as_str().get_char(0);
            let b = item.as_str().get_char(1);
            a == '-' && b == '-'
        };
        let dash1 = item_len >= 1 && item.as_str().get_char(0) == '-';
        if dash2 && has_eq {
            let body = strip_dashes2(item.as_str());
            proof {
                lemma_body_keeps_eq(item@, body@, eq_idx);
            }
            apply_long_exec(&mut config, body);
        } else if dash1 && has_eq {
            let body = strip_dashes1(item.as_str());
            proof {
                lemma_body_keeps_eq(item@, body@, eq_idx);
            }
            apply_short_exec(&mut config, body);
        } else if str_eq(item.as_str(), "--help") || str_eq(item.as_str(), "-h") {
            config.show_help = Some(true);
            proof {
                assert(is_help(argv[position as int]));
            }
            return config;
        } else {
            config.pick = Some(item.clone());
        }
        proof {
            assert(!is_help(argv[position as int])) by {
                reveal_strlit("--help");
                reveal_strlit("-h");
                if argv[position as int] == "--help"@ {
                    assert(item@ == "--help"@);
                }
                if argv[position as int] == "-h"@ {
                    assert(item@ == "-h"@);
                }
            }
        }
        position = position + 1;
    }
    config
}

} // verus!
