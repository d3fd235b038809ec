//! Terminal styling helpers: ANSI escape sequences for truecolor
//! foreground and background, from components or from a hex triplet,
//! and the basic attribute codes.

use vstd::prelude::*;
use vstd::string::*;

use crate::strutil::{dec_spec, u64_to_string};

verus! {

/// Whether `c` is a hexadecimal digit.
pub open spec fn is_hex_digit(c: char) -> bool {
    (48 <= c as u32 <= 57) || (65 <= c as u32 <= 70) || (97 <= c as u32 <= 102)
}

/// The value of a hexadecimal digit.
pub open spec fn hex_val(c: char) -> nat {
    if 48 <= c as u32 <= 57 {
        (c as u32 - 48) as nat
    } else if 65 <= c as u32 <= 70 {
        (c as u32 - 55) as nat
    } else if 97 <= c as u32 <= 102 {
        (c as u32 - 87) as nat
    } else {
        0
    }
}

/// The hex text with every leading `#` removed.
pub open spec fn strip_hash(s: Seq<char>) -> Seq<char>
    decreases s.len(),
{
    if s.len() >= 1 && s[0] == '#' {
        strip_hash(s.skip(1))
    } else {
        s
    }
}

/// A hex text the color parser accepts without fault: where it has
/// the length of a triplet, every character is a hex digit.
pub open spec fn valid_hex(s: Seq<char>) -> bool {
    (s.len() == 3 || s.len() == 6) ==> forall|i: int|
        0 <= i < s.len() ==> is_hex_digit(#[trigger] s[i])
}

/// The color components a hex text denotes: one digit per component,
/// or two; any other length means white.
pub open spec fn triplet(s: Seq<char>) -> (nat, nat, nat) {
    if s.len() == 3 {
        (hex_val(s[0]), hex_val(s[1]), hex_val(s[2]))
    } else if s.len() == 6 {
        (
            16 * hex_val(s[0]) + hex_val(s[1]),
            16 * hex_val(s[2]) + hex_val(s[3]),
            16 * hex_val(s[4]) + hex_val(s[5]),
        )
    } else {
        (255, 255, 255)
    }
}

/// A truecolor escape: the prefix, the three components in decimal
/// separated by `;`, and the closing `m`.
pub open spec fn escape_spec(prefix: Seq<char>, r: nat, g: nat, b: nat) -> Seq<char> {
    prefix + dec_spec(r) + ";"@ + dec_spec(g) + ";"@ + dec_spec(b) + "m"@
}

fn color_escape(prefix: &str, r: u32, g: u32, b: u32) -> (res: String)
    ensures
        res@ == escape_spec(prefix@, r as nat, g as nat, b as nat),
{
    let mut out = prefix.to_owned();
    let rs = u64_to_string(r as u64);
    out.append(rs.as_str());
    out.append(";");
    let gs = u64_to_string(g as u64);
    out.append(gs.as_str());
    out.append(";");
    let bs = u64_to_string(b as u64);
    out.append(bs.as_str());
    out.append("m");
    proof {
        assert(out@ =~= escape_spec(prefix@, r as nat, g as nat, b as nat));
    }
    out
}

/// The truecolor foreground escape for the given components.
pub fn rgb(r: u32, g: u32, b: u32) -> (res: String)
    ensures
        res@ == escape_spec("\x1b[38;2;"@, r as nat, g as nat, b as nat),
{
    color_escape("\x1b[38;2;", r, g, b)
}

fn hex_digit_val(c: char) -> (r: u32)
    requires
        is_hex_digit(c),
    ensures
        r == hex_val(c),
        r < 16,
{
    let u = c as u32;
    if u <= 57 {
        u - 48
    } else if u <= 70 {
        u - 55
    } else {
        u - 87
    }
}

fn strip_hash_exec<'a>(s: &'a str) -> (r: &'a str)
    ensures
        r@ == strip_hash(s@),
{
    let n = s.unicode_len();
    let mut k: usize = 0;
    proof {
        assert(s@.skip(0) =~= s@);
    }
    loop
        invariant
            k <= n,
            n == s@.len(),
            strip_hash(s@) == strip_hash(s@.skip(k as int)),
        ensures
            k <= n,
            strip_hash(s@) == s@.skip(k as int),
        decreases n - k,
    {
        if k >= n {
            break;
        }
        proof {
            assert(s@.skip(k as int)[0] == s@[k as int]);
        }
        let a = s.get_char(k);
        if a != '#' {
            break;
        }
        proof {
            assert(s@.skip(k as int).skip(1) =~= s@.skip(k + 1));
        }
        k = k + 1;
    }
    s.substring_char(k, n)
}

fn hex_to_components(inner: &str) -> (r: (u32, u32, u32))
    requires
        valid_hex(inner@),
    ensures
        r.0 == triplet(inner@).0,
        r.1 == triplet(inner@).1,
        r.2 == triplet(inner@).2,
{
    let n = inner.unicode_len();
    if n == 3 {
        let r = hex_digit_val(inner.get_char(0));
        let g = hex_digit_val(inner.get_char(1));
        let b = hex_digit_val(inner.get_char(2));
        (r, g, b)
    } else if n == 6 {
        let r = 16 * hex_digit_val(inner.get_char(0)) + hex_digit_val(inner.get_char(1));
        let g = 16 * hex_digit_val(inner.get_char(2)) + hex_digit_val(inner.get_char(3));
        let b = 16 * hex_digit_val(inner.get_char(4)) + hex_digit_val(inner.get_char(5));
        (r, g, b)
    } else {
        (255, 255, 255)
    }
}

/// The truecolor background escape for a `#`-prefixed hex triplet.
pub fn bg(hex: &str) -> (res: String)
    requires
        valid_hex(strip_hash(hex@)),
    ensures
        res@ == escape_spec(
            "\x1b[48;2;"@,
            triplet(strip_hash(hex@)).0,
            triplet(strip_hash(hex@)).1,
            triplet(strip_hash(hex@)).2,
        ),
{
    let inner = strip_hash_exec(hex);
    let (r, g, b) = hex_to_components(inner);
    color_escape("\x1b[48;2;", r, g, b)
}

/// The truecolor foreground escape for a `#`-prefixed hex triplet.
pub fn fg(hex: &str) -> (res: String)
    requires
        valid_hex(strip_hash(hex@)),
    ensures
        res@ == escape_spec(
            "\x1b[38;2;"@,
            triplet(strip_hash(hex@)).0,
            triplet(strip_hash(hex@)).1,
            triplet(strip_hash(hex@)).2,
        ),
{
    let inner = strip_hash_exec(hex);
    let (r, g, b) = hex_to_components(inner);
    color_escape("\x1b[38;2;", r, g, b)
}

/// The attribute reset escape.
pub fn reset() -> (res: String)
    ensures
        res@ == "\x1b[0m"@,
{
    "\x1b[0m".to_owned()
}

/// The bold attribute escape.
pub fn bold() -> (res: String)
    ensures
        res@ == "\x1b[1m"@,
{
    "\x1b[1m".to_owned()
}

/// The italic attribute escape.
pub fn italic() -> (res: String)
    ensures
        res@ == "\x1b[3m"@,
{
    "\x1b[3m".to_owned()
}

} // verus!
