//! Character-sequence utilities shared by the registry, the formatters
//! and the terminal styling helpers: lexicographic order on strings and
//! decimal rendering of integers.

use vstd::prelude::*;
use vstd::string::*;

verus! {

/// Strict lexicographic order on character sequences, by code point.
/// This is the order in which spinner names are navigated.
pub open spec fn lex_lt(a: Seq<char>, b: Seq<char>) -> bool
    decreases a.len(),
{
    if b.len() == 0 {
        false
    } else if a.len() == 0 {
        true
    } else if (a[0] as u32) < (b[0] as u32) {
        true
    } else if (a[0] as u32) > (b[0] as u32) {
        false
    } else {
        lex_lt(a.skip(1), b.skip(1))
    }
}

/// Non-strict lexicographic order.
pub open spec fn lex_le(a: Seq<char>, b: Seq<char>) -> bool {
    lex_lt(a, b) || a == b
}

/// Distinct characters have distinct code points.
pub proof fn lemma_char_cast_injective(c1: char, c2: char)
    requires
        c1 as u32 == c2 as u32,
    ensures
        c1 == c2,
{
    vstd::utf8::char_u32_cast(c1, c1 as u32);
    vstd::utf8::char_u32_cast(c2, c2 as u32);
}

proof fn lemma_eq_from_head_and_tail(a: Seq<char>, b: Seq<char>)
    requires
        a.len() > 0,
        b.len() > 0,
        a[0] == b[0],
        a.skip(1) == b.skip(1),
    ensures
        a == b,
{
    assert(a =~= b) by {
        assert(a.skip(1).len() == a.len() - 1);
        assert(b.skip(1).len() == b.len() - 1);
        assert(a.len() == b.len());
        assert forall|i: int| 0 <= i < a.len() implies a[i] == b[i] by {
            if i >= 1 {
                assert(a[i] == a.skip(1)[i - 1]);
                assert(b[i] == b.skip(1)[i - 1]);
            }
        }
    }
}

/// Of two distinct sequences, exactly one is lexicographically smaller.
pub proof fn lemma_lex_lt_trichotomy(a: Seq<char>, b: Seq<char>)
    ensures
        lex_lt(a, b) || lex_lt(b, a) || a == b,
        lex_lt(a, b) ==> !lex_lt(b, a) && a != b,
    decreases a.len(),
{
    if a.len() == 0 || b.len() == 0 {
        if a.len() == 0 && b.len() == 0 {
            assert(a =~= b);
        }
    } else if a[0] == b[0] {
        lemma_lex_lt_trichotomy(a.skip(1), b.skip(1));
        if a.skip(1) == b.skip(1) {
            lemma_eq_from_head_and_tail(a, b);
        }
        if a == b {
            assert(a.skip(1) =~= b.skip(1));
        }
    } else {
        assert((a[0] as u32) != (b[0] as u32)) by {
            if (a[0] as u32) == (b[0] as u32) {
                lemma_char_cast_injective(a[0], b[0]);
            }
        }
        if a == b {
            assert(a[0] == b[0]);
        }
    }
}

/// Lexicographic order is transitive.
pub proof fn lemma_lex_lt_trans(a: Seq<char>, b: Seq<char>, c: Seq<char>)
    requires
        lex_lt(a, b),
        lex_lt(b, c),
    ensures
        lex_lt(a, c),
    decreases a.len(),
{
    if a.len() == 0 {
        assert(c.len() > 0);
    } else {
        assert(b.len() > 0 && c.len() > 0);
        if (a[0] as u32) == (b[0] as u32) && (b[0] as u32) == (c[0] as u32) {
            assert(lex_lt(a.skip(1), b.skip(1)));
            assert(lex_lt(b.skip(1), c.skip(1)));
            lemma_lex_lt_trans(a.skip(1), b.skip(1), c.skip(1));
            assert(lex_lt(a, c));
        } else {
            assert((a[0] as u32) <= (b[0] as u32));
            assert((b[0] as u32) <= (c[0] as u32));
            assert((a[0] as u32) < (c[0] as u32));
        }
    }
}

/// Whether `a` comes strictly before `b`, decided character by character.
pub fn str_lt(a: &str, b: &str) -> (r: bool)
    ensures
        r == lex_lt(a@, b@),
{
    let a_len = a.unicode_len();
    let b_len = b.unicode_len();
    let mut i: usize = 0;
    proof {
        assert(a@.skip(0) =~= a@);
        assert(b@.skip(0) =~= b@);
    }
    loop
        invariant
            i <= a_len,
            i <= b_len,
            a_len == a@.len(),
            b_len == b@.len(),
            lex_lt(a@, b@) == lex_lt(a@.skip(i as int), b@.skip(i as int)),
        decreases a_len - i,
    {
        if i >= b_len {
            return false;
        }
        if i >= a_len {
            return true;
        }
        let ca = a.get_char(i);
        let cb = b.get_char(i);
        if (ca as u32) < (cb as u32) {
            return true;
        }
        if (ca as u32) > (cb as u32) {
            return false;
        }
        proof {
            assert(a@.skip(i as int).skip(1) =~= a@.skip(i + 1));
            assert(b@.skip(i as int).skip(1) =~= b@.skip(i + 1));
        }
        i = i + 1;
    }
}

/// Whether `a` and `b` hold the same characters.
pub fn str_eq(a: &str, b: &str) -> (r: bool)
    ensures
        r == (a@ == b@),
{
    let a_len = a.unicode_len();
    let b_len = b.unicode_len();
    if a_len != b_len {
        proof {
            assert(a@ != b@);
        }
        return false;
    }
    let mut i: usize = 0;
    loop
        invariant
            i <= a_len,
            a_len == a@.len(),
            b_len == b@.len(),
            a_len == b_len,
            forall|j: int| 0 <= j < i ==> a@[j] == b@[j],
        decreases a_len - i,
    {
        if i >= a_len {
            proof {
                assert(a@ =~= b@);
            }
            return true;
        }
        if a.get_char(i) != b.get_char(i) {
            return false;
        }
        i = i + 1;
    }
}

/// The character for a single decimal digit.
pub open spec fn digit_char(d: nat) -> char {
    if d == 0 {
        '0'
    } else if d == 1 {
        '1'
    } else if d == 2 {
        '2'
    } else if d == 3 {
        '3'
    } else if d == 4 {
        '4'
    } else if d == 5 {
        '5'
    } else if d == 6 {
        '6'
    } else if d == 7 {
        '7'
    } else if d == 8 {
        '8'
    } else {
        '9'
    }
}

/// The decimal rendering of `n`, most significant digit first.
pub open spec fn dec_spec(n: nat) -> Seq<char>
    decreases n,
{
    if n < 10 {
        seq![digit_char(n)]
    } else {
        dec_spec(n / 10) + seq![digit_char(n % 10)]
    }
}

/// The number of decimal digits of `n`.
pub open spec fn dec_len(n: nat) -> nat
    decreases n,
{
    if n < 10 {
        1
    } else {
        1 + dec_len(n / 10)
    }
}

/// The decimal rendering has exactly `dec_len(n)` characters.
pub proof fn lemma_dec_spec_len(n: nat)
    ensures
        dec_spec(n).len() == dec_len(n),
    decreases n,
{
    if n >= 10 {
        lemma_dec_spec_len(n / 10);
    }
}

fn digit_str(d: u64) -> (r: &'static str)
    requires
        d < 10,
    ensures
        r@ =~= seq![digit_char(d as nat)],
{
    proof {
        reveal_strlit("0");
        reveal_strlit("1");
        reveal_strlit("2");
        reveal_strlit("3");
        reveal_strlit("4");
        reveal_strlit("5");
        reveal_strlit("6");
        reveal_strlit("7");
        reveal_strlit("8");
        reveal_strlit("9");
    }
    let r = match d {
        0 => "0",
        1 => "1",
        2 => "2",
        3 => "3",
        4 => "4",
        5 => "5",
        6 => "6",
        7 => "7",
        8 => "8",
        _ => "9",
    };
    proof {
        assert(r@ =~= seq![digit_char(d as nat)]);
    }
    r
}

/// Renders `n` in decimal.
pub fn u64_to_string(n: u64) -> (r: String)
    ensures
        r@ == dec_spec(n as nat),
    decreases n,
{
    if n < 10 {
        digit_str(n).to_owned()
    } else {
        let mut s = u64_to_string(n / 10);
        s.append(digit_str(n % 10));
        s
    }
}

/// `n` copies of the character `c`.
pub open spec fn char_repeat(c: char, n: nat) -> Seq<char> {
    Seq::new(n, |i: int| c)
}

/// A string of `n` spaces.
pub fn spaces(n: usize) -> (r: String)
    ensures
        r@ == char_repeat(' ', n as nat),
{
    let mut s = String::new();
    let mut i: usize = 0;
    while i < n
        invariant
            i <= n,
            s@ == char_repeat(' ', i as nat),
        decreases n - i,
    {
        proof {
            reveal_strlit(" ");
            assert(s@ + " "@ =~= char_repeat(' ', (i + 1) as nat));
        }
        s.append(" ");
        i = i + 1;
    }
    s
}

/// The decimal rendering of `n`, left-padded with zeros to `width`
/// characters; wider renderings are kept whole.
pub open spec fn zero_pad_spec(n: nat, width: nat) -> Seq<char> {
    if dec_len(n) >= width {
        dec_spec(n)
    } else {
        char_repeat('0', (width - dec_len(n)) as nat) + dec_spec(n)
    }
}

/// Fewer digits for a smaller number.
pub proof fn lemma_dec_len_mono(a: nat, b: nat)
    requires
        a <= b,
    ensures
        dec_len(a) <= dec_len(b),
    decreases b,
{
    if a >= 10 {
        lemma_dec_len_mono(a / 10, b / 10);
    }
}

/// The number of decimal digits of `n`, as run.
pub fn num_digits(n: u64) -> (r: usize)
    ensures
        r == dec_len(n as nat),
        1 <= r <= 20,
{
    proof {
        lemma_dec_len_mono(n as nat, u64::MAX as nat);
        assert(dec_len(u64::MAX as nat) == 20) by {
            reveal_with_fuel(dec_len, 21);
        }
    }
    let mut m: u64 = n;
    let mut d: usize = 1;
    while m >= 10
        invariant
            1 <= d,
            dec_len(n as nat) == (d - 1) + dec_len(m as nat),
            dec_len(n as nat) <= 20,
        decreases m,
    {
        m = m / 10;
        d = d + 1;
    }
    d
}

/// Renders `n` in decimal, zero-padded on the left to `width` characters.
pub fn zero_padded(n: u64, width: usize) -> (r: String)
    ensures
        r@ == zero_pad_spec(n as nat, width as nat),
{
    let digits = num_digits(n);
    let body = u64_to_string(n);
    proof {
        lemma_dec_spec_len(n as nat);
    }
    if digits >= width {
        body
    } else {
        let mut s = String::new();
        let mut i: usize = 0;
        let pad = width - digits;
        while i < pad
            invariant
                i <= pad,
                s@ == char_repeat('0', i as nat),
            decreases pad - i,
        {
            proof {
                reveal_strlit("0");
                assert(s@ + "0"@ =~= char_repeat('0', (i + 1) as nat));
            }
            s.append("0");
            i = i + 1;
        }
        s.append(body.as_str());
        s
    }
}

} // verus!
