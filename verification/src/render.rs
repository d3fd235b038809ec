//! The frame formatter: pure text layout for one redraw — the centered
//! frame line, the centered status line and the keymap line, all
//! counted in characters, never in bytes.

use vstd::prelude::*;
use vstd::string::*;

use crate::strutil::{
    char_repeat, dec_spec, dec_len, zero_pad_spec, spaces, u64_to_string, num_digits,
    zero_padded,
};

verus! {

/// The left padding that centers a text of `len` columns in `width`
/// columns: floor of half the slack, none when the text is wider.
pub open spec fn center_pad(len: nat, width: nat) -> nat {
    if len >= width {
        0
    } else {
        ((width - len) / 2) as nat
    }
}

/// A text centered in `width` columns: left padding of half the slack
/// rounded down, the rest of the slack on the right; a text at least
/// as wide as the line is kept whole.
pub open spec fn centered_spec(text: Seq<char>, width: nat) -> Seq<char> {
    if text.len() >= width {
        text
    } else {
        char_repeat(' ', center_pad(text.len(), width)) + text + char_repeat(
            ' ',
            (width - text.len() - center_pad(text.len(), width)) as nat,
        )
    }
}

/// A text pushed right by the centering padding, with no trailing
/// spaces.
pub open spec fn left_centered_spec(text: Seq<char>, width: nat) -> Seq<char> {
    char_repeat(' ', center_pad(text.len(), width)) + text
}

/// A text padded on the right with spaces to `width` columns.
pub open spec fn pad_right_spec(text: Seq<char>, width: nat) -> Seq<char> {
    if text.len() >= width {
        text
    } else {
        text + char_repeat(' ', (width - text.len()) as nat)
    }
}

/// The status line: the interval in milliseconds, the 1-based frame
/// ordinal zero-padded to the digit width of the frame count, and the
/// frame count.
pub open spec fn status_spec(interval: nat, frame_index: nat, total: nat) -> Seq<char> {
    "Interval: "@ + dec_spec(interval) + "ms • Current: "@ + zero_pad_spec(
        frame_index + 1,
        dec_len(total),
    ) + " • Frames: "@ + dec_spec(total)
}

/// The frame text centered in the terminal width.
pub fn loader_line(frame: &str, width: usize) -> (r: String)
    ensures
        r@ == centered_spec(frame@, width as nat),
{
    let len = frame.unicode_len();
    if len >= width {
        frame.to_owned()
    } else {
        let pad = (width - len) / 2;
        let mut out = spaces(pad);
        out.append(frame);
        let right = spaces(width - len - pad);
        out.append(right.as_str());
        proof {
            assert(out@ =~= centered_spec(frame@, width as nat));
        }
        out
    }
}

/// A text pushed right so that it sits centered, without trailing
/// spaces.
pub fn left_centered_line(text: &str, width: usize) -> (r: String)
    ensures
        r@ == left_centered_spec(text@, width as nat),
{
    let len = text.unicode_len();
    let pad = if len >= width {
        0
    } else {
        (width - len) / 2
    };
    let mut out = spaces(pad);
    out.append(text);
    proof {
        assert(out@ =~= left_centered_spec(text@, width as nat));
    }
    out
}

/// A text padded on the right to `width` columns.
pub fn pad_right(text: &str, width: usize) -> (r: String)
    ensures
        r@ == pad_right_spec(text@, width as nat),
{
    let len = text.unicode_len();
    if len >= width {
        text.to_owned()
    } else {
        let mut out = text.to_owned();
        let fill = spaces(width - len);
        out.append(fill.as_str());
        out
    }
}

/// The status line for one redraw.
pub fn status_line(interval: u32, frame_index: usize, total: usize) -> (r: String)
    requires
        total >= 1,
        frame_index < total,
    ensures
        r@ == status_spec(interval as nat, frame_index as nat, total as nat),
{
    let mut out = String::new();
    out.append("Interval: ");
    let iv = u64_to_string(interval as u64);
    out.append(iv.as_str());
    out.append("ms • Current: ");
    let w = num_digits(total as u64);
    let ord = zero_padded((frame_index + 1) as u64, w);
    out.append(ord.as_str());
    out.append(" • Frames: ");
    let tot = u64_to_string(total as u64);
    out.append(tot.as_str());
    proof {
        assert(out@ =~= status_spec(interval as nat, frame_index as nat, total as nat));
    }
    out
}

/// The fixed keymap help text.
pub fn keymap_text() -> (r: String)
    ensures
        r@ == "l: Delay+, h: Delay-, j: Next, k: Previous, q: Quit"@,
{
    let out = "l: Delay+, h: Delay-, j: Next, k: Previous, q: Quit".to_owned();
    out
}

} // verus!
