//! The export formatter: renders an ordered frame list as a bracketed
//! list, a braced array, or plain joined text, honouring a quote
//! character and a multi-line flag.

use vstd::prelude::*;
use vstd::string::*;

verus! {

/// The three export shapes.
pub enum SpinnExport {
    List,
    Array,
    String,
}

/// A frame wrapped in the quote character on both sides.
pub open spec fn quoted(q: char, f: Seq<char>) -> Seq<char> {
    seq![q] + f + seq![q]
}

/// The first `n` frames quoted and joined for a one-line export:
/// `", "` after each frame but the last, a single space after the last.
pub open spec fn items_single(q: char, frames: Seq<Seq<char>>, n: int) -> Seq<char>
    decreases n,
{
    if n <= 0 {
        Seq::empty()
    } else {
        items_single(q, frames, n - 1) + quoted(q, frames[n - 1]) + (if n == frames.len() {
            seq![' ']
        } else {
            seq![',', ' ']
        })
    }
}

/// The first `n` frames quoted for a multi-line export: each on its
/// own line, indented with a tab and ended with a comma.
pub open spec fn items_multi(q: char, frames: Seq<Seq<char>>, n: int) -> Seq<char>
    decreases n,
{
    if n <= 0 {
        Seq::empty()
    } else {
        items_multi(q, frames, n - 1) + seq!['\t'] + quoted(q, frames[n - 1]) + seq![',', '\n']
    }
}

/// The first `n` frames joined without quoting: one per line in
/// multi-line mode, space-separated on one line otherwise.
pub open spec fn items_plain(frames: Seq<Seq<char>>, multi: bool, n: int) -> Seq<char>
    decreases n,
{
    if n <= 0 {
        Seq::empty()
    } else if multi {
        items_plain(frames, multi, n - 1) + frames[n - 1] + seq!['\n']
    } else if n == 1 {
        frames[0]
    } else {
        items_plain(frames, multi, n - 1) + seq![' '] + frames[n - 1]
    }
}

/// The full list export: frames in `[ ]`.
pub open spec fn list_spec(q: char, frames: Seq<Seq<char>>, multi: bool) -> Seq<char> {
    if multi {
        seq!['[', '\n'] + items_multi(q, frames, frames.len() as int) + seq![']', '\n']
    } else {
        seq!['[', ' '] + items_single(q, frames, frames.len() as int) + seq![']', '\n']
    }
}

/// The full array export: frames in `{ }`.
pub open spec fn array_spec(q: char, frames: Seq<Seq<char>>, multi: bool) -> Seq<char> {
    if multi {
        seq!['{', '\n'] + items_multi(q, frames, frames.len() as int) + seq!['}', '\n']
    } else {
        seq!['{', ' '] + items_single(q, frames, frames.len() as int) + seq!['}', '\n']
    }
}

/// The full plain-text export; the quote character plays no part.
pub open spec fn string_spec(frames: Seq<Seq<char>>, multi: bool) -> Seq<char> {
    items_plain(frames, multi, frames.len() as int)
}

/// What `export` produces: the chosen shape and a closing blank line.
pub open spec fn export_spec(
    mode: SpinnExport,
    q: char,
    multi: bool,
    frames: Seq<Seq<char>>,
) -> Seq<char> {
    (match mode {
        SpinnExport::List => list_spec(q, frames, multi),
        SpinnExport::Array => array_spec(q, frames, multi),
        SpinnExport::String => string_spec(frames, multi),
    }) + seq!['\n']
}

/// Relies on String::push: appends exactly the one character.
#[verifier::external_body]
fn push_char(s: &mut String, c: char)
    ensures
        final(s)@ == old(s)@.push(c),
{
    s.push(c);
}

fn append_quoted(out: &mut String, q: char, frame: &str)
    ensures
        final(out)@ == old(out)@ + quoted(q, frame@),
{
    push_char(out, q);
    out.append(frame);
    push_char(out, q);
    proof {
        assert(final(out)@ =~= old(out)@ + quoted(q, frame@));
    }
}

/// The frames as a one-line or multi-line bracketed list.
pub fn as_list(multiline: &bool, quote: &char, frames: &Vec<String>) -> (r: String)
    ensures
        r@ == list_spec(*quote, frames.deep_view(), *multiline),
{
    bracketed(*multiline, *quote, frames, '[', ']')
}

/// The frames as a one-line or multi-line braced array.
pub fn as_array(multiline: &bool, quote: &char, frames: &Vec<String>) -> (r: String)
    ensures
        r@ == array_spec(*quote, frames.deep_view(), *multiline),
{
    bracketed(*multiline, *quote, frames, '{', '}')
}

/// The common shape of the list and array exports: quoted frames
/// between an opening and a closing bracket character.
fn bracketed(multiline: bool, quote: char, frames: &Vec<String>, open: char, close: char) -> (r:
    String)
    ensures
        multiline ==> r@ == seq![open, '\n']
            + items_multi(quote, frames.deep_view(), frames.deep_view().len() as int)
            + seq![close, '\n'],
        !multiline ==> r@ == seq![open, ' ']
            + items_single(quote, frames.deep_view(), frames.deep_view().len() as int)
            + seq![close, '\n'],
{
    let ghost fv = frames.deep_view();
    let mut out = String::new();
    push_char(&mut out, open);
    if multiline {
        out.append("\n");
    } else {
        out.append(" ");
    }
    proof {
        reveal_strlit("\n");
        reveal_strlit(" ");
        if multiline {
            assert(out@ =~= seq![open, '\n'] + items_multi(quote, fv, 0));
        } else {
            assert(out@ =~= seq![open, ' '] + items_single(quote, fv, 0));
        }
    }
    let n = frames.len();
    let mut i: usize = 0;
    while i < n
        invariant
            i <= n,
            n == fv.len(),
            fv == frames.deep_view(),
            multiline ==> out@ == seq![open, '\n'] + items_multi(quote, fv, i as int),
            !multiline ==> out@ == seq![open, ' '] + items_single(quote, fv, i as int),
        decreases n - i,
    {
        proof {
            assert(frames@[i as int]@ == fv[i as int]);
        }
        if multiline {
            out.append("\t");
            append_quoted(&mut out, quote, frames[i].as_str());
            out.append(",\n");
            proof {
                reveal_strlit("\t");
                reveal_strlit(",\n");
                assert(",\n"@ =~= seq![',', '\n']);
                assert("\t"@ =~= seq!['\t']);
                assert(out@ =~= seq![open, '\n'] + items_multi(quote, fv, i + 1));
            }
        } else {
            append_quoted(&mut out, quote, frames[i].as_str());
            if i + 1 < n {
                out.append(", ");
            } else {
                out.append(" ");
            }
            proof {
                reveal_strlit(", ");
                reveal_strlit(" ");
                assert(", "@ =~= seq![',', ' ']);
                assert(" "@ =~= seq![' ']);
                assert(out@ =~= seq![open, ' '] + items_single(quote, fv, i + 1));
            }
        }
        i = i + 1;
    }
    push_char(&mut out, close);
    out.append("\n");
    proof {
        reveal_strlit("\n");
        if multiline {
            assert(out@ =~= seq![open, '\n'] + items_multi(quote, fv, fv.len() as int)
                + seq![close, '\n']);
        } else {
            assert(out@ =~= seq![open, ' '] + items_single(quote, fv, fv.len() as int)
                + seq![close, '\n']);
        }
    }
    out
}

/// The frames joined as plain text, unquoted.
pub fn as_string(multiline: &bool, _quote: &char, frames: &Vec<String>) -> (r: String)
    ensures
        r@ == string_spec(frames.deep_view(), *multiline),
{
    let ghost fv = frames.deep_view();
    let mut out = String::new();
    proof {
        assert(out@ =~= items_plain(fv, *multiline, 0));
    }
    let n = frames.len();
    let mut i: usize = 0;
    while i < n
        invariant
            i <= n,
            n == fv.len(),
            fv == frames.deep_view(),
            out@ == items_plain(fv, *multiline, i as int),
        decreases n - i,
    {
        proof {
            assert(frames@[i as int]@ == fv[i as int]);
        }
        if *multiline {
            out.append(frames[i].as_str());
            out.append("\n");
        } else {
            if i > 0 {
                out.append(" ");
            }
            out.append(frames[i].as_str());
        }
        proof {
            reveal_strlit("\n");
            reveal_strlit(" ");
            assert(out@ =~= items_plain(fv, *multiline, i + 1));
        }
        i = i + 1;
    }
    out
}

/// One frame list rendered in the chosen export shape, with the
/// closing blank line the export always ends in.
pub fn export(export_as: &SpinnExport, quote: &char, multiline: &bool, frames: &Vec<String>) -> (r:
    String)
    ensures
        r@ == export_spec(*export_as, *quote, *multiline, frames.deep_view()),
{
    let mut out = match export_as {
        SpinnExport::List => as_list(multiline, quote, frames),
        SpinnExport::Array => as_array(multiline, quote, frames),
        SpinnExport::String => as_string(multiline, quote, frames),
    };
    out.append("\n");
    proof {
        reveal_strlit("\n");
        assert(out@ =~= export_spec(*export_as, *quote, *multiline, frames.deep_view()));
    }
    out
}

} // verus!
