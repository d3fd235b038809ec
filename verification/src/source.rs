//! Spinner source loading: turns the text of a spinner-definitions
//! document into registry definitions, leniently — a document that is
//! not a mapping from name to frame list counts as an empty table.

use vstd::prelude::*;

use crate::registry::{
    build, defs_map, distinct_names, reg_map, lemma_reg_map_merge, valid_entries, Registry,
    SpinnerDef,
};

verus! {

/// The name-to-frames mapping a document denotes, or nothing when the
/// document is not a JSON object of string keys to string arrays. It
/// depends on the text alone.
pub uninterp spec fn json_map_of(text: Seq<char>) -> Option<Map<Seq<char>, Seq<Seq<char>>>>;

/// The mapping a document yields read leniently: its object, or an
/// empty table where there is none to read.
pub open spec fn doc_map(text: Seq<char>) -> Map<Seq<char>, Seq<Seq<char>>> {
    match json_map_of(text) {
        Some(m) => m,
        None => Map::empty(),
    }
}

/// Relies on serde_json::from_str, deserializing to a map from string
/// to string list: the parse succeeds exactly on a JSON object of
/// that shape, its outcome depends on the text alone, a duplicate key
/// overwrites so the map holds each key once, and errors come back as
/// `Err`, never a panic. Only the order of the returned entries is
/// left open (the map is walked in hash order).
#[verifier::external_body]
fn parse_json_map(text: &str) -> (r: Option<Vec<SpinnerDef>>)
    ensures
        (r is Some) == (json_map_of(text@) is Some),
        r matches Some(defs) ==> {
            &&& json_map_of(text@) == Some(defs_map(defs@))
            &&& distinct_names(defs@)
        },
{
    match serde_json::from_str::<std::collections::HashMap<String, Vec<String>>>(text) {
        Ok(m) => Some(m.into_iter().map(|(name, frames)| SpinnerDef { name, frames }).collect()),
        Err(_) => None,
    }
}

/// The definitions one document yields: exactly its mapping, in some
/// order, or an empty table where it cannot be read as one.
pub fn parse_spinners(text: &str) -> (r: Vec<SpinnerDef>)
    ensures
        distinct_names(r@),
        defs_map(r@) == doc_map(text@),
{
    match parse_json_map(text) {
        Some(defs) => defs,
        None => {
            let empty: Vec<SpinnerDef> = Vec::new();
            proof {
                assert(defs_map(empty@) =~= doc_map(text@));
            }
            empty
        },
    }
}

/// The registry built from the default document and an optional
/// override document: the usable entries of the default mapping,
/// overridden by the usable entries of the override mapping; an
/// absent or unreadable document is an empty table.
pub fn read_config(default_text: &str, source_text: Option<&str>) -> (r: Registry)
    ensures
        r.wf(),
        r.as_map() == valid_entries(doc_map(default_text@)).union_prefer_right(
            valid_entries(
                match source_text {
                    Some(t) => doc_map(t@),
                    None => Map::empty(),
                },
            ),
        ),
{
    let default_defs = parse_spinners(default_text);
    let override_defs = match source_text {
        Some(t) => parse_spinners(t),
        None => Vec::new(),
    };
    proof {
        assert(defs_map(override_defs@) =~= match source_text {
            Some(t) => doc_map(t@),
            None => Map::empty(),
        });
        lemma_reg_map_merge(default_defs@, override_defs@);
    }
    let ghost expected = reg_map(default_defs@ + override_defs@);
    let r = build(default_defs, override_defs);
    proof {
        assert(r.as_map() == expected);
    }
    r
}

} // verus!
