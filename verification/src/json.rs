//! Maps from text to numbers as JSON text, written and read by serde_json.

use std::collections::BTreeMap;
use vstd::prelude::*;

verus! {

#[verifier::external_type_specification]
#[verifier::external_body]
pub struct ExJsonError(serde_json::Error);

/// The entries of the JSON object that a text holds, in the order of their
/// keys, as serde_json reads it; `None` where the text is no object from
/// strings to numbers of 64 bits without sign.
pub uninterp spec fn json_number_entries(text: Seq<char>) -> Option<Seq<(Seq<char>, u64)>>;

/// The pretty-printed JSON object that serde_json writes for the entries, in
/// the order of their keys; `None` where it refuses to.
pub uninterp spec fn json_text(entries: Seq<(Seq<char>, u64)>) -> Option<Seq<char>>;

/// The keys and values of some entries, in order.
pub open spec fn entries_view(entries: Seq<(String, u64)>) -> Seq<(Seq<char>, u64)> {
    Seq::new(entries.len(), |i: int| (entries[i].0@, entries[i].1))
}

/// Whether no two of the entries have the same key.
pub open spec fn keys_differ(entries: Seq<(Seq<char>, u64)>) -> bool {
    forall|i: int, j: int|
        0 <= i < j < entries.len() ==> (#[trigger] entries[i]).0 != (#[trigger] entries[j]).0
}

/// Reads a JSON object from strings to numbers.
///
/// Trusted: calls `serde_json::from_str` for a `BTreeMap<String, u64>` and
/// hands out the map's entries as the map yields them, in key order. The
/// contract only gives the outcome its name; an error is a text that
/// serde_json refuses.
#[verifier::external_body]
pub(crate) fn parse_number_map(text: &str) -> (parsed: Result<Vec<(String, u64)>, serde_json::Error>)
    ensures
        match parsed {
            Ok(entries) => json_number_entries(text@) == Some(entries_view(entries@)),
            Err(_) => json_number_entries(text@).is_none(),
        },
{
    let map: BTreeMap<String, u64> = serde_json::from_str(text)?;
    Ok(map.into_iter().collect())
}

/// Writes entries with different keys as a JSON object.
///
/// Trusted: hands the entries to `serde_json::to_string_pretty` as a
/// `BTreeMap`, which holds each of them as the keys differ. The contract only
/// gives the outcome its name; an error is a map that serde_json refuses to
/// write.
#[verifier::external_body]
pub(crate) fn render_number_map(entries: &Vec<(String, u64)>) -> (text: Result<
    String,
    serde_json::Error,
>)
    requires
        keys_differ(entries_view(entries@)),
    ensures
        match text {
            Ok(written) => json_text(entries_view(entries@)) == Some(written@),
            Err(_) => json_text(entries_view(entries@)).is_none(),
        },
{
    let map: BTreeMap<&String, &u64> = entries.iter().map(|entry| (&entry.0, &entry.1)).collect();
    serde_json::to_string_pretty(&map)
}

} // verus!
