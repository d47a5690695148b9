//! JSON values, held as their compact text.
use crate::text::{str_eq, views};
use vstd::prelude::*;

verus! {

/// What `serde_json` reads from a text: the value, written compactly, or the text of the error.
pub uninterp spec fn parsed_json(text: Seq<char>) -> Result<Seq<char>, Seq<char>>;

/// The entries of the object that a text denotes to `serde_json`, each value written compactly;
/// nothing where it denotes no object.
pub uninterp spec fn json_entries(text: Seq<char>) -> Option<Seq<(Seq<char>, Seq<char>)>>;

/// The string that a text denotes to `serde_json`; nothing where it denotes no string.
pub uninterp spec fn json_string(text: Seq<char>) -> Option<Seq<char>>;

/// The object with these entries, all of them strings, as `serde_json` writes it compactly.
pub uninterp spec fn json_object_of(entries: Seq<(Seq<char>, Seq<char>)>) -> Seq<char>;

/// What `partial_json_fixer` makes of a text that may be cut off.
pub uninterp spec fn repaired_json(text: Seq<char>) -> Seq<char>;

/// The value that some bytes denote to `serde_json`, written over several lines; nothing where
/// they denote none.
pub uninterp spec fn pretty_printed(bytes: Seq<u8>) -> Option<Seq<char>>;

/// A string as `serde_json` writes it.
pub uninterp spec fn json_quoted(text: Seq<char>) -> Seq<char>;

/// The integer that a text denotes to `serde_json`; nothing where it denotes none that fits.
pub uninterp spec fn json_i64(text: Seq<char>) -> Option<i64>;

/// The items of the array that a text denotes to `serde_json`, each written compactly; nothing
/// where it denotes no array.
pub uninterp spec fn json_items(text: Seq<char>) -> Option<Seq<Seq<char>>>;

/// The characters of both parts.
pub open spec fn pair_views(v: Seq<(String, String)>) -> Seq<(Seq<char>, Seq<char>)> {
    v.map_values(|p: (String, String)| (p.0@, p.1@))
}

pub fn clone_pairs(v: &Vec<(String, String)>) -> (r: Vec<(String, String)>)
    ensures
        pair_views(r@) == pair_views(v@),
{
    let ghost all = pair_views(v@);
    let mut r: Vec<(String, String)> = Vec::new();
    let mut i: usize = 0;
    assert(pair_views(r@) =~= all.take(0));
    while i < v.len()
        invariant
            i <= v@.len(),
            all == pair_views(v@),
            pair_views(r@) == all.take(i as int),
        decreases v@.len() - i,
    {
        let ghost before = pair_views(r@);
        r.push((v[i].0.clone(), v[i].1.clone()));
        assert(pair_views(r@) =~= before.push((v@[i as int].0@, v@[i as int].1@)));
        assert(all.take(i + 1) =~= before.push(all[i as int]));
        i = i + 1;
    }
    assert(all.take(v@.len() as int) =~= all);
    r
}

/// `serde_json::from_str` into a `serde_json::Value`, which `Display` then writes compactly. The
/// result depends on the text alone.
#[verifier::external_body]
pub(crate) fn parse_json(text: &str) -> (r: Result<String, String>)
    ensures
        match r {
            Ok(value) => parsed_json(text@) == Ok::<Seq<char>, Seq<char>>(value@),
            Err(e) => parsed_json(text@) == Err::<Seq<char>, Seq<char>>(e@),
        },
{
    serde_json::from_str::<serde_json::Value>(text)
        .map(|value| value.to_string())
        .map_err(|error| error.to_string())
}

/// `serde_json::from_str` into a `serde_json::Map`: its entries, in the order of the map, with
/// each value written compactly. The result depends on the text alone.
#[verifier::external_body]
pub(crate) fn parse_entries(text: &str) -> (r: Option<Vec<(String, String)>>)
    ensures
        match r {
            Some(v) => json_entries(text@) == Some(pair_views(v@)),
            None => json_entries(text@) is None,
        },
{
    serde_json::from_str::<serde_json::Map<String, serde_json::Value>>(text)
        .ok()
        .map(|map| map.into_iter().map(|(key, value)| (key, value.to_string())).collect())
}

/// `serde_json::from_str` into a `String`: the characters of a JSON string. The result depends
/// on the text alone.
#[verifier::external_body]
pub(crate) fn parse_string(text: &str) -> (r: Option<String>)
    ensures
        match r {
            Some(v) => json_string(text@) == Some(v@),
            None => json_string(text@) is None,
        },
{
    serde_json::from_str::<String>(text).ok()
}

/// `serde_json::Map` with string values, which `Display` writes compactly; of two entries with
/// one key the later one counts. The result depends on the entries alone.
#[verifier::external_body]
pub(crate) fn object_of_strings(entries: &Vec<(String, String)>) -> (r: String)
    ensures
        r@ == json_object_of(pair_views(entries@)),
{
    let map: serde_json::Map<String, serde_json::Value> = entries
        .iter()
        .map(|(key, value)| (key.clone(), serde_json::Value::String(value.clone())))
        .collect();
    serde_json::Value::Object(map).to_string()
}

/// `serde_json::from_slice` into a `serde_json::Value`, which `serde_json::to_string_pretty` then
/// writes. The result depends on the bytes alone.
#[verifier::external_body]
pub(crate) fn pretty_json(bytes: &[u8]) -> (r: Option<String>)
    ensures
        match r {
            Some(v) => pretty_printed(bytes@) == Some(v@),
            None => pretty_printed(bytes@) is None,
        },
{
    let value: serde_json::Value = serde_json::from_slice(bytes).ok()?;
    serde_json::to_string_pretty(&value).ok()
}

/// `serde_json::Value::String`, which `Display` writes with quotation marks and escapes. The result
/// depends on the text alone.
#[verifier::external_body]
pub(crate) fn quote_json(text: &str) -> (r: String)
    ensures
        r@ == json_quoted(text@),
{
    serde_json::Value::String(text.to_string()).to_string()
}

/// `serde_json::from_str` into a `serde_json::Value`, of which `as_i64` is taken. The result depends
/// on the text alone.
#[verifier::external_body]
pub(crate) fn parse_i64(text: &str) -> (r: Option<i64>)
    ensures
        r == json_i64(text@),
{
    serde_json::from_str::<serde_json::Value>(text).ok()?.as_i64()
}

/// `serde_json::from_str` into a `Vec` of `serde_json::Value`, each of which `Display` writes
/// compactly. The result depends on the text alone.
#[verifier::external_body]
pub(crate) fn parse_items(text: &str) -> (r: Option<Vec<String>>)
    ensures
        match r {
            Some(v) => json_items(text@) == Some(views(v@)),
            None => json_items(text@) is None,
        },
{
    let items: Vec<serde_json::Value> = serde_json::from_str(text).ok()?;
    Some(items.into_iter().map(|item| item.to_string()).collect())
}

/// `partial_json_fixer::fix_json`: the text with what is missing at its end. The result depends
/// on the text alone.
#[verifier::external_body]
pub(crate) fn fix_streamed_json(text: &str) -> (r: String)
    ensures
        r@ == repaired_json(text@),
{
    partial_json_fixer::fix_json(text)
}

/// The value of the first entry with the key.
pub open spec fn entry(entries: Seq<(Seq<char>, Seq<char>)>, key: Seq<char>, i: int) -> Option<
    Seq<char>,
>
    decreases entries.len() - i,
{
    if i < 0 || i >= entries.len() {
        None
    } else if entries[i].0 == key {
        Some(entries[i].1)
    } else {
        entry(entries, key, i + 1)
    }
}

pub fn find_entry(entries: &Vec<(String, String)>, key: &str) -> (r: Option<String>)
    ensures
        match r {
            Some(v) => entry(pair_views(entries@), key@, 0) == Some(v@),
            None => entry(pair_views(entries@), key@, 0) is None,
        },
{
    let ghost all = pair_views(entries@);
    let mut i: usize = 0;
    while i < entries.len()
        invariant
            i <= entries@.len(),
            all == pair_views(entries@),
            entry(all, key@, i as int) == entry(all, key@, 0),
        decreases entries@.len() - i,
    {
        assert(all[i as int] == (entries@[i as int].0@, entries@[i as int].1@));
        if str_eq(entries[i].0.as_str(), key) {
            return Some(entries[i].1.clone());
        }
        i = i + 1;
    }
    None
}

} // verus!
