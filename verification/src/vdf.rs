//! Steam's text VDF (KeyValues) documents, parsed by `steam-vdf-parser` and
//! held as a plain tree, with the lookups the discovery logic needs.

use vstd::prelude::*;
use crate::text::chars_of;

verus! {

/// The parser's error type.
#[verifier::external_type_specification]
#[verifier::external_body]
pub struct ExVdfError(steam_vdf_parser::Error);

/// A value in a document as the parser returns it.
#[verifier::external_type_specification]
#[verifier::external_body]
pub struct ExVdfRawValue<'a>(steam_vdf_parser::Value<'a>);

/// A VDF value: a string, an object (its key/value pairs in document order),
/// or one of the binary-format kinds (numbers, pointers, colours) that text
/// documents do not contain.
#[derive(Debug)]
pub enum VdfValue {
    Str(String),
    Obj(Vec<(String, VdfValue)>),
    Other,
}

/// A VDF document: a single root key and its value.
#[derive(Debug)]
pub struct VdfDocument {
    pub key: String,
    pub value: VdfValue,
}

/// The document that `steam_vdf_parser::parse_text` reads from `text`, or
/// `None` where it reports an error.
pub uninterp spec fn parsed_vdf_text(text: Seq<char>) -> Option<VdfDocument>;

/// Calls `steam_vdf_parser::parse_text` and copies the document it returns
/// into a [`VdfDocument`]: strings as strings, objects as their entries in
/// iteration order, the other value kinds as `Other`. The contract names the
/// result; it depends on the text alone.
#[verifier::external_body]
fn parse_text_document(text: &str) -> (res: Result<VdfDocument, steam_vdf_parser::Error>)
    ensures
        res is Ok <==> parsed_vdf_text(text@) is Some,
        res matches Ok(d) ==> parsed_vdf_text(text@) == Some(d),
{
    match steam_vdf_parser::parse_text(text) {
        Ok(vdf) => Ok(VdfDocument { key: vdf.key().to_string(), value: value_tree(vdf.value()) }),
        Err(e) => Err(e),
    }
}

/// Copies a parsed `steam_vdf_parser::Value` into a [`VdfValue`], variant by
/// variant; the copy of a document is what [`parsed_vdf_text`] names.
#[verifier::external_body]
fn value_tree(v: &steam_vdf_parser::Value<'_>) -> VdfValue {
    match v {
        steam_vdf_parser::Value::Str(s) => VdfValue::Str(s.to_string()),
        steam_vdf_parser::Value::Obj(o) => VdfValue::Obj(
            o.iter().map(|(k, v)| (k.to_string(), value_tree(v))).collect(),
        ),
        _ => VdfValue::Other,
    }
}

/// Calls `Display::fmt` of `steam_vdf_parser::Error`: the parser's
/// human-readable description of the error. Nothing is stated of its text.
#[verifier::external_body]
fn vdf_error_message(e: &steam_vdf_parser::Error) -> String {
    e.to_string()
}

/// Parses a text VDF document. On failure the error carries the parser's
/// message.
pub fn parse_vdf(text: &str) -> (res: Result<VdfDocument, String>)
    ensures
        res is Ok <==> parsed_vdf_text(text@) is Some,
        res matches Ok(d) ==> parsed_vdf_text(text@) == Some(d),
{
    match parse_text_document(text) {
        Ok(d) => Ok(d),
        Err(e) => Err(vdf_error_message(&e)),
    }
}

/// The value stored under `key` among `entries`: the first entry with that
/// key (`Obj::get`; the parser keeps keys unique within an object).
pub open spec fn lookup(entries: Seq<(String, VdfValue)>, key: Seq<char>) -> Option<VdfValue>
    decreases entries.len(),
{
    if entries.len() == 0 {
        None
    } else if entries[0].0@ == key {
        Some(entries[0].1)
    } else {
        lookup(entries.drop_first(), key)
    }
}

/// The entries of an object value.
pub open spec fn as_obj(v: VdfValue) -> Option<Seq<(String, VdfValue)>> {
    match v {
        VdfValue::Obj(e) => Some(e@),
        _ => None,
    }
}

/// The text of a string value.
pub open spec fn as_str(v: VdfValue) -> Option<Seq<char>> {
    match v {
        VdfValue::Str(s) => Some(s@),
        _ => None,
    }
}

/// The object under `key`, if that value is an object.
pub open spec fn get_obj(entries: Seq<(String, VdfValue)>, key: Seq<char>) -> Option<
    Seq<(String, VdfValue)>,
> {
    match lookup(entries, key) {
        Some(v) => as_obj(v),
        None => None,
    }
}

/// The string under `key`, if that value is a string.
pub open spec fn get_str(entries: Seq<(String, VdfValue)>, key: Seq<char>) -> Option<Seq<char>> {
    match lookup(entries, key) {
        Some(v) => as_str(v),
        None => None,
    }
}

/// The value stored under `key` among `entries` (`Obj::get`).
pub fn entry<'a>(entries: &'a Vec<(String, VdfValue)>, key: &str) -> (res: Option<&'a VdfValue>)
    ensures
        res matches Some(v) ==> lookup(entries@, key@) == Some(*v),
        res is None ==> lookup(entries@, key@) is None,
{
    let k = chars_of(key);
    let mut i: usize = 0;
    assert(entries@.skip(0) =~= entries@);
    while i < entries.len()
        invariant
            i <= entries@.len(),
            k@ == key@,
            lookup(entries@, key@) == lookup(entries@.skip(i as int), key@),
        decreases entries@.len() - i,
    {
        let name = chars_of(entries[i].0.as_str());
        if crate::text::starts_with(&name, &k) && name.len() == k.len() {
            assert(name@ =~= k@);
            return Some(&entries[i].1);
        }
        assert(entries@.skip(i as int).drop_first() =~= entries@.skip(i + 1));
        proof {
            if name@ == k@ {
                assert(name@.subrange(0, k@.len() as int) =~= name@);
            }
        }
        i = i + 1;
    }
    None
}

/// The entries of `v`, if it is an object (`Value::as_obj`).
pub fn value_obj(v: &VdfValue) -> (res: Option<&Vec<(String, VdfValue)>>)
    ensures
        res matches Some(e) ==> as_obj(*v) == Some(e@),
        res is None ==> as_obj(*v) is None,
{
    match v {
        VdfValue::Obj(e) => Some(e),
        _ => None,
    }
}

/// The text of `v`, if it is a string (`Value::as_str`).
pub fn value_str(v: &VdfValue) -> (res: Option<&String>)
    ensures
        res matches Some(s) ==> as_str(*v) == Some(s@),
        res is None ==> as_str(*v) is None,
{
    match v {
        VdfValue::Str(s) => Some(s),
        _ => None,
    }
}

/// The object stored under `key`, if that value is an object.
pub fn entry_obj<'a>(entries: &'a Vec<(String, VdfValue)>, key: &str) -> (res: Option<
    &'a Vec<(String, VdfValue)>,
>)
    ensures
        res matches Some(e) ==> get_obj(entries@, key@) == Some(e@),
        res is None ==> get_obj(entries@, key@) is None,
{
    match entry(entries, key) {
        Some(v) => value_obj(v),
        None => None,
    }
}

/// The string stored under `key`, if that value is a string.
pub fn entry_str<'a>(entries: &'a Vec<(String, VdfValue)>, key: &str) -> (res: Option<&'a String>)
    ensures
        res matches Some(s) ==> get_str(entries@, key@) == Some(s@),
        res is None ==> get_str(entries@, key@) is None,
{
    match entry(entries, key) {
        Some(v) => value_str(v),
        None => None,
    }
}

} // verus!
