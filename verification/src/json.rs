//! The JSON documents inside task rows: lists of task ids, and metadata.
use crate::text::texts;
use vstd::prelude::*;

verus! {

/// `serde_json::Error`, carried as it came.
#[verifier::external_type_specification]
#[verifier::external_body]
pub struct ExJsonError(serde_json::Error);

/// `serde_json::Value`. What its members say is `members`.
#[verifier::external_type_specification]
#[verifier::external_body]
pub struct ExJsonValue(serde_json::Value);

/// What a member of a JSON object says.
pub enum Member {
    /// A string.
    Text(Seq<char>),
    /// A whole number from 0 to `u64::MAX`.
    Count(u64),
    /// Anything else.
    Other,
}

/// What a value says: its members, whether it takes any, and its text.
pub struct JsonView {
    pub members: Map<Seq<char>, Member>,
    pub takes_members: bool,
    pub text: Seq<char>,
}

pub open spec fn json_view(v: serde_json::Value) -> JsonView {
    JsonView { members: members(v), takes_members: takes_members(v), text: value_json(v) }
}

pub open spec fn no_members() -> Map<Seq<char>, Member> {
    Map::empty()
}

/// The value is an object or null, and its members are strings and whole
/// numbers only.
pub open spec fn flat(v: serde_json::Value) -> bool {
    takes_members(v) && forall|k: Seq<char>| #[trigger]
        members(v).dom().contains(k) ==> !(members(v)[k] is Other)
}

/// The list of strings that `serde_json::from_str::<Vec<String>>` reads from a
/// text; `None` where it reads none.
pub uninterp spec fn json_ids(text: Seq<char>) -> Option<Seq<Seq<char>>>;

/// The text that `serde_json::to_string` writes for a list of strings.
pub uninterp spec fn ids_json(ids: Seq<Seq<char>>) -> Seq<char>;

/// The members of the object that a value is; a value that is no object has
/// none.
pub uninterp spec fn members(v: serde_json::Value) -> Map<Seq<char>, Member>;

/// The value is an object, or null, to which members can be given.
pub uninterp spec fn takes_members(v: serde_json::Value) -> bool;

/// What the value says that `serde_json::from_str::<Value>` reads from a text;
/// `None` where it reads none.
pub uninterp spec fn json_value(text: Seq<char>) -> Option<JsonView>;

/// The text that `serde_json::to_string` writes for a value.
pub uninterp spec fn value_json(v: serde_json::Value) -> Seq<char>;

/// Wraps `serde_json::from_str::<Vec<String>>`. What it reads is named
/// `json_ids`. The array without elements reads as the empty list.
#[verifier::external_body]
pub(crate) fn parse_ids(text: &str) -> (r: Result<Vec<String>, serde_json::Error>)
    ensures
        match r {
            Ok(ids) => json_ids(text@) == Some(texts(ids@)),
            Err(_) => json_ids(text@) is None,
        },
        text@ == "[]"@ ==> r is Ok && r->Ok_0@.len() == 0,
{
    serde_json::from_str::<Vec<String>>(text)
}

/// Wraps `serde_json::to_string` on a list of strings. Serialising strings
/// never fails; what it writes is named `ids_json`, and reads back as the same
/// list.
#[verifier::external_body]
pub(crate) fn write_ids(ids: &[String]) -> (r: Result<String, serde_json::Error>)
    ensures
        r is Ok,
        r->Ok_0@ == ids_json(texts(ids@)),
        json_ids(r->Ok_0@) == Some(texts(ids@)),
{
    serde_json::to_string(ids)
}

/// Wraps `serde_json::from_str::<Value>`. What the value says that it reads is
/// named `json_value`.
#[verifier::external_body]
pub(crate) fn parse_value(text: &str) -> (r: Result<serde_json::Value, serde_json::Error>)
    ensures
        match r {
            Ok(v) => json_value(text@) == Some(json_view(v)),
            Err(_) => json_value(text@) is None,
        },
{
    serde_json::from_str::<serde_json::Value>(text)
}

/// Wraps `serde_json::to_string` on a value, which never fails; what it writes
/// is named `value_json`. Null, and an object that holds only strings and whole
/// numbers, read back as they were; of deeper values nothing is said, for
/// reading stops at a nesting depth that writing does not have.
#[verifier::external_body]
pub(crate) fn write_value(v: &serde_json::Value) -> (r: Result<String, serde_json::Error>)
    ensures
        r is Ok,
        r->Ok_0@ == value_json(*v),
        flat(*v) ==> json_value(r->Ok_0@) == Some(json_view(*v)),
{
    serde_json::to_string(v)
}

/// Wraps `serde_json::Value::Object` on an empty `serde_json::Map`: an object
/// without members.
#[verifier::external_body]
pub(crate) fn empty_object() -> (r: serde_json::Value)
    ensures
        takes_members(r),
        members(r) == no_members(),
{
    serde_json::Value::Object(serde_json::Map::new())
}

/// Wraps the variants of `serde_json::Value`: whether it is one of the two,
/// object and null, to which a member can be given by index.
#[verifier::external_body]
pub(crate) fn can_take_members(v: &serde_json::Value) -> (r: bool)
    ensures
        r == takes_members(*v),
{
    match v {
        serde_json::Value::Object(_) => true,
        serde_json::Value::Null => true,
        _ => false,
    }
}

/// Wraps `serde_json::Value::get` and `as_str`: the string under a key; `None`
/// where the value is no object, has no such member, or the member is no
/// string.
#[verifier::external_body]
pub(crate) fn member_text(v: &serde_json::Value, key: &str) -> (r: Option<String>)
    ensures
        match r {
            Some(t) => members(*v).dom().contains(key@) && members(*v)[key@] == Member::Text(t@),
            None => members(*v).dom().contains(key@) ==> !(members(*v)[key@] is Text),
        },
{
    v.get(key).and_then(serde_json::Value::as_str).map(str::to_owned)
}

/// Wraps `serde_json::Value::get` and `as_u64`: the whole number under a key;
/// `None` where the value is no object, has no such member, or the member is
/// no number from 0 to `u64::MAX`.
#[verifier::external_body]
pub(crate) fn member_count(v: &serde_json::Value, key: &str) -> (r: Option<u64>)
    ensures
        match r {
            Some(n) => members(*v).dom().contains(key@) && members(*v)[key@] == Member::Count(n),
            None => members(*v).dom().contains(key@) ==> !(members(*v)[key@] is Count),
        },
{
    v.get(key).and_then(serde_json::Value::as_u64)
}

/// Wraps `IndexMut` of `serde_json::Value` by a string: sets a member to a
/// string. Indexing panics on a value that is neither an object nor null.
#[verifier::external_body]
pub(crate) fn set_text(v: &mut serde_json::Value, key: &str, text: &str)
    requires
        takes_members(*old(v)),
    ensures
        takes_members(*final(v)),
        members(*final(v)) == members(*old(v)).insert(key@, Member::Text(text@)),
{
    v[key] = serde_json::Value::String(text.to_owned());
}

/// Wraps `IndexMut` of `serde_json::Value` by a string: sets a member to a
/// whole number. Indexing panics on a value that is neither an object nor null.
#[verifier::external_body]
pub(crate) fn set_count(v: &mut serde_json::Value, key: &str, n: u64)
    requires
        takes_members(*old(v)),
    ensures
        takes_members(*final(v)),
        members(*final(v)) == members(*old(v)).insert(key@, Member::Count(n)),
{
    v[key] = serde_json::Value::from(n);
}

} // verus!
