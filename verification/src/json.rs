//! The body of a response, read as JSON.
//!
//! Parsing and the look at a value's members are `serde_json`'s. This module
//! names what those calls return and reads, from a parsed document, the four
//! members that a verification looks at.

use serde_json::Value;
use vstd::prelude::*;

verus! {

/// `serde_json::Value`, a parsed JSON document. Nothing of its inside is
/// known here but what the names below say.
#[verifier::external_type_specification]
#[verifier::external_body]
pub struct ExValue(serde_json::Value);

/// `serde_json::Error`, why a body is no JSON. It is never looked into.
#[verifier::external_type_specification]
#[verifier::external_body]
pub struct ExJsonError(serde_json::Error);

/// The document that `serde_json::from_slice` reads from `body`; `None` where
/// it reports an error.
pub uninterp spec fn json_document(body: Seq<u8>) -> Option<Value>;

/// The member that `Value::get` finds in `doc` under the string `key`; `None`
/// where `doc` is no object or has no such member.
pub uninterp spec fn json_member(doc: Value, key: Seq<char>) -> Option<Value>;

/// What `Value::as_bool` returns for `value`: the boolean that it is, if it is
/// one.
pub uninterp spec fn json_bool(value: Value) -> Option<bool>;

/// What `Value::as_str` returns for `value`: the string that it is, if it is
/// one.
pub uninterp spec fn json_text(value: Value) -> Option<Seq<char>>;

/// `serde_json::from_slice`, read as a `Value`. The contract gives the result
/// its name: the same bytes always parse to the same document, or always fail.
#[verifier::external_body]
fn parse_document(body: &[u8]) -> (parsed: Result<Value, serde_json::Error>)
    ensures
        parsed matches Ok(doc) ==> json_document(body@) == Some(doc),
        parsed is Err ==> json_document(body@) is None,
{
    serde_json::from_slice::<Value>(body)
}

/// `Value::get` with a string key. The contract gives the result its name.
#[verifier::external_body]
fn member_of<'a>(doc: &'a Value, key: &str) -> (found: Option<&'a Value>)
    ensures
        found matches Some(m) ==> json_member(*doc, key@) == Some(*m),
        found is None ==> json_member(*doc, key@) is None,
{
    doc.get(key)
}

/// `Value::as_bool`. The contract gives the result its name.
#[verifier::external_body]
fn bool_of(value: &Value) -> (b: Option<bool>)
    ensures
        b == json_bool(*value),
{
    value.as_bool()
}

/// `Value::as_str`. The contract gives the result its name.
#[verifier::external_body]
fn text_of<'a>(value: &'a Value) -> (t: Option<&'a str>)
    ensures
        t matches Some(s) ==> json_text(*value) == Some(s@),
        t is None ==> json_text(*value) is None,
{
    value.as_str()
}

/// What a verification reads from a response body.
pub struct Answer {
    /// The body has a member `error`, whatever its value.
    pub error: bool,
    /// The member `valid`, where it is a boolean.
    pub valid: Option<bool>,
    /// The member `result`, where it is a string.
    pub result: Option<String>,
    /// The member `signedChallenge`, where it is a string.
    pub signed_challenge: Option<String>,
}

/// An `Answer` with its texts as sequences of characters.
pub struct AnswerView {
    pub error: bool,
    pub valid: Option<bool>,
    pub result: Option<Seq<char>>,
    pub signed_challenge: Option<Seq<char>>,
}

impl View for Answer {
    type V = AnswerView;

    open spec fn view(&self) -> AnswerView {
        AnswerView {
            error: self.error,
            valid: self.valid,
            result: match self.result {
                Some(t) => Some(t@),
                None => None,
            },
            signed_challenge: match self.signed_challenge {
                Some(t) => Some(t@),
                None => None,
            },
        }
    }
}

/// The boolean member `key` of `doc`, if it has one.
pub open spec fn bool_member(doc: Value, key: Seq<char>) -> Option<bool> {
    match json_member(doc, key) {
        Some(m) => json_bool(m),
        None => None,
    }
}

/// The string member `key` of `doc`, if it has one.
pub open spec fn text_member(doc: Value, key: Seq<char>) -> Option<Seq<char>> {
    match json_member(doc, key) {
        Some(m) => json_text(m),
        None => None,
    }
}

/// What a verification reads from the document `doc`.
pub open spec fn answer_of(doc: Value) -> AnswerView {
    AnswerView {
        error: json_member(doc, "error"@) is Some,
        valid: bool_member(doc, "valid"@),
        result: text_member(doc, "result"@),
        signed_challenge: text_member(doc, "signedChallenge"@),
    }
}

/// What a verification reads from the bytes `body`; `None` where they are no
/// JSON.
pub open spec fn answer_in(body: Seq<u8>) -> Option<AnswerView> {
    match json_document(body) {
        Some(doc) => Some(answer_of(doc)),
        None => None,
    }
}

/// The string member `key` of `doc`, copied out.
fn read_text(doc: &Value, key: &str) -> (t: Option<String>)
    ensures
        t matches Some(s) ==> text_member(*doc, key@) == Some(s@),
        t is None ==> text_member(*doc, key@) is None,
{
    match member_of(doc, key) {
        Some(m) => match text_of(m) {
            Some(s) => Some(s.to_owned()),
            None => None,
        },
        None => None,
    }
}

/// The boolean member `key` of `doc`.
fn read_bool(doc: &Value, key: &str) -> (b: Option<bool>)
    ensures
        b == bool_member(*doc, key@),
{
    match member_of(doc, key) {
        Some(m) => bool_of(m),
        None => None,
    }
}

impl Answer {
    /// Reads a response body. `None` where the body is no JSON.
    pub fn parse(body: &[u8]) -> (answer: Option<Answer>)
        ensures
            answer matches Some(a) ==> answer_in(body@) == Some(a@),
            answer is None ==> answer_in(body@) is None,
    {
        match parse_document(body) {
            Ok(doc) => {
                let error = member_of(&doc, "error").is_some();
                let valid = read_bool(&doc, "valid");
                let result = read_text(&doc, "result");
                let signed_challenge = read_text(&doc, "signedChallenge");
                Some(Answer { error, valid, result, signed_challenge })
            },
            Err(_) => None,
        }
    }
}

} // verus!
