//! JSON at the edges of the library: string literals on the way out, and the
//! members of received objects on the way in.
use vstd::prelude::*;

use crate::text::{digit_char, views};

verus! {

/// How one character stands inside a JSON string literal.
pub open spec fn json_escape(c: char) -> Seq<char> {
    if c == '"' {
        seq!['\\', '"']
    } else if c == '\\' {
        seq!['\\', '\\']
    } else if c as int == 8 {
        seq!['\\', 'b']
    } else if c == '\t' {
        seq!['\\', 't']
    } else if c == '\n' {
        seq!['\\', 'n']
    } else if c as int == 12 {
        seq!['\\', 'f']
    } else if c == '\r' {
        seq!['\\', 'r']
    } else if (c as int) < 32 {
        seq!['\\', 'u', '0', '0', digit_char(c as int / 16), digit_char(c as int % 16)]
    } else {
        seq![c]
    }
}

/// The JSON string literal of `s`.
pub open spec fn json_string(s: Seq<char>) -> Seq<char> {
    seq!['"'] + s.map_values(|c: char| json_escape(c)).flatten() + seq!['"']
}

/// A string literal stays on one line, whatever the string holds.
pub proof fn law_literal_is_one_line(s: Seq<char>)
    ensures
        !json_string(s).contains('\n'),
{
    lemma_escaped_is_one_line(s);
    let body = s.map_values(|c: char| json_escape(c)).flatten();
    assert forall|i: int| 0 <= i < json_string(s).len() implies json_string(s)[i] != '\n' by {
        if 0 < i < json_string(s).len() - 1 {
            assert(json_string(s)[i] == body[i - 1]);
            assert(body.contains(body[i - 1]));
        }
    }
}

proof fn lemma_escape_is_one_line(c: char)
    ensures
        forall|i: int| 0 <= i < json_escape(c).len() ==> json_escape(c)[i] != '\n',
{
    let u = c as int;
    if 0 <= u < 32 {
        assert(0 <= u / 16 < 16 && 0 <= u % 16 < 16);
        assert(digit_char(u / 16) != '\n' && digit_char(u % 16) != '\n');
    }
}

proof fn lemma_escaped_is_one_line(s: Seq<char>)
    ensures
        !s.map_values(|c: char| json_escape(c)).flatten().contains('\n'),
    decreases s.len(),
{
    let parts = s.map_values(|c: char| json_escape(c));
    if s.len() > 0 {
        lemma_escaped_is_one_line(s.skip(1));
        let rest = s.skip(1).map_values(|c: char| json_escape(c));
        assert(parts.drop_first() =~= rest);
        let head = json_escape(s[0]);
        assert(parts.first() == head);
        assert(parts.flatten() == head + rest.flatten());
        lemma_escape_is_one_line(s[0]);
        assert forall|i: int| 0 <= i < parts.flatten().len() implies parts.flatten()[i] != '\n' by {
            if i >= head.len() {
                assert(rest.flatten().contains(rest.flatten()[i - head.len()]));
            }
        }
    }
}

/// `serde_json::Value::to_string` of a string: the literal in double quotes,
/// with quotes, backslashes and the control characters below U+0020 escaped
/// and every other character as it is.
#[verifier::external_body]
pub(crate) fn quote(s: &str) -> (r: String)
    ensures
        r@ == json_string(s@),
{
    serde_json::Value::String(String::from(s)).to_string()
}

/// The JSON array of string literals.
pub open spec fn json_strings_array(items: Seq<Seq<char>>) -> Seq<char> {
    "["@ + crate::text::joined(items.map_values(|s: Seq<char>| json_string(s)), ","@) + "]"@
}

pub(crate) fn quote_array(items: &Vec<String>) -> (r: String)
    ensures
        r@ == json_strings_array(views(items@)),
{
    let mut parts: Vec<String> = Vec::new();
    let ghost want = views(items@).map_values(|s: Seq<char>| json_string(s));
    let mut i: usize = 0;
    while i < items.len()
        invariant
            i <= items.len(),
            want == views(items@).map_values(|s: Seq<char>| json_string(s)),
            views(parts@) == want.take(i as int),
        decreases items.len() - i,
    {
        let q = quote(items[i].as_str());
        proof {
            assert(views(parts@.push(q)) =~= views(parts@).push(q@));
            assert(want.take(i + 1) =~= want.take(i as int).push(q@));
        }
        parts.push(q);
        i += 1;
    }
    assert(want.take(i as int) =~= want);
    let body = crate::text::join(&parts, ",");
    "[".to_string().concat(body.as_str()).concat("]")
}

/// The JSON literal of a truth value.
pub open spec fn json_bool(b: bool) -> Seq<char> {
    if b {
        "true"@
    } else {
        "false"@
    }
}

pub(crate) fn bool_literal(b: bool) -> (r: String)
    ensures
        r@ == json_bool(b),
{
    if b {
        "true".to_string()
    } else {
        "false".to_string()
    }
}

/// `serde_json::Value`: a parsed JSON document.
#[verifier::external_type_specification]
#[verifier::external_body]
pub struct ExValue(serde_json::Value);

/// `serde_json::Error`: why a text is not JSON.
#[verifier::external_type_specification]
#[verifier::external_body]
pub struct ExJsonError(serde_json::Error);

/// The document that a text holds, or None where the text is not JSON.
pub uninterp spec fn json_document(text: Seq<char>) -> Option<serde_json::Value>;

/// `serde_json::from_str` into a `serde_json::Value`: parses a whole text.
/// Which texts are JSON, and what document each of them holds, is left to
/// that crate: the contract only says that the text decides it.
#[verifier::external_body]
pub(crate) fn parse_json(text: &str) -> (r: Result<serde_json::Value, serde_json::Error>)
    ensures
        match r {
            Ok(v) => json_document(text@) == Some(v),
            Err(_) => json_document(text@) is None,
        },
{
    serde_json::from_str(text)
}

/// The members of an object whose values are strings, and those strings.
/// Empty for a document that is not an object.
pub uninterp spec fn string_members(v: serde_json::Value) -> Map<Seq<char>, Seq<char>>;

/// The members of an object whose values are integers of 64 bits without
/// sign, and those integers.
pub uninterp spec fn unsigned_members(v: serde_json::Value) -> Map<Seq<char>, u64>;

/// The members of an object whose values are integers of 64 bits with sign,
/// and those integers.
pub uninterp spec fn signed_members(v: serde_json::Value) -> Map<Seq<char>, i64>;

/// `serde_json::Value::get` then `as_str`: the string member `key`.
#[verifier::external_body]
pub(crate) fn string_member(v: &serde_json::Value, key: &str) -> (r: Option<String>)
    ensures
        match r {
            Some(s) => string_members(*v).contains_key(key@) && s@ == string_members(*v)[key@],
            None => !string_members(*v).contains_key(key@),
        },
{
    v.get(key).and_then(|x| x.as_str()).map(String::from)
}

/// `serde_json::Value::get` then `as_u64`: the unsigned integer member `key`.
#[verifier::external_body]
pub(crate) fn unsigned_member(v: &serde_json::Value, key: &str) -> (r: Option<u64>)
    ensures
        r == unsigned_members(*v).get(key@),
{
    v.get(key).and_then(|x| x.as_u64())
}

/// `serde_json::Value::get` then `as_i64`: the signed integer member `key`.
#[verifier::external_body]
pub(crate) fn signed_member(v: &serde_json::Value, key: &str) -> (r: Option<i64>)
    ensures
        r == signed_members(*v).get(key@),
{
    v.get(key).and_then(|x| x.as_i64())
}

/// The elements of a document that is an array; none of any other document.
pub uninterp spec fn json_items(v: serde_json::Value) -> Seq<serde_json::Value>;

/// `serde_json::Value::as_array`: a copy of the elements, none where the
/// document is no array.
#[verifier::external_body]
pub(crate) fn array_items(v: &serde_json::Value) -> (r: Vec<serde_json::Value>)
    ensures
        r@ == json_items(*v),
{
    v.as_array().cloned().unwrap_or_default()
}

/// A document laid out over several lines.
pub uninterp spec fn json_pretty(v: serde_json::Value) -> Option<Seq<char>>;

/// `serde_json::to_string_pretty` of a document: the layout, and that there is
/// one, is left to that crate; the document alone decides it.
#[verifier::external_body]
pub(crate) fn pretty(v: &serde_json::Value) -> (r: Result<String, serde_json::Error>)
    ensures
        match r {
            Ok(t) => json_pretty(*v) == Some(t@),
            Err(_) => json_pretty(*v) is None,
        },
{
    serde_json::to_string_pretty(v)
}

} // verus!
