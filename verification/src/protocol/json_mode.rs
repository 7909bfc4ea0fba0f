//! JSON mode: an append of a JSON array stores each element as a message of
//! its own, and a read returns the stored messages wrapped in one array.

use crate::protocol::error::{Error, ErrorView};
use crate::text::append_str;
use serde_json::Value;
use vstd::prelude::*;

verus! {

/// `serde_json::Value`, carried through JSON mode as an opaque value: only
/// the names below say anything of it.
#[verifier::external_type_specification]
#[verifier::external_body]
pub struct ExJsonValue(serde_json::Value);

/// What `serde_json::from_slice::<Value>` makes of `data`: the value, or the
/// text (`Display`) of the error it reports.
pub uninterp spec fn json_parse(data: Seq<u8>) -> Result<Value, Seq<char>>;

/// The bytes that `serde_json::to_vec` writes for `value`.
pub uninterp spec fn json_encode(value: Value) -> Seq<u8>;

/// The elements of `value` when it is a `Value::Array`, else `None`.
pub uninterp spec fn json_array_items(value: Value) -> Option<Seq<Value>>;

/// The value `Value::Array(items)`.
pub uninterp spec fn json_array(items: Seq<Value>) -> Value;

/// Parses `data` as one JSON value (`serde_json::from_slice::<Value>`); an
/// error is handed back as its text.
#[verifier::external_body]
fn parse_json(data: &[u8]) -> (r: Result<Value, String>)
    ensures
        match json_parse(data@) {
            Ok(v) => r == Ok::<Value, String>(v),
            Err(t) => r matches Err(m) && m@ == t,
        },
{
    match serde_json::from_slice::<Value>(data) {
        Ok(v) => Ok(v),
        Err(e) => Err(e.to_string()),
    }
}

/// Serializes a JSON value (`serde_json::to_vec`). A `Value` always
/// serializes: its map keys are strings and the writer is a vector.
#[verifier::external_body]
fn encode_json(value: &Value) -> (r: Vec<u8>)
    ensures
        r@ == json_encode(*value),
{
    serde_json::to_vec(value).expect("a JSON value always serializes")
}

/// Splits off the elements of an array value; any other value comes back
/// unchanged as the error.
#[verifier::external_body]
fn into_array_items(value: Value) -> (r: Result<Vec<Value>, Value>)
    ensures
        match json_array_items(value) {
            Some(items) => r matches Ok(v) && v@ == items,
            None => r == Err::<Vec<Value>, Value>(value),
        },
{
    match value {
        Value::Array(items) => Ok(items),
        other => Err(other),
    }
}

/// Builds the array value `Value::Array(items)`.
#[verifier::external_body]
fn array_value(items: Vec<Value>) -> (r: Value)
    ensures
        r == json_array(items@),
{
    Value::Array(items)
}

/// The bytes of each message.
pub open spec fn message_bytes(messages: Seq<Vec<u8>>) -> Seq<Seq<u8>> {
    messages.map_values(|m: Vec<u8>| m@)
}

/// The messages an append of `data` stores in JSON mode, or why it is refused:
/// invalid JSON and the empty array are refused; an array stores each of its
/// elements, serialized again; any other value is stored as one message.
pub open spec fn append_messages(data: Seq<u8>) -> Result<Seq<Seq<u8>>, ErrorView> {
    match json_parse(data) {
        Err(t) => Err(ErrorView::InvalidJson(t)),
        Ok(v) => match json_array_items(v) {
            Some(items) => if items.len() == 0 {
                Err(ErrorView::InvalidJson("empty arrays are not permitted"@))
            } else {
                Ok(items.map_values(|e: Value| json_encode(e)))
            },
            None => Ok(seq![json_encode(v)]),
        },
    }
}

/// Whether every message parses as JSON.
pub open spec fn all_parse(msgs: Seq<Seq<u8>>) -> bool {
    forall|i: int| 0 <= i < msgs.len() ==> #[trigger] json_parse(msgs[i]) is Ok
}

/// The parsed values of messages that all parse.
pub open spec fn parsed_values(msgs: Seq<Seq<u8>>) -> Seq<Value> {
    msgs.map_values(|m: Seq<u8>| json_parse(m)->Ok_0)
}

/// The body a JSON-mode read returns for the stored messages `msgs`, or why it
/// fails: no messages give `[]`; else the first message that does not parse
/// is reported, and otherwise the parsed values are serialized as one array.
pub open spec fn read_body(msgs: Seq<Seq<u8>>) -> Result<Seq<u8>, ErrorView>
    decreases msgs.len(),
{
    if msgs.len() == 0 {
        Ok(seq![91u8, 93u8])
    } else if all_parse(msgs) {
        Ok(json_encode(json_array(parsed_values(msgs))))
    } else {
        Err(ErrorView::InvalidJson(
            "stored message is not valid JSON: "@ + json_parse(msgs[first_unparsed(msgs)])->Err_0,
        ))
    }
}

/// The index of the first message that does not parse (the length when all do).
pub open spec fn first_unparsed(msgs: Seq<Seq<u8>>) -> int
    decreases msgs.len(),
{
    if msgs.len() == 0 {
        0
    } else if json_parse(msgs[0]) is Err {
        0
    } else {
        1 + first_unparsed(msgs.drop_first())
    }
}

/// Validates and flattens the body of a JSON-mode append.
///
/// A JSON array gives one message per element; any other value gives one
/// message. Invalid JSON and the empty array are refused with `InvalidJson`.
pub fn process_append(data: &[u8]) -> (r: Result<Vec<Vec<u8>>, Error>)
    ensures
        match r {
            Ok(msgs) => append_messages(data@) == Ok::<Seq<Seq<u8>>, ErrorView>(
                message_bytes(msgs@),
            ),
            Err(e) => append_messages(data@) == Err::<Seq<Seq<u8>>, ErrorView>(e@),
        },
{
    let value = match parse_json(data) {
        Ok(v) => v,
        Err(t) => {
            return Err(Error::InvalidJson(t));
        },
    };
    let ghost v0 = value;
    match into_array_items(value) {
        Ok(items) => {
            if items.len() == 0 {
                return Err(Error::InvalidJson("empty arrays are not permitted".to_owned()));
            }
            let mut messages: Vec<Vec<u8>> = Vec::new();
            let mut i: usize = 0;
            while i < items.len()
                invariant
                    i <= items@.len(),
                    messages@.len() == i,
                    forall|j: int|
                        0 <= j < i ==> #[trigger] messages@[j]@ == json_encode(items@[j]),
                decreases items.len() - i,
            {
                messages.push(encode_json(&items[i]));
                i = i + 1;
            }
            assert(message_bytes(messages@) =~= items@.map_values(|e: Value| json_encode(e)));
            Ok(messages)
        },
        Err(v) => {
            let m = encode_json(&v);
            let mut messages: Vec<Vec<u8>> = Vec::new();
            messages.push(m);
            assert(message_bytes(messages@) =~= seq![json_encode(v0)]);
            Ok(messages)
        },
    }
}

/// The first unparsed index is that of a message that does not parse, after
/// messages that all do; it is the length exactly when all parse.
proof fn lemma_first_unparsed(msgs: Seq<Seq<u8>>)
    ensures
        0 <= first_unparsed(msgs) <= msgs.len(),
        forall|j: int| 0 <= j < first_unparsed(msgs) ==> #[trigger] json_parse(msgs[j]) is Ok,
        first_unparsed(msgs) < msgs.len() ==> json_parse(msgs[first_unparsed(msgs)]) is Err,
        all_parse(msgs) <==> first_unparsed(msgs) == msgs.len(),
    decreases msgs.len(),
{
    if msgs.len() > 0 && json_parse(msgs[0]) is Ok {
        let rest = msgs.drop_first();
        lemma_first_unparsed(rest);
        assert forall|j: int| 0 <= j < first_unparsed(msgs) implies #[trigger] json_parse(
            msgs[j],
        ) is Ok by {
            if j > 0 {
                assert(msgs[j] == rest[j - 1]);
            }
        }
        if first_unparsed(msgs) < msgs.len() {
            assert(msgs[first_unparsed(msgs)] == rest[first_unparsed(rest)]);
        }
        if all_parse(rest) {
            assert forall|j: int| 0 <= j < msgs.len() implies #[trigger] json_parse(msgs[j]) is Ok by {
                if j > 0 {
                    assert(msgs[j] == rest[j - 1]);
                }
            }
        }
        if all_parse(msgs) {
            assert forall|j: int| 0 <= j < rest.len() implies #[trigger] json_parse(rest[j]) is Ok by {
                assert(rest[j] == msgs[j + 1]);
            }
        }
    }
}

/// Wraps stored JSON messages in one array for a read.
///
/// No messages give `[]`. A message that does not parse fails the read with
/// `InvalidJson`.
pub fn wrap_read(messages: &[Vec<u8>]) -> (r: Result<Vec<u8>, Error>)
    ensures
        match r {
            Ok(body) => read_body(message_bytes(messages@)) == Ok::<Seq<u8>, ErrorView>(body@),
            Err(e) => read_body(message_bytes(messages@)) == Err::<Seq<u8>, ErrorView>(e@),
        },
{
    let ghost msgs = message_bytes(messages@);
    proof {
        lemma_first_unparsed(msgs);
    }
    if messages.len() == 0 {
        let mut body: Vec<u8> = Vec::new();
        body.push(91u8);
        body.push(93u8);
        assert(body@ =~= seq![91u8, 93u8]);
        return Ok(body);
    }
    let mut values: Vec<Value> = Vec::new();
    let mut i: usize = 0;
    while i < messages.len()
        invariant
            i <= messages@.len(),
            msgs == message_bytes(messages@),
            msgs.len() == messages@.len(),
            values@.len() == i,
            forall|j: int| 0 <= j < i ==> #[trigger] json_parse(msgs[j]) is Ok,
            forall|j: int| 0 <= j < i ==> json_parse(msgs[j]) == Ok::<Value, Seq<char>>(#[trigger] values@[j]),
        decreases messages.len() - i,
    {
        assert(msgs[i as int] == messages@[i as int]@);
        match parse_json(messages[i].as_slice()) {
            Ok(v) => {
                values.push(v);
            },
            Err(t) => {
                proof {
                    lemma_first_unparsed(msgs);
                    if first_unparsed(msgs) < i {
                        assert(json_parse(msgs[first_unparsed(msgs)]) is Ok);
                    }
                    if first_unparsed(msgs) > i {
                        assert(json_parse(msgs[i as int]) is Ok);
                    }
                    assert(first_unparsed(msgs) == i);
                }
                let mut m = "stored message is not valid JSON: ".to_owned();
                append_str(&mut m, t.as_str());
                return Err(Error::InvalidJson(m));
            },
        }
        i = i + 1;
    }
    assert(all_parse(msgs));
    assert(values@ =~= parsed_values(msgs));
    let arr = array_value(values);
    Ok(encode_json(&arr))
}

/// Whether a (normalized) content type selects JSON mode.
pub fn is_json_content_type(content_type: &str) -> (r: bool)
    ensures
        r == (content_type@ == "application/json"@),
{
    crate::text::str_eq(content_type, "application/json")
}

} // verus!
