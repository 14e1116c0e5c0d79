//! The JSON frame both sides of the chat exchange over the websocket:
//! `{"messageType":..,"dataArray":..,"data":..}`, with the fields in that order,
//! as `serde_json` writes a struct with those three fields.

use vstd::prelude::*;
use vstd::string::*;
use crate::text::{quoted, push_quoted};

verus! {

/// The strings of a vector, by their text.
pub open spec fn texts(v: Seq<String>) -> Seq<Seq<char>> {
    v.map_values(|s: String| s@)
}

/// The JSON string literals of `items`, separated by commas.
pub open spec fn quoted_list(items: Seq<Seq<char>>) -> Seq<char>
    decreases items.len(),
{
    if items.len() == 0 {
        seq![]
    } else if items.len() == 1 {
        quoted(items[0])
    } else {
        quoted_list(items.drop_last()) + seq![','] + quoted(items.last())
    }
}

/// A JSON array of strings.
pub open spec fn json_array(items: Seq<Seq<char>>) -> Seq<char> {
    seq!['['] + quoted_list(items) + seq![']']
}

/// An optional array of strings: the array, or `null`.
pub open spec fn json_opt_array(items: Option<Seq<Seq<char>>>) -> Seq<char> {
    match items {
        Some(a) => json_array(a),
        None => "null"@,
    }
}

/// An optional string: its literal, or `null`.
pub open spec fn json_opt_string(s: Option<Seq<char>>) -> Seq<char> {
    match s {
        Some(t) => quoted(t),
        None => "null"@,
    }
}

/// The frame with the given message type, optional string array and optional string.
pub open spec fn socket_message(
    message_type: Seq<char>,
    data_array: Option<Seq<Seq<char>>>,
    data: Option<Seq<char>>,
) -> Seq<char> {
    "{\"messageType\":"@ + quoted(message_type) + ",\"dataArray\":"@ + json_opt_array(data_array)
        + ",\"data\":"@ + json_opt_string(data) + "}"@
}

/// Appends a JSON array of the strings in `items` to `out`.
pub fn push_string_array(out: &mut String, items: &Vec<String>)
    ensures
        final(out)@ == old(out)@ + json_array(texts(items@)),
{
    proof {
        reveal_strlit("[");
        reveal_strlit("]");
        reveal_strlit(",");
    }
    let ghost all = texts(items@);
    out.append("[");
    let ghost start = out@;
    let n = items.len();
    let mut i: usize = 0;
    while i < n
        invariant
            n == items@.len(),
            all == texts(items@),
            i <= n,
            out@ == start + quoted_list(all.take(i as int)),
        decreases n - i,
    {
        let ghost prev = out@;
        if i > 0 {
            out.append(",");
        }
        push_quoted(out, items[i].as_str());
        proof {
            reveal_strlit(",");
            let t = all.take(i + 1);
            assert(t.drop_last() =~= all.take(i as int));
            assert(t.last() == items@[i as int]@);
            if i == 0 {
                assert(t.len() == 1);
                assert(all.take(0) =~= Seq::<Seq<char>>::empty());
                assert(quoted_list(t) == quoted(t[0]));
                assert(out@ =~= start + quoted_list(t));
            } else {
                assert(quoted_list(t) == quoted_list(t.drop_last()) + seq![','] + quoted(t.last()));
                assert(out@ =~= prev + seq![','] + quoted(t.last()));
                assert(out@ =~= start + quoted_list(t));
            }
        }
        i = i + 1;
    }
    assert(all.take(n as int) =~= all);
    out.append("]");
}

/// Serialises a frame: what `serde_json::to_string` writes for a struct with the
/// fields `message_type`, `data_array` and `data` renamed to camel case.
pub fn serialize_socket_message(
    message_type: &str,
    data_array: Option<&Vec<String>>,
    data: Option<&str>,
) -> (r: String)
    ensures
        r@ == socket_message(
            message_type@,
            match data_array {
                Some(a) => Some(texts(a@)),
                None => None,
            },
            match data {
                Some(d) => Some(d@),
                None => None,
            },
        ),
{
    let mut out = String::new();
    out.append("{\"messageType\":");
    push_quoted(&mut out, message_type);
    out.append(",\"dataArray\":");
    match data_array {
        Some(a) => push_string_array(&mut out, a),
        None => out.append("null"),
    }
    out.append(",\"data\":");
    match data {
        Some(d) => push_quoted(&mut out, d),
        None => out.append("null"),
    }
    out.append("}");
    out
}

} // verus!
