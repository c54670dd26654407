//! Reading JSON text, by way of `serde_json`.
use vstd::prelude::*;
use crate::json::{Json, JsonNumber};
use crate::json::{
    json_views, lemma_json_views_push, lemma_member_views_push, member_views, JsonView, Members,
};

verus! {

/// `serde_json::Value`, a parsed value. What it holds is named by
/// [`value_json`].
#[verifier::external_type_specification]
#[verifier::external_body]
pub struct ExValue(serde_json::Value);

/// What a parsed value holds.
pub uninterp spec fn value_json(v: serde_json::Value) -> JsonView;

/// What `serde_json::from_str` reads from a text: `None` where the text is not
/// one JSON value.
pub uninterp spec fn text_json(s: Seq<char>) -> Option<JsonView>;

/// What `serde_json::from_slice` reads from bytes: `None` where they are not
/// one JSON value.
pub uninterp spec fn bytes_json(s: Seq<u8>) -> Option<JsonView>;

/// The outermost layer of a parsed value.
pub enum Layer {
    Null,
    Bool(bool),
    Number(JsonNumber),
    Str(String),
    Array(Vec<serde_json::Value>),
    Object(Vec<(String, serde_json::Value)>),
}

/// What the elements of a parsed array hold.
pub open spec fn value_jsons(s: Seq<serde_json::Value>) -> Seq<JsonView> {
    s.map_values(|v: serde_json::Value| value_json(v))
}

/// What the members of a parsed object hold.
pub open spec fn value_members(s: Seq<(String, serde_json::Value)>) -> Members {
    s.map_values(|m: (String, serde_json::Value)| (m.0@, value_json(m.1)))
}

/// What a layer holds.
pub open spec fn layer_json(l: Layer) -> JsonView {
    match l {
        Layer::Null => JsonView::Null,
        Layer::Bool(b) => JsonView::Bool(b),
        Layer::Number(n) => JsonView::Number(n@),
        Layer::Str(s) => JsonView::Str(s@),
        Layer::Array(a) => JsonView::Array(value_jsons(a@)),
        Layer::Object(o) => JsonView::Object(value_members(o@)),
    }
}

/// `serde_json::from_str`, into a `Value`. Claimed: whether it succeeds, and
/// what the value holds, depends on the text alone and has the name
/// [`text_json`].
#[verifier::external_body]
fn parse_str(text: &str) -> (r: Option<serde_json::Value>)
    ensures
        match r {
            Some(v) => text_json(text@) == Some(value_json(v)),
            None => text_json(text@) is None,
        },
{
    serde_json::from_str(text).ok()
}

/// `serde_json::from_slice`, into a `Value`. Claimed: whether it succeeds, and
/// what the value holds, depends on the bytes alone and has the name
/// [`bytes_json`].
#[verifier::external_body]
fn parse_slice(bytes: &[u8]) -> (r: Option<serde_json::Value>)
    ensures
        match r {
            Some(v) => bytes_json(bytes@) == Some(value_json(v)),
            None => bytes_json(bytes@) is None,
        },
{
    serde_json::from_slice(bytes).ok()
}

/// The variants of `serde_json::Value`, told apart. Claimed: the layer holds
/// what the value holds. A number is an unsigned integer, a negative one, or
/// else a fraction, which is kept in `serde_json`'s own notation.
#[verifier::external_body]
fn open_value(v: serde_json::Value) -> (l: Layer)
    ensures
        layer_json(l) == value_json(v),
{
    match v {
        serde_json::Value::Null => Layer::Null,
        serde_json::Value::Bool(b) => Layer::Bool(b),
        serde_json::Value::Number(n) => Layer::Number(match (n.as_u64(), n.as_i64()) {
            (Some(u), _) => JsonNumber::Unsigned(u),
            (None, Some(i)) => JsonNumber::Negative(i),
            (None, None) => JsonNumber::Other(n.to_string()),
        }),
        serde_json::Value::String(s) => Layer::Str(s),
        serde_json::Value::Array(a) => Layer::Array(a),
        serde_json::Value::Object(m) => Layer::Object(m.into_iter().collect()),
    }
}

/// A parsed value as a [`Json`].
pub fn json_of_value(v: serde_json::Value) -> (r: Json)
    ensures
        r@ == value_json(v),
    decreases value_json(v),
{
    let ghost whole = value_json(v);
    let l = open_value(v);
    match l {
        Layer::Null => Json::Null,
        Layer::Bool(b) => Json::Bool(b),
        Layer::Number(n) => Json::Number(n),
        Layer::Str(s) => Json::Str(s),
        Layer::Array(a) => {
            let ghost all = value_jsons(a@);
            let mut rest = a;
            let mut r: Vec<Json> = Vec::new();
            let ghost mut n: int = 0;
            assert(value_jsons(rest@) =~= all.skip(0));
            assert(json_views(r@) =~= all.take(0));
            while rest.len() > 0
                invariant
                    0 <= n <= all.len(),
                    whole == JsonView::Array(all),
                    whole == value_json(v),
                    value_jsons(rest@) == all.skip(n),
                    json_views(r@) == all.take(n),
                decreases rest@.len(),
            {
                let ghost before = rest@;
                let x = rest.remove(0);
                proof {
                    assert(value_jsons(before).len() == before.len());
                    assert(value_jsons(before)[0] == all[n]);
                    assert(value_jsons(rest@) =~= value_jsons(before).skip(1));
                    assert(value_json(x) == all[n]);
                    assert(decreases_to!(whole => whole->Array_0));
                    assert(decreases_to!(whole->Array_0 => all[n]));
                }
                let y = json_of_value(x);
                let ghost done = r@;
                r.push(y);
                proof {
                    lemma_json_views_push(done, y);
                    assert(value_jsons(rest@) =~= all.skip(n + 1));
                    assert(json_views(r@) =~= all.take(n + 1));
                    n = n + 1;
                }
            }
            assert(all.take(n) =~= all);
            Json::Array(r)
        },
        Layer::Object(o) => {
            let ghost all = value_members(o@);
            let mut rest = o;
            let mut r: Vec<(String, Json)> = Vec::new();
            let ghost mut n: int = 0;
            assert(value_members(rest@) =~= all.skip(0));
            assert(member_views(r@) =~= all.take(0));
            while rest.len() > 0
                invariant
                    0 <= n <= all.len(),
                    whole == JsonView::Object(all),
                    whole == value_json(v),
                    value_members(rest@) == all.skip(n),
                    member_views(r@) == all.take(n),
                decreases rest@.len(),
            {
                let ghost before = rest@;
                let (k, x) = rest.remove(0);
                proof {
                    assert(value_members(before).len() == before.len());
                    assert(value_members(before)[0] == all[n]);
                    assert(value_members(rest@) =~= value_members(before).skip(1));
                    assert(value_json(x) == all[n].1);
                    assert(decreases_to!(whole => whole->Object_0));
                    assert(decreases_to!(whole->Object_0 => all[n]));
                    assert(decreases_to!(all[n] => all[n].1));
                }
                let y = json_of_value(x);
                let ghost done = r@;
                r.push((k, y));
                proof {
                    lemma_member_views_push(done, r@.last());
                    assert(r@ =~= done.push(r@.last()));
                    assert(value_members(rest@) =~= all.skip(n + 1));
                    assert(member_views(r@) =~= all.take(n + 1));
                    n = n + 1;
                }
            }
            assert(all.take(n) =~= all);
            Json::Object(r)
        },
    }
}

/// Reads a text as JSON.
pub fn parse_json(text: &str) -> (r: Option<Json>)
    ensures
        match r {
            Some(j) => text_json(text@) == Some(j@),
            None => text_json(text@) is None,
        },
{
    match parse_str(text) {
        Some(v) => Some(json_of_value(v)),
        None => None,
    }
}

/// Reads bytes as JSON.
pub fn parse_json_bytes(bytes: &[u8]) -> (r: Option<Json>)
    ensures
        match r {
            Some(j) => bytes_json(bytes@) == Some(j@),
            None => bytes_json(bytes@) is None,
        },
{
    match parse_slice(bytes) {
        Some(v) => Some(json_of_value(v)),
        None => None,
    }
}

} // verus!
