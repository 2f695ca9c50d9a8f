//! The `entities/versions` request: which pointers a client asks about.
use vstd::prelude::*;
use crate::text::views;

verus! {

#[verifier::external_type_specification]
#[verifier::external_body]
pub struct ExJsonValue(serde_json::Value);

/// Name for what `serde_json::from_slice::<serde_json::Value>` gives for the
/// bytes: the parsed document, or none where the bytes are no JSON document.
pub uninterp spec fn json_parse(bytes: Seq<u8>) -> Option<serde_json::Value>;

/// Name for what `serde_json::Value::get` gives for a string key: the field of
/// an object, none for a missing field or a value that is no object.
pub uninterp spec fn json_get(v: serde_json::Value, key: Seq<char>) -> Option<serde_json::Value>;

/// Name for what `serde_json::Value::as_array` gives: the elements of an
/// array value, none for any other value.
pub uninterp spec fn json_as_array(v: serde_json::Value) -> Option<Seq<serde_json::Value>>;

/// Name for what `serde_json::Value::as_str` gives: the text of a string
/// value, none for any other value.
pub uninterp spec fn json_as_str(v: serde_json::Value) -> Option<Seq<char>>;

/// Calls `serde_json::from_slice::<serde_json::Value>`; the result is what
/// `json_parse` names for the bytes (a pure function of them).
#[verifier::external_body]
fn parse_json(bytes: &[u8]) -> (v: Option<serde_json::Value>)
    ensures
        v == json_parse(bytes@),
{
    serde_json::from_slice::<serde_json::Value>(bytes).ok()
}

/// Calls `serde_json::Value::get` with a string key; the result is what
/// `json_get` names for the value and the key.
#[verifier::external_body]
fn json_field<'a>(v: &'a serde_json::Value, key: &str) -> (r: Option<&'a serde_json::Value>)
    ensures
        match r {
            Some(x) => json_get(*v, key@) == Some(*x),
            None => json_get(*v, key@) is None,
        },
{
    v.get(key)
}

/// Calls `serde_json::Value::as_array`; the elements are what `json_as_array`
/// names for the value.
#[verifier::external_body]
fn json_array(v: &serde_json::Value) -> (r: Option<&Vec<serde_json::Value>>)
    ensures
        match r {
            Some(a) => json_as_array(*v) == Some(a@),
            None => json_as_array(*v) is None,
        },
{
    v.as_array()
}

/// Calls `serde_json::Value::as_str`; the text is what `json_as_str` names for
/// the value.
#[verifier::external_body]
fn json_string(v: &serde_json::Value) -> (r: Option<String>)
    ensures
        match r {
            Some(s) => json_as_str(*v) == Some(s@),
            None => json_as_str(*v) is None,
        },
{
    v.as_str().map(String::from)
}

/// The texts present in `items`, in order.
pub open spec fn present(items: Seq<Option<Seq<char>>>) -> Seq<Seq<char>>
    decreases items.len(),
{
    if items.len() == 0 {
        seq![]
    } else {
        match items.last() {
            Some(t) => present(items.drop_last()).push(t),
            None => present(items.drop_last()),
        }
    }
}

/// The text views of optional strings.
pub open spec fn option_views(items: Seq<Option<String>>) -> Seq<Option<Seq<char>>> {
    items.map_values(|o: Option<String>| match o {
        Some(s) => Some(s@),
        None => None,
    })
}

/// The strings that `items` holds, in order (the entries that were no
/// strings dropped).
pub fn present_strings(items: Vec<Option<String>>) -> (out: Vec<String>)
    ensures
        views(out@) == present(option_views(items@)),
{
    let mut out: Vec<String> = Vec::new();
    let mut i: usize = 0;
    let ghost all = option_views(items@);
    while i < items.len()
        invariant
            i <= items@.len(),
            all == option_views(items@),
            views(out@) == present(all.take(i as int)),
        decreases items@.len() - i,
    {
        proof {
            assert(all.take(i + 1).drop_last() =~= all.take(i as int));
        }
        let ghost before = views(out@);
        match &items[i] {
            Some(s) => {
                out.push(s.clone());
                assert(views(out@) =~= before.push(items@[i as int]->Some_0@));
            },
            None => {},
        }
        i = i + 1;
    }
    assert(all.take(items@.len() as int) =~= all);
    out
}

/// The string entries of the `pointers` array of a JSON body, in order;
/// empty when the body is no JSON, has no `pointers` field or that field is
/// no array.
pub open spec fn pointers_of(body: Seq<u8>) -> Seq<Seq<char>> {
    match json_parse(body) {
        Some(v) => match json_get(v, "pointers"@) {
            Some(f) => match json_as_array(f) {
                Some(a) => present(a.map_values(|x: serde_json::Value| json_as_str(x))),
                None => seq![],
            },
            None => seq![],
        },
        None => seq![],
    }
}

/// The `pointers` array of a versions request body: its string entries in
/// order; none when the body is no JSON, has no `pointers` field or that
/// field is no array.
pub fn requested_pointers(body: &[u8]) -> (pointers: Vec<String>)
    ensures
        views(pointers@) == pointers_of(body@),
{
    let v = match parse_json(body) {
        Some(v) => v,
        None => return Vec::new(),
    };
    let field = match json_field(&v, "pointers") {
        Some(f) => f,
        None => return Vec::new(),
    };
    let entries = match json_array(field) {
        Some(a) => a,
        None => return Vec::new(),
    };
    let mut items: Vec<Option<String>> = Vec::new();
    let mut i: usize = 0;
    while i < entries.len()
        invariant
            i <= entries@.len(),
            option_views(items@) =~= entries@.take(i as int).map_values(
                |x: serde_json::Value| json_as_str(x),
            ),
        decreases entries@.len() - i,
    {
        let s = json_string(&entries[i]);
        let ghost before = items@;
        items.push(s);
        proof {
            let f = |x: serde_json::Value| json_as_str(x);
            assert(entries@.take(i + 1) =~= entries@.take(i as int).push(entries@[i as int]));
            assert(items@ =~= before.push(s));
            assert(option_views(items@) =~= option_views(before).push(f(entries@[i as int])));
            assert(entries@.take(i + 1).map_values(f) =~= entries@.take(i as int).map_values(
                f,
            ).push(f(entries@[i as int])));
        }
        i = i + 1;
    }
    proof {
        assert(entries@.take(entries@.len() as int) =~= entries@);
    }
    present_strings(items)
}

} // verus!
