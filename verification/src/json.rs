//! A structured payload value as the catalog API returns it: the shape of a
//! JSON document, with numbers carried as their decimal rendering so that
//! identifiers arriving as numeric literals keep their exact digits.
use vstd::prelude::*;

use crate::text::str_eq;

verus! {

/// One structured payload value. `Num` holds the decimal rendering of the
/// number exactly as it appears in the document; `Obj` keeps its entries in
/// document order.
pub enum JsonValue {
    Null,
    Bool(bool),
    Num(String),
    Str(String),
    Arr(Vec<JsonValue>),
    Obj(Vec<(String, JsonValue)>),
}

/// The first entry of `entries` whose key reads `key`, if any.
pub open spec fn spec_obj_get(entries: Seq<(String, JsonValue)>, key: Seq<char>) -> Option<
    JsonValue,
>
    decreases entries.len(),
{
    if entries.len() == 0 {
        None
    } else if entries[0].0@ == key {
        Some(entries[0].1)
    } else {
        spec_obj_get(entries.drop_first(), key)
    }
}

/// Looks a field up in an object's entry list; first match wins.
pub fn obj_get<'a>(entries: &'a Vec<(String, JsonValue)>, key: &str) -> (r: Option<&'a JsonValue>)
    ensures
        match r {
            Some(v) => spec_obj_get(entries@, key@) == Some(*v),
            None => spec_obj_get(entries@, key@) is None,
        },
{
    let n = entries.len();
    let mut i: usize = 0;
    assert(entries@.skip(0) =~= entries@);
    while i < n
        invariant
            i <= n,
            n == entries@.len(),
            spec_obj_get(entries@.skip(i as int), key@) == spec_obj_get(entries@, key@),
        decreases n - i,
    {
        assert(entries@.skip(i as int)[0] == entries@[i as int]);
        if str_eq(entries[i].0.as_str(), key) {
            return Some(&entries[i].1);
        }
        assert(entries@.skip(i as int).drop_first() =~= entries@.skip(i as int + 1));
        i += 1;
    }
    assert(entries@.skip(n as int).len() == 0);
    None
}

} // verus!
