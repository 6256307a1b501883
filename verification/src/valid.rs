//! Which values Gun stores as they are, and which are references to other nodes.
//!
//! Null, strings, booleans and numbers are stored as they are. An object whose
//! only member is `"#"` holding a string is a soul reference: a link to the
//! node with that soul. Other objects and arrays are not values Gun stores
//! directly.
use vstd::prelude::*;
use crate::json::{Json, spec_field, spec_str};

verus! {

/// The key that marks a soul, `"#"`.
pub open spec fn soul_key() -> Seq<char> {
    seq!['#']
}

/// The key under which a node holds a value of its own, put through the chain of its soul
/// (`gun.get(soul).put(value)`): `"="`.
pub open spec fn value_key() -> Seq<char> {
    seq!['=']
}

/// The soul that a value refers to, if the value is a soul reference:
/// an object with exactly one member, `"#"`, holding a string.
pub open spec fn spec_soul_ref(v: Json) -> Option<Seq<char>> {
    match v {
        Json::Object(m) => if m@.dom().len() == 1 && spec_field(v, soul_key()) is Some
            && spec_str(spec_field(v, soul_key())->Some_0) is Some {
            spec_str(spec_field(v, soul_key())->Some_0)
        } else {
            None
        },
        _ => None,
    }
}

/// Whether a value is stored as it is: null, a string, a boolean or a number.
pub open spec fn spec_is_plain(v: Json) -> bool {
    match v {
        Json::Null | Json::String(_) | Json::Bool(_) | Json::Number(_) => true,
        _ => false,
    }
}

/// The classification that `valid` returns, with the soul given by its characters.
pub open spec fn spec_valid(v: Json) -> Result<bool, Option<Seq<char>>> {
    if spec_is_plain(v) {
        Ok(true)
    } else if spec_soul_ref(v) is Some {
        Err(Some(spec_soul_ref(v)->Some_0))
    } else {
        Ok(false)
    }
}

/// Validate a value and detect soul references.
///
/// `Ok(true)` for null, strings, booleans and numbers; `Err(Some(soul))` for a soul
/// reference `{"#": soul}`; `Ok(false)` for any other object and for arrays.
/// Numbers are always finite here, since a JSON number cannot hold infinity or NaN.
pub fn valid(value: &Json) -> (r: Result<bool, Option<String>>)
    ensures
        r matches Ok(b) ==> spec_valid(*value) == Ok::<bool, Option<Seq<char>>>(b),
        r matches Err(e) ==> e is Some && spec_valid(*value) == Err::<bool, Option<Seq<char>>>(
            Some(e->Some_0@),
        ),
{
    match value {
        Json::Null => Ok(true),
        Json::String(_) => Ok(true),
        Json::Bool(_) => Ok(true),
        Json::Number(_) => Ok(true),
        Json::Object(obj) => {
            proof {
                reveal_strlit("#");
                assert("#"@ =~= soul_key());
            }
            if obj.len() == 1 {
                match value.get("#") {
                    Some(soul_val) => match soul_val.as_str() {
                        Some(soul) => {
                            return Err(Some(soul.to_owned()));
                        },
                        None => {},
                    },
                    None => {},
                }
            }
            Ok(false)
        },
        Json::Array(_) => Ok(false),
    }
}

/// The soul a value names, if any: the soul of a soul reference, or a non-empty string.
pub open spec fn spec_valid_soul(v: Json) -> Option<Seq<char>> {
    if spec_soul_ref(v) is Some {
        spec_soul_ref(v)
    } else if spec_str(v) is Some && spec_str(v)->Some_0.len() > 0 {
        spec_str(v)
    } else {
        None
    }
}

/// Check whether a value names a soul: a soul reference `{"#": soul}` names its soul,
/// and a non-empty string is taken as a soul. Anything else names none.
pub fn valid_soul(value: &Json) -> (r: Option<String>)
    ensures
        match r {
            Some(s) => spec_valid_soul(*value) == Some(s@),
            None => spec_valid_soul(*value) is None,
        },
{
    match valid(value) {
        Err(Some(soul)) => Some(soul),
        Ok(true) => {
            match value {
                Json::String(s) => {
                    if s.as_str().unicode_len() > 0 {
                        Some(s.clone())
                    } else {
                        None
                    }
                },
                _ => None,
            }
        },
        _ => None,
    }
}

/// Whether a value can be stored: a plain value or a soul reference.
pub fn is_valid_data(value: &Json) -> (b: bool)
    ensures
        b == (spec_is_plain(*value) || spec_soul_ref(*value) is Some),
{
    match valid(value) {
        Ok(true) => true,
        Err(Some(_)) => true,
        _ => false,
    }
}

} // verus!

verus! {

/// The soul reference `{"#": soul}`.
pub fn soul_ref_json(soul: String) -> (j: Json)
    ensures
        spec_soul_ref(j) == Some(soul@),
        spec_valid(j) == Err::<bool, Option<Seq<char>>>(Some(soul@)),
{
    let mut m = crate::strmap::StrMap::new();
    proof { reveal_strlit("#"); assert("#"@ =~= soul_key()); }
    m.insert("#".to_owned(), Json::String(soul));
    proof { assert(m@.dom() =~= set![soul_key()]); }
    Json::Object(m)
}

} // verus!
