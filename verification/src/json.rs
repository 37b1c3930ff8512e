//! JSON values held by the library, and the top level of one as the
//! validators read it.
use vstd::prelude::*;

use crate::float_bits::{self, Number};

verus! {

/// A JSON document. An object keeps its members in order, each key once;
/// a number keeps its binary64 pattern and the text it was written as.
#[derive(Debug)]
pub enum JsonValue {
    Null,
    Bool(bool),
    Number(Number),
    String(String),
    Array(Vec<JsonValue>),
    Object(Vec<(String, JsonValue)>),
}

/// The top level of a value: an array or object by its length.
pub open spec fn spec_shape(v: JsonValue) -> JsonShape {
    match v {
        JsonValue::Null => JsonShape::Null,
        JsonValue::Bool(b) => JsonShape::Bool(b),
        JsonValue::Number(n) => JsonShape::Number(n),
        JsonValue::String(s) => JsonShape::String(s),
        JsonValue::Array(items) => JsonShape::Array(items@.len() as usize),
        JsonValue::Object(members) => JsonShape::Object(members@.len() as usize),
    }
}

/// Two values are the same document: the same kind, equal booleans,
/// numbers and strings, and arrays and objects whose members are, in order,
/// the same keys and the same documents.
pub open spec fn json_same(a: JsonValue, b: JsonValue) -> bool
    decreases a,
{
    match a {
        JsonValue::Null => b is Null,
        JsonValue::Bool(x) => b matches JsonValue::Bool(y) && x == y,
        JsonValue::Number(x) => b matches JsonValue::Number(y) && x == y,
        JsonValue::String(x) => b matches JsonValue::String(y) && x@ == y@,
        JsonValue::Array(xs) => {
            proof {
                broadcast use vstd::std_specs::vec::group_vec_axioms;
                assert(decreases_to!(a => xs));
                assert(decreases_to!(xs => xs@));
            }
            b matches JsonValue::Array(ys) && items_same(xs@, ys@)
        },
        JsonValue::Object(xs) => {
            proof {
                broadcast use vstd::std_specs::vec::group_vec_axioms;
                assert(decreases_to!(a => xs));
                assert(decreases_to!(xs => xs@));
            }
            b matches JsonValue::Object(ys) && members_same(xs@, ys@)
        },
    }
}

/// Two arrays' items are, in order, the same documents.
pub open spec fn items_same(xs: Seq<JsonValue>, ys: Seq<JsonValue>) -> bool
    decreases xs,
{
    if xs.len() == 0 {
        ys.len() == 0
    } else {
        proof {
            assert(decreases_to!(xs => xs[xs.len() - 1]));
            assert(decreases_to!(xs => xs.subrange(0, xs.len() - 1)));
        }
        &&& ys.len() == xs.len()
        &&& items_same(xs.subrange(0, xs.len() - 1), ys.subrange(0, ys.len() - 1))
        &&& json_same(xs[xs.len() - 1], ys[ys.len() - 1])
    }
}

/// Two objects' members are, in order, the same keys with the same
/// documents.
pub open spec fn members_same(xs: Seq<(String, JsonValue)>, ys: Seq<(String, JsonValue)>) -> bool
    decreases xs,
{
    if xs.len() == 0 {
        ys.len() == 0
    } else {
        proof {
            assert(decreases_to!(xs => xs[xs.len() - 1]));
            assert(decreases_to!(xs[xs.len() - 1] => xs[xs.len() - 1].1));
            assert(decreases_to!(xs => xs.subrange(0, xs.len() - 1)));
        }
        &&& ys.len() == xs.len()
        &&& members_same(xs.subrange(0, xs.len() - 1), ys.subrange(0, ys.len() - 1))
        &&& xs[xs.len() - 1].0@ == ys[ys.len() - 1].0@
        &&& json_same(xs[xs.len() - 1].1, ys[ys.len() - 1].1)
    }
}

/// A deep copy of `v`.
#[verifier::loop_isolation(false)]
fn copy_value(v: &JsonValue) -> (r: JsonValue)
    ensures
        spec_shape(r) == spec_shape(*v),
        json_same(*v, r),
    decreases v,
{
    match v {
        JsonValue::Null => JsonValue::Null,
        JsonValue::Bool(b) => JsonValue::Bool(*b),
        JsonValue::Number(n) => JsonValue::Number(Number { bits: n.bits, text: n.text.clone() }),
        JsonValue::String(s) => JsonValue::String(s.clone()),
        JsonValue::Array(items) => {
            let mut out: Vec<JsonValue> = Vec::new();
            let mut i: usize = 0;
            while i < items.len()
                invariant
                    i <= items@.len(),
                    out@.len() == i,
                    items_same(items@.subrange(0, i as int), out@),
                decreases items@.len() - i,
            {
                proof {
                    broadcast use vstd::std_specs::vec::group_vec_axioms;
                    assert(decreases_to!(*v => v->Array_0));
                    assert(decreases_to!(v->Array_0 => items@));
                    assert(decreases_to!(items@ => items@[i as int]));
                }
                let value = copy_value(&items[i]);
                let ghost before = out@;
                out.push(value);
                proof {
                    let xs = items@.subrange(0, i + 1);
                    assert(xs.subrange(0, xs.len() - 1) =~= items@.subrange(0, i as int));
                    assert(out@.subrange(0, out@.len() - 1) =~= before);
                    assert(xs[xs.len() - 1] == items@[i as int]);
                }
                i = i + 1;
            }
            assert(items@.subrange(0, items@.len() as int) =~= items@);
            JsonValue::Array(out)
        },
        JsonValue::Object(members) => {
            let mut out: Vec<(String, JsonValue)> = Vec::new();
            let mut i: usize = 0;
            while i < members.len()
                invariant
                    i <= members@.len(),
                    out@.len() == i,
                    members_same(members@.subrange(0, i as int), out@),
                decreases members@.len() - i,
            {
                proof {
                    broadcast use vstd::std_specs::vec::group_vec_axioms;
                    assert(decreases_to!(*v => v->Object_0));
                    assert(decreases_to!(v->Object_0 => members@));
                    assert(decreases_to!(members@ => members@[i as int]));
                    assert(decreases_to!(members@[i as int] => members@[i as int].1));
                }
                let value = copy_value(&members[i].1);
                let key = members[i].0.clone();
                let ghost before = out@;
                out.push((key, value));
                proof {
                    let xs = members@.subrange(0, i + 1);
                    assert(xs.subrange(0, xs.len() - 1) =~= members@.subrange(0, i as int));
                    assert(out@.subrange(0, out@.len() - 1) =~= before);
                    assert(xs[xs.len() - 1] == members@[i as int]);
                }
                i = i + 1;
            }
            assert(members@.subrange(0, members@.len() as int) =~= members@);
            JsonValue::Object(out)
        },
    }
}

impl Clone for JsonValue {
    fn clone(&self) -> (r: Self)
        ensures
            spec_shape(r) == spec_shape(*self),
            json_same(*self, r),
    {
        copy_value(self)
    }
}

impl JsonValue {
    /// An object without members.
    pub fn empty_object() -> (r: JsonValue)
        ensures
            r matches JsonValue::Object(m) && m@.len() == 0,
    {
        JsonValue::Object(Vec::new())
    }

    /// The top level of the value.
    pub fn shape(&self) -> (r: JsonShape)
        ensures
            r == spec_shape(*self),
    {
        match self {
            JsonValue::Null => JsonShape::Null,
            JsonValue::Bool(b) => JsonShape::Bool(*b),
            JsonValue::Number(n) => JsonShape::Number(
                Number { bits: n.bits, text: n.text.clone() },
            ),
            JsonValue::String(s) => JsonShape::String(s.clone()),
            JsonValue::Array(items) => JsonShape::Array(items.len()),
            JsonValue::Object(members) => JsonShape::Object(members.len()),
        }
    }
}

/// The kind of a JSON value and what the library reads of it: a boolean's
/// value, a number, a string, or the length of an array or object.
#[derive(Clone, Debug, PartialEq, Eq)]
pub enum JsonShape {
    Null,
    Bool(bool),
    Number(Number),
    String(String),
    Array(usize),
    Object(usize),
}

/// The value is "zero-like": null, `false`, a number equal to `0`, an
/// empty string, or an empty array or object.
pub open spec fn spec_zero_like(v: JsonShape) -> bool {
    match v {
        JsonShape::Null => true,
        JsonShape::Bool(b) => !b,
        JsonShape::Number(n) => float_bits::spec_is_zero(n.bits),
        JsonShape::String(s) => s@.len() == 0,
        JsonShape::Array(n) => n == 0,
        JsonShape::Object(n) => n == 0,
    }
}

/// The value is null or an empty array or object.
pub open spec fn spec_empty_collection(v: JsonShape) -> bool {
    match v {
        JsonShape::Null => true,
        JsonShape::Array(n) => n == 0,
        JsonShape::Object(n) => n == 0,
        _ => false,
    }
}

/// Whether the value is zero-like.
pub fn zero_like(v: &JsonShape) -> (r: bool)
    ensures
        r == spec_zero_like(*v),
{
    match v {
        JsonShape::Null => true,
        JsonShape::Bool(b) => !*b,
        JsonShape::Number(n) => float_bits::is_zero(n.bits),
        JsonShape::String(s) => s.as_str().is_empty(),
        JsonShape::Array(n) => *n == 0,
        JsonShape::Object(n) => *n == 0,
    }
}

/// Whether the value is null or an empty array or object.
pub fn is_empty_json_collection(v: &JsonShape) -> (r: bool)
    ensures
        r == spec_empty_collection(*v),
{
    match v {
        JsonShape::Null => true,
        JsonShape::Array(n) => *n == 0,
        JsonShape::Object(n) => *n == 0,
        _ => false,
    }
}

/// Whether the value is an object.
pub fn is_object(v: &JsonShape) -> (r: bool)
    ensures
        r == (*v is Object),
{
    match v {
        JsonShape::Object(_) => true,
        _ => false,
    }
}

} // verus!
