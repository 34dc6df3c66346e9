//! The structured value exchanged over the wire, as a small tagged variant.
//!
//! Every payload in either direction is one `Json` value. Numbers are
//! integers: the protocol's schemas carry only integer numbers, so a number
//! with a fractional part or an exponent is rejected at parse time rather
//! than carried around imprecisely. Objects keep their fields in wire order;
//! a lookup returns the first binding of a key.

use vstd::prelude::*;

verus! {

/// Mathematical model of a structured value.
#[verifier::ext_equal]
pub enum JVal {
    Null,
    Bool(bool),
    Int(int),
    Str(Seq<char>),
    Arr(Seq<JVal>),
    Obj(Seq<(Seq<char>, JVal)>),
}

/// Executable structured value; its view is a `JVal`.
#[derive(Debug, PartialEq)]
pub enum Json {
    Null,
    Bool(bool),
    Int(i64),
    Str(String),
    Arr(Vec<Json>),
    Obj(Vec<(String, Json)>),
}

/// Model of one executable structured value.
pub open spec fn jval_of(j: Json) -> JVal
    decreases j,
{
    match j {
        Json::Null => JVal::Null,
        Json::Bool(b) => JVal::Bool(b),
        Json::Int(n) => JVal::Int(n as int),
        Json::Str(s) => JVal::Str(s@),
        Json::Arr(items) => JVal::Arr(jvals_of(items@)),
        Json::Obj(fields) => JVal::Obj(jobj_of(fields@)),
    }
}

/// Models of the elements of an array, in order.
pub open spec fn jvals_of(s: Seq<Json>) -> Seq<JVal>
    decreases s,
{
    if s.len() == 0 {
        Seq::empty()
    } else {
        seq![jval_of(s[0])] + jvals_of(s.drop_first())
    }
}

/// Models of the fields of an object, in wire order.
pub open spec fn jobj_of(s: Seq<(String, Json)>) -> Seq<(Seq<char>, JVal)>
    decreases s,
{
    if s.len() == 0 {
        Seq::empty()
    } else {
        seq![(s[0].0@, jval_of(s[0].1))] + jobj_of(s.drop_first())
    }
}

/// `jvals_of` maps the sequence pointwise.
pub broadcast proof fn lemma_jvals_of(s: Seq<Json>)
    ensures
        (#[trigger] jvals_of(s)).len() == s.len(),
        forall|i: int| 0 <= i < s.len() ==> jvals_of(s)[i] == jval_of(s[i]),
    decreases s,
{
    if s.len() > 0 {
        lemma_jvals_of(s.drop_first());
    }
}

/// `jobj_of` maps the sequence pointwise.
pub broadcast proof fn lemma_jobj_of(s: Seq<(String, Json)>)
    ensures
        (#[trigger] jobj_of(s)).len() == s.len(),
        forall|i: int| 0 <= i < s.len() ==> jobj_of(s)[i] == (s[i].0@, jval_of(s[i].1)),
    decreases s,
{
    if s.len() > 0 {
        lemma_jobj_of(s.drop_first());
    }
}

impl View for Json {
    type V = JVal;

    open spec fn view(&self) -> JVal {
        jval_of(*self)
    }
}

/// First binding of `key` among `fields`, in wire order.
pub open spec fn obj_lookup(fields: Seq<(Seq<char>, JVal)>, key: Seq<char>) -> Option<JVal>
    decreases fields.len(),
{
    if fields.len() == 0 {
        None
    } else if fields[0].0 == key {
        Some(fields[0].1)
    } else {
        obj_lookup(fields.skip(1), key)
    }
}

/// Lookup of `key` in `v`, defined only when `v` is an object.
pub open spec fn jval_get(v: JVal, key: Seq<char>) -> Option<JVal> {
    match v {
        JVal::Obj(fields) => obj_lookup(fields, key),
        _ => None,
    }
}

impl Clone for Json {
    /// Deep copy with the same view.
    fn clone(&self) -> (res: Json)
        ensures
            res@ == self@,
        decreases self,
    {
        match self {
            Json::Null => Json::Null,
            Json::Bool(b) => Json::Bool(*b),
            Json::Int(n) => Json::Int(*n),
            Json::Str(s) => Json::Str(s.clone()),
            Json::Arr(items) => Json::Arr(clone_items(items)),
            Json::Obj(fields) => Json::Obj(clone_fields(fields)),
        }
    }
}

/// Deep copy of an array's elements.
fn clone_items(items: &Vec<Json>) -> (res: Vec<Json>)
    ensures
        jvals_of(res@) == jvals_of(items@),
        res@.len() == items@.len(),
    decreases items@,
{
    broadcast use lemma_jvals_of;

    let mut out: Vec<Json> = Vec::new();
    let n = items.len();
    for i in 0..n
        invariant
            n == items@.len(),
            out@.len() == i,
            forall|k: int| 0 <= k < i ==> jval_of(#[trigger] out@[k]) == jval_of(items@[k]),
    {
        proof {
            assert(decreases_to!(items@ => items@[i as int]));
        }
        out.push(items[i].clone());
    }
    proof {
        assert(jvals_of(out@) =~= jvals_of(items@));
    }
    out
}

/// Deep copy of an object's fields.
fn clone_fields(fields: &Vec<(String, Json)>) -> (res: Vec<(String, Json)>)
    ensures
        jobj_of(res@) == jobj_of(fields@),
        res@.len() == fields@.len(),
    decreases fields@,
{
    broadcast use lemma_jobj_of;

    let mut out: Vec<(String, Json)> = Vec::new();
    let n = fields.len();
    for i in 0..n
        invariant
            n == fields@.len(),
            out@.len() == i,
            forall|k: int| 0 <= k < i ==> (#[trigger] out@[k]).0@ == fields@[k].0@ && jval_of(
                out@[k].1,
            ) == jval_of(fields@[k].1),
    {
        proof {
            assert(decreases_to!(fields@ => fields@[i as int]));
            assert(decreases_to!(fields@[i as int] => fields@[i as int].1));
        }
        let key = fields[i].0.clone();
        let val = fields[i].1.clone();
        out.push((key, val));
    }
    proof {
        assert(jobj_of(out@) =~= jobj_of(fields@));
    }
    out
}

impl Json {
    /// First field named `key`, or `None` when absent or when `self` is not
    /// an object.
    pub fn get<'a>(&'a self, key: &str) -> (r: Option<&'a Json>)
        ensures
            match r {
                Some(v) => jval_get(self@, key@) == Some(v@),
                None => jval_get(self@, key@) is None,
            },
    {
        broadcast use lemma_jobj_of;

        match self {
            Json::Obj(fields) => {
                let key_owned = key.to_owned();
                let ghost gfields = jobj_of(fields@);
                assert(gfields.skip(0) =~= gfields);
                let n = fields.len();
                for i in 0..n
                    invariant
                        n == fields@.len(),
                        gfields == jobj_of(fields@),
                        gfields.len() == n,
                        forall|k: int| 0 <= k < n ==> gfields[k] == (
                        fields@[k].0@,
                        jval_of(fields@[k].1),
                        ),
                        obj_lookup(gfields, key@) == obj_lookup(gfields.skip(i as int), key@),
                        key_owned@ == key@,
                        jval_get(self@, key@) == obj_lookup(gfields, key@),
                {
                    assert(gfields.skip(i as int)[0] == gfields[i as int]);
                    if fields[i].0 == key_owned {
                        return Some(&fields[i].1);
                    }
                    assert(gfields.skip(i as int).skip(1) =~= gfields.skip(i + 1 as int));
                }
                assert(gfields.skip(n as int) =~= Seq::<(Seq<char>, JVal)>::empty());
                None
            },
            _ => None,
        }
    }
}

} // verus!
