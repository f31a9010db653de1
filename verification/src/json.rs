//! A structural JSON value: the shape in which free-form configuration
//! fields (route match expressions, health-check descriptors, snapshot
//! payloads) travel through the core.

use vstd::prelude::*;

verus! {

/// A JSON document. Numbers that fit an unsigned 64-bit integer keep their
/// value as [`Json::UInt`], negative integers keep theirs as [`Json::Int`],
/// and all other numbers collapse to [`Json::OtherNum`], which is all the
/// core ever distinguishes. Object entries keep their order; keys are unique
/// when the value came off the wire.
#[derive(Debug)]
pub enum Json {
    Null,
    Bool(bool),
    Str(String),
    UInt(u64),
    Int(i64),
    OtherNum,
    Arr(Vec<Json>),
    Obj(Vec<(String, Json)>),
}

/// The first value under `key`, if the entries hold one.
pub open spec fn obj_lookup(entries: Seq<(String, Json)>, key: Seq<char>) -> Option<Json>
    decreases entries.len(),
{
    if entries.len() == 0 {
        None
    } else if entries[0].0@ == key {
        Some(entries[0].1)
    } else {
        obj_lookup(entries.drop_first(), key)
    }
}

/// Looks a key up among object entries; first match wins.
pub fn obj_get<'a>(entries: &'a Vec<(String, Json)>, key: &str) -> (r: Option<&'a Json>)
    ensures
        match r {
            Some(v) => obj_lookup(entries@, key@) == Some(*v),
            None => obj_lookup(entries@, key@) is None,
        },
{
    proof {
        assert(entries@.skip(0) =~= entries@);
    }
    let mut i: usize = 0;
    while i < entries.len()
        invariant
            i <= entries@.len(),
            obj_lookup(entries@, key@) == obj_lookup(entries@.skip(i as int), key@),
        decreases entries@.len() - i,
    {
        proof {
            assert(entries@.skip(i as int)[0] == entries@[i as int]);
            assert(entries@.skip(i as int).drop_first() =~= entries@.skip(i + 1));
        }
        if crate::text::str_eq(entries[i].0.as_str(), key) {
            return Some(&entries[i].1);
        }
        i = i + 1;
    }
    proof {
        assert(entries@.skip(entries@.len() as int) =~= Seq::<(String, Json)>::empty());
    }
    None
}

impl Json {
    /// The string content, if this is a JSON string.
    pub fn as_str(&self) -> (r: Option<&String>)
        ensures
            match r {
                Some(s) => self is Str && s == self->Str_0,
                None => !(self is Str),
            },
    {
        match self {
            Json::Str(s) => Some(s),
            _ => None,
        }
    }

    /// The unsigned integer value, if this is a number that fits `u64`.
    pub fn as_u64(&self) -> (r: Option<u64>)
        ensures
            match r {
                Some(v) => self is UInt && v == self->UInt_0,
                None => !(self is UInt),
            },
    {
        match self {
            Json::UInt(v) => Some(*v),
            _ => None,
        }
    }

    /// The boolean value, if this is a JSON boolean.
    pub fn as_bool(&self) -> (r: Option<bool>)
        ensures
            match r {
                Some(v) => self is Bool && v == self->Bool_0,
                None => !(self is Bool),
            },
    {
        match self {
            Json::Bool(v) => Some(*v),
            _ => None,
        }
    }

    /// The entries, if this is a JSON object.
    pub fn as_object(&self) -> (r: Option<&Vec<(String, Json)>>)
        ensures
            match r {
                Some(v) => self is Obj && v == self->Obj_0,
                None => !(self is Obj),
            },
    {
        match self {
            Json::Obj(entries) => Some(entries),
            _ => None,
        }
    }

    /// The elements, if this is a JSON array.
    pub fn as_array(&self) -> (r: Option<&Vec<Json>>)
        ensures
            match r {
                Some(v) => self is Arr && v == self->Arr_0,
                None => !(self is Arr),
            },
    {
        match self {
            Json::Arr(elems) => Some(elems),
            _ => None,
        }
    }
}

} // verus!
