//! The composite group key: an ordered tuple of discriminated values —
//! integer, text or boolean — one per key column.

use vstd::prelude::*;
use crate::dtype::DataType;
use crate::scalar::{Scalar, ScalarV};
use crate::strutil::str_eq;

verus! {

/// One value of a composite group key.
#[derive(Debug)]
pub enum GroupKeyValue {
    Int(i32),
    Str(String),
    Bool(bool),
}

/// The mathematical model of one group-key value.
#[verifier::ext_equal]
pub enum GroupKeyV {
    Int(i32),
    Str(Seq<char>),
    Bool(bool),
}

impl DeepView for GroupKeyValue {
    type V = GroupKeyV;

    open spec fn deep_view(&self) -> GroupKeyV {
        match self {
            GroupKeyValue::Int(v) => GroupKeyV::Int(*v),
            GroupKeyValue::Str(s) => GroupKeyV::Str(s@),
            GroupKeyValue::Bool(b) => GroupKeyV::Bool(*b),
        }
    }
}

impl Clone for GroupKeyValue {
    fn clone(&self) -> (r: Self)
        ensures
            r == *self,
    {
        match self {
            GroupKeyValue::Int(v) => GroupKeyValue::Int(*v),
            GroupKeyValue::Str(s) => GroupKeyValue::Str(s.clone()),
            GroupKeyValue::Bool(b) => GroupKeyValue::Bool(*b),
        }
    }
}

/// A composite group key, one entry per key column.
pub type GroupKey = Vec<GroupKeyValue>;

/// Whether two group-key values model the same value.
pub fn gkv_eq(a: &GroupKeyValue, b: &GroupKeyValue) -> (r: bool)
    ensures
        r == (a.deep_view() == b.deep_view()),
{
    match (a, b) {
        (GroupKeyValue::Int(x), GroupKeyValue::Int(y)) => x == y,
        (GroupKeyValue::Str(x), GroupKeyValue::Str(y)) => str_eq(x.as_str(), y.as_str()),
        (GroupKeyValue::Bool(x), GroupKeyValue::Bool(y)) => x == y,
        _ => false,
    }
}

/// Whether two composite keys model the same tuple.
pub fn group_key_eq(a: &GroupKey, b: &GroupKey) -> (r: bool)
    ensures
        r == (a.deep_view() == b.deep_view()),
{
    if a.len() != b.len() {
        proof {
            assert(a.deep_view().len() != b.deep_view().len());
        }
        return false;
    }
    let n = a.len();
    let mut i: usize = 0;
    while i < n
        invariant
            0 <= i <= n,
            n == a.deep_view().len(),
            n == b.deep_view().len(),
            forall|j: int| 0 <= j < i ==> a.deep_view()[j] == b.deep_view()[j],
        decreases n - i,
    {
        proof {
            assert(a.deep_view()[i as int] == a@[i as int].deep_view());
            assert(b.deep_view()[i as int] == b@[i as int].deep_view());
        }
        if !gkv_eq(&a[i], &b[i]) {
            return false;
        }
        i = i + 1;
    }
    proof {
        assert(a.deep_view() =~= b.deep_view());
    }
    true
}

/// The group-key form of a cell value of an allowed kind; values of any
/// other kind never reach a group key.
pub open spec fn sv_to_keyv(v: ScalarV) -> GroupKeyV {
    match v {
        ScalarV::Int32(x) => GroupKeyV::Int(x),
        ScalarV::Str(s) => GroupKeyV::Str(s),
        ScalarV::Bool(b) => GroupKeyV::Bool(b),
        _ => GroupKeyV::Bool(false),
    }
}

/// The cell form of a group-key value.
pub open spec fn keyv_to_sv(k: GroupKeyV) -> ScalarV {
    match k {
        GroupKeyV::Int(x) => ScalarV::Int32(x),
        GroupKeyV::Str(s) => ScalarV::Str(s),
        GroupKeyV::Bool(b) => ScalarV::Bool(b),
    }
}

/// Converts a group-key value back to a cell value.
pub fn keyv_to_scalar(k: &GroupKeyValue) -> (r: Scalar)
    ensures
        r.deep_view() == keyv_to_sv(k.deep_view()),
{
    match k {
        GroupKeyValue::Int(v) => Scalar::Int32(*v),
        GroupKeyValue::Str(s) => Scalar::Str(s.clone()),
        GroupKeyValue::Bool(b) => Scalar::Bool(*b),
    }
}

/// Converts a cell value of an allowed kind to a group-key value.
pub fn scalar_to_keyv(v: &Scalar) -> (r: Option<GroupKeyValue>)
    ensures
        r matches Some(k) ==> k.deep_view() == sv_to_keyv(v.deep_view()),
        r is Some <==> (v.deep_view() is Int32 || v.deep_view() is Str || v.deep_view() is Bool),
{
    match v {
        Scalar::Int32(x) => Some(GroupKeyValue::Int(*x)),
        Scalar::Str(s) => Some(GroupKeyValue::Str(s.clone())),
        Scalar::Bool(b) => Some(GroupKeyValue::Bool(*b)),
        _ => None,
    }
}

} // verus!
