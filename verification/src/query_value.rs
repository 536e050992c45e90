//! The typed values a comparator matches a record field against.

use vstd::prelude::*;

use crate::json::{json_view, json_view_seq, lemma_json_view_seq, JsonValue, SpecJson};
use crate::time::UtcInstant;

verus! {

/// Mathematical model of a `QueryValue`.
#[verifier::ext_equal]
pub enum SpecQueryValue {
    String(Seq<char>),
    Number(int),
    Boolean(bool),
    Array(Seq<SpecQueryValue>),
    Regex(Seq<char>),
    DateTime(UtcInstant),
    Duration(int),
    Null,
}

/// A value a comparison expects: a scalar, an array of expected values, a
/// regular-expression pattern, an instant, or a duration in milliseconds.
#[derive(Debug)]
pub enum QueryValue {
    String(String),
    Number(i64),
    Boolean(bool),
    Array(Vec<QueryValue>),
    Regex(String),
    DateTime(UtcInstant),
    Duration(i64),
    Null,
}

/// The model of a `QueryValue`, node by node.
pub open spec fn qv_view(v: QueryValue) -> SpecQueryValue
    decreases v,
{
    match v {
        QueryValue::String(s) => SpecQueryValue::String(s@),
        QueryValue::Number(n) => SpecQueryValue::Number(n as int),
        QueryValue::Boolean(b) => SpecQueryValue::Boolean(b),
        QueryValue::Array(els) => SpecQueryValue::Array(qv_view_seq(els@)),
        QueryValue::Regex(p) => SpecQueryValue::Regex(p@),
        QueryValue::DateTime(t) => SpecQueryValue::DateTime(t),
        QueryValue::Duration(d) => SpecQueryValue::Duration(d as int),
        QueryValue::Null => SpecQueryValue::Null,
    }
}

pub open spec fn qv_view_seq(els: Seq<QueryValue>) -> Seq<SpecQueryValue>
    decreases els,
{
    if els.len() == 0 {
        Seq::empty()
    } else {
        seq![qv_view(els[0])] + qv_view_seq(els.drop_first())
    }
}

/// Index-wise reading of `qv_view_seq`.
pub proof fn lemma_qv_view_seq(els: Seq<QueryValue>)
    ensures
        qv_view_seq(els).len() == els.len(),
        forall|i: int| 0 <= i < els.len() ==> qv_view_seq(els)[i] == qv_view(els[i]),
    decreases els.len(),
{
    if els.len() > 0 {
        lemma_qv_view_seq(els.drop_first());
    }
}

impl View for QueryValue {
    type V = SpecQueryValue;

    #[verifier::inline]
    open spec fn view(&self) -> SpecQueryValue {
        qv_view(*self)
    }
}

/// How a JSON tree value converts to an expected value: scalars carry over,
/// arrays convert element-wise, and an object converts to `Null`.
pub open spec fn spec_qv_of_json(v: SpecJson) -> SpecQueryValue
    decreases v,
{
    match v {
        SpecJson::Null => SpecQueryValue::Null,
        SpecJson::Bool(b) => SpecQueryValue::Boolean(b),
        SpecJson::Num(n) => SpecQueryValue::Number(n),
        SpecJson::Str(s) => SpecQueryValue::String(s),
        SpecJson::Arr(els) => SpecQueryValue::Array(spec_qv_of_json_seq(els)),
        SpecJson::Obj(_) => SpecQueryValue::Null,
    }
}

pub open spec fn spec_qv_of_json_seq(els: Seq<SpecJson>) -> Seq<SpecQueryValue>
    decreases els,
{
    if els.len() == 0 {
        Seq::empty()
    } else {
        seq![spec_qv_of_json(els[0])] + spec_qv_of_json_seq(els.drop_first())
    }
}

/// Index-wise reading of `spec_qv_of_json_seq`.
pub proof fn lemma_spec_qv_of_json_seq(els: Seq<SpecJson>)
    ensures
        spec_qv_of_json_seq(els).len() == els.len(),
        forall|i: int| 0 <= i < els.len() ==> spec_qv_of_json_seq(els)[i] == spec_qv_of_json(
            els[i],
        ),
    decreases els.len(),
{
    if els.len() > 0 {
        lemma_spec_qv_of_json_seq(els.drop_first());
    }
}

impl QueryValue {
    /// Convert a JSON tree value into an expected value.
    pub fn from_json(v: &JsonValue) -> (r: QueryValue)
        ensures
            r@ == spec_qv_of_json(v@),
        decreases *v,
    {
        match v {
            JsonValue::Null => QueryValue::Null,
            JsonValue::Bool(b) => QueryValue::Boolean(*b),
            JsonValue::Num(n) => QueryValue::Number(*n),
            JsonValue::Str(s) => QueryValue::String(s.clone()),
            JsonValue::Obj(_) => QueryValue::Null,
            JsonValue::Arr(els) => {
                proof {
                    lemma_json_view_seq(els@);
                }
                let mut out: Vec<QueryValue> = Vec::new();
                let mut i: usize = 0;
                while i < els.len()
                    invariant
                        *v == JsonValue::Arr(*els),
                        i <= els.len(),
                        out@.len() == i,
                        forall|j: int| 0 <= j < i ==> out@[j]@ == spec_qv_of_json(els@[j]@),
                    decreases els.len() - i,
                {
                    proof {
                        assert(decreases_to!(*v => v->Arr_0));
                        assert(decreases_to!(*els => els@));
                        assert(decreases_to!(els@ => els@[i as int]));
                    }
                    let c = QueryValue::from_json(&els[i]);
                    out.push(c);
                    i = i + 1;
                }
                let r = QueryValue::Array(out);
                proof {
                    lemma_qv_view_seq(out@);
                    lemma_spec_qv_of_json_seq(json_view_seq(els@));
                    lemma_json_view_seq(els@);
                    assert(qv_view_seq(out@) =~= spec_qv_of_json_seq(json_view_seq(els@)));
                }
                r
            }
        }
    }

    /// Deep copy; derived `Clone` is unavailable on a recursive enum.
    pub fn deep_copy(&self) -> (r: QueryValue)
        ensures
            r@ == self@,
        decreases *self,
    {
        match self {
            QueryValue::String(s) => QueryValue::String(s.clone()),
            QueryValue::Number(n) => QueryValue::Number(*n),
            QueryValue::Boolean(b) => QueryValue::Boolean(*b),
            QueryValue::Regex(p) => QueryValue::Regex(p.clone()),
            QueryValue::DateTime(t) => QueryValue::DateTime(*t),
            QueryValue::Duration(d) => QueryValue::Duration(*d),
            QueryValue::Null => QueryValue::Null,
            QueryValue::Array(els) => {
                let mut out: Vec<QueryValue> = Vec::new();
                let mut i: usize = 0;
                while i < els.len()
                    invariant
                        *self == QueryValue::Array(*els),
                        i <= els.len(),
                        out@.len() == i,
                        forall|j: int| 0 <= j < i ==> out@[j]@ == els@[j]@,
                    decreases els.len() - i,
                {
                    proof {
                        assert(decreases_to!(*self => self->Array_0));
                        assert(decreases_to!(*els => els@));
                        assert(decreases_to!(els@ => els@[i as int]));
                    }
                    let c = els[i].deep_copy();
                    out.push(c);
                    i = i + 1;
                }
                let r = QueryValue::Array(out);
                proof {
                    lemma_qv_view_seq(out@);
                    lemma_qv_view_seq(els@);
                    assert(qv_view_seq(out@) =~= qv_view_seq(els@));
                }
                r
            }
        }
    }
}

} // verus!
