use vstd::prelude::*;

verus! {

/// Mathematical model of a JSON-like tree value.
#[verifier::ext_equal]
pub enum SpecJson {
    Null,
    Bool(bool),
    Num(int),
    Str(Seq<char>),
    Arr(Seq<SpecJson>),
    Obj(Seq<(Seq<char>, SpecJson)>),
}

/// A JSON-like tree value: the shape of record metadata and of the
/// structural queries evaluated against it.
#[derive(Debug)]
pub enum JsonValue {
    Null,
    Bool(bool),
    Num(i64),
    Str(String),
    Arr(Vec<JsonValue>),
    Obj(Vec<(String, JsonValue)>),
}

/// The model of a `JsonValue`, node by node.
pub open spec fn json_view(v: JsonValue) -> SpecJson
    decreases v,
{
    match v {
        JsonValue::Null => SpecJson::Null,
        JsonValue::Bool(b) => SpecJson::Bool(b),
        JsonValue::Num(n) => SpecJson::Num(n as int),
        JsonValue::Str(s) => SpecJson::Str(s@),
        JsonValue::Arr(els) => SpecJson::Arr(json_view_seq(els@)),
        JsonValue::Obj(fields) => SpecJson::Obj(json_view_fields(fields@)),
    }
}

pub open spec fn json_view_seq(els: Seq<JsonValue>) -> Seq<SpecJson>
    decreases els,
{
    if els.len() == 0 {
        Seq::empty()
    } else {
        seq![json_view(els[0])] + json_view_seq(els.drop_first())
    }
}

pub open spec fn json_view_fields(fields: Seq<(String, JsonValue)>) -> Seq<(Seq<char>, SpecJson)>
    decreases fields,
{
    if fields.len() == 0 {
        Seq::empty()
    } else {
        seq![(fields[0].0@, json_view(fields[0].1))] + json_view_fields(fields.drop_first())
    }
}

/// Index-wise reading of `json_view_seq`.
pub proof fn lemma_json_view_seq(els: Seq<JsonValue>)
    ensures
        json_view_seq(els).len() == els.len(),
        forall|i: int| 0 <= i < els.len() ==> json_view_seq(els)[i] == json_view(els[i]),
    decreases els.len(),
{
    if els.len() > 0 {
        lemma_json_view_seq(els.drop_first());
    }
}

/// Index-wise reading of `json_view_fields`.
pub proof fn lemma_json_view_fields(fields: Seq<(String, JsonValue)>)
    ensures
        json_view_fields(fields).len() == fields.len(),
        forall|i: int| 0 <= i < fields.len() ==> json_view_fields(fields)[i] == (
            fields[i].0@,
            json_view(fields[i].1),
        ),
    decreases fields.len(),
{
    if fields.len() > 0 {
        lemma_json_view_fields(fields.drop_first());
    }
}

impl View for JsonValue {
    type V = SpecJson;

    #[verifier::inline]
    open spec fn view(&self) -> SpecJson {
        json_view(*self)
    }
}

/// First value bound to `key` in an object's field list, if any.
pub open spec fn obj_lookup(fields: Seq<(Seq<char>, SpecJson)>, key: Seq<char>) -> Option<SpecJson>
    decreases fields.len(),
{
    if fields.len() == 0 {
        None
    } else if fields[0].0 == key {
        Some(fields[0].1)
    } else {
        obj_lookup(fields.drop_first(), key)
    }
}

/// Reading `obj_lookup` from the front: a lookup over one more leading pair.
pub proof fn lemma_obj_lookup_take(fields: Seq<(Seq<char>, SpecJson)>, key: Seq<char>, i: int)
    requires
        0 <= i <= fields.len(),
        forall|j: int| 0 <= j < i ==> fields[j].0 != key,
    ensures
        obj_lookup(fields, key) == obj_lookup(fields.skip(i), key),
    decreases i,
{
    if i > 0 {
        assert(fields.skip(i - 1).drop_first() =~= fields.skip(i));
        lemma_obj_lookup_take(fields, key, i - 1);
    } else {
        assert(fields.skip(0) =~= fields);
    }
}

/// First value bound to `key` in a list of named fields, if any.
pub fn lookup_fields<'a>(fields: &'a Vec<(String, JsonValue)>, key: &str) -> (r: Option<
    &'a JsonValue,
>)
    ensures
        match r {
            Some(v) => obj_lookup(json_view_fields(fields@), key@) == Some(v@),
            None => obj_lookup(json_view_fields(fields@), key@) is None,
        },
{
    proof {
        lemma_json_view_fields(fields@);
    }
    let mut i: usize = 0;
    while i < fields.len()
        invariant
            i <= fields.len(),
            forall|j: int| 0 <= j < i ==> fields@[j].0@ != key@,
            json_view_fields(fields@).len() == fields@.len(),
            forall|j: int| 0 <= j < fields@.len() ==> json_view_fields(fields@)[j] == (
                fields@[j].0@,
                json_view(fields@[j].1),
            ),
        decreases fields.len() - i,
    {
        if crate::strings::str_eq(fields[i].0.as_str(), key) {
            proof {
                lemma_obj_lookup_take(json_view_fields(fields@), key@, i as int);
                assert(json_view_fields(fields@).skip(i as int)[0] == (
                    fields@[i as int].0@,
                    json_view(fields@[i as int].1),
                ));
            }
            return Some(&fields[i].1);
        }
        i = i + 1;
    }
    proof {
        lemma_obj_lookup_take(json_view_fields(fields@), key@, fields@.len() as int);
        assert(json_view_fields(fields@).skip(fields@.len() as int).len() == 0);
    }
    None
}

impl JsonValue {
    /// First value bound to `key` when this is an object; `None` otherwise.
    pub fn get<'a>(&'a self, key: &str) -> (r: Option<&'a JsonValue>)
        ensures
            match self@ {
                SpecJson::Obj(fields) => match r {
                    Some(v) => obj_lookup(fields, key@) == Some(v@),
                    None => obj_lookup(fields, key@) is None,
                },
                _ => r is None,
            },
    {
        match self {
            JsonValue::Obj(fields) => lookup_fields(fields, key),
            _ => None,
        }
    }

    /// Structural equality, decided against the views: true exactly when the
    /// two trees model the same value.
    pub fn deep_eq(&self, other: &JsonValue) -> (r: bool)
        ensures
            r == (self@ == other@),
        decreases *self,
    {
        match (self, other) {
            (JsonValue::Null, JsonValue::Null) => true,
            (JsonValue::Bool(a), JsonValue::Bool(b)) => *a == *b,
            (JsonValue::Num(a), JsonValue::Num(b)) => *a == *b,
            (JsonValue::Str(a), JsonValue::Str(b)) => crate::strings::str_eq(
                a.as_str(),
                b.as_str(),
            ),
            (JsonValue::Arr(a), JsonValue::Arr(b)) => {
                proof {
                    lemma_json_view_seq(a@);
                    lemma_json_view_seq(b@);
                }
                if a.len() != b.len() {
                    return false;
                }
                let mut i: usize = 0;
                while i < a.len()
                    invariant
                        *self == JsonValue::Arr(*a),
                        *other == JsonValue::Arr(*b),
                        i <= a.len(),
                        a@.len() == b@.len(),
                        forall|j: int| 0 <= j < i ==> a@[j]@ == b@[j]@,
                        json_view_seq(a@).len() == a@.len(),
                        json_view_seq(b@).len() == b@.len(),
                        forall|j: int| 0 <= j < a@.len() ==> json_view_seq(a@)[j] == json_view(
                            a@[j],
                        ),
                        forall|j: int| 0 <= j < b@.len() ==> json_view_seq(b@)[j] == json_view(
                            b@[j],
                        ),
                    decreases a.len() - i,
                {
                    proof {
                        assert(decreases_to!(*self => self->Arr_0));
                        assert(decreases_to!(*a => a@));
                        assert(decreases_to!(a@ => a@[i as int]));
                    }
                    if !a[i].deep_eq(&b[i]) {
                        proof {
                            assert(json_view_seq(a@)[i as int] != json_view_seq(b@)[i as int]);
                        }
                        return false;
                    }
                    i = i + 1;
                }
                proof {
                    assert(json_view_seq(a@) =~= json_view_seq(b@));
                }
                true
            }
            (JsonValue::Obj(a), JsonValue::Obj(b)) => {
                proof {
                    lemma_json_view_fields(a@);
                    lemma_json_view_fields(b@);
                }
                if a.len() != b.len() {
                    return false;
                }
                let mut i: usize = 0;
                while i < a.len()
                    invariant
                        *self == JsonValue::Obj(*a),
                        *other == JsonValue::Obj(*b),
                        i <= a.len(),
                        a@.len() == b@.len(),
                        forall|j: int| 0 <= j < i ==> a@[j].0@ == b@[j].0@ && a@[j].1@
                            == b@[j].1@,
                        json_view_fields(a@).len() == a@.len(),
                        json_view_fields(b@).len() == b@.len(),
                        forall|j: int| 0 <= j < a@.len() ==> json_view_fields(a@)[j] == (
                            a@[j].0@,
                            json_view(a@[j].1),
                        ),
                        forall|j: int| 0 <= j < b@.len() ==> json_view_fields(b@)[j] == (
                            b@[j].0@,
                            json_view(b@[j].1),
                        ),
                    decreases a.len() - i,
                {
                    proof {
                        assert(decreases_to!(*self => self->Obj_0));
                        assert(decreases_to!(*a => a@));
                        assert(decreases_to!(a@ => a@[i as int]));
                        assert(decreases_to!(a@[i as int] => a@[i as int].1));
                    }
                    if !crate::strings::str_eq(a[i].0.as_str(), b[i].0.as_str()) {
                        proof {
                            assert(json_view_fields(a@)[i as int] != json_view_fields(
                                b@,
                            )[i as int]);
                        }
                        return false;
                    }
                    if !a[i].1.deep_eq(&b[i].1) {
                        proof {
                            assert(json_view_fields(a@)[i as int] != json_view_fields(
                                b@,
                            )[i as int]);
                        }
                        return false;
                    }
                    i = i + 1;
                }
                proof {
                    assert(json_view_fields(a@) =~= json_view_fields(b@));
                }
                true
            }
            _ => {
                proof {
                    assert(self@ != other@);
                }
                false
            }
        }
    }

    /// Deep copy; derived `Clone` is unavailable on a recursive enum.
    pub fn deep_copy(&self) -> (r: JsonValue)
        ensures
            r@ == self@,
        decreases *self,
    {
        match self {
            JsonValue::Null => JsonValue::Null,
            JsonValue::Bool(b) => JsonValue::Bool(*b),
            JsonValue::Num(n) => JsonValue::Num(*n),
            JsonValue::Str(s) => JsonValue::Str(s.clone()),
            JsonValue::Arr(els) => {
                let mut out: Vec<JsonValue> = Vec::new();
                let mut i: usize = 0;
                while i < els.len()
                    invariant
                        *self == JsonValue::Arr(*els),
                        i <= els.len(),
                        out@.len() == i,
                        forall|j: int| 0 <= j < i ==> out@[j]@ == els@[j]@,
                    decreases els.len() - i,
                {
                    proof {
                        assert(decreases_to!(*self => self->Arr_0));
                        assert(decreases_to!(*els => els@));
                        assert(decreases_to!(els@ => els@[i as int]));
                    }
                    out.push(els[i].deep_copy());
                    i = i + 1;
                }
                let r = JsonValue::Arr(out);
                proof {
                    lemma_json_view_seq(out@);
                    lemma_json_view_seq(els@);
                    assert(json_view_seq(out@) =~= json_view_seq(els@));
                }
                r
            }
            JsonValue::Obj(fields) => {
                let mut out: Vec<(String, JsonValue)> = Vec::new();
                let mut i: usize = 0;
                while i < fields.len()
                    invariant
                        *self == JsonValue::Obj(*fields),
                        i <= fields.len(),
                        out@.len() == i,
                        forall|j: int| 0 <= j < i ==> out@[j].0@ == fields@[j].0@
                            && out@[j].1@ == fields@[j].1@,
                    decreases fields.len() - i,
                {
                    proof {
                        assert(decreases_to!(*self => self->Obj_0));
                        assert(decreases_to!(*fields => fields@));
                        assert(decreases_to!(fields@ => fields@[i as int]));
                        assert(decreases_to!(fields@[i as int] => fields@[i as int].1));
                    }
                    let copied = fields[i].1.deep_copy();
                    out.push((fields[i].0.clone(), copied));
                    i = i + 1;
                }
                let r = JsonValue::Obj(out);
                proof {
                    lemma_json_view_fields(out@);
                    lemma_json_view_fields(fields@);
                    assert(json_view_fields(out@) =~= json_view_fields(fields@));
                }
                r
            }
        }
    }
}

} // verus!
