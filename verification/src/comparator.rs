//! Comparator leaves of the predicate language, and their evaluation against
//! extracted field values.

use vstd::prelude::*;

use crate::field_path::views_of_refs;
use crate::json::{json_view, json_view_seq, lemma_json_view_seq, JsonValue, SpecJson};
use crate::query_value::{lemma_qv_view_seq, qv_view, qv_view_seq, QueryValue, SpecQueryValue};
use crate::regex_support::{regex_is_match, regex_match};
use crate::strings::{contains_seq, contains_str, ends_with_str, matches_at, starts_with_str, str_eq};
use crate::time::{parse_rfc3339, rfc3339_millis_of, rfc3339_of};

verus! {

/// The comparison a predicate leaf applies to an extracted value.
#[derive(Debug, Clone, Copy, PartialEq, Eq, Structural)]
pub enum Comparator {
    Equals,
    NotEquals,
    GreaterThan,
    LessThan,
    GreaterThanOrEqual,
    LessThanOrEqual,
    Exists,
    NotExists,
    Matches,
    NotMatches,
    StartsWith,
    EndsWith,
    Contains,
    NotContains,
    In,
    NotIn,
    HasAll,
    HasAny,
    HasNone,
    Length,
    Empty,
    NotEmpty,
    Between,
    NotBetween,
    IsMultipleOf,
    IsDivisibleBy,
    Before,
    After,
    SameDay,
    /// Reserved for an opaque host predicate; the verified core carries no
    /// closure values, so it never holds.
    Function,
}

/// Typed equality of an actual value and an expected value: scalars within
/// their type, arrays element-wise, a string against a regular expression by
/// matching, and a string against an instant by parsing it as RFC 3339.
pub open spec fn spec_compare_values(a: SpecJson, e: SpecQueryValue) -> bool
    decreases e,
{
    match (a, e) {
        (SpecJson::Str(s), SpecQueryValue::String(t)) => s == t,
        (SpecJson::Num(n), SpecQueryValue::Number(m)) => n == m,
        (SpecJson::Bool(b), SpecQueryValue::Boolean(c)) => b == c,
        (SpecJson::Arr(av), SpecQueryValue::Array(ev)) => spec_compare_arrays(av, ev),
        (SpecJson::Str(s), SpecQueryValue::Regex(p)) => regex_match(p, s),
        (SpecJson::Str(s), SpecQueryValue::DateTime(t)) => rfc3339_millis_of(s) == Some(t.millis),
        (SpecJson::Null, SpecQueryValue::Null) => true,
        _ => false,
    }
}

pub open spec fn spec_compare_arrays(av: Seq<SpecJson>, ev: Seq<SpecQueryValue>) -> bool
    decreases ev,
{
    if av.len() != ev.len() {
        false
    } else if ev.len() == 0 {
        true
    } else {
        spec_compare_values(av[0], ev[0]) && spec_compare_arrays(av.drop_first(), ev.drop_first())
    }
}

/// Both sides as numbers, when they are numbers.
pub open spec fn spec_nums(a: SpecJson, e: SpecQueryValue) -> Option<(int, int)> {
    match (a, e) {
        (SpecJson::Num(n), SpecQueryValue::Number(m)) => Some((n, m)),
        _ => None,
    }
}

/// Some element of `ev` equals `a`.
pub open spec fn spec_any_equal(a: SpecJson, ev: Seq<SpecQueryValue>) -> bool {
    exists|i: int| 0 <= i < ev.len() && spec_compare_values(a, ev[i])
}

/// Some element of `av` equals `e`.
pub open spec fn spec_some_actual_equals(av: Seq<SpecJson>, e: SpecQueryValue) -> bool {
    exists|i: int| 0 <= i < av.len() && spec_compare_values(av[i], e)
}

/// Every expected element is found among the actual elements.
pub open spec fn spec_all_found(av: Seq<SpecJson>, ev: Seq<SpecQueryValue>) -> bool {
    forall|j: int| 0 <= j < ev.len() ==> spec_some_actual_equals(av, #[trigger] ev[j])
}

/// Some expected element is found among the actual elements.
pub open spec fn spec_any_found(av: Seq<SpecJson>, ev: Seq<SpecQueryValue>) -> bool {
    exists|j: int| 0 <= j < ev.len() && spec_some_actual_equals(av, #[trigger] ev[j])
}

/// Some array element is a string containing `t`.
pub open spec fn spec_any_str_contains(av: Seq<SpecJson>, t: Seq<char>) -> bool {
    exists|i: int| 0 <= i < av.len() && match #[trigger] av[i] {
        SpecJson::Str(s) => contains_seq(s, t),
        _ => false,
    }
}

/// `d` divides `n` evenly; stated over magnitudes so that the sign of either
/// side does not matter.
pub open spec fn divides(d: int, n: int) -> bool {
    if d == 0 {
        false
    } else {
        abs_of(n) % abs_of(d) == 0
    }
}

pub open spec fn abs_of(n: int) -> int {
    if n < 0 {
        -n
    } else {
        n
    }
}

/// Whether a numeric candidate lies in a two-number closed interval; `None`
/// when the candidate or the bounds are not numbers of that shape, since an
/// incompatible actual satisfies no comparator.
pub open spec fn in_closed_interval(a: SpecJson, ev: Seq<SpecQueryValue>) -> Option<bool> {
    if ev.len() == 2 {
        match (a, ev[0], ev[1]) {
            (SpecJson::Num(n), SpecQueryValue::Number(lo), SpecQueryValue::Number(hi)) => Some(
                lo <= n <= hi,
            ),
            _ => None,
        }
    } else {
        None
    }
}

/// One candidate value against one comparator: `Some(true)` means the
/// candidate satisfies the comparison; `Some(false)` means it refutes a
/// presence test; `None` passes to the next candidate.
pub open spec fn spec_comp_step(
    c: Comparator,
    expected: Option<SpecQueryValue>,
    a: SpecJson,
) -> Option<bool> {
    match (c, expected) {
        (Comparator::Equals, Some(e)) => if spec_compare_values(a, e) {
            Some(true)
        } else {
            None
        },
        (Comparator::NotEquals, Some(e)) => if !spec_compare_values(a, e) {
            Some(true)
        } else {
            None
        },
        (Comparator::GreaterThan, Some(e)) => match spec_nums(a, e) {
            Some(nm) => if nm.0 > nm.1 {
                Some(true)
            } else {
                None
            },
            None => None,
        },
        (Comparator::LessThan, Some(e)) => match spec_nums(a, e) {
            Some(nm) => if nm.0 < nm.1 {
                Some(true)
            } else {
                None
            },
            None => None,
        },
        (Comparator::GreaterThanOrEqual, Some(e)) => match spec_nums(a, e) {
            Some(nm) => if nm.0 >= nm.1 {
                Some(true)
            } else {
                None
            },
            None => None,
        },
        (Comparator::LessThanOrEqual, Some(e)) => match spec_nums(a, e) {
            Some(nm) => if nm.0 <= nm.1 {
                Some(true)
            } else {
                None
            },
            None => None,
        },
        (Comparator::Exists, None) => Some(true),
        (Comparator::NotExists, None) => Some(false),
        (Comparator::Matches, Some(SpecQueryValue::Regex(p))) => match a {
            SpecJson::Str(s) => if regex_match(p, s) {
                Some(true)
            } else {
                None
            },
            _ => None,
        },
        (Comparator::NotMatches, Some(SpecQueryValue::Regex(p))) => match a {
            SpecJson::Str(s) => if !regex_match(p, s) {
                Some(true)
            } else {
                None
            },
            _ => None,
        },
        (Comparator::StartsWith, Some(SpecQueryValue::String(t))) => match a {
            SpecJson::Str(s) => if matches_at(s, t, 0) {
                Some(true)
            } else {
                None
            },
            _ => None,
        },
        (Comparator::EndsWith, Some(SpecQueryValue::String(t))) => match a {
            SpecJson::Str(s) => if t.len() <= s.len() && matches_at(s, t, s.len() - t.len()) {
                Some(true)
            } else {
                None
            },
            _ => None,
        },
        (Comparator::Contains, Some(SpecQueryValue::String(t))) => match a {
            SpecJson::Str(s) => if contains_seq(s, t) {
                Some(true)
            } else {
                None
            },
            SpecJson::Arr(av) => if spec_any_str_contains(av, t) {
                Some(true)
            } else {
                None
            },
            _ => None,
        },
        (Comparator::NotContains, Some(SpecQueryValue::String(t))) => match a {
            SpecJson::Str(s) => if !contains_seq(s, t) {
                Some(true)
            } else {
                None
            },
            _ => None,
        },
        (Comparator::In, Some(SpecQueryValue::Array(ev))) => if spec_any_equal(a, ev) {
            Some(true)
        } else {
            None
        },
        (Comparator::NotIn, Some(SpecQueryValue::Array(ev))) => if !spec_any_equal(a, ev) {
            Some(true)
        } else {
            None
        },
        (Comparator::HasAll, Some(SpecQueryValue::Array(ev))) => match a {
            SpecJson::Arr(av) => if spec_all_found(av, ev) {
                Some(true)
            } else {
                None
            },
            _ => None,
        },
        (Comparator::HasAny, Some(SpecQueryValue::Array(ev))) => match a {
            SpecJson::Arr(av) => if spec_any_found(av, ev) {
                Some(true)
            } else {
                None
            },
            _ => None,
        },
        (Comparator::HasNone, Some(SpecQueryValue::Array(ev))) => match a {
            SpecJson::Arr(av) => if !spec_any_found(av, ev) {
                Some(true)
            } else {
                None
            },
            _ => None,
        },
        (Comparator::Length, Some(e)) => match (a, e) {
            (SpecJson::Arr(av), SpecQueryValue::Number(m)) => if av.len() == m {
                Some(true)
            } else {
                None
            },
            _ => None,
        },
        (Comparator::Empty, None) => match a {
            SpecJson::Arr(av) => if av.len() == 0 {
                Some(true)
            } else {
                None
            },
            _ => None,
        },
        (Comparator::NotEmpty, None) => match a {
            SpecJson::Arr(av) => if av.len() > 0 {
                Some(true)
            } else {
                None
            },
            _ => None,
        },
        (Comparator::Between, Some(SpecQueryValue::Array(ev))) => match in_closed_interval(
            a,
            ev,
        ) {
            Some(inside) => if inside {
                Some(true)
            } else {
                None
            },
            None => None,
        },
        (Comparator::NotBetween, Some(SpecQueryValue::Array(ev))) => match in_closed_interval(
            a,
            ev,
        ) {
            Some(inside) => if !inside {
                Some(true)
            } else {
                None
            },
            None => None,
        },
        (Comparator::IsMultipleOf, Some(SpecQueryValue::Number(m))) => match a {
            SpecJson::Num(n) => if m != 0 && divides(m, n) {
                Some(true)
            } else {
                None
            },
            _ => None,
        },
        (Comparator::IsDivisibleBy, Some(SpecQueryValue::Number(m))) => match a {
            SpecJson::Num(n) => if m != 0 && divides(m, n) {
                Some(true)
            } else {
                None
            },
            _ => None,
        },
        (Comparator::Before, Some(SpecQueryValue::DateTime(t))) => match a {
            SpecJson::Str(s) => match rfc3339_millis_of(s) {
                Some(ms) => if ms < t.millis {
                    Some(true)
                } else {
                    None
                },
                None => None,
            },
            _ => None,
        },
        (Comparator::After, Some(SpecQueryValue::DateTime(t))) => match a {
            SpecJson::Str(s) => match rfc3339_millis_of(s) {
                Some(ms) => if ms > t.millis {
                    Some(true)
                } else {
                    None
                },
                None => None,
            },
            _ => None,
        },
        (Comparator::SameDay, Some(SpecQueryValue::DateTime(t))) => match a {
            SpecJson::Str(s) => match rfc3339_of(s) {
                Some(parts) => if parts.1 == t.year && parts.2 == t.month && parts.3 == t.day {
                    Some(true)
                } else {
                    None
                },
                None => None,
            },
            _ => None,
        },
        _ => None,
    }
}

/// Candidates are tried in order; the first deciding step gives the answer,
/// and a list that never decides evaluates to false: a comparison is true
/// exactly when some candidate satisfies it.
pub open spec fn spec_comp_eval(
    c: Comparator,
    expected: Option<SpecQueryValue>,
    actuals: Seq<SpecJson>,
) -> bool
    decreases actuals.len(),
{
    if actuals.len() == 0 {
        false
    } else {
        match spec_comp_step(c, expected, actuals[0]) {
            Some(b) => b,
            None => spec_comp_eval(c, expected, actuals.drop_first()),
        }
    }
}

/// The whole evaluation: a comparison over no candidates at all is the
/// failure of a presence test, so only `NotExists` holds there; with
/// candidates, the first deciding one answers.
pub open spec fn spec_comp_result(
    c: Comparator,
    expected: Option<SpecQueryValue>,
    actuals: Seq<SpecJson>,
) -> bool {
    if actuals.len() == 0 {
        c is NotExists
    } else {
        spec_comp_eval(c, expected, actuals)
    }
}

/// Array comparison read index-wise.
pub proof fn lemma_compare_arrays_index(av: Seq<SpecJson>, ev: Seq<SpecQueryValue>)
    ensures
        spec_compare_arrays(av, ev) == (av.len() == ev.len() && forall|i: int|
            0 <= i < ev.len() ==> spec_compare_values(#[trigger] av[i], ev[i])),
    decreases ev.len(),
{
    if av.len() == ev.len() && ev.len() > 0 {
        lemma_compare_arrays_index(av.drop_first(), ev.drop_first());
        if spec_compare_arrays(av, ev) {
            assert forall|i: int| 0 <= i < ev.len() implies spec_compare_values(
                #[trigger] av[i],
                ev[i],
            ) by {
                if i > 0 {
                    assert(spec_compare_values(av.drop_first()[i - 1], ev.drop_first()[i - 1]));
                }
            }
        } else {
            if spec_compare_values(av[0], ev[0]) {
                assert(!spec_compare_arrays(av.drop_first(), ev.drop_first()));
            }
        }
    }
}

/// Typed equality of an actual and an expected value.
fn compare_values_exec(a: &JsonValue, e: &QueryValue) -> (r: bool)
    ensures
        r == spec_compare_values(a@, e@),
    decreases *e,
{
    match (a, e) {
        (JsonValue::Str(s), QueryValue::String(t)) => str_eq(s.as_str(), t.as_str()),
        (JsonValue::Num(n), QueryValue::Number(m)) => *n == *m,
        (JsonValue::Bool(b), QueryValue::Boolean(c)) => *b == *c,
        (JsonValue::Str(s), QueryValue::Regex(p)) => regex_is_match(p.as_str(), s.as_str()),
        (JsonValue::Str(s), QueryValue::DateTime(t)) => match parse_rfc3339(s.as_str()) {
            Some(inst) => inst.millis == t.millis,
            None => false,
        },
        (JsonValue::Null, QueryValue::Null) => true,
        (JsonValue::Arr(av), QueryValue::Array(ev)) => {
            proof {
                lemma_json_view_seq(av@);
                lemma_qv_view_seq(ev@);
                lemma_compare_arrays_index(json_view_seq(av@), qv_view_seq(ev@));
            }
            if av.len() != ev.len() {
                return false;
            }
            let mut i: usize = 0;
            while i < ev.len()
                invariant
                    *a == JsonValue::Arr(*av),
                    *e == QueryValue::Array(*ev),
                    i <= ev.len(),
                    av.len() == ev.len(),
                    forall|j: int| 0 <= j < i ==> spec_compare_values(
                        #[trigger] json_view_seq(av@)[j],
                        qv_view_seq(ev@)[j],
                    ),
                    json_view_seq(av@).len() == av@.len(),
                    qv_view_seq(ev@).len() == ev@.len(),
                    forall|j: int| 0 <= j < av@.len() ==> json_view_seq(av@)[j] == json_view(
                        av@[j],
                    ),
                    forall|j: int| 0 <= j < ev@.len() ==> qv_view_seq(ev@)[j] == qv_view(ev@[j]),
                    spec_compare_arrays(json_view_seq(av@), qv_view_seq(ev@)) == (forall|j: int|
                        0 <= j < ev@.len() ==> spec_compare_values(
                            #[trigger] json_view_seq(av@)[j],
                            qv_view_seq(ev@)[j],
                        )),
                decreases ev.len() - i,
            {
                proof {
                    assert(decreases_to!(*e => e->Array_0));
                    assert(decreases_to!(*ev => ev@));
                    assert(decreases_to!(ev@ => ev@[i as int]));
                }
                if !compare_values_exec(&av[i], &ev[i]) {
                    proof {
                        assert(!spec_compare_values(
                            json_view_seq(av@)[i as int],
                            qv_view_seq(ev@)[i as int],
                        ));
                    }
                    return false;
                }
                i = i + 1;
            }
            true
        }
        _ => {
            proof {
                assert(!spec_compare_values(a@, e@));
            }
            false
        }
    }
}

/// Some element of `ev` equals `a`.
fn any_equal_exec(a: &JsonValue, ev: &Vec<QueryValue>) -> (r: bool)
    ensures
        r == spec_any_equal(a@, qv_view_seq(ev@)),
{
    proof {
        lemma_qv_view_seq(ev@);
    }
    let mut i: usize = 0;
    while i < ev.len()
        invariant
            i <= ev.len(),
            qv_view_seq(ev@).len() == ev@.len(),
            forall|j: int| 0 <= j < ev@.len() ==> qv_view_seq(ev@)[j] == qv_view(ev@[j]),
            forall|j: int| 0 <= j < i ==> !spec_compare_values(a@, qv_view_seq(ev@)[j]),
        decreases ev.len() - i,
    {
        if compare_values_exec(a, &ev[i]) {
            proof {
                assert(spec_compare_values(a@, qv_view_seq(ev@)[i as int]));
            }
            return true;
        }
        i = i + 1;
    }
    false
}

/// Some element of `av` equals `e`.
fn some_actual_equals_exec(av: &Vec<JsonValue>, e: &QueryValue) -> (r: bool)
    ensures
        r == spec_some_actual_equals(json_view_seq(av@), e@),
{
    proof {
        lemma_json_view_seq(av@);
    }
    let mut i: usize = 0;
    while i < av.len()
        invariant
            i <= av.len(),
            json_view_seq(av@).len() == av@.len(),
            forall|j: int| 0 <= j < av@.len() ==> json_view_seq(av@)[j] == json_view(av@[j]),
            forall|j: int| 0 <= j < i ==> !spec_compare_values(json_view_seq(av@)[j], e@),
        decreases av.len() - i,
    {
        if compare_values_exec(&av[i], e) {
            proof {
                assert(spec_compare_values(json_view_seq(av@)[i as int], e@));
            }
            return true;
        }
        i = i + 1;
    }
    false
}

/// Every element of `ev` is found in `av`.
fn all_found_exec(av: &Vec<JsonValue>, ev: &Vec<QueryValue>) -> (r: bool)
    ensures
        r == spec_all_found(json_view_seq(av@), qv_view_seq(ev@)),
{
    proof {
        lemma_qv_view_seq(ev@);
    }
    let mut j: usize = 0;
    while j < ev.len()
        invariant
            j <= ev.len(),
            qv_view_seq(ev@).len() == ev@.len(),
            forall|l: int| 0 <= l < ev@.len() ==> qv_view_seq(ev@)[l] == qv_view(ev@[l]),
            forall|l: int| 0 <= l < j ==> spec_some_actual_equals(
                json_view_seq(av@),
                #[trigger] qv_view_seq(ev@)[l],
            ),
        decreases ev.len() - j,
    {
        if !some_actual_equals_exec(av, &ev[j]) {
            proof {
                assert(!spec_some_actual_equals(json_view_seq(av@), qv_view_seq(ev@)[j as int]));
            }
            return false;
        }
        j = j + 1;
    }
    true
}

/// Some element of `ev` is found in `av`.
fn any_found_exec(av: &Vec<JsonValue>, ev: &Vec<QueryValue>) -> (r: bool)
    ensures
        r == spec_any_found(json_view_seq(av@), qv_view_seq(ev@)),
{
    proof {
        lemma_qv_view_seq(ev@);
    }
    let mut j: usize = 0;
    while j < ev.len()
        invariant
            j <= ev.len(),
            qv_view_seq(ev@).len() == ev@.len(),
            forall|l: int| 0 <= l < ev@.len() ==> qv_view_seq(ev@)[l] == qv_view(ev@[l]),
            forall|l: int| 0 <= l < j ==> !spec_some_actual_equals(
                json_view_seq(av@),
                #[trigger] qv_view_seq(ev@)[l],
            ),
        decreases ev.len() - j,
    {
        if some_actual_equals_exec(av, &ev[j]) {
            proof {
                assert(spec_some_actual_equals(json_view_seq(av@), qv_view_seq(ev@)[j as int]));
            }
            return true;
        }
        j = j + 1;
    }
    false
}

/// Some element of `av` is a string containing `t`.
fn any_str_contains_exec(av: &Vec<JsonValue>, t: &str) -> (r: bool)
    ensures
        r == spec_any_str_contains(json_view_seq(av@), t@),
{
    proof {
        lemma_json_view_seq(av@);
    }
    let mut i: usize = 0;
    while i < av.len()
        invariant
            i <= av.len(),
            json_view_seq(av@).len() == av@.len(),
            forall|j: int| 0 <= j < av@.len() ==> json_view_seq(av@)[j] == json_view(av@[j]),
            forall|j: int| 0 <= j < i ==> !(match #[trigger] json_view_seq(av@)[j] {
                SpecJson::Str(s) => contains_seq(s, t@),
                _ => false,
            }),
        decreases av.len() - i,
    {
        match &av[i] {
            JsonValue::Str(s) => {
                if contains_str(s.as_str(), t) {
                    proof {
                        assert(json_view_seq(av@)[i as int] == SpecJson::Str(s@));
                    }
                    return true;
                }
            }
            _ => {}
        }
        i = i + 1;
    }
    false
}

/// One candidate against the comparator; mirrors `spec_comp_step`.
fn comp_step_exec(c: &Comparator, expected: &Option<QueryValue>, a: &JsonValue) -> (r: Option<
    bool,
>)
    ensures
        r == spec_comp_step(*c, match expected {
            Some(e) => Some(e@),
            None => None,
        }, a@),
{
    match (c, expected) {
        (Comparator::Equals, Some(e)) => if compare_values_exec(a, e) {
            Some(true)
        } else {
            None
        },
        (Comparator::NotEquals, Some(e)) => if !compare_values_exec(a, e) {
            Some(true)
        } else {
            None
        },
        (Comparator::GreaterThan, Some(e)) => match (a, e) {
            (JsonValue::Num(n), QueryValue::Number(m)) => if *n > *m {
                Some(true)
            } else {
                None
            },
            _ => None,
        },
        (Comparator::LessThan, Some(e)) => match (a, e) {
            (JsonValue::Num(n), QueryValue::Number(m)) => if *n < *m {
                Some(true)
            } else {
                None
            },
            _ => None,
        },
        (Comparator::GreaterThanOrEqual, Some(e)) => match (a, e) {
            (JsonValue::Num(n), QueryValue::Number(m)) => if *n >= *m {
                Some(true)
            } else {
                None
            },
            _ => None,
        },
        (Comparator::LessThanOrEqual, Some(e)) => match (a, e) {
            (JsonValue::Num(n), QueryValue::Number(m)) => if *n <= *m {
                Some(true)
            } else {
                None
            },
            _ => None,
        },
        (Comparator::Exists, None) => Some(true),
        (Comparator::NotExists, None) => Some(false),
        (Comparator::Matches, Some(QueryValue::Regex(p))) => match a {
            JsonValue::Str(s) => if regex_is_match(p.as_str(), s.as_str()) {
                Some(true)
            } else {
                None
            },
            _ => None,
        },
        (Comparator::NotMatches, Some(QueryValue::Regex(p))) => match a {
            JsonValue::Str(s) => if !regex_is_match(p.as_str(), s.as_str()) {
                Some(true)
            } else {
                None
            },
            _ => None,
        },
        (Comparator::StartsWith, Some(QueryValue::String(t))) => match a {
            JsonValue::Str(s) => if starts_with_str(s.as_str(), t.as_str()) {
                Some(true)
            } else {
                None
            },
            _ => None,
        },
        (Comparator::EndsWith, Some(QueryValue::String(t))) => match a {
            JsonValue::Str(s) => if ends_with_str(s.as_str(), t.as_str()) {
                Some(true)
            } else {
                None
            },
            _ => None,
        },
        (Comparator::Contains, Some(QueryValue::String(t))) => match a {
            JsonValue::Str(s) => if contains_str(s.as_str(), t.as_str()) {
                Some(true)
            } else {
                None
            },
            JsonValue::Arr(av) => if any_str_contains_exec(av, t.as_str()) {
                Some(true)
            } else {
                None
            },
            _ => None,
        },
        (Comparator::NotContains, Some(QueryValue::String(t))) => match a {
            JsonValue::Str(s) => if !contains_str(s.as_str(), t.as_str()) {
                Some(true)
            } else {
                None
            },
            _ => None,
        },
        (Comparator::In, Some(QueryValue::Array(ev))) => if any_equal_exec(a, ev) {
            Some(true)
        } else {
            None
        },
        (Comparator::NotIn, Some(QueryValue::Array(ev))) => if !any_equal_exec(a, ev) {
            Some(true)
        } else {
            None
        },
        (Comparator::HasAll, Some(QueryValue::Array(ev))) => match a {
            JsonValue::Arr(av) => if all_found_exec(av, ev) {
                Some(true)
            } else {
                None
            },
            _ => None,
        },
        (Comparator::HasAny, Some(QueryValue::Array(ev))) => match a {
            JsonValue::Arr(av) => if any_found_exec(av, ev) {
                Some(true)
            } else {
                None
            },
            _ => None,
        },
        (Comparator::HasNone, Some(QueryValue::Array(ev))) => match a {
            JsonValue::Arr(av) => if !any_found_exec(av, ev) {
                Some(true)
            } else {
                None
            },
            _ => None,
        },
        (Comparator::Length, Some(QueryValue::Number(m))) => match a {
            JsonValue::Arr(av) => {
                proof {
                    lemma_json_view_seq(av@);
                }
                if *m >= 0 && av.len() as u64 == *m as u64 {
                    Some(true)
                } else {
                    None
                }
            }
            _ => None,
        },
        (Comparator::Empty, None) => match a {
            JsonValue::Arr(av) => {
                proof {
                    lemma_json_view_seq(av@);
                }
                if av.len() == 0 {
                    Some(true)
                } else {
                    None
                }
            }
            _ => None,
        },
        (Comparator::NotEmpty, None) => match a {
            JsonValue::Arr(av) => {
                proof {
                    lemma_json_view_seq(av@);
                }
                if av.len() > 0 {
                    Some(true)
                } else {
                    None
                }
            }
            _ => None,
        },
        (Comparator::Between, Some(QueryValue::Array(ev))) => {
            match interval_side(a, ev) {
                Some(inside) => if inside {
                    Some(true)
                } else {
                    None
                },
                None => None,
            }
        }
        (Comparator::NotBetween, Some(QueryValue::Array(ev))) => {
            match interval_side(a, ev) {
                Some(inside) => if !inside {
                    Some(true)
                } else {
                    None
                },
                None => None,
            }
        }
        (Comparator::IsMultipleOf, Some(QueryValue::Number(m))) => match a {
            JsonValue::Num(n) => if divides_exec(*m, *n) {
                Some(true)
            } else {
                None
            },
            _ => None,
        },
        (Comparator::IsDivisibleBy, Some(QueryValue::Number(m))) => match a {
            JsonValue::Num(n) => if divides_exec(*m, *n) {
                Some(true)
            } else {
                None
            },
            _ => None,
        },
        (Comparator::Before, Some(QueryValue::DateTime(t))) => match a {
            JsonValue::Str(s) => match parse_rfc3339(s.as_str()) {
                Some(inst) => if inst.millis < t.millis {
                    Some(true)
                } else {
                    None
                },
                None => None,
            },
            _ => None,
        },
        (Comparator::After, Some(QueryValue::DateTime(t))) => match a {
            JsonValue::Str(s) => match parse_rfc3339(s.as_str()) {
                Some(inst) => if inst.millis > t.millis {
                    Some(true)
                } else {
                    None
                },
                None => None,
            },
            _ => None,
        },
        (Comparator::SameDay, Some(QueryValue::DateTime(t))) => match a {
            JsonValue::Str(s) => match parse_rfc3339(s.as_str()) {
                Some(inst) => if inst.year == t.year && inst.month == t.month && inst.day
                    == t.day {
                    Some(true)
                } else {
                    None
                },
                None => None,
            },
            _ => None,
        },
        _ => None,
    }
}

/// Whether a numeric candidate lies in a two-number closed interval.
fn interval_side(a: &JsonValue, ev: &Vec<QueryValue>) -> (r: Option<bool>)
    ensures
        r == in_closed_interval(a@, qv_view_seq(ev@)),
{
    proof {
        lemma_qv_view_seq(ev@);
    }
    if ev.len() != 2 {
        return None;
    }
    match (a, &ev[0], &ev[1]) {
        (JsonValue::Num(n), QueryValue::Number(lo), QueryValue::Number(hi)) => Some(
            *lo <= *n && *n <= *hi,
        ),
        _ => None,
    }
}

/// `d` divides `n` evenly; `d == 0` divides nothing.
fn divides_exec(d: i64, n: i64) -> (r: bool)
    ensures
        r == (d != 0 && divides(d as int, n as int)),
{
    if d == 0 {
        return false;
    }
    let du = if d == i64::MIN {
        9223372036854775808u64
    } else if d < 0 {
        (-d) as u64
    } else {
        d as u64
    };
    let nu = if n == i64::MIN {
        9223372036854775808u64
    } else if n < 0 {
        (-n) as u64
    } else {
        n as u64
    };
    proof {
        assert(du as int == abs_of(d as int));
        assert(nu as int == abs_of(n as int));
    }
    nu % du == 0
}

impl Comparator {
    /// Evaluate against the candidate values a path extracted: true exactly
    /// when some candidate satisfies the comparison, and, over no candidates
    /// at all, exactly for the absence test.
    pub fn evaluate(&self, field_value: Vec<&JsonValue>, expected_value: &Option<QueryValue>) -> (r:
        bool)
        ensures
            r == spec_comp_result(*self, match expected_value {
                Some(e) => Some(e@),
                None => None,
            }, views_of_refs(field_value@)),
    {
        if field_value.len() == 0 {
            return matches!(self, Comparator::NotExists);
        }
        let ghost evs = match expected_value {
            Some(e) => Some(e@),
            None => None::<SpecQueryValue>,
        };
        let ghost all = views_of_refs(field_value@);
        let mut i: usize = 0;
        proof {
            assert(all.skip(0) =~= all);
        }
        while i < field_value.len()
            invariant
                i <= field_value.len(),
                all == views_of_refs(field_value@),
                all.len() == field_value@.len(),
                evs == match expected_value {
                    Some(e) => Some(e@),
                    None => None::<SpecQueryValue>,
                },
                spec_comp_eval(*self, evs, all) == spec_comp_eval(*self, evs, all.skip(i as int)),
            decreases field_value.len() - i,
        {
            proof {
                assert(all.skip(i as int)[0] == all[i as int]);
            }
            match comp_step_exec(self, expected_value, field_value[i]) {
                Some(b) => {
                    return b;
                }
                None => {}
            }
            proof {
                assert(all.skip(i as int).drop_first() =~= all.skip(i + 1));
            }
            i = i + 1;
        }
        proof {
            assert(all.skip(field_value@.len() as int).len() == 0);
        }
        false
    }

    /// Evaluate against a single candidate value.
    pub fn compare(&self, field_value: &JsonValue, expected_value: &Option<QueryValue>) -> (r:
        bool)
        ensures
            r == spec_comp_result(*self, match expected_value {
                Some(e) => Some(e@),
                None => None,
            }, seq![field_value@]),
    {
        let mut one: Vec<&JsonValue> = Vec::new();
        one.push(field_value);
        proof {
            assert(views_of_refs(one@) =~= seq![field_value@]);
        }
        self.evaluate(one, expected_value)
    }
}

} // verus!
