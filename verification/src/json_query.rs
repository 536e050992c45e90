//! The JSON surface form of the predicate tree: documents whose keys are
//! `$and` / `$or` or field paths, and whose operator keys are `$eq`, `$gt`,
//! `$lt`.

use vstd::prelude::*;

use crate::comparator::Comparator;
use crate::field_path::{spec_parse_path, FieldPath, PathSegment, SpecSegment};
use crate::json::{json_view, json_view_fields, json_view_seq, lemma_json_view_fields,
    lemma_json_view_seq, JsonValue, SpecJson};
use crate::query_node::{fnode_view, lemma_fnode_view_seq, lemma_qnode_view_seq, qnode_view,
    FieldLogic, FieldNode, FieldQueryNode, LogicalOperator, QueryLogicNode, QueryNode,
    SpecFieldNode, SpecQueryNode};
use crate::query_value::{spec_qv_of_json, QueryValue, SpecQueryValue};
use crate::strings::str_eq;

verus! {

pub open spec fn and_key() -> Seq<char> {
    seq!['$', 'a', 'n', 'd']
}

pub open spec fn or_key() -> Seq<char> {
    seq!['$', 'o', 'r']
}

pub open spec fn eq_key() -> Seq<char> {
    seq!['$', 'e', 'q']
}

pub open spec fn gt_key() -> Seq<char> {
    seq!['$', 'g', 't']
}

pub open spec fn lt_key() -> Seq<char> {
    seq!['$', 'l', 't']
}

/// How a JSON document reads as a field-level node: a one-key object whose
/// key is a logic operator over an array of sub-documents, or a comparison
/// operator applied to a JSON value.
pub open spec fn spec_parse_field_node(v: SpecJson) -> Option<SpecFieldNode>
    decreases v,
{
    match v {
        SpecJson::Obj(fields) => {
            if fields.len() != 1 {
                None
            } else {
                let key = fields[0].0;
                let val = fields[0].1;
                if key == and_key() || key == or_key() {
                    let op = if key == and_key() {
                        LogicalOperator::And
                    } else {
                        LogicalOperator::Or
                    };
                    match val {
                        SpecJson::Arr(els) => match spec_parse_field_list(els) {
                            Some(kids) => Some(SpecFieldNode::Logic(op, kids)),
                            None => None,
                        },
                        _ => None,
                    }
                } else if key == eq_key() {
                    Some(SpecFieldNode::Comparison(Comparator::Equals, spec_qv_of_json(val)))
                } else if key == gt_key() {
                    Some(SpecFieldNode::Comparison(Comparator::GreaterThan, spec_qv_of_json(val)))
                } else if key == lt_key() {
                    Some(SpecFieldNode::Comparison(Comparator::LessThan, spec_qv_of_json(val)))
                } else {
                    None
                }
            }
        }
        _ => None,
    }
}

pub open spec fn spec_parse_field_list(els: Seq<SpecJson>) -> Option<Seq<SpecFieldNode>>
    decreases els,
{
    if els.len() == 0 {
        Some(Seq::empty())
    } else {
        match spec_parse_field_node(els[0]) {
            Some(n) => match spec_parse_field_list(els.drop_first()) {
                Some(rest) => Some(seq![n] + rest),
                None => None,
            },
            None => None,
        }
    }
}

/// How a JSON document reads as a whole-record predicate: a one-key object
/// whose key is a logic operator over an array of sub-documents, or a field
/// path over a field-level document.
pub open spec fn spec_parse_query(v: SpecJson) -> Option<SpecQueryNode>
    decreases v,
{
    match v {
        SpecJson::Obj(fields) => {
            if fields.len() != 1 {
                None
            } else {
                let key = fields[0].0;
                let val = fields[0].1;
                if key == and_key() || key == or_key() {
                    let op = if key == and_key() {
                        LogicalOperator::And
                    } else {
                        LogicalOperator::Or
                    };
                    match val {
                        SpecJson::Arr(els) => match spec_parse_query_list(els) {
                            Some(kids) => Some(SpecQueryNode::Logic(op, kids)),
                            None => None,
                        },
                        _ => None,
                    }
                } else {
                    match spec_parse_field_node(val) {
                        Some(fnode) => Some(
                            SpecQueryNode::FieldQuery(spec_parse_path(key), fnode),
                        ),
                        None => None,
                    }
                }
            }
        }
        _ => None,
    }
}

pub open spec fn spec_parse_query_list(els: Seq<SpecJson>) -> Option<Seq<SpecQueryNode>>
    decreases els,
{
    if els.len() == 0 {
        Some(Seq::empty())
    } else {
        match spec_parse_query(els[0]) {
            Some(n) => match spec_parse_query_list(els.drop_first()) {
                Some(rest) => Some(seq![n] + rest),
                None => None,
            },
            None => None,
        }
    }
}

/// The name a `Field` segment renders as.
pub open spec fn seg_name(seg: SpecSegment) -> Seq<char> {
    match seg {
        SpecSegment::Field(n) => n,
        _ => Seq::empty(),
    }
}

/// The decimal spelling of a non-negative number.
pub open spec fn digits_of(n: int) -> Seq<char>
    decreases n,
{
    if n < 10 {
        seq![((n + 48) as u8) as char]
    } else {
        digits_of(n / 10) + seq![((n % 10 + 48) as u8) as char]
    }
}

/// The text of one segment in the path grammar.
pub open spec fn seg_text(seg: SpecSegment) -> Seq<char> {
    match seg {
        SpecSegment::Field(n) => n,
        SpecSegment::Wildcard => seq!['*'],
        SpecSegment::ArrayIndex(n) => seq!['['] + digits_of(n) + seq![']'],
        SpecSegment::ArrayWildcard => seq!['[', '*', ']'],
    }
}

/// What separates a segment from the text before it: a dot before a name or
/// a wildcard, nothing before a bracket.
pub open spec fn seg_sep(seg: SpecSegment) -> Seq<char> {
    match seg {
        SpecSegment::Field(_) => seq!['.'],
        SpecSegment::Wildcard => seq!['.'],
        _ => Seq::empty(),
    }
}

/// A path as a string, in the grammar the parser reads: dot-separated names
/// and wildcards, with bracket segments attached to the chunk before them.
pub open spec fn spec_render_path(segs: Seq<SpecSegment>) -> Seq<char>
    decreases segs.len(),
{
    if segs.len() == 0 {
        Seq::empty()
    } else if segs.len() == 1 {
        seg_text(segs[0])
    } else {
        spec_render_path(segs.drop_last()) + seg_sep(segs.last()) + seg_text(segs.last())
    }
}

/// A name that renders unambiguously: non-empty, free of the grammar's
/// punctuation, and not the wildcard spelling.
pub open spec fn renderable_name(n: Seq<char>) -> bool {
    &&& n.len() > 0
    &&& forall|i: int| 0 <= i < n.len() ==> #[trigger] n[i] != '.' && n[i] != '[' && n[i] != ']'
    &&& n != seq!['*']
}

/// A segment opening a new dot-separated chunk, as opposed to a bracket
/// segment attached to the chunk before it.
pub open spec fn is_starter_seg(seg: SpecSegment) -> bool {
    seg is Field || seg is Wildcard
}

/// A segment that renders unambiguously on its own.
pub open spec fn renderable_seg(seg: SpecSegment) -> bool {
    match seg {
        SpecSegment::Field(n) => renderable_name(n),
        SpecSegment::Wildcard => true,
        SpecSegment::ArrayIndex(m) => 0 <= m <= usize::MAX,
        SpecSegment::ArrayWildcard => true,
    }
}

/// A path whose round trip through its string form is proved below: every
/// segment renders unambiguously, a wildcard is never directly followed by a
/// bracket segment (the grammar would read `*[` back as a field named `*`),
/// and the first chunk cannot be mistaken for an operator key.
pub open spec fn renderable_path(segs: Seq<SpecSegment>) -> bool {
    &&& segs.len() > 0
    &&& forall|k: int| 0 <= k < segs.len() ==> renderable_seg(#[trigger] segs[k])
    &&& forall|k: int|
        0 <= k && k + 1 < segs.len() && (#[trigger] segs[k]) is Wildcard ==> is_starter_seg(
            segs[k + 1],
        )
    &&& (segs[0] is Field ==> seg_name(segs[0])[0] != '$')
}

/// The JSON spelling of an expected value; exact for strings, numbers and
/// booleans, the value types of the surface syntax.
pub open spec fn json_of_qv(v: SpecQueryValue) -> SpecJson {
    match v {
        SpecQueryValue::String(s) => SpecJson::Str(s),
        SpecQueryValue::Number(n) => SpecJson::Num(n),
        SpecQueryValue::Boolean(b) => SpecJson::Bool(b),
        _ => SpecJson::Null,
    }
}

/// A value type the surface syntax spells exactly.
pub open spec fn subset_qv(v: SpecQueryValue) -> bool {
    v is String || v is Number || v is Boolean
}

pub open spec fn logic_key(op: LogicalOperator) -> Seq<char> {
    match op {
        LogicalOperator::And => and_key(),
        LogicalOperator::Or => or_key(),
    }
}

/// The operator key of a comparator; exact for the three the surface syntax
/// carries.
pub open spec fn comp_key(c: Comparator) -> Seq<char> {
    if c == Comparator::GreaterThan {
        gt_key()
    } else if c == Comparator::LessThan {
        lt_key()
    } else {
        eq_key()
    }
}

/// The JSON document a field-level node renders as.
pub open spec fn spec_to_json_field(n: SpecFieldNode) -> SpecJson
    decreases n,
{
    match n {
        SpecFieldNode::Comparison(c, v) => SpecJson::Obj(seq![(comp_key(c), json_of_qv(v))]),
        SpecFieldNode::Logic(op, kids) => SpecJson::Obj(
            seq![(logic_key(op), SpecJson::Arr(spec_to_json_field_list(kids)))],
        ),
    }
}

pub open spec fn spec_to_json_field_list(kids: Seq<SpecFieldNode>) -> Seq<SpecJson>
    decreases kids,
{
    if kids.len() == 0 {
        Seq::empty()
    } else {
        seq![spec_to_json_field(kids[0])] + spec_to_json_field_list(kids.drop_first())
    }
}

/// The JSON document a whole-record predicate renders as.
pub open spec fn spec_to_json_query(n: SpecQueryNode) -> SpecJson
    decreases n,
{
    match n {
        SpecQueryNode::FieldQuery(path, fnode) => SpecJson::Obj(
            seq![(spec_render_path(path), spec_to_json_field(fnode))],
        ),
        SpecQueryNode::Logic(op, kids) => SpecJson::Obj(
            seq![(logic_key(op), SpecJson::Arr(spec_to_json_query_list(kids)))],
        ),
    }
}

pub open spec fn spec_to_json_query_list(kids: Seq<SpecQueryNode>) -> Seq<SpecJson>
    decreases kids,
{
    if kids.len() == 0 {
        Seq::empty()
    } else {
        seq![spec_to_json_query(kids[0])] + spec_to_json_query_list(kids.drop_first())
    }
}

/// A field node the surface syntax spells exactly.
pub open spec fn subset_field_node(n: SpecFieldNode) -> bool
    decreases n,
{
    match n {
        SpecFieldNode::Comparison(c, v) => (c == Comparator::Equals || c
            == Comparator::GreaterThan || c == Comparator::LessThan) && subset_qv(v),
        SpecFieldNode::Logic(_, kids) => subset_field_list(kids),
    }
}

pub open spec fn subset_field_list(kids: Seq<SpecFieldNode>) -> bool
    decreases kids,
{
    if kids.len() == 0 {
        true
    } else {
        subset_field_node(kids[0]) && subset_field_list(kids.drop_first())
    }
}

/// A whole-record predicate the surface syntax spells exactly.
pub open spec fn subset_query_node(n: SpecQueryNode) -> bool
    decreases n,
{
    match n {
        SpecQueryNode::FieldQuery(path, fnode) => renderable_path(path) && subset_field_node(
            fnode,
        ),
        SpecQueryNode::Logic(_, kids) => subset_query_list(kids),
    }
}

pub open spec fn subset_query_list(kids: Seq<SpecQueryNode>) -> bool
    decreases kids,
{
    if kids.len() == 0 {
        true
    } else {
        subset_query_node(kids[0]) && subset_query_list(kids.drop_first())
    }
}

/// Append the decimal spelling of `n`.
fn push_digits(out: &mut String, n: usize)
    ensures
        final(out)@ == old(out)@ + digits_of(n as int),
    decreases n,
{
    if n < 10 {
        crate::strings::push_char(out, ((n + 48) as u8) as char);
    } else {
        push_digits(out, n / 10);
        crate::strings::push_char(out, ((n % 10 + 48) as u8) as char);
        proof {
            assert(final(out)@ =~= old(out)@ + digits_of(n as int));
        }
    }
}

impl FieldPath {
    /// The path as a string, in the grammar `from_str` reads.
    pub fn to_path_string(&self) -> (r: String)
        ensures
            r@ == spec_render_path(self@),
    {
        let mut acc = String::new();
        let mut i: usize = 0;
        while i < self.segments.len()
            invariant
                i <= self.segments.len(),
                self@.len() == self.segments@.len(),
                forall|j: int| 0 <= j < self.segments@.len() ==> self@[j] == self.segments@[j]@,
                acc@ =~= spec_render_path(self@.take(i as int)),
            decreases self.segments.len() - i,
        {
            proof {
                reveal_strlit(".");
                reveal_strlit("*");
                reveal_strlit("[*]");
                assert("."@ =~= seq!['.']);
                assert("*"@ =~= seq!['*']);
                assert("[*]"@ =~= seq!['[', '*', ']']);
                assert(self@.take(i + 1).drop_last() =~= self@.take(i as int));
                assert(self@.take(i + 1).last() == self@[i as int]);
            }
            match &self.segments[i] {
                PathSegment::Field(n) => {
                    if i > 0 {
                        acc.append(".");
                    }
                    acc.append(n.as_str());
                }
                PathSegment::Wildcard => {
                    if i > 0 {
                        acc.append(".");
                    }
                    acc.append("*");
                }
                PathSegment::ArrayIndex(n) => {
                    crate::strings::push_char(&mut acc, '[');
                    push_digits(&mut acc, *n);
                    crate::strings::push_char(&mut acc, ']');
                    proof {
                        assert(seg_text(self@[i as int]) =~= seq!['['] + digits_of(*n as int)
                            + seq![']']);
                        assert(acc@ =~= spec_render_path(self@.take(i as int)) + seg_text(
                            self@[i as int],
                        ));
                    }
                }
                PathSegment::ArrayWildcard => {
                    acc.append("[*]");
                }
            }
            proof {
                assert(acc@ =~= spec_render_path(self@.take(i + 1)));
            }
            i = i + 1;
        }
        proof {
            assert(self@.take(self@.len() as int) =~= self@);
        }
        acc
    }
}

impl FieldNode {
    /// The node as a JSON document; exact for the surface-syntax subset.
    pub fn to_json(&self) -> (r: JsonValue)
        ensures
            r@ == spec_to_json_field(self@),
        decreases *self,
    {
        proof {
            reveal_strlit("$and");
            reveal_strlit("$or");
            reveal_strlit("$eq");
            reveal_strlit("$gt");
            reveal_strlit("$lt");
            assert("$and"@ =~= and_key());
            assert("$or"@ =~= or_key());
            assert("$eq"@ =~= eq_key());
            assert("$gt"@ =~= gt_key());
            assert("$lt"@ =~= lt_key());
        }
        match self {
            FieldNode::Comparison(c) => {
                let key = if matches!(c.comparator, Comparator::GreaterThan) {
                    String::from_str("$gt")
                } else if matches!(c.comparator, Comparator::LessThan) {
                    String::from_str("$lt")
                } else {
                    String::from_str("$eq")
                };
                let val = json_of_qv_exec(&c.value);
                let mut fields: Vec<(String, JsonValue)> = Vec::new();
                fields.push((key, val));
                let r = JsonValue::Obj(fields);
                proof {
                    lemma_json_view_fields(r->Obj_0@);
                    assert(json_view_fields(r->Obj_0@) =~= seq![
                        (comp_key(c.comparator), json_of_qv(c.value@)),
                    ]);
                }
                r
            }
            FieldNode::Logic(l) => {
                let key = if matches!(l.operator, LogicalOperator::And) {
                    String::from_str("$and")
                } else {
                    String::from_str("$or")
                };
                let kids = &l.conditions;
                let ghost skids = crate::query_node::fnode_view_seq(kids@);
                proof {
                    lemma_fnode_view_seq(kids@);
                }
                let mut els: Vec<JsonValue> = Vec::new();
                let mut i: usize = 0;
                while i < kids.len()
                    invariant
                        *self == FieldNode::Logic(*l),
                        l.conditions == *kids,
                        i <= kids.len(),
                        skids == crate::query_node::fnode_view_seq(kids@),
                        skids.len() == kids@.len(),
                        forall|j: int| 0 <= j < kids@.len() ==> skids[j] == fnode_view(kids@[j]),
                        els@.len() == i,
                        forall|j: int| 0 <= j < i ==> els@[j]@ == spec_to_json_field(skids[j]),
                    decreases kids.len() - i,
                {
                    proof {
                        assert(decreases_to!(*self => self->Logic_0));
                        assert(decreases_to!(*l => l.conditions));
                        assert(decreases_to!(l.conditions => kids@));
                        assert(decreases_to!(kids@ => kids@[i as int]));
                    }
                    let child = kids[i].to_json();
                    els.push(child);
                    i = i + 1;
                }
                proof {
                    lemma_json_view_seq(els@);
                    lemma_to_json_field_list_index(skids);
                    assert(json_view_seq(els@) =~= spec_to_json_field_list(skids));
                }
                let mut fields: Vec<(String, JsonValue)> = Vec::new();
                fields.push((key, JsonValue::Arr(els)));
                let r = JsonValue::Obj(fields);
                proof {
                    lemma_json_view_fields(r->Obj_0@);
                    assert(json_view_fields(r->Obj_0@) =~= seq![
                        (logic_key(l.operator), SpecJson::Arr(spec_to_json_field_list(skids))),
                    ]);
                }
                r
            }
        }
    }
}

impl QueryNode {
    /// The predicate as a JSON document; exact for the surface-syntax subset.
    pub fn to_json(&self) -> (r: JsonValue)
        ensures
            r@ == spec_to_json_query(self@),
        decreases *self,
    {
        proof {
            reveal_strlit("$and");
            reveal_strlit("$or");
            assert("$and"@ =~= and_key());
            assert("$or"@ =~= or_key());
        }
        match self {
            QueryNode::FieldQuery(fq) => {
                let key = fq.path.to_path_string();
                let val = fq.node.to_json();
                let mut fields: Vec<(String, JsonValue)> = Vec::new();
                fields.push((key, val));
                let r = JsonValue::Obj(fields);
                proof {
                    lemma_json_view_fields(r->Obj_0@);
                    assert(json_view_fields(r->Obj_0@) =~= seq![
                        (spec_render_path(fq.path@), spec_to_json_field(fq.node@)),
                    ]);
                }
                r
            }
            QueryNode::Logic(l) => {
                let key = if matches!(l.operator, LogicalOperator::And) {
                    String::from_str("$and")
                } else {
                    String::from_str("$or")
                };
                let kids = &l.children;
                let ghost skids = crate::query_node::qnode_view_seq(kids@);
                proof {
                    lemma_qnode_view_seq(kids@);
                }
                let mut els: Vec<JsonValue> = Vec::new();
                let mut i: usize = 0;
                while i < kids.len()
                    invariant
                        *self == QueryNode::Logic(*l),
                        l.children == *kids,
                        i <= kids.len(),
                        skids == crate::query_node::qnode_view_seq(kids@),
                        skids.len() == kids@.len(),
                        forall|j: int| 0 <= j < kids@.len() ==> skids[j] == qnode_view(kids@[j]),
                        els@.len() == i,
                        forall|j: int| 0 <= j < i ==> els@[j]@ == spec_to_json_query(skids[j]),
                    decreases kids.len() - i,
                {
                    proof {
                        assert(decreases_to!(*self => self->Logic_0));
                        assert(decreases_to!(*l => l.children));
                        assert(decreases_to!(l.children => kids@));
                        assert(decreases_to!(kids@ => kids@[i as int]));
                    }
                    let child = kids[i].to_json();
                    els.push(child);
                    i = i + 1;
                }
                proof {
                    lemma_json_view_seq(els@);
                    lemma_to_json_query_list_index(skids);
                    assert(json_view_seq(els@) =~= spec_to_json_query_list(skids));
                }
                let mut fields: Vec<(String, JsonValue)> = Vec::new();
                fields.push((key, JsonValue::Arr(els)));
                let r = JsonValue::Obj(fields);
                proof {
                    lemma_json_view_fields(r->Obj_0@);
                    assert(json_view_fields(r->Obj_0@) =~= seq![
                        (logic_key(l.operator), SpecJson::Arr(spec_to_json_query_list(skids))),
                    ]);
                }
                r
            }
        }
    }
}

/// Index-wise reading of `spec_to_json_field_list`.
pub proof fn lemma_to_json_field_list_index(kids: Seq<SpecFieldNode>)
    ensures
        spec_to_json_field_list(kids).len() == kids.len(),
        forall|i: int| 0 <= i < kids.len() ==> spec_to_json_field_list(kids)[i]
            == spec_to_json_field(kids[i]),
    decreases kids.len(),
{
    if kids.len() > 0 {
        lemma_to_json_field_list_index(kids.drop_first());
    }
}

/// Index-wise reading of `spec_to_json_query_list`.
pub proof fn lemma_to_json_query_list_index(kids: Seq<SpecQueryNode>)
    ensures
        spec_to_json_query_list(kids).len() == kids.len(),
        forall|i: int| 0 <= i < kids.len() ==> spec_to_json_query_list(kids)[i]
            == spec_to_json_query(kids[i]),
    decreases kids.len(),
{
    if kids.len() > 0 {
        lemma_to_json_query_list_index(kids.drop_first());
    }
}

/// The JSON spelling of an expected value.
pub fn json_of_qv_exec(v: &QueryValue) -> (r: JsonValue)
    ensures
        r@ == json_of_qv(v@),
{
    match v {
        QueryValue::String(s) => JsonValue::Str(s.clone()),
        QueryValue::Number(n) => JsonValue::Num(*n),
        QueryValue::Boolean(b) => JsonValue::Bool(*b),
        _ => JsonValue::Null,
    }
}

/// Parse a field-level document.
pub fn parse_field_node(v: &JsonValue) -> (r: Result<FieldNode, String>)
    ensures
        match r {
            Ok(n) => spec_parse_field_node(v@) == Some(n@),
            Err(_) => spec_parse_field_node(v@) is None,
        },
    decreases *v,
{
    proof {
        reveal_strlit("$and");
        reveal_strlit("$or");
        reveal_strlit("$eq");
        reveal_strlit("$gt");
        reveal_strlit("$lt");
        assert("$and"@ =~= and_key());
        assert("$or"@ =~= or_key());
        assert("$eq"@ =~= eq_key());
        assert("$gt"@ =~= gt_key());
        assert("$lt"@ =~= lt_key());
    }
    match v {
        JsonValue::Obj(fields) => {
            proof {
                lemma_json_view_fields(fields@);
            }
            if fields.len() != 1 {
                return Err(String::from_str("expected a single operator key"));
            }
            let key = &fields[0].0;
            let val = &fields[0].1;
            if str_eq(key.as_str(), "$and") || str_eq(key.as_str(), "$or") {
                let op = if str_eq(key.as_str(), "$and") {
                    LogicalOperator::And
                } else {
                    LogicalOperator::Or
                };
                match val {
                    JsonValue::Arr(els) => {
                        proof {
                            lemma_json_view_seq(els@);
                        }
                        let ghost sels = json_view_seq(els@);
                        let mut kids: Vec<FieldNode> = Vec::new();
                        let mut i: usize = 0;
                        proof {
                            assert(sels.skip(0) =~= sels);
                        }
                        while i < els.len()
                            invariant
                                *v == JsonValue::Obj(*fields),
                                fields@.len() == 1,
                                fields@[0].1 == *val,
                                *val == JsonValue::Arr(*els),
                                i <= els.len(),
                                sels == json_view_seq(els@),
                                sels.len() == els@.len(),
                                forall|j: int| 0 <= j < els@.len() ==> sels[j] == json_view(
                                    els@[j],
                                ),
                                fields@[0].0@ == and_key() || fields@[0].0@ == or_key(),
                                op == (if fields@[0].0@ == and_key() {
                                    LogicalOperator::And
                                } else {
                                    LogicalOperator::Or
                                }),
                                json_view(*v) == SpecJson::Obj(json_view_fields(fields@)),
                                json_view_fields(fields@).len() == 1,
                                json_view_fields(fields@)[0] == (fields@[0].0@, json_view(
                                    fields@[0].1,
                                )),
                                match spec_parse_field_list(sels.skip(i as int)) {
                                    Some(rest) => spec_parse_field_list(sels) is Some
                                        && spec_parse_field_list(sels)->0 =~= fnodes_of(kids@)
                                        + rest,
                                    None => spec_parse_field_list(sels) is None,
                                },
                            decreases els.len() - i,
                        {
                            proof {
                                assert(decreases_to!(*v => v->Obj_0));
                                assert(decreases_to!(*fields => fields@));
                                assert(decreases_to!(fields@ => fields@[0]));
                                assert(decreases_to!(fields@[0] => fields@[0].1));
                                assert(decreases_to!(*val => val->Arr_0));
                                assert(decreases_to!(*els => els@));
                                assert(decreases_to!(els@ => els@[i as int]));
                                assert(sels.skip(i as int)[0] == sels[i as int]);
                            }
                            match parse_field_node(&els[i]) {
                                Ok(n) => {
                                    proof {
                                        assert(sels.skip(i as int).drop_first() =~= sels.skip(
                                            i + 1,
                                        ));
                                        assert(fnodes_of(kids@.push(n)) =~= fnodes_of(kids@)
                                            + seq![fnode_view(n)]);
                                    }
                                    kids.push(n);
                                }
                                Err(e) => {
                                    proof {
                                        assert(spec_parse_field_list(sels.skip(i as int))
                                            is None);
                                        assert(spec_parse_field_node(v@) is None);
                                    }
                                    return Err(e);
                                }
                            }
                            i = i + 1;
                        }
                        proof {
                            assert(sels.skip(sels.len() as int).len() == 0);
                            lemma_fnode_view_seq(kids@);
                            assert(crate::query_node::fnode_view_seq(kids@) =~= fnodes_of(kids@));
                            assert(spec_parse_field_list(sels)->0 =~= fnodes_of(kids@));
                            assert(spec_parse_field_list(sels)->0
                                == crate::query_node::fnode_view_seq(kids@));
                        }
                        Ok(FieldNode::Logic(FieldLogic { operator: op, conditions: kids }))
                    }
                    _ => Err(String::from_str("expected an array under a logic operator")),
                }
            } else if str_eq(key.as_str(), "$eq") {
                Ok(FieldNode::Comparison(crate::query_node::FieldComparison {
                    comparator: Comparator::Equals,
                    value: QueryValue::from_json(val),
                }))
            } else if str_eq(key.as_str(), "$gt") {
                Ok(FieldNode::Comparison(crate::query_node::FieldComparison {
                    comparator: Comparator::GreaterThan,
                    value: QueryValue::from_json(val),
                }))
            } else if str_eq(key.as_str(), "$lt") {
                Ok(FieldNode::Comparison(crate::query_node::FieldComparison {
                    comparator: Comparator::LessThan,
                    value: QueryValue::from_json(val),
                }))
            } else {
                Err(String::from_str("unknown field operator").concat(key.as_str()))
            }
        }
        _ => Err(String::from_str("expected an object")),
    }
}

/// The views of a list of field nodes, for loop bookkeeping.
pub open spec fn fnodes_of(ns: Seq<FieldNode>) -> Seq<SpecFieldNode> {
    Seq::new(ns.len(), |i: int| fnode_view(ns[i]))
}

/// The views of a list of query nodes, for loop bookkeeping.
pub open spec fn qnodes_of(ns: Seq<QueryNode>) -> Seq<SpecQueryNode> {
    Seq::new(ns.len(), |i: int| qnode_view(ns[i]))
}

/// Parse a whole-record predicate document.
pub fn parse_query(v: &JsonValue) -> (r: Result<QueryNode, String>)
    ensures
        match r {
            Ok(n) => spec_parse_query(v@) == Some(n@),
            Err(_) => spec_parse_query(v@) is None,
        },
    decreases *v,
{
    proof {
        reveal_strlit("$and");
        reveal_strlit("$or");
        assert("$and"@ =~= and_key());
        assert("$or"@ =~= or_key());
    }
    match v {
        JsonValue::Obj(fields) => {
            proof {
                lemma_json_view_fields(fields@);
            }
            if fields.len() != 1 {
                return Err(String::from_str("expected a single key"));
            }
            let key = &fields[0].0;
            let val = &fields[0].1;
            if str_eq(key.as_str(), "$and") || str_eq(key.as_str(), "$or") {
                let op = if str_eq(key.as_str(), "$and") {
                    LogicalOperator::And
                } else {
                    LogicalOperator::Or
                };
                match val {
                    JsonValue::Arr(els) => {
                        proof {
                            lemma_json_view_seq(els@);
                        }
                        let ghost sels = json_view_seq(els@);
                        let mut kids: Vec<QueryNode> = Vec::new();
                        let mut i: usize = 0;
                        proof {
                            assert(sels.skip(0) =~= sels);
                        }
                        while i < els.len()
                            invariant
                                *v == JsonValue::Obj(*fields),
                                fields@.len() == 1,
                                fields@[0].1 == *val,
                                *val == JsonValue::Arr(*els),
                                i <= els.len(),
                                sels == json_view_seq(els@),
                                sels.len() == els@.len(),
                                forall|j: int| 0 <= j < els@.len() ==> sels[j] == json_view(
                                    els@[j],
                                ),
                                fields@[0].0@ == and_key() || fields@[0].0@ == or_key(),
                                op == (if fields@[0].0@ == and_key() {
                                    LogicalOperator::And
                                } else {
                                    LogicalOperator::Or
                                }),
                                json_view(*v) == SpecJson::Obj(json_view_fields(fields@)),
                                json_view_fields(fields@).len() == 1,
                                json_view_fields(fields@)[0] == (fields@[0].0@, json_view(
                                    fields@[0].1,
                                )),
                                match spec_parse_query_list(sels.skip(i as int)) {
                                    Some(rest) => spec_parse_query_list(sels) is Some
                                        && spec_parse_query_list(sels)->0 =~= qnodes_of(kids@)
                                        + rest,
                                    None => spec_parse_query_list(sels) is None,
                                },
                            decreases els.len() - i,
                        {
                            proof {
                                assert(decreases_to!(*v => v->Obj_0));
                                assert(decreases_to!(*fields => fields@));
                                assert(decreases_to!(fields@ => fields@[0]));
                                assert(decreases_to!(fields@[0] => fields@[0].1));
                                assert(decreases_to!(*val => val->Arr_0));
                                assert(decreases_to!(*els => els@));
                                assert(decreases_to!(els@ => els@[i as int]));
                                assert(sels.skip(i as int)[0] == sels[i as int]);
                            }
                            match parse_query(&els[i]) {
                                Ok(n) => {
                                    proof {
                                        assert(sels.skip(i as int).drop_first() =~= sels.skip(
                                            i + 1,
                                        ));
                                        assert(qnodes_of(kids@.push(n)) =~= qnodes_of(kids@)
                                            + seq![qnode_view(n)]);
                                    }
                                    kids.push(n);
                                }
                                Err(e) => {
                                    proof {
                                        assert(spec_parse_query_list(sels.skip(i as int))
                                            is None);
                                        assert(spec_parse_query(v@) is None);
                                    }
                                    return Err(e);
                                }
                            }
                            i = i + 1;
                        }
                        proof {
                            assert(sels.skip(sels.len() as int).len() == 0);
                            lemma_qnode_view_seq(kids@);
                            assert(crate::query_node::qnode_view_seq(kids@) =~= qnodes_of(kids@));
                            assert(spec_parse_query_list(sels)->0 =~= qnodes_of(kids@));
                            assert(spec_parse_query_list(sels)->0
                                == crate::query_node::qnode_view_seq(kids@));
                        }
                        Ok(QueryNode::Logic(QueryLogicNode { operator: op, children: kids }))
                    }
                    _ => Err(String::from_str("expected an array under a logic operator")),
                }
            } else {
                match parse_field_node(val) {
                    Ok(fnode) => {
                        let path = match FieldPath::from_str(key.as_str()) {
                            Ok(p) => p,
                            Err(e) => {
                                return Err(e);
                            }
                        };
                        Ok(QueryNode::FieldQuery(FieldQueryNode { path, node: fnode }))
                    }
                    Err(e) => Err(e),
                }
            }
        }
        _ => Err(String::from_str("expected an object")),
    }
}


/// Decimal digits spell their value, and every character is a digit.
proof fn lemma_digits_of(n: int)
    requires
        0 <= n,
    ensures
        digits_of(n).len() > 0,
        crate::field_path::all_digits(digits_of(n)),
        crate::field_path::digits_val(digits_of(n)) == n,
        forall|i: int| 0 <= i < digits_of(n).len() ==> 48 <= (#[trigger] digits_of(n)[i]) as u32
            <= 57,
    decreases n,
{
    if n < 10 {
        let c = ((n + 48) as u8) as char;
        assert(c as u32 == n + 48);
        assert(digits_of(n) =~= seq![c]);
        assert(digits_of(n).drop_last() =~= Seq::<char>::empty());
        assert(crate::field_path::digits_val(Seq::<char>::empty()) == 0);
        assert(digits_of(n).last() == c);
        assert(crate::field_path::digits_val(digits_of(n)) == 0 * 10 + (c as u32 - 48));
    } else {
        lemma_digits_of(n / 10);
        let d = ((n % 10 + 48) as u8) as char;
        assert(d as u32 == n % 10 + 48);
        assert(digits_of(n).drop_last() =~= digits_of(n / 10));
        assert(digits_of(n).last() == d);
        assert(crate::field_path::digits_val(digits_of(n)) == (n / 10) * 10 + n % 10);
        assert forall|i: int| 0 <= i < digits_of(n).len() implies 48 <= (
        #[trigger] digits_of(n)[i]) as u32 <= 57 by {
            if i < digits_of(n).len() - 1 {
                assert(digits_of(n)[i] == digits_of(n / 10)[i]);
            }
        }
    }
}

/// A renderable segment's text is non-empty and free of dots.
proof fn lemma_seg_text_nodot(seg: SpecSegment)
    requires
        renderable_seg(seg),
    ensures
        seg_text(seg).len() > 0,
        forall|i: int| 0 <= i < seg_text(seg).len() ==> (#[trigger] seg_text(seg)[i]) != '.',
{
    match seg {
        SpecSegment::Field(_) => {
        }
        SpecSegment::Wildcard => {
        }
        SpecSegment::ArrayIndex(m) => {
            lemma_digits_of(m);
            assert forall|i: int| 0 <= i < seg_text(seg).len() implies (
            #[trigger] seg_text(seg)[i]) != '.' by {
                let t = seg_text(seg);
                if i == 0 {
                    assert(t[i] == '[');
                } else if i == t.len() - 1 {
                    assert(t[i] == ']');
                } else {
                    assert(t[i] == digits_of(m)[i - 1]);
                    assert(48 <= t[i] as u32 <= 57);
                }
            }
        }
        SpecSegment::ArrayWildcard => {
            assert(seg_text(seg) =~= seq!['[', '*', ']']);
        }
    }
}

/// A chunk whose bracket decomposition agrees with its parse.
pub open spec fn chunk_consistent(c: Seq<char>) -> bool {
    crate::field_path::parts_segments(crate::strings::split_on(c, '['))
        == crate::field_path::spec_parse_chunk(c)
}

/// A starter segment's text parses back as that one segment; a field chunk
/// also parses the same way as a bracket part.
proof fn lemma_starter_chunk(seg: SpecSegment)
    requires
        renderable_seg(seg),
        is_starter_seg(seg),
    ensures
        crate::field_path::spec_parse_chunk(seg_text(seg)) =~= seq![seg],
        seg is Field ==> chunk_consistent(seg_text(seg)),
{
    let t = seg_text(seg);
    match seg {
        SpecSegment::Field(n) => {
            crate::strings::lemma_first_sep_found(n, '[', n.len() as int);
            assert(crate::field_path::spec_parse_chunk(n) =~= seq![seg]);
            assert(crate::strings::split_on(n, '[') =~= seq![n]);
            assert(n != seq!['*', ']']) by {
                if n == seq!['*', ']'] {
                    assert(n[1] == ']');
                }
            }
            assert(n.last() != ']');
            assert(crate::field_path::spec_parse_part(n) =~= seq![seg]);
            assert(crate::field_path::parts_segments(seq![n])
                =~= crate::field_path::spec_parse_part(n)) by {
                assert(seq![n].drop_last() =~= Seq::<Seq<char>>::empty());
                assert(crate::field_path::parts_segments(Seq::<Seq<char>>::empty())
                    =~= Seq::<SpecSegment>::empty());
                assert(seq![n].last() == n);
            }
        }
        _ => {
            assert(t =~= seq!['*']);
            crate::strings::lemma_first_sep_found(t, '[', t.len() as int);
        }
    }
}

/// Appending a bracket segment's text to any chunk appends that one segment
/// to the chunk's bracket decomposition.
proof fn lemma_bracket_chunk_extend(c: Seq<char>, seg: SpecSegment)
    requires
        renderable_seg(seg),
        !is_starter_seg(seg),
    ensures
        crate::field_path::spec_parse_chunk(c + seg_text(seg))
            =~= crate::field_path::parts_segments(crate::strings::split_on(c, '[')) + seq![seg],
        chunk_consistent(c + seg_text(seg)),
{
    let w = match seg {
        SpecSegment::ArrayIndex(m) => digits_of(m) + seq![']'],
        _ => seq!['*', ']'],
    };
    assert(seg_text(seg) =~= seq!['['] + w);
    if seg is ArrayIndex {
        lemma_digits_of(seg->ArrayIndex_0);
    }
    assert forall|i: int| 0 <= i < w.len() implies (#[trigger] w[i]) != '[' by {
        match seg {
            SpecSegment::ArrayIndex(m) => {
                if i < w.len() - 1 {
                    assert(w[i] == digits_of(m)[i]);
                    assert(48 <= w[i] as u32 <= 57);
                } else {
                    assert(w[i] == ']');
                }
            }
            _ => {
                assert(w =~= seq!['*', ']']);
            },
        }
    }
    let ext = c + seg_text(seg);
    assert(ext =~= c + seq!['['] + w);
    crate::strings::lemma_split_append_sep(c, w, '[');
    crate::strings::lemma_split_nonempty(c, '[');
    let parts = crate::strings::split_on(c, '[');
    assert(crate::strings::split_on(ext, '[') =~= parts + seq![w]);
    assert(ext[c.len() as int] == '[');
    crate::strings::lemma_first_sep_exists(ext, '[', c.len() as int);
    assert(crate::field_path::spec_parse_part(w) =~= seq![seg]) by {
        match seg {
            SpecSegment::ArrayIndex(m) => {
                assert(w[0] == digits_of(m)[0]);
                assert(48 <= w[0] as u32 <= 57);
                assert(w != seq!['*', ']']) by {
                    if w == seq!['*', ']'] {
                        assert(w[0] == '*');
                    }
                }
                assert(w.last() == ']');
                assert(w.drop_last() =~= digits_of(m));
                assert(crate::field_path::spec_parse_index(digits_of(m)) == Some(m));
            }
            _ => {
                assert(w =~= seq!['*', ']']);
            },
        }
    }
    assert(crate::field_path::parts_segments(parts + seq![w])
        =~= crate::field_path::parts_segments(parts) + seq![seg]) by {
        assert((parts + seq![w]).drop_last() =~= parts);
        assert((parts + seq![w]).last() == w);
    }
}

/// The core of the round trip: a renderable path's string form splits into
/// the chunks its segments wrote, and those chunks parse back to the
/// segments. The last two conclusions describe the trailing chunk, which the
/// induction extends when a bracket segment follows.
proof fn lemma_render_parse_ext(segs: Seq<SpecSegment>)
    requires
        segs.len() > 0,
        forall|k: int| 0 <= k < segs.len() ==> renderable_seg(#[trigger] segs[k]),
        forall|k: int|
            0 <= k && k + 1 < segs.len() && (#[trigger] segs[k]) is Wildcard ==> is_starter_seg(
                segs[k + 1],
            ),
    ensures
        spec_render_path(segs).len() > 0,
        spec_render_path(segs)[0] == seg_text(segs[0])[0],
        crate::field_path::chunks_segments(
            crate::strings::split_on(spec_render_path(segs), '.'),
        ) =~= segs,
        segs.last() is Wildcard ==> crate::strings::split_on(spec_render_path(segs), '.').last()
            =~= seq!['*'],
        !(segs.last() is Wildcard) ==> chunk_consistent(
            crate::strings::split_on(spec_render_path(segs), '.').last(),
        ),
    decreases segs.len(),
{
    let r = spec_render_path(segs);
    let last = segs.last();
    lemma_seg_text_nodot(last);
    if segs.len() == 1 {
        assert(r == seg_text(last));
        crate::strings::lemma_first_sep_found(r, '.', r.len() as int);
        assert(crate::strings::split_on(r, '.') =~= seq![r]);
        assert(crate::field_path::chunks_segments(seq![r])
            =~= crate::field_path::spec_parse_chunk(r)) by {
            assert(seq![r].drop_last() =~= Seq::<Seq<char>>::empty());
            assert(crate::field_path::chunks_segments(Seq::<Seq<char>>::empty())
                =~= Seq::<SpecSegment>::empty());
            assert(seq![r].last() == r);
        }
        if is_starter_seg(last) {
            lemma_starter_chunk(last);
        } else {
            assert(Seq::<char>::empty() + seg_text(last) =~= seg_text(last));
            lemma_bracket_chunk_extend(Seq::<char>::empty(), last);
            assert(crate::strings::split_on(Seq::<char>::empty(), '[')
                =~= seq![Seq::<char>::empty()]);
            assert(crate::field_path::parts_segments(seq![Seq::<char>::empty()])
                =~= crate::field_path::spec_parse_part(Seq::<char>::empty())) by {
                assert(seq![Seq::<char>::empty()].drop_last() =~= Seq::<Seq<char>>::empty());
                assert(crate::field_path::parts_segments(Seq::<Seq<char>>::empty())
                    =~= Seq::<SpecSegment>::empty());
                assert(seq![Seq::<char>::empty()].last() == Seq::<char>::empty());
            }
            assert(crate::field_path::spec_parse_chunk(seg_text(last)) =~= seq![last]);
        }
    } else {
        let prefix = segs.drop_last();
        lemma_render_parse_ext(prefix);
        let pr = spec_render_path(prefix);
        let pchunks = crate::strings::split_on(pr, '.');
        crate::strings::lemma_split_nonempty(pr, '.');
        assert(r == pr + seg_sep(last) + seg_text(last));
        if is_starter_seg(last) {
            assert(seg_sep(last) =~= seq!['.']);
            crate::strings::lemma_split_append_sep(pr, seg_text(last), '.');
            assert(crate::strings::split_on(r, '.') =~= pchunks + seq![seg_text(last)]);
            lemma_starter_chunk(last);
            assert(crate::field_path::chunks_segments(pchunks + seq![seg_text(last)])
                =~= crate::field_path::chunks_segments(pchunks)
                + crate::field_path::spec_parse_chunk(seg_text(last))) by {
                assert((pchunks + seq![seg_text(last)]).drop_last() =~= pchunks);
                assert((pchunks + seq![seg_text(last)]).last() == seg_text(last));
            }
        } else {
            assert(!(prefix.last() is Wildcard)) by {
                assert(segs[segs.len() - 2] is Wildcard ==> is_starter_seg(
                    segs[segs.len() - 1],
                ));
                assert(prefix.last() == segs[segs.len() - 2]);
            }
            let c = pchunks.last();
            assert(chunk_consistent(c));
            assert(seg_sep(last) =~= Seq::<char>::empty());
            assert(r =~= pr + seg_text(last));
            crate::strings::lemma_split_append(pr, seg_text(last), '.');
            assert(crate::strings::split_on(r, '.') =~= pchunks.drop_last().push(
                c + seg_text(last),
            ));
            lemma_bracket_chunk_extend(c, last);
            assert(crate::field_path::spec_parse_chunk(c + seg_text(last))
                =~= crate::field_path::spec_parse_chunk(c) + seq![last]);
            assert(crate::field_path::chunks_segments(pchunks.drop_last().push(
                c + seg_text(last),
            )) =~= crate::field_path::chunks_segments(pchunks.drop_last())
                + crate::field_path::spec_parse_chunk(c + seg_text(last))) by {
                assert(pchunks.drop_last().push(c + seg_text(last)).drop_last()
                    =~= pchunks.drop_last());
            }
            assert(crate::field_path::chunks_segments(pchunks)
                =~= crate::field_path::chunks_segments(pchunks.drop_last())
                + crate::field_path::spec_parse_chunk(c)) by {
                assert(pchunks.drop_last().push(c) =~= pchunks);
            }
            assert(crate::field_path::chunks_segments(
                crate::strings::split_on(r, '.'),
            ) =~= prefix + seq![last]);
        }
        assert(prefix + seq![last] =~= segs);
        assert(r[0] == pr[0]);
    }
}

/// A renderable path survives the trip to its string form and back.
pub proof fn lemma_path_round_trip(segs: Seq<SpecSegment>)
    requires
        renderable_path(segs),
    ensures
        spec_parse_path(spec_render_path(segs)) == segs,
{
    lemma_render_parse_ext(segs);
    assert(spec_parse_path(spec_render_path(segs)) =~= segs);
}

/// The operator keys are pairwise distinct, and none is a renderable path.
proof fn lemma_keys_distinct()
    ensures
        and_key() != or_key(),
        eq_key() != and_key(),
        eq_key() != or_key(),
        gt_key() != and_key(),
        gt_key() != or_key(),
        lt_key() != and_key(),
        lt_key() != or_key(),
        eq_key() != gt_key(),
        eq_key() != lt_key(),
        gt_key() != lt_key(),
{
    assert(and_key().len() == 4 && or_key().len() == 3 && eq_key().len() == 3 && gt_key().len()
        == 3 && lt_key().len() == 3);
    assert(or_key()[1] == 'o' && eq_key()[1] == 'e' && gt_key()[1] == 'g' && lt_key()[1] == 'l');
}

/// A field node in the exact subset survives the trip through its JSON form.
pub proof fn lemma_field_round_trip(n: SpecFieldNode)
    requires
        subset_field_node(n),
    ensures
        spec_parse_field_node(spec_to_json_field(n)) == Some(n),
    decreases n,
{
    lemma_keys_distinct();
    match n {
        SpecFieldNode::Comparison(c, v) => {
        }
        SpecFieldNode::Logic(op, kids) => {
            lemma_field_list_round_trip(kids);
        }
    }
}

pub proof fn lemma_field_list_round_trip(kids: Seq<SpecFieldNode>)
    requires
        subset_field_list(kids),
    ensures
        spec_parse_field_list(spec_to_json_field_list(kids)) == Some(kids),
    decreases kids,
{
    if kids.len() == 0 {
        assert(spec_to_json_field_list(kids).len() == 0);
    } else {
        let els = spec_to_json_field_list(kids);
        assert(els[0] == spec_to_json_field(kids[0]));
        assert(els.drop_first() =~= spec_to_json_field_list(kids.drop_first()));
        lemma_field_round_trip(kids[0]);
        lemma_field_list_round_trip(kids.drop_first());
        assert(spec_parse_field_list(els)->0 =~= kids);
    }
}

/// A predicate in the exact subset survives the trip through its JSON form:
/// rendering it as a document and parsing the document gives the predicate
/// back. This holds for trees built from AND and OR over equality and
/// ordering comparisons on strings, numbers and booleans, addressed by
/// renderable paths of names, wildcards and array indices.
pub proof fn lemma_query_round_trip(n: SpecQueryNode)
    requires
        subset_query_node(n),
    ensures
        spec_parse_query(spec_to_json_query(n)) == Some(n),
    decreases n,
{
    lemma_keys_distinct();
    match n {
        SpecQueryNode::FieldQuery(path, fnode) => {
            let key = spec_render_path(path);
            lemma_render_parse_ext(path);
            assert(key[0] == seg_text(path[0])[0]);
            assert(key[0] != '$') by {
                match path[0] {
                    SpecSegment::Field(_) => {},
                    SpecSegment::Wildcard => {
                        assert(seg_text(path[0])[0] == '*');
                    },
                    SpecSegment::ArrayIndex(_) => {
                        assert(seg_text(path[0])[0] == '[');
                    },
                    SpecSegment::ArrayWildcard => {
                        assert(seg_text(path[0])[0] == '[');
                    },
                }
            }
            assert(key != and_key() && key != or_key());
            lemma_path_round_trip(path);
            lemma_field_round_trip(fnode);
        }
        SpecQueryNode::Logic(op, kids) => {
            lemma_query_list_round_trip(kids);
        }
    }
}

pub proof fn lemma_query_list_round_trip(kids: Seq<SpecQueryNode>)
    requires
        subset_query_list(kids),
    ensures
        spec_parse_query_list(spec_to_json_query_list(kids)) == Some(kids),
    decreases kids,
{
    if kids.len() == 0 {
        assert(spec_to_json_query_list(kids).len() == 0);
    } else {
        let els = spec_to_json_query_list(kids);
        assert(els[0] == spec_to_json_query(kids[0]));
        assert(els.drop_first() =~= spec_to_json_query_list(kids.drop_first()));
        lemma_query_round_trip(kids[0]);
        lemma_query_list_round_trip(kids.drop_first());
        assert(spec_parse_query_list(els)->0 =~= kids);
    }
}

} // verus!
