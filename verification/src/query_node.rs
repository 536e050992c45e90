//! The predicate tree: logical nodes over field queries, and field-level
//! logic over comparisons.

use vstd::prelude::*;

use crate::comparator::{spec_comp_eval, Comparator};
use crate::field_path::{spec_extract, FieldPath, SpecSegment};
use crate::json::{JsonValue, SpecJson};
use crate::query_value::{QueryValue, SpecQueryValue};

verus! {

/// How a logic node combines its children.
#[derive(Debug, Clone, Copy, PartialEq, Eq, Structural)]
pub enum LogicalOperator {
    And,
    Or,
}

/// A comparator applied to one expected value.
#[derive(Debug)]
pub struct FieldComparison {
    pub comparator: Comparator,
    pub value: QueryValue,
}

/// Mathematical model of a node evaluated against one extracted field value.
pub enum SpecFieldNode {
    Comparison(Comparator, SpecQueryValue),
    Logic(LogicalOperator, Seq<SpecFieldNode>),
}

/// A node evaluated against one extracted field value: a comparison, or
/// logic over such nodes.
#[derive(Debug)]
pub enum FieldNode {
    Comparison(FieldComparison),
    Logic(FieldLogic),
}

/// AND/OR over conditions on the same extracted field value.
#[derive(Debug)]
pub struct FieldLogic {
    pub operator: LogicalOperator,
    pub conditions: Vec<FieldNode>,
}

/// Mathematical model of a whole-record predicate node.
pub enum SpecQueryNode {
    FieldQuery(Seq<SpecSegment>, SpecFieldNode),
    Logic(LogicalOperator, Seq<SpecQueryNode>),
}

/// A whole-record predicate: a field query, or logic over predicates.
#[derive(Debug)]
pub enum QueryNode {
    FieldQuery(FieldQueryNode),
    Logic(QueryLogicNode),
}

/// AND/OR over whole-record predicates.
#[derive(Debug)]
pub struct QueryLogicNode {
    pub operator: LogicalOperator,
    pub children: Vec<QueryNode>,
}

/// A compiled path together with the node applied to what it extracts.
#[derive(Debug)]
pub struct FieldQueryNode {
    pub path: FieldPath,
    pub node: FieldNode,
}

/// The model of a `FieldNode`, node by node.
pub open spec fn fnode_view(n: FieldNode) -> SpecFieldNode
    decreases n,
{
    match n {
        FieldNode::Comparison(c) => SpecFieldNode::Comparison(c.comparator, c.value@),
        FieldNode::Logic(l) => SpecFieldNode::Logic(l.operator, fnode_view_seq(l.conditions@)),
    }
}

pub open spec fn fnode_view_seq(ns: Seq<FieldNode>) -> Seq<SpecFieldNode>
    decreases ns,
{
    if ns.len() == 0 {
        Seq::empty()
    } else {
        seq![fnode_view(ns[0])] + fnode_view_seq(ns.drop_first())
    }
}

/// Index-wise reading of `fnode_view_seq`.
pub proof fn lemma_fnode_view_seq(ns: Seq<FieldNode>)
    ensures
        fnode_view_seq(ns).len() == ns.len(),
        forall|i: int| 0 <= i < ns.len() ==> fnode_view_seq(ns)[i] == fnode_view(ns[i]),
    decreases ns.len(),
{
    if ns.len() > 0 {
        lemma_fnode_view_seq(ns.drop_first());
    }
}

impl View for FieldNode {
    type V = SpecFieldNode;

    #[verifier::inline]
    open spec fn view(&self) -> SpecFieldNode {
        fnode_view(*self)
    }
}

/// The model of a `QueryNode`, node by node.
pub open spec fn qnode_view(n: QueryNode) -> SpecQueryNode
    decreases n,
{
    match n {
        QueryNode::FieldQuery(fq) => SpecQueryNode::FieldQuery(fq.path@, fq.node@),
        QueryNode::Logic(l) => SpecQueryNode::Logic(l.operator, qnode_view_seq(l.children@)),
    }
}

pub open spec fn qnode_view_seq(ns: Seq<QueryNode>) -> Seq<SpecQueryNode>
    decreases ns,
{
    if ns.len() == 0 {
        Seq::empty()
    } else {
        seq![qnode_view(ns[0])] + qnode_view_seq(ns.drop_first())
    }
}

/// Index-wise reading of `qnode_view_seq`.
pub proof fn lemma_qnode_view_seq(ns: Seq<QueryNode>)
    ensures
        qnode_view_seq(ns).len() == ns.len(),
        forall|i: int| 0 <= i < ns.len() ==> qnode_view_seq(ns)[i] == qnode_view(ns[i]),
    decreases ns.len(),
{
    if ns.len() > 0 {
        lemma_qnode_view_seq(ns.drop_first());
    }
}

impl View for QueryNode {
    type V = SpecQueryNode;

    #[verifier::inline]
    open spec fn view(&self) -> SpecQueryNode {
        qnode_view(*self)
    }
}

/// A field node against one extracted value: a comparison decides through
/// the comparator; logic composes its children on the same value.
pub open spec fn spec_eval_field_node(n: SpecFieldNode, v: SpecJson) -> bool
    decreases n,
{
    match n {
        SpecFieldNode::Comparison(c, e) => spec_comp_eval(c, Some(e), seq![v]),
        SpecFieldNode::Logic(op, kids) => spec_eval_field_list(op, kids, v),
    }
}

pub open spec fn spec_eval_field_list(op: LogicalOperator, kids: Seq<SpecFieldNode>, v: SpecJson)
    -> bool
    decreases kids,
{
    if kids.len() == 0 {
        op == LogicalOperator::And
    } else {
        match op {
            LogicalOperator::And => spec_eval_field_node(kids[0], v) && spec_eval_field_list(
                op,
                kids.drop_first(),
                v,
            ),
            LogicalOperator::Or => spec_eval_field_node(kids[0], v) || spec_eval_field_list(
                op,
                kids.drop_first(),
                v,
            ),
        }
    }
}

/// A field node against a path that matched nothing: only the absence test
/// holds, and logic composes as usual.
pub open spec fn spec_eval_field_missing(n: SpecFieldNode) -> bool
    decreases n,
{
    match n {
        SpecFieldNode::Comparison(c, _) => c is NotExists,
        SpecFieldNode::Logic(op, kids) => spec_eval_field_missing_list(op, kids),
    }
}

pub open spec fn spec_eval_field_missing_list(op: LogicalOperator, kids: Seq<SpecFieldNode>)
    -> bool
    decreases kids,
{
    if kids.len() == 0 {
        op == LogicalOperator::And
    } else {
        match op {
            LogicalOperator::And => spec_eval_field_missing(kids[0]) && spec_eval_field_missing_list(
                op,
                kids.drop_first(),
            ),
            LogicalOperator::Or => spec_eval_field_missing(kids[0]) || spec_eval_field_missing_list(
                op,
                kids.drop_first(),
            ),
        }
    }
}

/// A predicate node against a whole record: a field query extracts and then
/// evaluates, and a path that matches nothing satisfies only absence tests;
/// logic composes its children on the same record.
pub open spec fn spec_eval_query_node(n: SpecQueryNode, rec: SpecJson) -> bool
    decreases n,
{
    match n {
        SpecQueryNode::FieldQuery(path, fnode) => match spec_extract(path, rec) {
            Some(v) => spec_eval_field_node(fnode, v),
            None => spec_eval_field_missing(fnode),
        },
        SpecQueryNode::Logic(op, kids) => spec_eval_query_list(op, kids, rec),
    }
}

pub open spec fn spec_eval_query_list(op: LogicalOperator, kids: Seq<SpecQueryNode>, rec: SpecJson)
    -> bool
    decreases kids,
{
    if kids.len() == 0 {
        op == LogicalOperator::And
    } else {
        match op {
            LogicalOperator::And => spec_eval_query_node(kids[0], rec) && spec_eval_query_list(
                op,
                kids.drop_first(),
                rec,
            ),
            LogicalOperator::Or => spec_eval_query_node(kids[0], rec) || spec_eval_query_list(
                op,
                kids.drop_first(),
                rec,
            ),
        }
    }
}

/// Short-circuit reading of a field logic list: AND fails at the first false
/// child, OR succeeds at the first true one.
proof fn lemma_eval_field_list_skip(
    op: LogicalOperator,
    kids: Seq<SpecFieldNode>,
    v: SpecJson,
    i: int,
)
    requires
        0 <= i <= kids.len(),
        forall|j: int| 0 <= j < i ==> spec_eval_field_node(#[trigger] kids[j], v) == (op
            == LogicalOperator::And),
    ensures
        spec_eval_field_list(op, kids, v) == spec_eval_field_list(op, kids.skip(i), v),
    decreases i,
{
    if i > 0 {
        lemma_eval_field_list_skip(op, kids, v, i - 1);
        assert(kids.skip(i - 1).drop_first() =~= kids.skip(i));
        assert(kids.skip(i - 1)[0] == kids[i - 1]);
    } else {
        assert(kids.skip(0) =~= kids);
    }
}

/// Short-circuit reading of a missing-field logic list.
proof fn lemma_eval_field_missing_list_skip(op: LogicalOperator, kids: Seq<SpecFieldNode>, i: int)
    requires
        0 <= i <= kids.len(),
        forall|j: int| 0 <= j < i ==> spec_eval_field_missing(#[trigger] kids[j]) == (op
            == LogicalOperator::And),
    ensures
        spec_eval_field_missing_list(op, kids) == spec_eval_field_missing_list(op, kids.skip(i)),
    decreases i,
{
    if i > 0 {
        lemma_eval_field_missing_list_skip(op, kids, i - 1);
        assert(kids.skip(i - 1).drop_first() =~= kids.skip(i));
        assert(kids.skip(i - 1)[0] == kids[i - 1]);
    } else {
        assert(kids.skip(0) =~= kids);
    }
}

/// Short-circuit reading of a query logic list.
proof fn lemma_eval_query_list_skip(
    op: LogicalOperator,
    kids: Seq<SpecQueryNode>,
    rec: SpecJson,
    i: int,
)
    requires
        0 <= i <= kids.len(),
        forall|j: int| 0 <= j < i ==> spec_eval_query_node(#[trigger] kids[j], rec) == (op
            == LogicalOperator::And),
    ensures
        spec_eval_query_list(op, kids, rec) == spec_eval_query_list(op, kids.skip(i), rec),
    decreases i,
{
    if i > 0 {
        lemma_eval_query_list_skip(op, kids, rec, i - 1);
        assert(kids.skip(i - 1).drop_first() =~= kids.skip(i));
        assert(kids.skip(i - 1)[0] == kids[i - 1]);
    } else {
        assert(kids.skip(0) =~= kids);
    }
}

impl FieldComparison {
    /// Greater-than comparison against `value`.
    pub fn gt(value: QueryValue) -> (r: FieldComparison)
        ensures
            r.comparator == Comparator::GreaterThan,
            r.value@ == value@,
    {
        FieldComparison { comparator: Comparator::GreaterThan, value }
    }

    /// Less-than comparison against `value`.
    pub fn lt(value: QueryValue) -> (r: FieldComparison)
        ensures
            r.comparator == Comparator::LessThan,
            r.value@ == value@,
    {
        FieldComparison { comparator: Comparator::LessThan, value }
    }

    /// Equality comparison against `value`.
    pub fn eq(value: QueryValue) -> (r: FieldComparison)
        ensures
            r.comparator == Comparator::Equals,
            r.value@ == value@,
    {
        FieldComparison { comparator: Comparator::Equals, value }
    }

    /// Evaluate against one extracted field value.
    pub fn evaluate(&self, field_value: &JsonValue) -> (r: bool)
        ensures
            r == spec_comp_eval(self.comparator, Some(self.value@), seq![field_value@]),
    {
        self.comparator.compare(field_value, &Some(self.value.deep_copy()))
    }

    /// Copy; derived `Clone` would say nothing of the result in contracts.
    pub fn deep_copy(&self) -> (r: FieldComparison)
        ensures
            r.comparator == self.comparator,
            r.value@ == self.value@,
    {
        FieldComparison { comparator: self.comparator, value: self.value.deep_copy() }
    }
}

impl FieldNode {
    /// Evaluate against one extracted field value.
    pub fn evaluate(&self, field_value: &JsonValue) -> (r: bool)
        ensures
            r == spec_eval_field_node(self@, field_value@),
        decreases *self,
    {
        match self {
            FieldNode::Comparison(comp) => comp.evaluate(field_value),
            FieldNode::Logic(logic) => {
                proof {
                    lemma_fnode_view_seq(logic.conditions@);
                }
                let kids = &logic.conditions;
                let ghost skids = fnode_view_seq(kids@);
                let mut i: usize = 0;
                proof {
                    lemma_eval_field_list_skip(logic.operator, skids, field_value@, 0);
                }
                while i < kids.len()
                    invariant
                        *self == FieldNode::Logic(*logic),
                        logic.conditions == *kids,
                        i <= kids.len(),
                        skids == fnode_view_seq(kids@),
                        skids.len() == kids@.len(),
                        forall|j: int| 0 <= j < kids@.len() ==> skids[j] == fnode_view(kids@[j]),
                        spec_eval_field_list(logic.operator, skids, field_value@)
                            == spec_eval_field_list(
                            logic.operator,
                            skids.skip(i as int),
                            field_value@,
                        ),
                    decreases kids.len() - i,
                {
                    proof {
                        assert(decreases_to!(*self => self->Logic_0));
                        assert(decreases_to!(*logic => logic.conditions));
                        assert(decreases_to!(logic.conditions => kids@));
                        assert(decreases_to!(kids@ => kids@[i as int]));
                    }
                    let child_true = kids[i].evaluate(field_value);
                    proof {
                        assert(skids.skip(i as int)[0] == skids[i as int]);
                        assert(skids.skip(i as int).drop_first() =~= skids.skip(i + 1));
                    }
                    match logic.operator {
                        LogicalOperator::And => {
                            if !child_true {
                                return false;
                            }
                        }
                        LogicalOperator::Or => {
                            if child_true {
                                return true;
                            }
                        }
                    }
                    i = i + 1;
                }
                proof {
                    assert(skids.skip(skids.len() as int).len() == 0);
                }
                match logic.operator {
                    LogicalOperator::And => true,
                    LogicalOperator::Or => false,
                }
            }
        }
    }
}

impl FieldNode {
    /// Evaluate against a path that matched nothing: only absence tests hold.
    pub fn evaluate_missing(&self) -> (r: bool)
        ensures
            r == spec_eval_field_missing(self@),
        decreases *self,
    {
        match self {
            FieldNode::Comparison(comp) => matches!(comp.comparator, Comparator::NotExists),
            FieldNode::Logic(logic) => {
                proof {
                    lemma_fnode_view_seq(logic.conditions@);
                }
                let kids = &logic.conditions;
                let ghost skids = fnode_view_seq(kids@);
                let mut i: usize = 0;
                proof {
                    lemma_eval_field_missing_list_skip(logic.operator, skids, 0);
                }
                while i < kids.len()
                    invariant
                        *self == FieldNode::Logic(*logic),
                        logic.conditions == *kids,
                        i <= kids.len(),
                        skids == fnode_view_seq(kids@),
                        skids.len() == kids@.len(),
                        forall|j: int| 0 <= j < kids@.len() ==> skids[j] == fnode_view(kids@[j]),
                        spec_eval_field_missing_list(logic.operator, skids)
                            == spec_eval_field_missing_list(logic.operator, skids.skip(i as int)),
                    decreases kids.len() - i,
                {
                    proof {
                        assert(decreases_to!(*self => self->Logic_0));
                        assert(decreases_to!(*logic => logic.conditions));
                        assert(decreases_to!(logic.conditions => kids@));
                        assert(decreases_to!(kids@ => kids@[i as int]));
                    }
                    let child_true = kids[i].evaluate_missing();
                    proof {
                        assert(skids.skip(i as int)[0] == skids[i as int]);
                        assert(skids.skip(i as int).drop_first() =~= skids.skip(i + 1));
                    }
                    match logic.operator {
                        LogicalOperator::And => {
                            if !child_true {
                                return false;
                            }
                        }
                        LogicalOperator::Or => {
                            if child_true {
                                return true;
                            }
                        }
                    }
                    i = i + 1;
                }
                proof {
                    assert(skids.skip(skids.len() as int).len() == 0);
                }
                match logic.operator {
                    LogicalOperator::And => true,
                    LogicalOperator::Or => false,
                }
            }
        }
    }
}

impl FieldNode {
    /// Deep copy of the node tree.
    pub fn deep_copy(&self) -> (r: FieldNode)
        ensures
            r@ == self@,
        decreases *self,
    {
        match self {
            FieldNode::Comparison(comp) => FieldNode::Comparison(comp.deep_copy()),
            FieldNode::Logic(logic) => {
                proof {
                    lemma_fnode_view_seq(logic.conditions@);
                }
                let kids = &logic.conditions;
                let mut out: Vec<FieldNode> = Vec::new();
                let mut i: usize = 0;
                while i < kids.len()
                    invariant
                        *self == FieldNode::Logic(*logic),
                        logic.conditions == *kids,
                        i <= kids.len(),
                        out@.len() == i,
                        forall|j: int| 0 <= j < i ==> out@[j]@ == kids@[j]@,
                    decreases kids.len() - i,
                {
                    proof {
                        assert(decreases_to!(*self => self->Logic_0));
                        assert(decreases_to!(*logic => logic.conditions));
                        assert(decreases_to!(logic.conditions => kids@));
                        assert(decreases_to!(kids@ => kids@[i as int]));
                    }
                    let child = kids[i].deep_copy();
                    out.push(child);
                    i = i + 1;
                }
                let r = FieldNode::Logic(FieldLogic { operator: logic.operator, conditions: out });
                proof {
                    lemma_fnode_view_seq(r->Logic_0.conditions@);
                    assert(fnode_view_seq(r->Logic_0.conditions@) =~= fnode_view_seq(kids@));
                }
                r
            }
        }
    }
}

impl FieldLogic {
    /// An empty logic node; AND of nothing holds, OR of nothing does not.
    pub fn new(operator: LogicalOperator) -> (r: FieldLogic)
        ensures
            r.operator == operator,
            r.conditions@.len() == 0,
    {
        FieldLogic { operator, conditions: Vec::new() }
    }

    /// Append one condition.
    pub fn with_node(self, node: FieldNode) -> (r: FieldLogic)
        ensures
            r.operator == self.operator,
            r.conditions@ == self.conditions@.push(node),
    {
        let mut s = self;
        s.conditions.push(node);
        s
    }

    /// Append several conditions, in order.
    pub fn with_nodes(self, nodes: Vec<FieldNode>) -> (r: FieldLogic)
        ensures
            r.operator == self.operator,
            r.conditions@ == self.conditions@ + nodes@,
    {
        let mut s = self;
        let mut rest = nodes;
        let ghost base = s.conditions@;
        let ghost all = rest@;
        proof {
            assert(all.skip(0) =~= all);
        }
        while rest.len() > 0
            invariant
                s.operator == self.operator,
                rest@.len() <= all.len(),
                rest@ =~= all.skip(all.len() - rest@.len()),
                s.conditions@ =~= base + all.take(all.len() - rest@.len()),
            decreases rest.len(),
        {
            let ghost before = s.conditions@;
            let ghost done = all.len() - rest@.len();
            let node = rest.remove(0);
            s.conditions.push(node);
            proof {
                assert(node == all[done]);
                assert(base + all.take(done + 1) =~= before.push(all[done]));
                assert(rest@ =~= all.skip(done + 1));
            }
        }
        proof {
            assert(all.take(all.len() as int) =~= all);
        }
        s
    }
}

impl QueryLogicNode {
    /// An empty logic node; AND of nothing holds, OR of nothing does not.
    pub fn new(operator: LogicalOperator) -> (r: QueryLogicNode)
        ensures
            r.operator == operator,
            r.children@.len() == 0,
    {
        QueryLogicNode { operator, children: Vec::new() }
    }

    /// Append one child predicate.
    pub fn with_node(self, node: QueryNode) -> (r: QueryLogicNode)
        ensures
            r.operator == self.operator,
            r.children@ == self.children@.push(node),
    {
        let mut s = self;
        s.children.push(node);
        s
    }

    /// Evaluate against a whole record.
    pub fn evaluate(&self, value: &JsonValue) -> (r: bool)
        ensures
            r == spec_eval_query_list(self.operator, qnode_view_seq(self.children@), value@),
        decreases *self,
    {
        proof {
            lemma_qnode_view_seq(self.children@);
        }
        let kids = &self.children;
        let ghost skids = qnode_view_seq(kids@);
        let mut i: usize = 0;
        proof {
            lemma_eval_query_list_skip(self.operator, skids, value@, 0);
        }
        while i < kids.len()
            invariant
                self.children == *kids,
                i <= kids.len(),
                skids == qnode_view_seq(kids@),
                skids.len() == kids@.len(),
                forall|j: int| 0 <= j < kids@.len() ==> skids[j] == qnode_view(kids@[j]),
                spec_eval_query_list(self.operator, skids, value@) == spec_eval_query_list(
                    self.operator,
                    skids.skip(i as int),
                    value@,
                ),
            decreases kids.len() - i,
        {
            proof {
                assert(decreases_to!(*self => self.children));
                assert(decreases_to!(self.children => kids@));
                assert(decreases_to!(kids@ => kids@[i as int]));
            }
            let child_true = kids[i].evaluate(value);
            proof {
                assert(skids.skip(i as int)[0] == skids[i as int]);
                assert(skids.skip(i as int).drop_first() =~= skids.skip(i + 1));
            }
            match self.operator {
                LogicalOperator::And => {
                    if !child_true {
                        return false;
                    }
                }
                LogicalOperator::Or => {
                    if child_true {
                        return true;
                    }
                }
            }
            i = i + 1;
        }
        proof {
            assert(skids.skip(skids.len() as int).len() == 0);
        }
        match self.operator {
            LogicalOperator::And => true,
            LogicalOperator::Or => false,
        }
    }
}

impl FieldQueryNode {
    /// A predicate that extracts `path` and applies `node` to the result.
    pub fn new(path: FieldPath, node: FieldNode) -> (r: FieldQueryNode)
        ensures
            r.path@ == path@,
            r.node@ == node@,
    {
        FieldQueryNode { path, node }
    }

    /// Evaluate against a whole record: a path that matches nothing
    /// satisfies only absence tests.
    pub fn evaluate(&self, value: &JsonValue) -> (r: bool)
        ensures
            r == spec_eval_query_node(
                SpecQueryNode::FieldQuery(self.path@, self.node@),
                value@,
            ),
    {
        match self.path.extract(value) {
            Some(field_value) => self.node.evaluate(&field_value),
            None => self.node.evaluate_missing(),
        }
    }
}

impl QueryNode {
    /// Deep copy of the predicate tree.
    pub fn deep_copy(&self) -> (r: QueryNode)
        ensures
            r@ == self@,
        decreases *self,
    {
        match self {
            QueryNode::FieldQuery(fq) => QueryNode::FieldQuery(FieldQueryNode {
                path: fq.path.deep_copy(),
                node: fq.node.deep_copy(),
            }),
            QueryNode::Logic(l) => {
                proof {
                    lemma_qnode_view_seq(l.children@);
                }
                let kids = &l.children;
                let mut out: Vec<QueryNode> = Vec::new();
                let mut i: usize = 0;
                while i < kids.len()
                    invariant
                        *self == QueryNode::Logic(*l),
                        l.children == *kids,
                        i <= kids.len(),
                        out@.len() == i,
                        forall|j: int| 0 <= j < i ==> out@[j]@ == kids@[j]@,
                    decreases kids.len() - i,
                {
                    proof {
                        assert(decreases_to!(*self => self->Logic_0));
                        assert(decreases_to!(*l => l.children));
                        assert(decreases_to!(l.children => kids@));
                        assert(decreases_to!(kids@ => kids@[i as int]));
                    }
                    let child = kids[i].deep_copy();
                    out.push(child);
                    i = i + 1;
                }
                let r = QueryNode::Logic(QueryLogicNode { operator: l.operator, children: out });
                proof {
                    lemma_qnode_view_seq(r->Logic_0.children@);
                    assert(qnode_view_seq(r->Logic_0.children@) =~= qnode_view_seq(kids@));
                }
                r
            }
        }
    }

    /// Evaluate against a whole record.
    pub fn evaluate(&self, value: &JsonValue) -> (r: bool)
        ensures
            r == spec_eval_query_node(self@, value@),
        decreases *self,
    {
        match self {
            QueryNode::FieldQuery(field_node) => field_node.evaluate(value),
            QueryNode::Logic(logical_node) => {
                proof {
                    assert(decreases_to!(*self => self->Logic_0));
                }
                logical_node.evaluate(value)
            }
        }
    }
}

} // verus!
