//! The closed grammar of logical statements, the rule names, and the proof
//! step records, together with their mathematical views.

use vstd::prelude::*;

verus! {

/// A logical statement. Text fields are opaque identifiers: equality is
/// structural, and no further logical structure is read out of the text.
#[derive(Debug, Clone, PartialEq, Eq)]
pub enum LogicalExpr {
    /// "antecedent implies consequent"
    Implication(String, String),
    /// "not proposition"
    Negation(String),
    /// "left and right" (parsed, but used by no inference rule)
    Conjunction(String, String),
    /// "left or right" (parsed, but used by no inference rule)
    Disjunction(String, String),
    /// an atomic asserted or derived fact
    Conclusion(String),
}

/// The mathematical value of a `LogicalExpr`: the same shape over `Seq<char>`.
#[verifier::ext_equal]
pub enum ExprView {
    Implication(Seq<char>, Seq<char>),
    Negation(Seq<char>),
    Conjunction(Seq<char>, Seq<char>),
    Disjunction(Seq<char>, Seq<char>),
    Conclusion(Seq<char>),
}

impl View for LogicalExpr {
    type V = ExprView;

    open spec fn view(&self) -> ExprView {
        match self {
            LogicalExpr::Implication(p, q) => ExprView::Implication(p@, q@),
            LogicalExpr::Negation(p) => ExprView::Negation(p@),
            LogicalExpr::Conjunction(p, q) => ExprView::Conjunction(p@, q@),
            LogicalExpr::Disjunction(p, q) => ExprView::Disjunction(p@, q@),
            LogicalExpr::Conclusion(p) => ExprView::Conclusion(p@),
        }
    }
}

impl LogicalExpr {
    /// The "left-hand" text of any variant except `Conclusion`.
    pub fn get_subject(&self) -> (r: Option<&String>)
        ensures
            match self@ {
                ExprView::Implication(p, _) => r matches Some(s) && s@ == p,
                ExprView::Negation(p) => r matches Some(s) && s@ == p,
                ExprView::Conjunction(p, _) => r matches Some(s) && s@ == p,
                ExprView::Disjunction(p, _) => r matches Some(s) && s@ == p,
                ExprView::Conclusion(_) => r is None,
            },
    {
        match self {
            LogicalExpr::Implication(p, _) => Some(p),
            LogicalExpr::Negation(p) => Some(p),
            LogicalExpr::Conjunction(p, _) => Some(p),
            LogicalExpr::Disjunction(p, _) => Some(p),
            LogicalExpr::Conclusion(_) => None,
        }
    }
}

/// The name of the inference rule a proof step applied.
#[derive(Debug, Clone, PartialEq, Eq)]
pub enum Rule {
    LawOfSyllogism,
    ModusPonens,
    ModusTollens,
}

/// One derivation step: the newly derived fact, the statements that licensed
/// it (in rule-specific order: the driving implication first), and the rule.
#[derive(Debug, Clone, PartialEq, Eq)]
pub struct ProofStep {
    pub deduction: LogicalExpr,
    pub based_on: Vec<LogicalExpr>,
    pub rule_applied: Rule,
}

/// The mathematical value of a `ProofStep`.
#[verifier::ext_equal]
pub struct StepView {
    pub deduction: ExprView,
    pub based_on: Seq<ExprView>,
    pub rule_applied: Rule,
}

impl View for ProofStep {
    type V = StepView;

    open spec fn view(&self) -> StepView {
        StepView {
            deduction: self.deduction@,
            based_on: self.based_on@.map_values(|e: LogicalExpr| e@),
            rule_applied: self.rule_applied,
        }
    }
}

/// The views of a sequence of statements.
pub open spec fn views_of(s: Seq<LogicalExpr>) -> Seq<ExprView> {
    s.map_values(|e: LogicalExpr| e@)
}

/// The views of a sequence of proof steps.
pub open spec fn step_views_of(s: Seq<ProofStep>) -> Seq<StepView> {
    s.map_values(|p: ProofStep| p@)
}

/// Structural equality of two statements, decided at the view level.
pub fn expr_eq(a: &LogicalExpr, b: &LogicalExpr) -> (r: bool)
    ensures
        r == (a@ == b@),
{
    match (a, b) {
        (LogicalExpr::Implication(p1, q1), LogicalExpr::Implication(p2, q2)) => {
            *p1 == *p2 && *q1 == *q2
        },
        (LogicalExpr::Negation(p1), LogicalExpr::Negation(p2)) => *p1 == *p2,
        (LogicalExpr::Conjunction(p1, q1), LogicalExpr::Conjunction(p2, q2)) => {
            *p1 == *p2 && *q1 == *q2
        },
        (LogicalExpr::Disjunction(p1, q1), LogicalExpr::Disjunction(p2, q2)) => {
            *p1 == *p2 && *q1 == *q2
        },
        (LogicalExpr::Conclusion(p1), LogicalExpr::Conclusion(p2)) => *p1 == *p2,
        _ => false,
    }
}

/// Whether `target` occurs, structurally, in `list`.
pub fn contains_expr(list: &[LogicalExpr], target: &LogicalExpr) -> (r: bool)
    ensures
        r == views_of(list@).contains(target@),
{
    let mut i: usize = 0;
    while i < list.len()
        invariant
            i <= list.len(),
            forall|k: int| 0 <= k < i ==> views_of(list@)[k] != target@,
        decreases list.len() - i,
    {
        if expr_eq(&list[i], target) {
            assert(views_of(list@)[i as int] == target@);
            return true;
        }
        i += 1;
    }
    assert(forall|k: int| 0 <= k < views_of(list@).len() ==> views_of(list@)[k] != target@);
    false
}

} // verus!
