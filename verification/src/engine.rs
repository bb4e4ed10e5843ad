//! The forward inference pass and the validation orchestrator.
//!
//! The forward pass is one linear scan over the premises. Each `Implication`
//! premise, in order, drives up to three rule applications: Modus Ponens,
//! then Modus Tollens, then the Law of Syllogism against every other premise
//! (the inner scan covers the whole premise list, also premises the outer
//! scan has not reached yet). Membership checks consult the deduced facts as
//! they stand at that point of the single scan: this is deliberately not a
//! fixpoint computation, and a fact derived from a later premise is never
//! applied retroactively to an earlier one.

use vstd::prelude::*;

use crate::backward::backward_chain;
use crate::backward::backward_supported;
use crate::exprs::ExprView;
use crate::exprs::LogicalExpr;
use crate::exprs::ProofStep;
use crate::exprs::Rule;
use crate::exprs::StepView;
use crate::exprs::contains_expr;
use crate::exprs::step_views_of;
use crate::exprs::views_of;

verus! {

/// The facts derived by a trace: one per proof step, in step order.
pub open spec fn deductions_of(steps: Seq<StepView>) -> Seq<ExprView> {
    steps.map_values(|s: StepView| s.deduction)
}

/// The trace after trying Modus Ponens for the driving premise
/// `Implication(p, q)`: from the implication and an asserted or deduced
/// `Conclusion(p)`, deduce `Conclusion(q)` unless already deduced.
pub open spec fn mp_extend(
    prs: Seq<ExprView>,
    steps: Seq<StepView>,
    p: Seq<char>,
    q: Seq<char>,
) -> Seq<StepView> {
    let deds = deductions_of(steps);
    if (prs.contains(ExprView::Conclusion(p)) || deds.contains(ExprView::Conclusion(p)))
        && !deds.contains(ExprView::Conclusion(q)) {
        steps.push(
            StepView {
                deduction: ExprView::Conclusion(q),
                based_on: seq![ExprView::Implication(p, q)],
                rule_applied: Rule::ModusPonens,
            },
        )
    } else {
        steps
    }
}

/// The trace after trying Modus Tollens for the driving premise
/// `Implication(p, q)`: from the implication and an asserted or deduced
/// `Negation(q)`, deduce `Negation(p)` unless already deduced.
pub open spec fn mt_extend(
    prs: Seq<ExprView>,
    steps: Seq<StepView>,
    p: Seq<char>,
    q: Seq<char>,
) -> Seq<StepView> {
    let deds = deductions_of(steps);
    if (prs.contains(ExprView::Negation(q)) || deds.contains(ExprView::Negation(q)))
        && !deds.contains(ExprView::Negation(p)) {
        steps.push(
            StepView {
                deduction: ExprView::Negation(p),
                based_on: seq![ExprView::Implication(p, q), ExprView::Negation(q)],
                rule_applied: Rule::ModusTollens,
            },
        )
    } else {
        steps
    }
}

/// The trace after trying the Law of Syllogism of the driving premise
/// `Implication(p, q)` (at position `i`) against the single premise at
/// position `j`: if that other premise is `Implication(q, r)`, deduce
/// `Implication(p, r)` unless already deduced.
pub open spec fn syl_one(
    prs: Seq<ExprView>,
    steps: Seq<StepView>,
    i: int,
    p: Seq<char>,
    q: Seq<char>,
    j: int,
) -> Seq<StepView> {
    match prs[j] {
        ExprView::Implication(q2, r) => {
            if j != i && q2 == q && !deductions_of(steps).contains(ExprView::Implication(p, r)) {
                steps.push(
                    StepView {
                        deduction: ExprView::Implication(p, r),
                        based_on: seq![
                            ExprView::Implication(p, q),
                            ExprView::Implication(q2, r),
                        ],
                        rule_applied: Rule::LawOfSyllogism,
                    },
                )
            } else {
                steps
            }
        },
        _ => steps,
    }
}

/// The trace after trying the Law of Syllogism of the driving premise at
/// position `i` against the premises at positions `0 .. j`, in order.
pub open spec fn syl_upto(
    prs: Seq<ExprView>,
    steps: Seq<StepView>,
    i: int,
    p: Seq<char>,
    q: Seq<char>,
    j: int,
) -> Seq<StepView>
    decreases j,
{
    if j <= 0 {
        steps
    } else {
        syl_one(prs, syl_upto(prs, steps, i, p, q, j - 1), i, p, q, j - 1)
    }
}

/// The trace after the premise at position `i` has driven its three rules, in
/// the order Modus Ponens, Modus Tollens, Law of Syllogism. A premise that is
/// not an `Implication` drives nothing.
pub open spec fn premise_extend(prs: Seq<ExprView>, steps: Seq<StepView>, i: int) -> Seq<StepView> {
    match prs[i] {
        ExprView::Implication(p, q) => syl_upto(
            prs,
            mt_extend(prs, mp_extend(prs, steps, p, q), p, q),
            i,
            p,
            q,
            prs.len() as int,
        ),
        _ => steps,
    }
}

/// The trace after the single forward scan has processed the premises at
/// positions `0 .. i`.
pub open spec fn forward_steps_upto(prs: Seq<ExprView>, i: int) -> Seq<StepView>
    decreases i,
{
    if i <= 0 {
        Seq::empty()
    } else {
        premise_extend(prs, forward_steps_upto(prs, i - 1), i - 1)
    }
}

/// The full proof trace of the forward pass over `prs`.
pub open spec fn forward_steps(prs: Seq<ExprView>) -> Seq<StepView> {
    forward_steps_upto(prs, prs.len() as int)
}

/// The facts the forward pass deduces from `prs`, in discovery order.
pub open spec fn forward_deductions(prs: Seq<ExprView>) -> Seq<ExprView> {
    deductions_of(forward_steps(prs))
}

/// Pushing one step appends exactly its deduction to the derived facts.
proof fn lemma_deductions_of_push(s: Seq<StepView>, x: StepView)
    ensures
        deductions_of(s.push(x)) == deductions_of(s).push(x.deduction),
{
    assert(deductions_of(s.push(x)) =~= deductions_of(s).push(x.deduction));
}

/// Appending a fact that is not yet present keeps the facts duplicate-free.
proof fn lemma_nodup_push(s: Seq<ExprView>, x: ExprView)
    requires
        s.no_duplicates(),
        !s.contains(x),
    ensures
        s.push(x).no_duplicates(),
{
    let s2 = s.push(x);
    assert forall|a: int, b: int|
        0 <= a < s2.len() && 0 <= b < s2.len() && a != b implies s2[a] != s2[b] by {
        if a == s.len() && b < s.len() {
            if s2[b] == x {
                assert(s.contains(x));
            }
        } else if b == s.len() && a < s.len() {
            if s2[a] == x {
                assert(s.contains(x));
            }
        }
    }
}

proof fn lemma_mp_extend_nodup(prs: Seq<ExprView>, steps: Seq<StepView>, p: Seq<char>, q: Seq<
    char,
>)
    requires
        deductions_of(steps).no_duplicates(),
    ensures
        deductions_of(mp_extend(prs, steps, p, q)).no_duplicates(),
{
    let deds = deductions_of(steps);
    if (prs.contains(ExprView::Conclusion(p)) || deds.contains(ExprView::Conclusion(p)))
        && !deds.contains(ExprView::Conclusion(q)) {
        let sv = StepView {
            deduction: ExprView::Conclusion(q),
            based_on: seq![ExprView::Implication(p, q)],
            rule_applied: Rule::ModusPonens,
        };
        lemma_deductions_of_push(steps, sv);
        lemma_nodup_push(deds, ExprView::Conclusion(q));
    }
}

proof fn lemma_mt_extend_nodup(prs: Seq<ExprView>, steps: Seq<StepView>, p: Seq<char>, q: Seq<
    char,
>)
    requires
        deductions_of(steps).no_duplicates(),
    ensures
        deductions_of(mt_extend(prs, steps, p, q)).no_duplicates(),
{
    let deds = deductions_of(steps);
    if (prs.contains(ExprView::Negation(q)) || deds.contains(ExprView::Negation(q)))
        && !deds.contains(ExprView::Negation(p)) {
        let sv = StepView {
            deduction: ExprView::Negation(p),
            based_on: seq![ExprView::Implication(p, q), ExprView::Negation(q)],
            rule_applied: Rule::ModusTollens,
        };
        lemma_deductions_of_push(steps, sv);
        lemma_nodup_push(deds, ExprView::Negation(p));
    }
}

proof fn lemma_syl_one_nodup(
    prs: Seq<ExprView>,
    steps: Seq<StepView>,
    i: int,
    p: Seq<char>,
    q: Seq<char>,
    j: int,
)
    requires
        deductions_of(steps).no_duplicates(),
    ensures
        deductions_of(syl_one(prs, steps, i, p, q, j)).no_duplicates(),
{
    match prs[j] {
        ExprView::Implication(q2, r) => {
            if j != i && q2 == q && !deductions_of(steps).contains(ExprView::Implication(p, r)) {
                let sv = StepView {
                    deduction: ExprView::Implication(p, r),
                    based_on: seq![ExprView::Implication(p, q), ExprView::Implication(q2, r)],
                    rule_applied: Rule::LawOfSyllogism,
                };
                lemma_deductions_of_push(steps, sv);
                lemma_nodup_push(deductions_of(steps), ExprView::Implication(p, r));
            }
        },
        _ => {},
    }
}

proof fn lemma_syl_upto_nodup(
    prs: Seq<ExprView>,
    steps: Seq<StepView>,
    i: int,
    p: Seq<char>,
    q: Seq<char>,
    j: int,
)
    requires
        deductions_of(steps).no_duplicates(),
    ensures
        deductions_of(syl_upto(prs, steps, i, p, q, j)).no_duplicates(),
    decreases j,
{
    if j > 0 {
        lemma_syl_upto_nodup(prs, steps, i, p, q, j - 1);
        lemma_syl_one_nodup(prs, syl_upto(prs, steps, i, p, q, j - 1), i, p, q, j - 1);
    }
}

proof fn lemma_forward_steps_upto_nodup(prs: Seq<ExprView>, i: int)
    ensures
        deductions_of(forward_steps_upto(prs, i)).no_duplicates(),
    decreases i,
{
    if i <= 0 {
        assert(deductions_of(Seq::empty()) =~= Seq::<ExprView>::empty());
    } else {
        lemma_forward_steps_upto_nodup(prs, i - 1);
        let steps = forward_steps_upto(prs, i - 1);
        match prs[i - 1] {
            ExprView::Implication(p, q) => {
                lemma_mp_extend_nodup(prs, steps, p, q);
                lemma_mt_extend_nodup(prs, mp_extend(prs, steps, p, q), p, q);
                lemma_syl_upto_nodup(
                    prs,
                    mt_extend(prs, mp_extend(prs, steps, p, q), p, q),
                    i - 1,
                    p,
                    q,
                    prs.len() as int,
                );
            },
            _ => {},
        }
    }
}

/// The deduced-fact collection never holds two structurally equal entries:
/// every rule application checks that its fact is not yet deduced before
/// inserting it.
pub proof fn lemma_no_duplicate_deductions(prs: Seq<ExprView>)
    ensures
        forward_deductions(prs).no_duplicates(),
{
    lemma_forward_steps_upto_nodup(prs, prs.len() as int);
}

/// Determinism of the forward pass: the same premise list always yields the
/// same proof trace and the same deduced facts, so running the pass twice
/// changes nothing. The validator's contract ties its outputs to these two
/// functions of the premise views alone.
pub proof fn lemma_forward_pass_deterministic(a: Seq<ExprView>, b: Seq<ExprView>)
    requires
        a == b,
    ensures
        forward_steps(a) == forward_steps(b),
        forward_deductions(a) == forward_deductions(b),
{
}

/// Runs the forward pass once and judges the conclusion: valid when the
/// conclusion is among the deduced facts, or else when backward chaining over
/// the original premises supports it. Always returns the forward trace,
/// whichever mechanism decided.
pub fn apply_deduction_rules_and_validate(
    expressions: &[LogicalExpr],
    conclusion: &LogicalExpr,
) -> (res: (bool, Vec<ProofStep>))
    ensures
        step_views_of(res.1@) == forward_steps(views_of(expressions@)),
        res.0 == (forward_deductions(views_of(expressions@)).contains(conclusion@)
            || backward_supported(views_of(expressions@), conclusion@)),
{
    let ghost prsv = views_of(expressions@);
    let mut deductions: Vec<LogicalExpr> = Vec::new();
    let mut proof_steps: Vec<ProofStep> = Vec::new();
    let mut i: usize = 0;
    while i < expressions.len()
        invariant
            i <= expressions.len(),
            prsv == views_of(expressions@),
            step_views_of(proof_steps@) == forward_steps_upto(prsv, i as int),
            views_of(deductions@) == deductions_of(step_views_of(proof_steps@)),
        decreases expressions.len() - i,
    {
        let ghost s0 = step_views_of(proof_steps@);
        match &expressions[i] {
            LogicalExpr::Implication(p, q) => {
                let ghost pv = p@;
                let ghost qv = q@;
                assert(prsv[i as int] == ExprView::Implication(pv, qv));

                // Modus Ponens
                let ghost d0 = deductions@;
                let ghost p0 = proof_steps@;
                let antecedent = LogicalExpr::Conclusion(p.clone());
                if contains_expr(expressions, &antecedent) || contains_expr(
                    deductions.as_slice(),
                    &antecedent,
                ) {
                    let wanted = LogicalExpr::Conclusion(q.clone());
                    if !contains_expr(deductions.as_slice(), &wanted) {
                        proof {
                            assert(wanted@ == ExprView::Conclusion(qv));
                        }
                        deductions.push(LogicalExpr::Conclusion(q.clone()));
                        let mut based: Vec<LogicalExpr> = Vec::new();
                        based.push(LogicalExpr::Implication(p.clone(), q.clone()));
                        proof {
                            assert(based@.map_values(|e: LogicalExpr| e@) =~= seq![
                                ExprView::Implication(pv, qv),
                            ]);
                        }
                        proof_steps.push(
                            ProofStep {
                                deduction: wanted,
                                based_on: based,
                                rule_applied: Rule::ModusPonens,
                            },
                        );
                        proof {
                            let sv = StepView {
                                deduction: ExprView::Conclusion(qv),
                                based_on: seq![ExprView::Implication(pv, qv)],
                                rule_applied: Rule::ModusPonens,
                            };
                            assert(views_of(deductions@) =~= views_of(d0).push(
                                ExprView::Conclusion(qv),
                            ));
                            assert(step_views_of(proof_steps@) =~~= step_views_of(p0).push(sv));
                            lemma_deductions_of_push(s0, sv);
                        }
                    }
                }
                proof {
                    assert(step_views_of(proof_steps@) =~~= mp_extend(prsv, s0, pv, qv));
                    assert(views_of(deductions@) =~= deductions_of(step_views_of(proof_steps@)));
                }
                let ghost s1 = step_views_of(proof_steps@);
                let ghost d1 = deductions@;
                let ghost p1 = proof_steps@;

                // Modus Tollens
                let negation_q = LogicalExpr::Negation(q.clone());
                if contains_expr(expressions, &negation_q) || contains_expr(
                    deductions.as_slice(),
                    &negation_q,
                ) {
                    let deduction = LogicalExpr::Negation(p.clone());
                    if !contains_expr(deductions.as_slice(), &deduction) {
                        proof {
                            assert(deduction@ == ExprView::Negation(pv));
                        }
                        deductions.push(LogicalExpr::Negation(p.clone()));
                        let mut based: Vec<LogicalExpr> = Vec::new();
                        based.push(LogicalExpr::Implication(p.clone(), q.clone()));
                        based.push(negation_q);
                        proof {
                            assert(based@.map_values(|e: LogicalExpr| e@) =~= seq![
                                ExprView::Implication(pv, qv),
                                ExprView::Negation(qv),
                            ]);
                        }
                        proof_steps.push(
                            ProofStep {
                                deduction: deduction,
                                based_on: based,
                                rule_applied: Rule::ModusTollens,
                            },
                        );
                        proof {
                            let sv = StepView {
                                deduction: ExprView::Negation(pv),
                                based_on: seq![
                                    ExprView::Implication(pv, qv),
                                    ExprView::Negation(qv),
                                ],
                                rule_applied: Rule::ModusTollens,
                            };
                            assert(views_of(deductions@) =~= views_of(d1).push(
                                ExprView::Negation(pv),
                            ));
                            assert(step_views_of(proof_steps@) =~~= step_views_of(p1).push(sv));
                            lemma_deductions_of_push(s1, sv);
                        }
                    }
                }
                proof {
                    assert(step_views_of(proof_steps@) =~~= mt_extend(prsv, s1, pv, qv));
                    assert(views_of(deductions@) =~= deductions_of(step_views_of(proof_steps@)));
                }
                let ghost s2 = step_views_of(proof_steps@);

                // Law of Syllogism against every other premise
                let mut j: usize = 0;
                while j < expressions.len()
                    invariant
                        j <= expressions.len(),
                        i < expressions.len(),
                        prsv == views_of(expressions@),
                        prsv[i as int] == ExprView::Implication(pv, qv),
                        p@ == pv,
                        q@ == qv,
                        step_views_of(proof_steps@) == syl_upto(prsv, s2, i as int, pv, qv, j as int),
                        views_of(deductions@) == deductions_of(step_views_of(proof_steps@)),
                    decreases expressions.len() - j,
                {
                    let ghost sj = step_views_of(proof_steps@);
                    let ghost dj = deductions@;
                    let ghost pj = proof_steps@;
                    if j != i {
                        match &expressions[j] {
                            LogicalExpr::Implication(q2, r) => {
                                let ghost q2v = q2@;
                                let ghost rv = r@;
                                assert(prsv[j as int] == ExprView::Implication(q2v, rv));
                                if *q2 == *q {
                                    let candidate = LogicalExpr::Implication(p.clone(), r.clone());
                                    if !contains_expr(deductions.as_slice(), &candidate) {
                                        proof {
                                            assert(candidate@ == ExprView::Implication(pv, rv));
                                        }
                                        deductions.push(
                                            LogicalExpr::Implication(p.clone(), r.clone()),
                                        );
                                        let mut based: Vec<LogicalExpr> = Vec::new();
                                        based.push(LogicalExpr::Implication(p.clone(), q.clone()));
                                        based.push(LogicalExpr::Implication(q2.clone(), r.clone()));
                                        proof {
                                            assert(based@.map_values(|e: LogicalExpr| e@) =~= seq![
                                                ExprView::Implication(pv, qv),
                                                ExprView::Implication(q2v, rv),
                                            ]);
                                        }
                                        proof_steps.push(
                                            ProofStep {
                                                deduction: candidate,
                                                based_on: based,
                                                rule_applied: Rule::LawOfSyllogism,
                                            },
                                        );
                                        proof {
                                            let sv = StepView {
                                                deduction: ExprView::Implication(pv, rv),
                                                based_on: seq![
                                                    ExprView::Implication(pv, qv),
                                                    ExprView::Implication(q2v, rv),
                                                ],
                                                rule_applied: Rule::LawOfSyllogism,
                                            };
                                            assert(views_of(deductions@) =~= views_of(dj).push(
                                                ExprView::Implication(pv, rv),
                                            ));
                                            assert(step_views_of(proof_steps@)
                                                =~~= step_views_of(pj).push(sv));
                                            lemma_deductions_of_push(sj, sv);
                                        }
                                    }
                                }
                            },
                            _ => {},
                        }
                    }
                    proof {
                        assert(step_views_of(proof_steps@) =~~= syl_one(
                            prsv,
                            sj,
                            i as int,
                            pv,
                            qv,
                            j as int,
                        ));
                        assert(step_views_of(proof_steps@) == syl_upto(
                            prsv,
                            s2,
                            i as int,
                            pv,
                            qv,
                            j + 1 as int,
                        ));
                        assert(views_of(deductions@) =~= deductions_of(
                            step_views_of(proof_steps@),
                        ));
                    }
                    j += 1;
                }
                proof {
                    assert(step_views_of(proof_steps@) == premise_extend(prsv, s0, i as int));
                }
            },
            _ => {
                proof {
                    assert(!(prsv[i as int] is Implication));
                    assert(step_views_of(proof_steps@) == premise_extend(prsv, s0, i as int));
                }
            },
        }
        i += 1;
    }

    let direct = contains_expr(deductions.as_slice(), conclusion);
    let supported = backward_chain(expressions, conclusion);
    (direct || supported, proof_steps)
}

} // verus!
