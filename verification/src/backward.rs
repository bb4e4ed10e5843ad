//! Backward chaining: goal-directed regression from a target through the
//! implications in the premise list.
//!
//! A target is supported when it occurs verbatim among the premises, or when
//! it is a `Conclusion` whose proposition can be regressed, through a chain of
//! premise implications, down to a proposition that is asserted as a
//! `Conclusion` premise. The search is a worklist traversal with a visited
//! set, so a cycle of implications that never bottoms out in an asserted fact
//! is treated as not further reducible rather than looped on.

use vstd::prelude::*;

use crate::exprs::ExprView;
use crate::exprs::LogicalExpr;
use crate::exprs::contains_expr;
use crate::exprs::views_of;

verus! {

/// Every adjacent pair of `c` is linked by a premise implication: the element
/// after `c[k]` is the antecedent of a premise whose consequent is `c[k]`.
pub open spec fn chain_links(prs: Seq<ExprView>, c: Seq<Seq<char>>) -> bool {
    forall|k: int|
        0 <= k < c.len() - 1 ==> prs.contains(ExprView::Implication(c[k + 1], #[trigger] c[k]))
}

/// Proposition `a` regresses to proposition `b`: some chain of premise
/// implications leads from `a` back to `b`.
pub open spec fn reduces_to(prs: Seq<ExprView>, a: Seq<char>, b: Seq<char>) -> bool {
    exists|c: Seq<Seq<char>>|
        chain_links(prs, c) && c.len() >= 1 && c.first() == a && c.last() == b
}

/// Proposition `t` regresses to some proposition asserted as a `Conclusion`
/// premise.
pub open spec fn conclusion_supported(prs: Seq<ExprView>, t: Seq<char>) -> bool {
    exists|s: Seq<char>|
        #![trigger reduces_to(prs, t, s)]
        reduces_to(prs, t, s) && prs.contains(ExprView::Conclusion(s))
}

/// What backward chaining decides: the target is a premise, or it is a
/// `Conclusion` whose proposition regresses to an asserted `Conclusion`.
pub open spec fn backward_supported(prs: Seq<ExprView>, target: ExprView) -> bool {
    prs.contains(target) || match target {
        ExprView::Conclusion(t) => conclusion_supported(prs, t),
        _ => false,
    }
}

/// Every premise implication whose consequent is `x` has its antecedent in
/// `fv`.
pub open spec fn antecedents_reached(prs: Seq<ExprView>, fv: Seq<Seq<char>>, x: Seq<char>) -> bool {
    forall|j: int|
        #![trigger prs[j]]
        0 <= j < prs.len() ==> (prs[j] matches ExprView::Implication(p, q) ==> (q == x
            ==> fv.contains(p)))
}

/// Every proposition of `fv` has all its premise-implication antecedents in
/// `fv` as well: no chain leaves `fv`.
pub open spec fn closed_under_antecedents(prs: Seq<ExprView>, fv: Seq<Seq<char>>) -> bool {
    forall|m: int| 0 <= m < fv.len() ==> antecedents_reached(prs, fv, #[trigger] fv[m])
}

/// The set of antecedents of the implications among the premises.
pub open spec fn antecedent_set(prs: Seq<ExprView>) -> Set<Seq<char>>
    decreases prs.len(),
{
    if prs.len() == 0 {
        Set::empty()
    } else {
        let rest = antecedent_set(prs.drop_last());
        match prs.last() {
            ExprView::Implication(p, _) => rest.insert(p),
            _ => rest,
        }
    }
}

proof fn lemma_antecedent_set_finite(prs: Seq<ExprView>)
    ensures
        antecedent_set(prs).finite(),
    decreases prs.len(),
{
    if prs.len() > 0 {
        lemma_antecedent_set_finite(prs.drop_last());
    }
}

proof fn lemma_antecedent_set_contains(prs: Seq<ExprView>, j: int)
    requires
        0 <= j < prs.len(),
    ensures
        match prs[j] {
            ExprView::Implication(p, _) => antecedent_set(prs).contains(p),
            _ => true,
        },
    decreases prs.len(),
{
    if j < prs.len() - 1 {
        lemma_antecedent_set_contains(prs.drop_last(), j);
    }
}

/// A one-element chain regresses a proposition to itself.
proof fn lemma_reduces_to_self(prs: Seq<ExprView>, a: Seq<char>)
    ensures
        reduces_to(prs, a, a),
{
    let c = seq![a];
    assert(chain_links(prs, c));
    assert(c.first() == a && c.last() == a);
}

/// A regression extends through one more premise implication.
proof fn lemma_reduces_to_step(prs: Seq<ExprView>, a: Seq<char>, b: Seq<char>, p: Seq<char>)
    requires
        reduces_to(prs, a, b),
        prs.contains(ExprView::Implication(p, b)),
    ensures
        reduces_to(prs, a, p),
{
    let c = choose|c: Seq<Seq<char>>|
        chain_links(prs, c) && c.len() >= 1 && c.first() == a && c.last() == b;
    let c2 = c.push(p);
    assert forall|k: int| 0 <= k < c2.len() - 1 implies prs.contains(
        ExprView::Implication(c2[k + 1], #[trigger] c2[k]),
    ) by {
        if k < c.len() - 1 {
            assert(prs.contains(ExprView::Implication(c[k + 1], c[k])));
        } else {
            assert(c2[k] == c.last() && c2[k + 1] == p);
        }
    }
    assert(chain_links(prs, c2) && c2.first() == a && c2.last() == p);
}

/// A chain that starts inside a set closed under antecedents never leaves it.
proof fn lemma_chain_stays_closed(prs: Seq<ExprView>, fv: Seq<Seq<char>>, c: Seq<Seq<char>>)
    requires
        chain_links(prs, c),
        c.len() >= 1,
        fv.contains(c.first()),
        closed_under_antecedents(prs, fv),
    ensures
        fv.contains(c.last()),
    decreases c.len(),
{
    if c.len() > 1 {
        let c0 = c.drop_last();
        assert(chain_links(prs, c0)) by {
            assert forall|k: int| 0 <= k < c0.len() - 1 implies prs.contains(
                ExprView::Implication(c0[k + 1], #[trigger] c0[k]),
            ) by {
                assert(prs.contains(ExprView::Implication(c[k + 1], c[k])));
            }
        }
        lemma_chain_stays_closed(prs, fv, c0);
        let prev = c[c.len() - 2];
        assert(prs.contains(ExprView::Implication(c.last(), prev)));
        let m = choose|m: int| 0 <= m < fv.len() && fv[m] == prev;
        assert(antecedents_reached(prs, fv, prev));
        let j = choose|j: int|
            0 <= j < prs.len() && prs[j] == ExprView::Implication(c.last(), prev);
        assert(fv.contains(c.last()));
    }
}

/// A proposition that regresses to an asserted `Conclusion` premise supports
/// its `Conclusion` target.
proof fn lemma_supported_witness(prs: Seq<ExprView>, t: Seq<char>, s: Seq<char>)
    requires
        reduces_to(prs, t, s),
        prs.contains(ExprView::Conclusion(s)),
    ensures
        backward_supported(prs, ExprView::Conclusion(t)),
{
    assert(conclusion_supported(prs, t));
}

/// Whether some premise is the `Conclusion` of proposition `s`.
fn contains_conclusion(expressions: &[LogicalExpr], s: &String) -> (r: bool)
    ensures
        r == views_of(expressions@).contains(ExprView::Conclusion(s@)),
{
    let ghost prsv = views_of(expressions@);
    let mut j: usize = 0;
    while j < expressions.len()
        invariant
            j <= expressions.len(),
            prsv == views_of(expressions@),
            forall|k: int| 0 <= k < j ==> prsv[k] != ExprView::Conclusion(s@),
        decreases expressions.len() - j,
    {
        match &expressions[j] {
            LogicalExpr::Conclusion(c) => {
                if *c == *s {
                    assert(prsv[j as int] == ExprView::Conclusion(s@));
                    return true;
                }
            },
            _ => {},
        }
        j += 1;
    }
    assert(forall|k: int| 0 <= k < prsv.len() ==> prsv[k] != ExprView::Conclusion(s@));
    false
}

/// Whether proposition `s` occurs among the views of `found`.
fn contains_string(found: &Vec<String>, s: &String) -> (r: bool)
    ensures
        r == found@.map_values(|x: String| x@).contains(s@),
{
    let ghost fv = found@.map_values(|x: String| x@);
    let mut j: usize = 0;
    while j < found.len()
        invariant
            j <= found.len(),
            fv == found@.map_values(|x: String| x@),
            forall|k: int| 0 <= k < j ==> fv[k] != s@,
        decreases found.len() - j,
    {
        if found[j] == *s {
            assert(fv[j as int] == s@);
            return true;
        }
        j += 1;
    }
    assert(forall|k: int| 0 <= k < fv.len() ==> fv[k] != s@);
    false
}

/// Decides whether `target` is supported by the premises through backward
/// chaining over implications. A visited set guards the regression, so the
/// search terminates on every input; a cycle of implications that reaches no
/// asserted fact simply fails to support the target.
#[verifier::rlimit(50)]
pub fn backward_chain(expressions: &[LogicalExpr], target: &LogicalExpr) -> (r: bool)
    ensures
        r == backward_supported(views_of(expressions@), target@),
{
    let ghost prsv = views_of(expressions@);
    if contains_expr(expressions, target) {
        return true;
    }
    let t: &String = match target {
        LogicalExpr::Conclusion(s) => s,
        _ => {
            return false;
        },
    };
    let ghost tv = t@;
    let ghost cand = antecedent_set(prsv).insert(tv);
    proof {
        lemma_antecedent_set_finite(prsv);
    }

    // The worklist: every proposition the target regresses to, closed step by
    // step under the antecedents of matching premise implications.
    let mut found: Vec<String> = Vec::new();
    found.push(t.clone());
    proof {
        lemma_reduces_to_self(prsv, tv);
        found@.map_values(|x: String| x@).unique_seq_to_set();
        vstd::set_lib::lemma_len_subset(
            found@.map_values(|x: String| x@).to_set(),
            cand,
        );
    }
    let mut i: usize = 0;
    while i < found.len()
        invariant
            i <= found.len(),
            prsv == views_of(expressions@),
            cand == antecedent_set(prsv).insert(tv),
            cand.finite(),
            found@.len() >= 1,
            found@[0]@ == tv,
            found@.map_values(|x: String| x@).no_duplicates(),
            forall|m: int| 0 <= m < found@.len() ==> cand.contains((#[trigger] found@[m])@),
            forall|m: int| 0 <= m < found@.len() ==> reduces_to(prsv, tv, (#[trigger] found@[m])@),
            forall|m: int|
                0 <= m < i ==> antecedents_reached(
                    prsv,
                    found@.map_values(|x: String| x@),
                    (#[trigger] found@[m])@,
                ),
            found@.len() <= cand.len(),
        decreases cand.len() - found@.len(), found@.len() - i,
    {
        let cur: String = found[i].clone();
        let ghost cv = cur@;
        let ghost n0 = found@.len();
        let mut j: usize = 0;
        while j < expressions.len()
            invariant
                j <= expressions.len(),
                i < n0,
                n0 <= found@.len(),
                cur@ == cv,
                prsv == views_of(expressions@),
                cand == antecedent_set(prsv).insert(tv),
                cand.finite(),
                cv == found@[i as int]@,
                found@.len() >= 1,
                found@[0]@ == tv,
                found@.map_values(|x: String| x@).no_duplicates(),
                forall|m: int| 0 <= m < found@.len() ==> cand.contains((#[trigger] found@[m])@),
                forall|m: int|
                    0 <= m < found@.len() ==> reduces_to(prsv, tv, (#[trigger] found@[m])@),
                forall|m: int|
                    0 <= m < i ==> antecedents_reached(
                        prsv,
                        found@.map_values(|x: String| x@),
                        (#[trigger] found@[m])@,
                    ),
                forall|jj: int|
                    #![trigger prsv[jj]]
                    0 <= jj < j ==> (prsv[jj] matches ExprView::Implication(p, q) ==> (q == cv
                        ==> found@.map_values(|x: String| x@).contains(p))),
                found@.len() <= cand.len(),
            decreases expressions.len() - j,
        {
            let ghost fold = found@;
            let ghost fv = fold.map_values(|x: String| x@);
            match &expressions[j] {
                LogicalExpr::Implication(p, q) => {
                    assert(prsv[j as int] == ExprView::Implication(p@, q@));
                    if *q == cur {
                        if !contains_string(&found, p) {
                            proof {
                                lemma_antecedent_set_contains(prsv, j as int);
                                assert(prsv.contains(ExprView::Implication(p@, cv))) by {
                                    assert(prsv[j as int] == ExprView::Implication(p@, cv));
                                }
                                lemma_reduces_to_step(prsv, tv, cv, p@);
                            }
                            found.push(p.clone());
                            proof {
                                let fv2 = found@.map_values(|x: String| x@);
                                assert(found@ == fold.push(*p));
                                assert(fv2 =~= fv.push(p@));
                                assert(fv2.no_duplicates()) by {
                                    assert(forall|k: int| 0 <= k < fv.len() ==> fv[k] != p@);
                                }
                                assert forall|x: Seq<char>| fv.contains(x) implies fv2.contains(
                                    x,
                                ) by {
                                    let k = choose|k: int| 0 <= k < fv.len() && fv[k] == x;
                                    assert(fv2[k] == x);
                                }
                                assert forall|m: int|
                                    0 <= m < i implies antecedents_reached(
                                    prsv,
                                    fv2,
                                    (#[trigger] found@[m])@,
                                ) by {
                                    assert(found@[m] == fold[m]);
                                    assert(antecedents_reached(prsv, fv, fold[m]@));
                                    assert forall|j2: int|
                                        #![trigger prsv[j2]]
                                        0 <= j2 < prsv.len() implies (prsv[j2] matches ExprView::Implication(
                                        pp,
                                        qq,
                                    ) ==> (qq == fold[m]@ ==> fv2.contains(pp))) by {
                                        match prsv[j2] {
                                            ExprView::Implication(pp, qq) => {
                                                if qq == fold[m]@ {
                                                    assert(fv.contains(pp));
                                                }
                                            },
                                            _ => {},
                                        }
                                    }
                                }
                                fv2.unique_seq_to_set();
                                assert(fv2.to_set().subset_of(cand)) by {
                                    assert forall|x: Seq<char>| fv2.to_set().contains(
                                        x,
                                    ) implies cand.contains(x) by {
                                        let k = choose|k: int| 0 <= k < fv2.len() && fv2[k] == x;
                                        assert(x == found@[k]@);
                                    }
                                }
                                vstd::set_lib::lemma_len_subset(fv2.to_set(), cand);
                                assert(fv2[fv.len() as int] == p@);
                                assert(fv2.contains(p@));
                            }
                        } else {
                            assert(found@.map_values(|x: String| x@).contains(p@));
                        }
                    }
                },
                _ => {
                    proof {
                        assert(!(prsv[j as int] is Implication));
                    }
                },
            }
            j += 1;
        }
        i += 1;
    }
    let ghost fv = found@.map_values(|x: String| x@);
    proof {
        assert forall|m: int| 0 <= m < fv.len() implies antecedents_reached(
            prsv,
            fv,
            #[trigger] fv[m],
        ) by {
            assert(fv[m] == found@[m]@);
        }
        assert(closed_under_antecedents(prsv, fv));
    }

    // Scan the worklist for a proposition asserted as a Conclusion premise.
    let mut k: usize = 0;
    while k < found.len()
        invariant
            k <= found.len(),
            prsv == views_of(expressions@),
            target@ == ExprView::Conclusion(tv),
            fv == found@.map_values(|x: String| x@),
            forall|m: int| 0 <= m < found@.len() ==> reduces_to(prsv, tv, (#[trigger] found@[m])@),
            forall|m: int|
                0 <= m < k ==> !prsv.contains(ExprView::Conclusion((#[trigger] found@[m])@)),
        decreases found.len() - k,
    {
        if contains_conclusion(expressions, &found[k]) {
            proof {
                assert(target@ == ExprView::Conclusion(tv));
                let sw = found@[k as int]@;
                assert(reduces_to(prsv, tv, sw));
                assert(prsv.contains(ExprView::Conclusion(sw)));
                lemma_supported_witness(prsv, tv, sw);
                assert(backward_supported(prsv, target@));
            }
            return true;
        }
        k += 1;
    }
    proof {
        assert forall|s: Seq<char>| reduces_to(prsv, tv, s) implies !prsv.contains(
            ExprView::Conclusion(s),
        ) by {
            let c = choose|c: Seq<Seq<char>>|
                chain_links(prsv, c) && c.len() >= 1 && c.first() == tv && c.last() == s;
            assert(fv.contains(tv)) by {
                assert(fv[0] == tv);
            }
            lemma_chain_stays_closed(prsv, fv, c);
            let m = choose|m: int| 0 <= m < fv.len() && fv[m] == s;
            assert(found@[m]@ == s);
        }
        assert(!backward_supported(prsv, target@));
    }
    false
}

} // verus!
