use proplogic::LogicalExpr;
use proplogic::Rule;
use proplogic::apply_deduction_rules_and_validate;
use proplogic::backward_chain;

fn imp(a: &str, b: &str) -> LogicalExpr {
    LogicalExpr::Implication(a.to_string(), b.to_string())
}

fn neg(a: &str) -> LogicalExpr {
    LogicalExpr::Negation(a.to_string())
}

fn conc(a: &str) -> LogicalExpr {
    LogicalExpr::Conclusion(a.to_string())
}

#[test]
fn modus_ponens_derives_consequent() {
    let premises = vec![imp("A", "B"), conc("A")];
    let (valid, steps) = apply_deduction_rules_and_validate(&premises, &conc("B"));
    assert!(valid);
    assert_eq!(steps.len(), 1);
    assert_eq!(steps[0].rule_applied, Rule::ModusPonens);
    assert_eq!(steps[0].deduction, conc("B"));
    assert_eq!(steps[0].based_on, vec![imp("A", "B")]);
}

#[test]
fn modus_tollens_derives_negated_antecedent() {
    let premises = vec![imp("A", "B"), neg("B")];
    let (valid, steps) = apply_deduction_rules_and_validate(&premises, &neg("A"));
    assert!(valid);
    assert_eq!(steps.len(), 1);
    assert_eq!(steps[0].rule_applied, Rule::ModusTollens);
    assert_eq!(steps[0].deduction, neg("A"));
    assert_eq!(steps[0].based_on, vec![imp("A", "B"), neg("B")]);
}

#[test]
fn law_of_syllogism_chains_implications() {
    let premises = vec![imp("A", "B"), imp("B", "C")];
    let (valid, steps) = apply_deduction_rules_and_validate(&premises, &imp("A", "C"));
    assert!(valid);
    assert_eq!(steps.len(), 1);
    assert_eq!(steps[0].rule_applied, Rule::LawOfSyllogism);
    assert_eq!(steps[0].deduction, imp("A", "C"));
    assert_eq!(steps[0].based_on, vec![imp("A", "B"), imp("B", "C")]);
}

#[test]
fn backward_chaining_succeeds_without_forward_derivation() {
    let premises = vec![imp("A", "B"), conc("A")];
    assert!(backward_chain(&premises, &conc("B")));
}

#[test]
fn backward_chaining_follows_transitive_chains() {
    let premises = vec![imp("A", "B"), imp("B", "C"), conc("A")];
    assert!(backward_chain(&premises, &conc("C")));
}

#[test]
fn backward_chaining_finds_verbatim_targets() {
    let premises = vec![neg("A")];
    assert!(backward_chain(&premises, &neg("A")));
    assert!(!backward_chain(&premises, &neg("B")));
}

#[test]
fn backward_chaining_terminates_on_cyclic_implications() {
    let premises = vec![imp("A", "B"), imp("B", "A")];
    assert!(!backward_chain(&premises, &conc("A")));
    let (valid, steps) = apply_deduction_rules_and_validate(&premises, &conc("A"));
    assert!(!valid);
    // The forward pass still records its (irrelevant) syllogism steps.
    assert_eq!(steps.len(), 2);
    assert_eq!(steps[0].deduction, imp("A", "A"));
    assert_eq!(steps[1].deduction, imp("B", "B"));
}

#[test]
fn unreachable_conclusion_is_invalid() {
    let premises = vec![imp("A", "B")];
    let (valid, _steps) = apply_deduction_rules_and_validate(&premises, &conc("C"));
    assert!(!valid);
}

#[test]
fn modus_ponens_fires_in_both_premise_orders() {
    let first = vec![conc("A"), imp("A", "B")];
    let (valid_first, steps_first) = apply_deduction_rules_and_validate(&first, &conc("B"));
    assert!(valid_first);
    assert!(steps_first.iter().any(|s| s.deduction == conc("B")));

    let second = vec![imp("A", "B"), conc("A")];
    let (valid_second, steps_second) = apply_deduction_rules_and_validate(&second, &conc("B"));
    assert!(valid_second);
    assert!(steps_second.iter().any(|s| s.deduction == conc("B")));
}

#[test]
fn forward_pass_is_deterministic() {
    let premises = vec![imp("A", "B"), conc("A"), imp("B", "C"), neg("C")];
    let conclusion = conc("C");
    let (valid_one, steps_one) = apply_deduction_rules_and_validate(&premises, &conclusion);
    let (valid_two, steps_two) = apply_deduction_rules_and_validate(&premises, &conclusion);
    assert_eq!(valid_one, valid_two);
    assert_eq!(steps_one, steps_two);
}

#[test]
fn deduced_facts_hold_no_duplicates() {
    let premises = vec![imp("A", "B"), conc("A"), imp("A", "B"), conc("A"), imp("B", "C")];
    let (_valid, steps) = apply_deduction_rules_and_validate(&premises, &conc("B"));
    let facts: Vec<LogicalExpr> = steps.iter().map(|s| s.deduction.clone()).collect();
    for a in 0..facts.len() {
        for b in (a + 1)..facts.len() {
            assert_ne!(facts[a], facts[b]);
        }
    }
}

#[test]
fn forward_pass_does_not_reach_a_fixpoint() {
    // One linear scan: the fact Conclusion("B"), derived from the second
    // premise, is never applied retroactively to the first.
    let premises = vec![imp("B", "C"), imp("A", "B"), conc("A")];
    let (valid, steps) = apply_deduction_rules_and_validate(&premises, &conc("C"));
    assert_eq!(steps.len(), 2);
    assert_eq!(steps[0].rule_applied, Rule::ModusPonens);
    assert_eq!(steps[0].deduction, conc("B"));
    assert_eq!(steps[1].rule_applied, Rule::LawOfSyllogism);
    assert_eq!(steps[1].deduction, imp("A", "C"));
    // Conclusion("C") is still reached, through backward chaining.
    assert!(valid);
}

#[test]
fn get_subject_returns_left_hand_text() {
    assert_eq!(imp("A", "B").get_subject(), Some(&"A".to_string()));
    assert_eq!(neg("A").get_subject(), Some(&"A".to_string()));
    assert_eq!(
        LogicalExpr::Conjunction("L".to_string(), "R".to_string()).get_subject(),
        Some(&"L".to_string())
    );
    assert_eq!(
        LogicalExpr::Disjunction("L".to_string(), "R".to_string()).get_subject(),
        Some(&"L".to_string())
    );
    assert_eq!(conc("A").get_subject(), None);
}
