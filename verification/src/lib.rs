//! A propositional-logic inference checker: given an ordered list of premises
//! and a designated conclusion, it decides whether the conclusion is derivable
//! under Modus Ponens, Modus Tollens and the Law of Syllogism, and returns an
//! ordered, auditable proof trace.

mod backward;
mod engine;
mod exprs;
mod parsing;

pub use backward::backward_chain;
pub use backward::backward_supported;
pub use engine::apply_deduction_rules_and_validate;
pub use engine::forward_deductions;
pub use engine::forward_steps;
pub use engine::lemma_forward_pass_deterministic;
pub use engine::lemma_no_duplicate_deductions;
pub use exprs::ExprView;
pub use exprs::LogicalExpr;
pub use exprs::ProofStep;
pub use exprs::Rule;
pub use exprs::StepView;
pub use parsing::parse_expression;
