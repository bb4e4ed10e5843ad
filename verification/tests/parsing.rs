use proplogic::LogicalExpr;
use proplogic::parse_expression;

#[test]
fn parses_implication() {
    assert_eq!(
        parse_expression("A > B"),
        Some(LogicalExpr::Implication("A".to_string(), "B".to_string()))
    );
    assert_eq!(
        parse_expression("  A>B  "),
        Some(LogicalExpr::Implication("A".to_string(), "B".to_string()))
    );
}

#[test]
fn parses_negation() {
    assert_eq!(parse_expression("~A"), Some(LogicalExpr::Negation("A".to_string())));
    assert_eq!(parse_expression(" ~ A "), Some(LogicalExpr::Negation("A".to_string())));
}

#[test]
fn parses_conjunction_and_disjunction() {
    assert_eq!(
        parse_expression("A * B"),
        Some(LogicalExpr::Conjunction("A".to_string(), "B".to_string()))
    );
    assert_eq!(
        parse_expression("A + B"),
        Some(LogicalExpr::Disjunction("A".to_string(), "B".to_string()))
    );
}

#[test]
fn parses_conclusion_with_leading_r() {
    assert_eq!(parse_expression("R foo"), Some(LogicalExpr::Conclusion("foo".to_string())));
    assert_eq!(parse_expression("Rfoo"), Some(LogicalExpr::Conclusion("foo".to_string())));
    // Exactly one leading R is stripped.
    assert_eq!(parse_expression("RRx"), Some(LogicalExpr::Conclusion("Rx".to_string())));
    assert_eq!(parse_expression("RRain"), Some(LogicalExpr::Conclusion("Rain".to_string())));
    assert_eq!(parse_expression("R"), Some(LogicalExpr::Conclusion("".to_string())));
}

#[test]
fn parses_bare_text_as_conclusion() {
    assert_eq!(parse_expression("foo"), Some(LogicalExpr::Conclusion("foo".to_string())));
    assert_eq!(parse_expression("  foo  "), Some(LogicalExpr::Conclusion("foo".to_string())));
}

#[test]
fn empty_input_parses_to_nothing() {
    assert_eq!(parse_expression(""), None);
    assert_eq!(parse_expression("   "), None);
    assert_eq!(parse_expression(" \t \r\n "), None);
}

#[test]
fn unicode_whitespace_counts_as_blank() {
    // Trimming removes the whole White_Space set, as str::trim does.
    assert_eq!(parse_expression("\u{2000}"), None);
    assert_eq!(parse_expression("\u{a0}\u{3000}\u{2028}"), None);
    assert_eq!(
        parse_expression("\u{2003}foo\u{205f}"),
        Some(LogicalExpr::Conclusion("foo".to_string()))
    );
}

#[test]
fn implication_takes_priority_over_other_tokens() {
    assert_eq!(
        parse_expression("~A>B"),
        Some(LogicalExpr::Implication("~A".to_string(), "B".to_string()))
    );
    assert_eq!(
        parse_expression("A * B > C"),
        Some(LogicalExpr::Implication("A * B".to_string(), "C".to_string()))
    );
    assert_eq!(
        parse_expression("~A * B"),
        Some(LogicalExpr::Negation("A * B".to_string()))
    );
}
