//! Tests of the filter engine: tokenizer, parser, evaluator, and the
//! scenarios the engine's guarantees describe.

use markdang::context::{Container, Context, PropMap};
use markdang::filter::{Matcher, Program};
use markdang::parse::{parse_tokens, ParseError, Pred};
use markdang::render::render_program;
use markdang::token::{tokenize, Token};

fn props(pairs: &[(&str, &str)]) -> PropMap {
    let mut pm = PropMap::new();
    for (k, v) in pairs {
        pm.insert(k.to_string(), v.to_string());
    }
    pm
}

fn container(records: &[(&str, &[(&str, &str)])]) -> Container {
    let mut c = Container::new();
    for (id, pairs) in records {
        c.insert(id.to_string(), props(pairs));
    }
    c
}

fn eval(expr: &str, records: &[(&str, &[(&str, &str)])]) -> bool {
    let prog = Program::parse(expr).expect("filter must compile");
    prog.eval(&Context::Whole(container(records)))
}

#[test]
fn tokenize_identifier_and_operator() {
    let toks = tokenize("TIT2=");
    assert_eq!(
        toks,
        vec![Token::Ident("TIT2".to_string()), Token::Op('=')]
    );
}

#[test]
fn tokenize_property_expression() {
    let toks = tokenize("TALB.text~'Dio'");
    assert_eq!(
        toks,
        vec![
            Token::Ident("TALB".to_string()),
            Token::Op('.'),
            Token::Ident("text".to_string()),
            Token::Op('~'),
            Token::Lit("Dio".to_string()),
        ]
    );
}

#[test]
fn tokenize_drops_spaces() {
    let toks = tokenize("  TIT2  &  TALB ");
    assert_eq!(
        toks,
        vec![
            Token::Ident("TIT2".to_string()),
            Token::Op('&'),
            Token::Ident("TALB".to_string()),
        ]
    );
}

#[test]
fn tokenize_unterminated_literal_runs_to_end() {
    let toks = tokenize("'abc");
    assert_eq!(toks, vec![Token::Lit("abc".to_string())]);
}

#[test]
fn tokenize_quote_inside_identifier() {
    let toks = tokenize("ab\"cd");
    assert_eq!(toks, vec![Token::Ident("ab\"cd".to_string())]);
}

#[test]
fn parse_single_identifier() {
    let prog = parse_tokens(&tokenize("TIT2")).unwrap();
    assert_eq!(prog, vec![Pred::MatchId("TIT2".to_string())]);
}

#[test]
fn parse_negated_identifier() {
    let prog = parse_tokens(&tokenize("!APIC")).unwrap();
    assert_eq!(prog, vec![Pred::NotMatchId("APIC".to_string())]);
}

#[test]
fn parse_property_test_is_one_node() {
    let prog = parse_tokens(&tokenize("TALB.text~'Dio'")).unwrap();
    assert_eq!(
        prog,
        vec![Pred::Test(
            "TALB".to_string(),
            "text".to_string(),
            '~',
            "Dio".to_string()
        )]
    );
}

#[test]
fn parse_parenthesized_atom_is_one_node() {
    let prog = parse_tokens(&tokenize("(TIT2)")).unwrap();
    assert_eq!(prog, vec![Pred::MatchId("TIT2".to_string())]);
}

#[test]
fn parse_dot_without_identifier_fails() {
    let err = parse_tokens(&tokenize(".text")).unwrap_err();
    assert_eq!(err, ParseError::MissingIdentifier);
    assert!(err.message().contains("identifier"));
}

#[test]
fn property_access_cannot_follow_group() {
    let err = parse_tokens(&tokenize("(TIT2|TALB).text=\"X\"")).unwrap_err();
    assert_eq!(err, ParseError::MissingIdentifier);
}

#[test]
fn parse_trailing_dot_fails() {
    let err = parse_tokens(&tokenize("TIT2.")).unwrap_err();
    assert_eq!(err, ParseError::IncompleteProperty);
}

#[test]
fn parse_property_without_operator_fails() {
    let err = parse_tokens(&tokenize("TIT2.text")).unwrap_err();
    assert_eq!(err, ParseError::IncompleteProperty);
}

#[test]
fn parse_property_without_value_fails() {
    assert!(parse_tokens(&tokenize("TIT2.text~")).is_err());
}

#[test]
fn unbalanced_closing_paren_is_tolerated() {
    let prog = parse_tokens(&tokenize("TIT2)")).unwrap();
    assert_eq!(prog, vec![Pred::MatchId("TIT2".to_string())]);
}

#[test]
fn identifier_presence_and_absence() {
    let records: &[(&str, &[(&str, &str)])] = &[("TIT2", &[("text", "Holy Diver")])];
    assert!(eval("TIT2", records));
    assert!(!eval("TALB", records));
    assert!(eval("!TALB", records));
    assert!(!eval("!TIT2", records));
}

#[test]
fn property_equality_is_exact_and_case_sensitive() {
    let records: &[(&str, &[(&str, &str)])] = &[("TIT2", &[("text", "Dio")])];
    assert!(eval("TIT2.text=\"Dio\"", records));
    assert!(!eval("TIT2.text=\"dio\"", records));
    assert!(!eval("TIT2.text=\"Dio \"", records));
    assert!(!eval("TIT2.text=\"Di\"", records));
}

#[test]
fn property_test_needs_record_and_property() {
    let records: &[(&str, &[(&str, &str)])] = &[("TIT2", &[("text", "Dio")])];
    assert!(!eval("TALB.text=\"Dio\"", records));
    assert!(!eval("TIT2.desc=\"Dio\"", records));
}

#[test]
fn property_containment_prefix_suffix() {
    let records: &[(&str, &[(&str, &str)])] = &[("TALB", &[("text", "Holy Diver")])];
    assert!(eval("TALB.text~\"y Di\"", records));
    assert!(!eval("TALB.text~\"diver\"", records));
    assert!(eval("TALB.text^\"Holy\"", records));
    assert!(!eval("TALB.text^\"Diver\"", records));
    assert!(eval("TALB.text$\"Diver\"", records));
    assert!(!eval("TALB.text$\"Holy\"", records));
}

#[test]
fn empty_literal_matches_any_value() {
    let records: &[(&str, &[(&str, &str)])] = &[("TALB", &[("text", "Holy Diver")])];
    assert!(eval("TALB.text~\"\"", records));
    assert!(eval("TALB.text^\"\"", records));
    assert!(eval("TALB.text$\"\"", records));
    assert!(eval("TALB.text=\"\"", records) == false);
}

#[test]
fn not_equal_operator_in_whole_container_mode() {
    let records: &[(&str, &[(&str, &str)])] = &[("TIT2", &[("text", "Dio")])];
    assert!(eval("TIT2.text!\"Rainbow\"", records));
    assert!(!eval("TIT2.text!\"Dio\"", records));
}

#[test]
fn conjunction_needs_both() {
    let only_a: &[(&str, &[(&str, &str)])] = &[("A", &[])];
    assert!(!eval("A & B", only_a));
    assert!(eval("A | B", only_a));
}

#[test]
fn connectives_apply_left_to_right() {
    let only_c: &[(&str, &[(&str, &str)])] = &[("C", &[])];
    let a_and_c: &[(&str, &[(&str, &str)])] = &[("A", &[]), ("C", &[])];
    // Parenthesized and unparenthesized forms diverge on a context holding
    // only C: the strict left-to-right reduction has no precedence.
    assert!(!eval("(A & B) | C", only_c));
    assert!(eval("A & B | C", only_c));
    // On a context holding A and C both forms hold.
    assert!(eval("A & (B | C)", a_and_c));
    assert!(eval("A & B | C", a_and_c));
    // And they diverge again on the context holding only C.
    assert!(!eval("A & (B | C)", only_c));
}

#[test]
fn empty_program_is_false() {
    let prog = Program::parse("").unwrap();
    assert_eq!(prog.len(), 0);
    assert!(!prog.eval(&Context::Whole(container(&[("A", &[])]))));
}

#[test]
fn streaming_mode_scopes_to_current_record() {
    let ctx = Context::Single("TIT2".to_string(), props(&[("text", "Dio")]));
    let hit = Program::parse("TIT2").unwrap();
    assert!(hit.eval(&ctx));
    let miss = Program::parse("TALB").unwrap();
    assert!(!miss.eval(&ctx));
    let neg = Program::parse("!TALB").unwrap();
    assert!(neg.eval(&ctx));
    let prop = Program::parse("TIT2.text=\"Dio\"").unwrap();
    assert!(prop.eval(&ctx));
    let wrong_id = Program::parse("TALB.text=\"Dio\"").unwrap();
    assert!(!wrong_id.eval(&ctx));
}

#[test]
fn not_equal_operator_unsupported_in_streaming_mode() {
    let single = Context::Single("TIT2".to_string(), props(&[("text", "Dio")]));
    let prog = Program::parse("TIT2.text!\"Rainbow\"").unwrap();
    // The same program answers true in whole-container mode...
    let records: &[(&str, &[(&str, &str)])] = &[("TIT2", &[("text", "Dio")])];
    assert!(prog.eval(&Context::Whole(container(records))));
    // ...and false in streaming mode, where `!` is unsupported.
    assert!(!prog.eval(&single));
}

#[test]
fn later_record_with_same_id_wins() {
    let records: &[(&str, &[(&str, &str)])] =
        &[("TIT2", &[("text", "Old")]), ("TIT2", &[("text", "New")])];
    assert!(eval("TIT2.text=\"New\"", records));
    assert!(!eval("TIT2.text=\"Old\"", records));
}

#[test]
fn matcher_without_expression_accepts_everything() {
    let m = Matcher::new(None).unwrap();
    assert!(m.accepts(&Context::Whole(Container::new())));
    assert!(m.accepts(&Context::Single("X".to_string(), PropMap::new())));
}

#[test]
fn matcher_with_expression_filters() {
    let m = Matcher::new(Some("!APIC")).unwrap();
    assert!(m.accepts(&Context::Whole(container(&[("TIT2", &[])]))));
    assert!(!m.accepts(&Context::Whole(container(&[("APIC", &[])]))));
}

#[test]
fn matcher_rejects_malformed_expression() {
    assert!(Matcher::new(Some("TIT2.")).is_err());
}

#[test]
fn readme_style_expression() {
    let records: &[(&str, &[(&str, &str)])] =
        &[("TIT2", &[("text", "Holy Diver")]), ("TALB", &[("text", "Dio Live")])];
    assert!(eval("!APIC | TALB.text~'Dio'", records));
    assert!(eval("TIT2 & TALB.text^'Dio'", records));
    assert!(!eval("APIC & TALB.text~'Dio'", records));
}

#[test]
fn rendering_reparses_to_the_same_program() {
    let prog = parse_tokens(&tokenize("TIT2 & !APIC | TALB.text~\"Dio\"")).unwrap();
    let text = render_program(&prog);
    assert_eq!(text, "TIT2 & !APIC | TALB.text~\"Dio\"");
    let again = parse_tokens(&tokenize(&text)).unwrap();
    assert_eq!(again, prog);
}

#[test]
fn rendering_normalizes_quotes_and_spacing() {
    let prog = parse_tokens(&tokenize("TALB.text^'Dio'&TIT2")).unwrap();
    let text = render_program(&prog);
    assert_eq!(text, "TALB.text^\"Dio\" & TIT2");
    assert_eq!(parse_tokens(&tokenize(&text)).unwrap(), prog);
}

#[test]
fn rendering_survives_resolved_parentheses() {
    let prog = parse_tokens(&tokenize("(A & B) | C")).unwrap();
    let text = render_program(&prog);
    let again = parse_tokens(&tokenize(&text)).unwrap();
    assert_eq!(again, prog);
}
