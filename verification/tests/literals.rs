use models_parser::ast::{Expr, Value};
use models_parser::dialect::GenericDialect;
use models_parser::parser::Parser;
use models_parser::tokenizer::Tokenizer;
use sql_from_models::dialect::Dialect;
use sql_from_models::error::Error;
use sql_from_models::literal::DefaultExpr;

fn parse_value(text: &str) -> Value {
    let dialect = GenericDialect {};
    let tokens = Tokenizer::new(&dialect, text).tokenize().expect("tokenize");
    let expr = Parser::new(tokens, &dialect).parse_expr().expect("parse");
    match expr {
        Expr::Value(v) => v,
        other => panic!("expected a literal value, got {:?}", other),
    }
}

#[test]
fn bool_renders_unchanged_and_parses_back() {
    let lit = DefaultExpr::from_bool(true);
    assert_eq!(lit.render(), "true");
    assert!(matches!(parse_value(&lit.render()), Value::Boolean(true)));
    let lit = DefaultExpr::from_bool(false);
    assert_eq!(lit.render(), "false");
    assert!(matches!(parse_value(&lit.render()), Value::Boolean(false)));
}

#[test]
fn integer_renders_unchanged_and_parses_back() {
    let lit = DefaultExpr::from_number("42");
    assert_eq!(lit.render(), "42");
    match parse_value(&lit.render()) {
        Value::Number(n, _) => assert_eq!(n, "42"),
        other => panic!("expected a number, got {:?}", other),
    }
}

#[test]
fn float_renders_unchanged_and_parses_back() {
    let lit = DefaultExpr::from_number("1.25");
    assert_eq!(lit.render(), "1.25");
    match parse_value(&lit.render()) {
        Value::Number(n, _) => assert_eq!(n, "1.25"),
        other => panic!("expected a number, got {:?}", other),
    }
}

#[test]
fn non_string_literals_validate_under_every_dialect() {
    let dialects = [
        Dialect::SQLite,
        Dialect::PostgreSQL,
        Dialect::MySQL,
        Dialect::MsSQL,
        Dialect::Any,
    ];
    for d in dialects {
        assert!(DefaultExpr::from_bool(true).validate(d).is_ok());
        assert!(DefaultExpr::from_number("42").validate(d).is_ok());
        assert!(DefaultExpr::from_number("1.25").validate(d).is_ok());
    }
}

#[test]
fn empty_string_renders_as_empty_sql_literal() {
    let lit = DefaultExpr::from_text("");
    assert_eq!(lit.render(), "''");
    assert!(lit.validate(Dialect::Any).is_ok());
    match parse_value("''") {
        Value::SingleQuotedString(s) => assert_eq!(s, ""),
        other => panic!("expected a string, got {:?}", other),
    }
}

#[test]
fn embedded_quote_round_trips() {
    let lit = DefaultExpr::from_text("it's");
    assert_eq!(lit.render(), "'it''s'");
    assert!(lit.validate(Dialect::Any).is_ok());
    match parse_value(&lit.render()) {
        Value::SingleQuotedString(s) => assert_eq!(s, "it's"),
        other => panic!("expected a string, got {:?}", other),
    }
}

#[test]
fn unparsable_literal_is_a_syntax_error() {
    let lit = DefaultExpr::from_number(")");
    let err = lit.validate(Dialect::PostgreSQL).unwrap_err();
    match err {
        Error::Syntax(msg) => {
            assert!(msg.contains(")"));
            assert!(msg.contains("postgres"));
        }
        other => panic!("expected a syntax error, got {:?}", other),
    }
    assert_eq!(lit.validate(Dialect::PostgreSQL).unwrap_err().kind(), "SyntaxError");
}

#[test]
fn empty_literal_text_is_rejected() {
    let lit = DefaultExpr::from_number("");
    assert!(lit.validate(Dialect::Any).is_err());
}

#[test]
fn oversized_literal_is_rejected_before_parsing() {
    let lit = DefaultExpr::from_text(&"x".repeat(10_000));
    let err = lit.validate(Dialect::Any).unwrap_err();
    assert!(matches!(err, Error::Message(_)));
    assert!(err.message().contains("too long"));
    // a deeply nested expression is cut off the same way instead of
    // being handed to the recursive parser
    let nested = DefaultExpr::from_number(&"(".repeat(100_000));
    assert!(nested.validate(Dialect::Any).is_err());
}
