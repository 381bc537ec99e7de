use lakesoul_io::filter::{CompareOp, FilterExpr, Literal, Parser};

fn schema() -> Vec<(String, String)> {
    vec![
        ("a.b.c".to_string(), "float".to_string()),
        ("a.c".to_string(), "float".to_string()),
        ("name".to_string(), "string".to_string()),
    ]
}

#[test]
fn test_filter_parser() {
    let s = String::from("or(lt(a.b.c, 2.0), gt(a.b.c, 3.0))");
    let e = Parser::parse(s, &schema()).unwrap();
    assert_eq!(
        e,
        FilterExpr::Or(
            Box::new(FilterExpr::Compare(
                CompareOp::Lt,
                "a.b.c".to_string(),
                Literal::Float("2.0".to_string())
            )),
            Box::new(FilterExpr::Compare(
                CompareOp::Gt,
                "a.b.c".to_string(),
                Literal::Float("3.0".to_string())
            )),
        )
    );
}

#[test]
fn test_filter_parser_not() {
    let s = String::from("not(eq(a.c, 2.9))");
    let e = Parser::parse(s, &schema()).unwrap();
    assert_eq!(
        e,
        FilterExpr::Not(Box::new(FilterExpr::Compare(
            CompareOp::Eq,
            "a.c".to_string(),
            Literal::Float("2.9".to_string())
        )))
    );
}

#[test]
fn split_takes_the_last_top_level_comma() {
    let parts = Parser::parse_filter_str("and(eq(a, 1), or(b, c))".to_string()).unwrap();
    assert_eq!(
        parts,
        ("and".to_string(), "eq(a, 1)".to_string(), "or(b, c)".to_string())
    );
    let parts = Parser::parse_filter_str("not(eq(a.c, 2.9))".to_string()).unwrap();
    assert_eq!(parts, ("not".to_string(), "".to_string(), "eq(a.c, 2.9)".to_string()));
}

#[test]
fn malformed_filters_are_refused() {
    assert_eq!(Parser::parse_filter_str("eq a, 1".to_string()), None);
    assert_eq!(Parser::parse_filter_str("eq(a, 1".to_string()), None);
    assert_eq!(Parser::parse_filter_str("eq(a, (1)".to_string()), None);
    assert_eq!(Parser::parse_filter_str("eq(a)".to_string()), None);
}

#[test]
fn null_comparisons_become_null_tests() {
    assert_eq!(
        Parser::parse("eq(name, null)".to_string(), &schema()),
        Some(FilterExpr::IsNull("name".to_string()))
    );
    assert_eq!(
        Parser::parse("noteq(name, null)".to_string(), &schema()),
        Some(FilterExpr::IsNotNull("name".to_string()))
    );
}

#[test]
fn string_columns_get_string_literals_and_unknown_ops_a_wildcard() {
    assert_eq!(
        Parser::parse("gteq(name, bob)".to_string(), &schema()),
        Some(FilterExpr::Compare(
            CompareOp::GtEq,
            "name".to_string(),
            Literal::Utf8("bob".to_string())
        ))
    );
    assert_eq!(
        Parser::parse("like(name, bob)".to_string(), &schema()),
        Some(FilterExpr::Wildcard)
    );
    assert_eq!(Parser::parse("lt(missing, 1)".to_string(), &schema()), None);
}
