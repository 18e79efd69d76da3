use hashedbuild::ast::{BinaryOperator, Expression, Pattern, PatternField, Span, StructField, UnaryOperator};
use hashedbuild::text::{decimal_string, parse_i64, same_text};
use hashedbuild::tree_sitter::{
    span_debug_string, strip_quotes_string, Point, SyntaxNode, Translator, INFINITY_BITS, NAN_BITS,
};

/// A node covering `start..end` of a one-line source.
fn node(kind: &str, start: usize, end: usize, children: Vec<SyntaxNode>) -> SyntaxNode {
    SyntaxNode {
        kind: kind.to_owned(),
        start_byte: start,
        end_byte: end,
        start_position: Point { row: 0, column: start },
        end_position: Point { row: 0, column: end },
        float_bits: None,
        children,
        tokens: vec![],
    }
}

fn leaf(kind: &str, start: usize, end: usize) -> SyntaxNode {
    node(kind, start, end, vec![])
}

fn translate(source: &str, tree: &SyntaxNode) -> Option<Result<hashedbuild::ast::Spanned<Expression>, String>> {
    Translator::new(source.as_bytes(), "f.hb".to_owned()).translate(tree)
}

fn ok(r: Option<Result<hashedbuild::ast::Spanned<Expression>, String>>) -> Expression {
    match r {
        Some(Ok(e)) => e.node,
        other => panic!("not translated: {:?}", other),
    }
}

fn err(r: Option<Result<hashedbuild::ast::Spanned<Expression>, String>>) -> String {
    match r {
        Some(Err(m)) => m,
        other => panic!("no error: {:?}", other),
    }
}

#[test]
fn literals_translate() {
    assert!(matches!(ok(translate("foo", &leaf("identifier", 0, 3))), Expression::Identifier(ref s) if s == "foo"));
    assert!(matches!(ok(translate("true", &leaf("bool", 0, 4))), Expression::Boolean(true)));
    assert!(matches!(ok(translate("false", &leaf("bool", 0, 5))), Expression::Boolean(false)));
    assert!(matches!(ok(translate("-42", &leaf("integer", 0, 3))), Expression::Integer(-42)));
    assert!(matches!(ok(translate("./a/b", &leaf("path", 0, 5))), Expression::Path(ref s) if s == "./a/b"));
}

#[test]
fn integer_out_of_range_is_an_error_with_the_span() {
    let m = err(translate("99999999999999999999", &leaf("integer", 0, 20)));
    assert_eq!(
        m,
        "Invalid integer at Span { file: \"f.hb\", start_line: 0, start_col: 0, end_line: 0, end_col: 20 }"
    );
}

#[test]
fn floats_translate_by_bit_pattern() {
    assert!(matches!(ok(translate("inf", &leaf("float", 0, 3))), Expression::Float(INFINITY_BITS)));
    assert!(matches!(ok(translate("infinity", &leaf("float", 0, 8))), Expression::Float(INFINITY_BITS)));
    assert!(matches!(ok(translate("NaN", &leaf("float", 0, 3))), Expression::Float(NAN_BITS)));
    let mut n = leaf("float", 0, 3);
    n.float_bits = Some(1.5f64.to_bits());
    assert!(matches!(ok(translate("1.5", &n)), Expression::Float(b) if b == 1.5f64.to_bits()));
    let m = err(translate("1.x", &leaf("float", 0, 3)));
    assert_eq!(m, "Invalid float at Span { file: \"f.hb\", start_line: 0, start_col: 0, end_line: 0, end_col: 3 }");
}

#[test]
fn float_constants_match_the_standard_library() {
    assert_eq!(INFINITY_BITS, f64::INFINITY.to_bits());
    assert_eq!(NAN_BITS, f64::NAN.to_bits());
}

#[test]
fn strings_lose_their_quotes_and_escapes() {
    let src = "\"a\\tb\"";
    assert!(matches!(ok(translate(src, &leaf("string", 0, src.len()))), Expression::String(ref s) if s == "a\tb"));
    let plain = "unquoted";
    assert!(matches!(ok(translate(plain, &leaf("string", 0, plain.len()))), Expression::String(ref s) if s == "unquoted"));
    let bad = "\"a\\";
    let m = err(translate(bad, &leaf("string", 0, bad.len())));
    assert!(m.starts_with("Malformed string: "));
    assert!(m.ends_with("."));
}

#[test]
fn strip_quotes_only_strips_a_pair() {
    assert_eq!(strip_quotes_string("\"abc\"".to_owned()), "abc");
    assert_eq!(strip_quotes_string("\"\"".to_owned()), "");
    assert_eq!(strip_quotes_string("\"".to_owned()), "\"");
    assert_eq!(strip_quotes_string("\"abc".to_owned()), "\"abc");
}

#[test]
fn calls_and_operators_translate() {
    // write_file "x"
    let src = "write_file \"x\"";
    let tree = node("call", 0, 14, vec![leaf("identifier", 0, 10), leaf("string", 11, 14)]);
    match ok(translate(src, &tree)) {
        Expression::Call { func, arg } => {
            assert!(matches!(func.node, Expression::Identifier(ref s) if s == "write_file"));
            assert!(matches!(arg.node, Expression::String(ref s) if s == "x"));
            assert_eq!(arg.span.start_col, 11);
        },
        other => panic!("unexpected: {:?}", other),
    }
    let src = "1 |< 2";
    let tree = node("set_all", 0, 6, vec![leaf("integer", 0, 1), leaf("integer", 5, 6)]);
    assert!(matches!(ok(translate(src, &tree)), Expression::BinaryOp { op: BinaryOperator::PutAll, .. }));
    let src = "-x";
    let tree = node("negate", 0, 2, vec![leaf("identifier", 1, 2)]);
    assert!(matches!(ok(translate(src, &tree)), Expression::UnaryOp { op: UnaryOperator::Negate, .. }));
}

#[test]
fn wrappers_with_one_child_are_transparent() {
    let src = "7";
    let tree = node("source_file", 0, 1, vec![node("parenthesized", 0, 1, vec![leaf("integer", 0, 1)])]);
    let r = translate(src, &tree);
    match r {
        Some(Ok(e)) => {
            assert!(matches!(e.node, Expression::Integer(7)));
            assert_eq!(e.span.end_col, 1);
        },
        other => panic!("unexpected: {:?}", other),
    }
    let tree = node("mystery", 0, 1, vec![]);
    assert_eq!(err(translate(src, &tree)), "Unrecognized syntax node: mystery");
}

#[test]
fn structure_fields_translate() {
    // { a = 1, = b, c }
    let src = "{ a = 1, = b, c }";
    let mut value_only = node("structure_field", 9, 12, vec![leaf("identifier", 11, 12)]);
    value_only.tokens = vec!["=".to_owned()];
    let tree = node(
        "structure",
        0,
        17,
        vec![
            node("structure_field", 2, 7, vec![leaf("identifier", 2, 3), leaf("integer", 6, 7)]),
            value_only,
            node("structure_field", 14, 15, vec![leaf("identifier", 14, 15)]),
            leaf("comment", 16, 16),
        ],
    );
    match ok(translate(src, &tree)) {
        Expression::Structure(fields) => {
            assert_eq!(fields.len(), 3);
            assert!(matches!(fields[0].node, StructField::KeyValue(_, _)));
            assert!(matches!(fields[1].node, StructField::ValueOnly(_)));
            assert!(matches!(fields[2].node, StructField::Identifier(_)));
        },
        other => panic!("unexpected: {:?}", other),
    }
}

#[test]
fn functions_take_their_pattern() {
    // |a: {b, {c}}| a
    let src = "|a: {b, {c}}| a";
    let pattern = node(
        "structural_pattern",
        4,
        12,
        vec![
            node("pattern_field", 5, 6, vec![leaf("identifier", 5, 6)]),
            node("pattern_field", 8, 11, vec![node("structural_pattern", 8, 11, vec![
                node("pattern_field", 9, 10, vec![leaf("identifier", 9, 10)]),
            ])]),
        ],
    );
    let tree = node("function", 0, 15, vec![leaf("identifier", 1, 2), pattern, leaf("identifier", 14, 15)]);
    match ok(translate(src, &tree)) {
        Expression::Function { pattern, body } => {
            match &pattern.node {
                Pattern::BoundStructural { identifier, structure } => {
                    assert_eq!(identifier, "a");
                    assert_eq!(structure.len(), 2);
                    assert!(matches!(structure[0].node, PatternField::Identifier(ref s) if s == "b"));
                    assert!(matches!(structure[1].node, PatternField::Structured(ref f) if f.len() == 1));
                },
                other => panic!("unexpected pattern: {:?}", other),
            }
            assert_eq!(pattern.span.start_col, 1);
            assert_eq!(pattern.span.end_col, 12);
            assert!(matches!(body.node, Expression::Identifier(ref s) if s == "a"));
        },
        other => panic!("unexpected: {:?}", other),
    }
}

#[test]
fn function_without_pattern_is_an_error() {
    let src = "|1| 2";
    let tree = node("function", 0, 5, vec![leaf("integer", 1, 2), leaf("integer", 4, 5)]);
    assert_eq!(err(translate(src, &tree)), "Unexpected pattern starting node: integer");
    let tree = node("function", 0, 5, vec![]);
    assert_eq!(err(translate(src, &tree)), "Expected pattern, found nothing");
}

#[test]
fn cases_translate_with_guards_and_default() {
    let src = "cases x { |v| v == 1 => 2, default 3 }";
    let case = node(
        "case",
        10,
        25,
        vec![
            leaf("identifier", 11, 12),
            node("equal", 14, 20, vec![leaf("identifier", 14, 15), leaf("integer", 19, 20)]),
            leaf("integer", 24, 25),
        ],
    );
    let tree = node(
        "cases",
        0,
        38,
        vec![leaf("identifier", 6, 7), case, node("default", 27, 36, vec![leaf("integer", 35, 36)])],
    );
    match ok(translate(src, &tree)) {
        Expression::Cases { target, branches, default } => {
            assert!(matches!(target.node, Expression::Identifier(_)));
            assert_eq!(branches.len(), 1);
            assert!(branches[0].node.guard.is_some());
            assert!(matches!(branches[0].node.body.node, Expression::Integer(2)));
            assert!(matches!(default.map(|d| d.node), Some(Expression::Integer(3))));
        },
        other => panic!("unexpected: {:?}", other),
    }
}

#[test]
fn malformed_trees_have_no_translation() {
    let src = "if";
    assert!(translate(src, &node("if", 0, 2, vec![leaf("bool", 0, 0)])).is_none());
    assert!(translate(src, &leaf("identifier", 1, 5)).is_none());
    assert!(translate(src, &leaf("identifier", 2, 1)).is_none());
    assert!(translate(src, &node("call", 0, 2, vec![])).is_none());
}

#[test]
fn errors_stop_the_translation_in_order() {
    let src = "99999999999999999999 x";
    let tree = node("call", 0, 22, vec![leaf("integer", 0, 20), leaf("mystery", 21, 22)]);
    assert!(err(translate(src, &tree)).starts_with("Invalid integer at"));
}

#[test]
fn invalid_utf8_reads_as_empty_text() {
    let bytes = [0xffu8, 0xfe];
    let t = Translator::new(&bytes, "f".to_owned());
    assert_eq!(t.text(&leaf("identifier", 0, 2)), Some(String::new()));
    assert_eq!(t.text(&leaf("identifier", 0, 3)), None);
}

#[test]
fn span_debug_writes_the_file_as_a_path() {
    let file = "dir/a \"b\" 'c'.hb";
    let span = Span { file: file.to_owned(), start_line: 1, start_col: 20, end_line: 300, end_col: 0 };
    let expected = format!(
        "Span {{ file: {:?}, start_line: 1, start_col: 20, end_line: 300, end_col: 0 }}",
        std::path::Path::new(file)
    );
    assert_eq!(span_debug_string(&span), expected);
}

#[test]
fn decimal_numerals() {
    assert_eq!(decimal_string(0), "0");
    assert_eq!(decimal_string(7), "7");
    assert_eq!(decimal_string(10), "10");
    assert_eq!(decimal_string(1234567890), "1234567890");
    assert_eq!(decimal_string(usize::MAX), usize::MAX.to_string());
}

#[test]
fn integers_read_like_the_standard_library() {
    for text in ["0", "-0", "+5", "-9223372036854775808", "9223372036854775807", "9223372036854775808", "", "+", "-", "1a", " 1", "007"] {
        assert_eq!(parse_i64(text.as_bytes()), text.parse::<i64>().ok(), "text {:?}", text);
    }
}

#[test]
fn same_text_compares_characters() {
    assert!(same_text("abc", "abc"));
    assert!(!same_text("abc", "abd"));
    assert!(!same_text("ab", "abc"));
    assert!(same_text("", ""));
}
