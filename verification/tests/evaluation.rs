use hashedbuild::ast::{
    BinaryOperator, CaseBranch, Expression, Pattern, PatternField, Span, Spanned, StructField, UnaryOperator,
};
use hashedbuild::data::{Function, Mapping, Value};
use hashedbuild::effects::{Journal, Request, Response};
use hashedbuild::eval::{bind_pattern, builtins, eval, eval_inner, extract_inferred_key, Environment, Evaluation};
use hashedbuild::fs_entry::FsEntry;
use hashedbuild::runtime::Runtime;

fn span() -> Span {
    Span { file: "test".to_owned(), start_line: 0, start_col: 0, end_line: 0, end_col: 0 }
}

fn sp<T>(node: T) -> Spanned<T> {
    Spanned::new(node, span())
}

fn b(e: Expression) -> Box<Spanned<Expression>> {
    Box::new(sp(e))
}

fn ident(name: &str) -> Expression {
    Expression::Identifier(name.to_owned())
}

fn string(text: &str) -> Expression {
    Expression::String(text.to_owned())
}

fn call(func: Expression, arg: Expression) -> Expression {
    Expression::Call { func: b(func), arg: b(arg) }
}

fn binary(op: BinaryOperator, lhs: Expression, rhs: Expression) -> Expression {
    Expression::BinaryOp { op, lhs: b(lhs), rhs: b(rhs) }
}

fn runtime() -> Runtime {
    Runtime::new("/src".to_owned(), "/cache".to_owned())
}

fn run(e: Expression, arg: &Value, journal: &Journal) -> Evaluation {
    eval(&sp(e), &Mapping::new(), arg, &runtime(), journal)
}

fn run_plain(e: Expression) -> Evaluation {
    run(e, &Value::Mapping(Mapping::new()), &Journal::new())
}

fn done_int(r: &Evaluation) -> Option<i64> {
    match r {
        Evaluation::Done(Ok(Value::Integer(i))) => Some(*i),
        _ => None,
    }
}

fn done_bool(r: &Evaluation) -> Option<bool> {
    match r {
        Evaluation::Done(Ok(Value::Boolean(x))) => Some(*x),
        _ => None,
    }
}

fn done_err(r: &Evaluation) -> Option<String> {
    match r {
        Evaluation::Done(Err(m)) => Some(m.clone()),
        _ => None,
    }
}

fn needed_write(r: &Evaluation) -> Option<(String, String)> {
    match r {
        Evaluation::Needs(Request::WriteFile { path, contents }) => Some((path.clone(), contents.clone())),
        _ => None,
    }
}

fn regular(text: &str) -> FsEntry {
    FsEntry::RegularFile { len: text.len() as u64, contents: text.as_bytes().to_vec() }
}

#[test]
fn write_file_asks_for_the_store_path_of_the_text() {
    let r = run_plain(call(ident("write_file"), string("Something else...")));
    assert_eq!(
        needed_write(&r),
        Some(("/cache/ngFwBbixJ4usaRnajJl_Lgn2NjDEYv1xCFUfK3tiK6Q".to_owned(), "Something else...".to_owned()))
    );
}

#[test]
fn same_text_built_differently_goes_to_the_same_path() {
    let direct = run_plain(call(ident("write_file"), string("Something else...")));
    let joined = run_plain(call(ident("write_file"), call(string("Something "), string("else..."))));
    assert!(needed_write(&direct).is_some());
    assert_eq!(needed_write(&direct), needed_write(&joined));
}

#[test]
fn recorded_write_gives_the_file() {
    let e = || call(ident("write_file"), string("Hello, World!"));
    let first = run_plain(e());
    let (path, contents) = needed_write(&first).unwrap();
    let mut journal = Journal::new();
    journal.record(
        Request::WriteFile { path: path.clone(), contents: contents.clone() },
        Response::Written(Ok(regular("Hello, World!"))),
    );
    match run(e(), &Value::Mapping(Mapping::new()), &journal) {
        Evaluation::Done(Ok(Value::File(f))) => {
            assert_eq!(f.path(), "/cache/McWJzkCzc1dcSzHj63epHDC_F3_kRxmOqnhdLgAZlSI");
            assert_eq!(f.path, path);
        },
        other => panic!("unexpected: {:?}", other),
    }
}

#[test]
fn failed_write_is_an_error() {
    let e = || call(ident("write_file"), string("x"));
    let (path, contents) = needed_write(&run_plain(e())).unwrap();
    let mut journal = Journal::new();
    journal.record(Request::WriteFile { path, contents }, Response::Written(Err("denied".to_owned())));
    let r = run(e(), &Value::Mapping(Mapping::new()), &journal);
    assert_eq!(done_err(&r), Some("Function execution error".to_owned()));
}

#[test]
fn readme_program_reads_two_files_and_writes_their_join() {
    // write_file ((read_file ./lhs.txt)(read_file ./rhs.txt))
    let program = || {
        call(
            ident("write_file"),
            call(
                call(ident("read_file"), Expression::Path("./lhs.txt".to_owned())),
                call(ident("read_file"), Expression::Path("./rhs.txt".to_owned())),
            ),
        )
    };
    let arg = Value::Mapping(Mapping::new());
    let mut journal = Journal::new();
    let mut steps = 0;
    let result = loop {
        steps += 1;
        assert!(steps < 10);
        match run(program(), &arg, &journal) {
            Evaluation::Done(r) => break r,
            Evaluation::Needs(req) => {
                let resp = match &req {
                    Request::Inspect(p) if p == "./lhs.txt" => Response::Inspected(regular("Hello,\n")),
                    Request::Inspect(p) if p == "./rhs.txt" => Response::Inspected(regular("World!\n")),
                    Request::ReadFile(p) if p == "./lhs.txt" => Response::Text(Ok("Hello,\n".to_owned())),
                    Request::ReadFile(p) if p == "./rhs.txt" => Response::Text(Ok("World!\n".to_owned())),
                    Request::WriteFile { contents, .. } => {
                        assert_eq!(contents, "Hello,\nWorld!\n");
                        Response::Written(Ok(regular(contents)))
                    },
                    other => panic!("unexpected request {:?}", other),
                };
                journal.record(req, resp);
            },
        }
    };
    assert_eq!(steps, 6);
    match result {
        Ok(Value::File(f)) => assert_eq!(f.path(), "/cache/FVHaoUERMcmCAw8_d0GYfbzN3z5hNyolaxToFKw-5B4"),
        other => panic!("unexpected: {:?}", other),
    }
}

#[test]
fn load_file_on_a_string_is_refused() {
    let r = run_plain(call(ident("load_file"), string("x")));
    assert_eq!(done_err(&r), Some("Function execution error".to_owned()));
}

#[test]
fn calling_a_string_joins_strings_only() {
    match run_plain(call(string("ab"), string("cd"))) {
        Evaluation::Done(Ok(Value::String(t))) => assert_eq!(t, "abcd"),
        other => panic!("unexpected: {:?}", other),
    }
    assert_eq!(
        done_err(&run_plain(call(string("ab"), Expression::Integer(1)))),
        Some("Calling a string mean concatinating it, expected the argument to be string".to_owned())
    );
    assert_eq!(
        done_err(&run_plain(call(Expression::Integer(1), Expression::Integer(1)))),
        Some("Attempted to call a non-function".to_owned())
    );
}

#[test]
fn unknown_name_is_an_error() {
    assert_eq!(done_err(&run_plain(ident("nothing"))), Some("Unresolved identifier: nothing".to_owned()));
}

#[test]
fn arithmetic_and_logic() {
    assert_eq!(done_int(&run_plain(binary(BinaryOperator::Add, Expression::Integer(2), Expression::Integer(40)))), Some(42));
    assert_eq!(
        done_int(&run_plain(binary(BinaryOperator::Add, Expression::Integer(i64::MAX), Expression::Integer(1)))),
        Some(i64::MIN)
    );
    assert_eq!(
        done_int(&run_plain(Expression::UnaryOp { op: UnaryOperator::Negate, expr: b(Expression::Integer(5)) })),
        Some(-5)
    );
    assert_eq!(
        done_bool(&run_plain(Expression::UnaryOp { op: UnaryOperator::Not, expr: b(Expression::Boolean(false)) })),
        Some(true)
    );
    assert_eq!(done_bool(&run_plain(binary(BinaryOperator::Equal, string("a"), string("a")))), Some(true));
    assert_eq!(done_bool(&run_plain(binary(BinaryOperator::Equal, string("a"), Expression::Integer(1)))), Some(false));
    assert_eq!(
        done_err(&run_plain(binary(BinaryOperator::Multiply, Expression::Integer(2), Expression::Integer(3)))),
        Some("Unsupported binary operation Multiply for the given types".to_owned())
    );
    assert_eq!(
        done_err(&run_plain(Expression::UnaryOp { op: UnaryOperator::Not, expr: b(Expression::Integer(1)) })),
        Some("Unsupported unary operation Not for the given type".to_owned())
    );
}

#[test]
fn if_chooses_a_branch() {
    let e = |c: Expression| Expression::If {
        condition: b(c),
        then_branch: b(Expression::Integer(1)),
        else_branch: b(Expression::Integer(2)),
    };
    assert_eq!(done_int(&run_plain(e(Expression::Boolean(true)))), Some(1));
    assert_eq!(done_int(&run_plain(e(Expression::Boolean(false)))), Some(2));
    assert_eq!(
        done_err(&run_plain(e(Expression::Integer(0)))),
        Some("If condition must evaluate to a boolean".to_owned())
    );
}

#[test]
fn structures_and_field_access() {
    let structure = Expression::Structure(vec![
        sp(StructField::KeyValue(sp(string("a")), sp(Expression::Integer(1)))),
        sp(StructField::KeyValue(sp(string("b")), sp(Expression::Integer(2)))),
    ]);
    let get_a = Expression::FieldGet { target: b(structure), field: "a".to_owned() };
    assert_eq!(done_int(&run_plain(get_a)), Some(1));
    let structure2 = Expression::Structure(vec![sp(StructField::KeyValue(sp(string("b")), sp(Expression::Integer(2))))]);
    let get_b = Expression::IndexGet { target: b(structure2), index: b(string("b")) };
    assert_eq!(done_int(&run_plain(get_b)), Some(2));
    let missing = Expression::FieldGet { target: b(Expression::Structure(vec![])), field: "q".to_owned() };
    assert_eq!(done_err(&run_plain(missing)), Some("Field 'q' not found".to_owned()));
    let unbound_key = Expression::Structure(vec![sp(StructField::KeyValue(sp(ident("k")), sp(Expression::Integer(1))))]);
    assert_eq!(done_err(&run_plain(unbound_key)), Some("Unresolved identifier: k".to_owned()));
    let tuple = Expression::Structure(vec![sp(StructField::Identifier(sp(Expression::Integer(8))))]);
    let first = Expression::IndexGet { target: b(tuple), index: b(Expression::Integer(0)) };
    assert_eq!(done_int(&run_plain(first)), Some(8));
}

#[test]
fn put_all_merges_structures() {
    let left = Expression::Structure(vec![
        sp(StructField::KeyValue(sp(string("a")), sp(Expression::Integer(1)))),
        sp(StructField::KeyValue(sp(string("b")), sp(Expression::Integer(2)))),
    ]);
    let right = Expression::Structure(vec![sp(StructField::KeyValue(sp(string("b")), sp(Expression::Integer(3))))]);
    let merged = binary(BinaryOperator::PutAll, left, right);
    let get_b = Expression::FieldGet { target: b(merged), field: "b".to_owned() };
    assert_eq!(done_int(&run_plain(get_b)), Some(3));
}

#[test]
fn function_binds_the_program_argument() {
    let f = Expression::Function {
        pattern: sp(Pattern::Structured(vec![sp(PatternField::Identifier("x".to_owned()))])),
        body: b(binary(BinaryOperator::Add, ident("x"), Expression::Integer(1))),
    };
    let arg = Value::Mapping(Mapping::new().put(Value::String("x".to_owned()), Value::Integer(41)));
    assert_eq!(done_int(&run(f, &arg, &Journal::new())), Some(42));
}

#[test]
fn cases_take_the_first_matching_branch_or_the_default() {
    let cases = |target: Expression| Expression::Cases {
        target: b(target),
        branches: vec![sp(CaseBranch {
            pattern: sp(Pattern::Identifier("v".to_owned())),
            guard: Some(b(binary(BinaryOperator::Equal, ident("v"), Expression::Integer(1)))),
            body: b(Expression::Integer(10)),
        })],
        default: Some(b(Expression::Integer(20))),
    };
    assert_eq!(done_int(&run_plain(cases(Expression::Integer(1)))), Some(10));
    assert_eq!(done_int(&run_plain(cases(Expression::Integer(2)))), Some(20));
}

#[test]
fn environment_binds_and_resolves() {
    let builtins = builtins();
    let custom = Mapping::new().put(Value::String("c".to_owned()), Value::Integer(5));
    let mut env = Environment::new(&builtins, &custom);
    assert!(matches!(env.resolve("c"), Some(Value::Integer(5))));
    assert!(matches!(env.resolve("write_file"), Some(Value::Function(Function::WriteFile))));
    assert!(matches!(env.resolve("read_file"), Some(Value::Function(Function::LoadFile))));
    assert!(env.resolve("x").is_none());
    env.push_frame();
    env.bind("x".to_owned(), Value::Integer(1));
    env.bind("c".to_owned(), Value::Integer(6));
    assert!(matches!(env.resolve("x"), Some(Value::Integer(1))));
    assert!(matches!(env.resolve("c"), Some(Value::Integer(6))));
    env.pop_frame();
    assert!(env.resolve("x").is_none());
    assert!(matches!(env.resolve("c"), Some(Value::Integer(5))));
}

#[test]
fn structural_patterns_bind_fields() {
    let builtins = builtins();
    let custom = Mapping::new();
    let mut env = Environment::new(&builtins, &custom);
    let inner = Mapping::new().put(Value::String("y".to_owned()), Value::Integer(2));
    let arg = Value::Mapping(
        Mapping::new()
            .put(Value::String("x".to_owned()), Value::Integer(1))
            .put(Value::String("n".to_owned()), Value::Mapping(inner)),
    );
    let pattern = Pattern::BoundStructural {
        identifier: "all".to_owned(),
        structure: vec![
            sp(PatternField::Identifier("x".to_owned())),
            sp(PatternField::BoundStructural {
                identifier: "n".to_owned(),
                structure: vec![sp(PatternField::Identifier("y".to_owned()))],
            }),
        ],
    };
    assert!(bind_pattern(&mut env, &pattern, &arg).is_ok());
    assert!(matches!(env.resolve("x"), Some(Value::Integer(1))));
    assert!(matches!(env.resolve("y"), Some(Value::Integer(2))));
    assert!(matches!(env.resolve("n"), Some(Value::Mapping(_))));
    assert!(matches!(env.resolve("all"), Some(Value::Mapping(_))));
    let missing = Pattern::Structured(vec![sp(PatternField::Identifier("z".to_owned()))]);
    assert_eq!(bind_pattern(&mut env, &missing, &arg), Err("Structural match failed: key 'z' not found".to_owned()));
}

#[test]
fn inferred_keys() {
    assert_eq!(extract_inferred_key(&sp(ident("k"))), Ok("k".to_owned()));
    assert_eq!(
        extract_inferred_key(&sp(Expression::FieldGet { target: b(ident("a")), field: "f".to_owned() })),
        Ok("f".to_owned())
    );
    assert_eq!(
        extract_inferred_key(&sp(Expression::Integer(1))),
        Err("Cannot infer key from expression in value-only structure field".to_owned())
    );
}

#[test]
fn identity_function_gives_the_argument() {
    let f = Expression::Function { pattern: sp(Pattern::Identifier("x".to_owned())), body: b(ident("x")) };
    let arg = Value::Integer(17);
    assert_eq!(done_int(&run(f, &arg, &Journal::new())), Some(17));
}

#[test]
fn recording_more_keeps_a_finished_result() {
    let e = || call(ident("write_file"), string("abc"));
    let (path, contents) = needed_write(&run_plain(e())).unwrap();
    let mut journal = Journal::new();
    journal.record(Request::WriteFile { path: path.clone(), contents }, Response::Written(Ok(regular("abc"))));
    let first = run(e(), &Value::Mapping(Mapping::new()), &journal);
    journal.record(Request::ReadFile("elsewhere".to_owned()), Response::Text(Ok("x".to_owned())));
    let second = run(e(), &Value::Mapping(Mapping::new()), &journal);
    match (first, second) {
        (Evaluation::Done(Ok(Value::File(a))), Evaluation::Done(Ok(Value::File(b)))) => {
            assert_eq!(a.path(), b.path());
            assert!(a == b);
        },
        other => panic!("unexpected: {:?}", other),
    }
}

#[test]
fn a_mismatched_outcome_is_asked_for_again() {
    let e = || call(ident("write_file"), string("abc"));
    let mut journal = Journal::new();
    journal.record(Request::ReadFile("other".to_owned()), Response::Text(Ok("x".to_owned())));
    assert!(needed_write(&run(e(), &Value::Mapping(Mapping::new()), &journal)).is_some());
}

#[test]
fn failed_binding_keeps_what_was_bound_before() {
    let builtins = builtins();
    let custom = Mapping::new();
    let mut env = Environment::new(&builtins, &custom);
    let arg = Value::Mapping(
        Mapping::new()
            .put(Value::String("x".to_owned()), Value::Integer(1))
            .put(Value::String("n".to_owned()), Value::Integer(2)),
    );
    let pattern = Pattern::BoundStructural {
        identifier: "all".to_owned(),
        structure: vec![
            sp(PatternField::Identifier("x".to_owned())),
            sp(PatternField::Identifier("missing".to_owned())),
            sp(PatternField::Identifier("n".to_owned())),
        ],
    };
    assert_eq!(
        bind_pattern(&mut env, &pattern, &arg),
        Err("Structural match failed: key 'missing' not found".to_owned())
    );
    assert!(matches!(env.resolve("all"), Some(Value::Mapping(_))));
    assert!(matches!(env.resolve("x"), Some(Value::Integer(1))));
    assert!(env.resolve("n").is_none());
    let nested = Pattern::Structured(vec![sp(PatternField::BoundStructural {
        identifier: "n".to_owned(),
        structure: vec![],
    })]);
    assert_eq!(
        bind_pattern(&mut env, &nested, &arg),
        Err("Expected a map for nested structural binding on 'n'".to_owned())
    );
    assert!(matches!(env.resolve("n"), Some(Value::Integer(2))));
}

#[test]
fn evaluation_leaves_the_frames_as_they_were() {
    let builtins = builtins();
    let custom = Mapping::new();
    let mut env = Environment::new(&builtins, &custom);
    let journal = Journal::new();
    let rt = runtime();
    let arg = Value::Mapping(Mapping::new().put(Value::String("x".to_owned()), Value::Integer(1)));
    let failing = sp(Expression::Function {
        pattern: sp(Pattern::Structured(vec![
            sp(PatternField::Identifier("x".to_owned())),
            sp(PatternField::Identifier("y".to_owned())),
        ])),
        body: b(ident("x")),
    });
    let mut cursor = 0usize;
    assert!(eval_inner(&failing, &mut env, &arg, &rt, &journal, &mut cursor).is_err());
    assert!(env.resolve("x").is_none());
    assert!(eval_inner(&sp(ident("nothing")), &mut env, &arg, &rt, &journal, &mut cursor).is_err());
    let ok = sp(Expression::Function { pattern: sp(Pattern::Identifier("z".to_owned())), body: b(ident("z")) });
    assert!(eval_inner(&ok, &mut env, &arg, &rt, &journal, &mut cursor).is_ok());
    assert!(env.resolve("z").is_none());
}

#[test]
fn popping_undoes_any_number_of_bindings() {
    let builtins = builtins();
    let custom = Mapping::new();
    let mut env = Environment::new(&builtins, &custom);
    env.bind("a".to_owned(), Value::Integer(1));
    env.push_frame();
    for (i, n) in ["a", "b", "c", "a"].iter().enumerate() {
        env.bind(n.to_string(), Value::Integer(10 + i as i64));
    }
    env.pop_frame();
    assert!(matches!(env.resolve("a"), Some(Value::Integer(1))));
    assert!(env.resolve("b").is_none());
    env.pop_frame();
    env.pop_frame();
    assert!(env.resolve("a").is_none());
}
