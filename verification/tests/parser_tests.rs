use dhall_syntax::eq::{exprf_eq, subexpr_eq};
use dhall_syntax::import::{FilePrefix, ImportLocation, ImportMode};
use dhall_syntax::{
    parse_expr, rc, BinOp, Builtin, Const, DoubleDecoder, ExprF, Label, NaiveDouble, Noted,
    ParseErrorKind, ParsedExpr, SubExpr, V, X,
};

struct StdDecoder;

impl DoubleDecoder for StdDecoder {
    fn decode_bits(&self, s: &str) -> u64 {
        match s.parse::<f64>() {
            Ok(x) => x.to_bits(),
            Err(_) => f64::INFINITY.to_bits(),
        }
    }
}

fn parse(s: &str) -> Result<ParsedExpr, dhall_syntax::ParseError> {
    parse_expr(s, &StdDecoder)
}

fn label(s: &str) -> Label {
    Label::new(String::from(s))
}

fn bare(e: dhall_syntax::Expr<dhall_syntax::Span, dhall_syntax::import::Import>) -> ParsedExpr {
    Noted::from_expr_no_note(e)
}

fn var(s: &str) -> ParsedExpr {
    bare(ExprF::Var(V(label(s), 0)))
}

#[test]
fn bool_literal_with_span() {
    let e = parse("True").unwrap();
    match e.as_ref() {
        ExprF::BoolLit(true) => {}
        other => panic!("unexpected: {:?}", other),
    }
    let span = e.note().clone().unwrap();
    assert_eq!(span.start, 0);
    assert_eq!(span.end, 4);
}

#[test]
fn lambda_identity() {
    let e = parse("λ(x : Bool) → x").unwrap();
    let expected = bare(ExprF::Lam(
        label("x"),
        bare(ExprF::Builtin(Builtin::Bool)),
        var("x"),
    ));
    assert!(subexpr_eq(&e, &expected));
}

#[test]
fn lambda_ascii_spelling() {
    let e = parse("\\(x : Bool) -> x").unwrap();
    let expected = bare(ExprF::Lam(
        label("x"),
        bare(ExprF::Builtin(Builtin::Bool)),
        var("x"),
    ));
    assert!(subexpr_eq(&e, &expected));
}

#[test]
fn let_chain_right_folds() {
    let e = parse("let x = 1 let y = x in y").unwrap();
    let expected = bare(ExprF::Let(
        label("x"),
        None,
        bare(ExprF::NaturalLit(1)),
        bare(ExprF::Let(label("y"), None, var("x"), var("y"))),
    ));
    assert!(subexpr_eq(&e, &expected));
}

#[test]
fn record_literal_sorted() {
    let e = parse("{ a = 1, b = 2 }").unwrap();
    let expected = bare(ExprF::RecordLit(vec![
        (label("a"), bare(ExprF::NaturalLit(1))),
        (label("b"), bare(ExprF::NaturalLit(2))),
    ]));
    assert!(subexpr_eq(&e, &expected));
    // Key order in the output is label-sorted whatever the source order.
    let f = parse("{ b = 2, a = 1 }").unwrap();
    assert!(subexpr_eq(&f, &expected));
}

#[test]
fn multiline_indent_stripped() {
    let e = parse("''\n  foo\n  bar\n  ''").unwrap();
    match e.as_ref() {
        ExprF::TextLit(t) => {
            assert_eq!(t.head, "foo\nbar\n");
            assert!(t.tail.is_empty());
        }
        other => panic!("unexpected: {:?}", other),
    }
}

#[test]
fn local_import_with_hash() {
    let e = parse(
        "./foo/bar sha256:e3b0c44298fc1c149afbf4c8996fb92427ae41e4649b934ca495991b7852b855",
    )
    .unwrap();
    match e.as_ref() {
        ExprF::Embed(imp) => {
            assert_eq!(imp.mode, ImportMode::Code);
            match &imp.location {
                ImportLocation::Local(prefix, path) => {
                    assert_eq!(*prefix, FilePrefix::Here);
                    assert_eq!(path, &vec![String::from("foo"), String::from("bar")]);
                }
                other => panic!("unexpected location: {:?}", other),
            }
            match &imp.hash {
                Some(dhall_syntax::import::Hash::SHA256(bytes)) => {
                    assert_eq!(bytes.len(), 32);
                    assert_eq!(bytes[0], 0xe3);
                    assert_eq!(bytes[1], 0xb0);
                    assert_eq!(bytes[31], 0x55);
                }
                other => panic!("unexpected hash: {:?}", other),
            }
        }
        other => panic!("unexpected: {:?}", other),
    }
}

#[test]
fn unknown_hash_algorithm_rejected() {
    let err = parse("./foo sha512:e3b0c44298fc1c149afbf4c8996fb92427ae41e4649b934ca495991b7852b855")
        .unwrap_err();
    assert_eq!(err.kind, ParseErrorKind::UnknownHashAlgorithm);
}

#[test]
fn operators_left_associated() {
    let e = parse("a + b + c").unwrap();
    let expected = bare(ExprF::BinOp(
        BinOp::NaturalPlus,
        bare(ExprF::BinOp(BinOp::NaturalPlus, var("a"), var("b"))),
        var("c"),
    ));
    assert!(subexpr_eq(&e, &expected));
}

#[test]
fn precedence_orders_operators() {
    // `*` binds tighter than `+`.
    let e = parse("a + b * c").unwrap();
    let expected = bare(ExprF::BinOp(
        BinOp::NaturalPlus,
        var("a"),
        bare(ExprF::BinOp(BinOp::NaturalTimes, var("b"), var("c"))),
    ));
    assert!(subexpr_eq(&e, &expected));
}

#[test]
fn duplicate_record_key_rejected() {
    let err = parse("{ a = 1, a = 2 }").unwrap_err();
    assert_eq!(err.kind, ParseErrorKind::CustomParse);
}

#[test]
fn unicode_escape_boundaries() {
    // `\u{0}` decodes.
    let e = parse("\"\\u{0}\"").unwrap();
    match e.as_ref() {
        ExprF::TextLit(t) => assert_eq!(t.head, "\u{0}"),
        other => panic!("unexpected: {:?}", other),
    }
    // Surrogates are rejected.
    let err = parse("\"\\uD800\"").unwrap_err();
    assert_eq!(err.kind, ParseErrorKind::InvalidSurrogate);
    // Non-characters of every plane are rejected.
    let err = parse("\"\\u{FFFE}\"").unwrap_err();
    assert_eq!(err.kind, ParseErrorKind::InvalidNonCharacter);
    let err = parse("\"\\u{10FFFE}\"").unwrap_err();
    assert_eq!(err.kind, ParseErrorKind::InvalidNonCharacter);
    // The last private-use code point is accepted.
    let e = parse("\"\\u{10FFFD}\"").unwrap();
    match e.as_ref() {
        ExprF::TextLit(t) => assert_eq!(t.head, "\u{10FFFD}"),
        other => panic!("unexpected: {:?}", other),
    }
}

#[test]
fn natural_overflow_boundary() {
    // 2^64 does not fit.
    assert!(parse("18446744073709551616").is_err());
    // 2^63 - 1 does.
    let e = parse("9223372036854775807").unwrap();
    match e.as_ref() {
        ExprF::NaturalLit(n) => assert_eq!(*n, 9223372036854775807usize),
        other => panic!("unexpected: {:?}", other),
    }
}

#[test]
fn double_overflow_rejected_infinity_accepted() {
    let err = parse("1e400").unwrap_err();
    assert_eq!(err.kind, ParseErrorKind::Overflow);
    let e = parse("Infinity").unwrap();
    match e.as_ref() {
        ExprF::DoubleLit(d) => assert_eq!(d.to_bits(), f64::INFINITY.to_bits()),
        other => panic!("unexpected: {:?}", other),
    }
    let e = parse("-Infinity").unwrap();
    match e.as_ref() {
        ExprF::DoubleLit(d) => assert_eq!(d.to_bits(), f64::NEG_INFINITY.to_bits()),
        other => panic!("unexpected: {:?}", other),
    }
    let e = parse("3.25").unwrap();
    match e.as_ref() {
        ExprF::DoubleLit(d) => assert_eq!(d.to_bits(), (3.25f64).to_bits()),
        other => panic!("unexpected: {:?}", other),
    }
}

#[test]
fn unknown_builtin_rejected() {
    let err = parse("Natural/frobnicate").unwrap_err();
    assert_eq!(err.kind, ParseErrorKind::UnknownBuiltin);
}

#[test]
fn builtins_and_constants() {
    let e = parse("Natural/fold").unwrap();
    match e.as_ref() {
        ExprF::Builtin(Builtin::NaturalFold) => {}
        other => panic!("unexpected: {:?}", other),
    }
    let e = parse("Type").unwrap();
    match e.as_ref() {
        ExprF::Const(Const::Type) => {}
        other => panic!("unexpected: {:?}", other),
    }
    assert_eq!(Builtin::parse("Text/show"), Some(Builtin::TextShow));
    assert_eq!(Builtin::parse("Text/frob"), None);
}

#[test]
fn application_left_associated() {
    let e = parse("f a b").unwrap();
    let expected = bare(ExprF::App(bare(ExprF::App(var("f"), var("a"))), var("b")));
    assert!(subexpr_eq(&e, &expected));
}

#[test]
fn selectors_fold_left() {
    let e = parse("r.x.y").unwrap();
    let expected = bare(ExprF::Field(bare(ExprF::Field(var("r"), label("x"))), label("y")));
    assert!(subexpr_eq(&e, &expected));
    let e = parse("r.{ x, y }").unwrap();
    let expected = bare(ExprF::Projection(var("r"), vec![label("x"), label("y")]));
    assert!(subexpr_eq(&e, &expected));
}

#[test]
fn variable_with_de_bruijn_index() {
    let e = parse("x@2").unwrap();
    let expected = bare(ExprF::Var(V(label("x"), 2)));
    assert!(subexpr_eq(&e, &expected));
}

#[test]
fn quoted_path_component_percent_encoded() {
    let e = parse("./\"a=b\"/c").unwrap();
    match e.as_ref() {
        ExprF::Embed(imp) => match &imp.location {
            ImportLocation::Local(FilePrefix::Here, path) => {
                assert_eq!(path, &vec![String::from("a%3Db"), String::from("c")]);
            }
            other => panic!("unexpected location: {:?}", other),
        },
        other => panic!("unexpected: {:?}", other),
    }
}

#[test]
fn interpolated_text() {
    let e = parse("\"a${x}b\"").unwrap();
    match e.as_ref() {
        ExprF::TextLit(t) => {
            assert_eq!(t.head, "a");
            assert_eq!(t.tail.len(), 1);
            assert!(subexpr_eq(&t.tail[0].0, &var("x")));
            assert_eq!(t.tail[0].1, "b");
        }
        other => panic!("unexpected: {:?}", other),
    }
}

#[test]
fn union_type_and_literal() {
    let e = parse("< A : Bool | B >").unwrap();
    let expected = bare(ExprF::UnionType(vec![
        (label("A"), Some(bare(ExprF::Builtin(Builtin::Bool)))),
        (label("B"), None),
    ]));
    assert!(subexpr_eq(&e, &expected));
    let e = parse("< A = True | B : Bool >").unwrap();
    let expected = bare(ExprF::UnionLit(
        label("A"),
        bare(ExprF::BoolLit(true)),
        vec![(label("B"), Some(bare(ExprF::Builtin(Builtin::Bool))))],
    ));
    assert!(subexpr_eq(&e, &expected));
}

#[test]
fn function_types_and_annotations() {
    let e = parse("Bool -> Bool").unwrap();
    let expected = bare(ExprF::Pi(
        label("_"),
        bare(ExprF::Builtin(Builtin::Bool)),
        bare(ExprF::Builtin(Builtin::Bool)),
    ));
    assert!(subexpr_eq(&e, &expected));
    let e = parse("1 : Natural").unwrap();
    let expected = bare(ExprF::Annot(
        bare(ExprF::NaturalLit(1)),
        bare(ExprF::Builtin(Builtin::Natural)),
    ));
    assert!(subexpr_eq(&e, &expected));
}

#[test]
fn map_ref_identity_traversal() {
    let e = parse("λ(x : Bool) → [x, True]").unwrap();
    let mapped = e.as_ref().map_ref(
        &|x: &ParsedExpr| x.clone(),
        &|_i: &dhall_syntax::import::Import| unreachable!(),
        &|l: &Label| l.clone(),
    );
    assert!(exprf_eq(e.as_ref(), &mapped));
}

#[test]
fn empty_collections() {
    let e = parse("{}").unwrap();
    assert!(subexpr_eq(&e, &bare(ExprF::RecordType(vec![]))));
    let e = parse("{=}").unwrap();
    assert!(subexpr_eq(&e, &bare(ExprF::RecordLit(vec![]))));
    let e = parse("<>").unwrap();
    assert!(subexpr_eq(&e, &bare(ExprF::UnionType(vec![]))));
    let e = parse("[] : List Natural").unwrap();
    let expected = bare(ExprF::EmptyListLit(bare(ExprF::App(
        bare(ExprF::Builtin(Builtin::List)),
        bare(ExprF::Builtin(Builtin::Natural)),
    ))));
    assert!(subexpr_eq(&e, &expected));
}

#[test]
fn deprecated_optional_literals() {
    let e = parse("[] : Optional Natural").unwrap();
    let expected = bare(ExprF::OldOptionalLit(None, bare(ExprF::Builtin(Builtin::Natural))));
    assert!(subexpr_eq(&e, &expected));
    let e = parse("[1] : Optional Natural").unwrap();
    let expected = bare(ExprF::OldOptionalLit(
        Some(bare(ExprF::NaturalLit(1))),
        bare(ExprF::Builtin(Builtin::Natural)),
    ));
    assert!(subexpr_eq(&e, &expected));
}

#[test]
fn remote_import_with_query() {
    let e = parse("https://example.com/a/b?x=1").unwrap();
    match e.as_ref() {
        ExprF::Embed(imp) => match &imp.location {
            ImportLocation::Remote(url) => {
                assert_eq!(url.scheme, dhall_syntax::Scheme::HTTPS);
                assert_eq!(url.authority, "example.com");
                assert_eq!(url.path, vec![String::from("a"), String::from("b")]);
                assert_eq!(url.query.as_deref(), Some("x=1"));
            }
            other => panic!("unexpected location: {:?}", other),
        },
        other => panic!("unexpected: {:?}", other),
    }
}

#[test]
fn env_imports() {
    let e = parse("env:HOME").unwrap();
    match e.as_ref() {
        ExprF::Embed(imp) => match &imp.location {
            ImportLocation::Env(name) => assert_eq!(name, "HOME"),
            other => panic!("unexpected location: {:?}", other),
        },
        other => panic!("unexpected: {:?}", other),
    }
    let e = parse("env:\"A\\nB\"").unwrap();
    match e.as_ref() {
        ExprF::Embed(imp) => match &imp.location {
            ImportLocation::Env(name) => assert_eq!(name, "A\nB"),
            other => panic!("unexpected location: {:?}", other),
        },
        other => panic!("unexpected: {:?}", other),
    }
}

#[test]
fn import_modes() {
    let e = parse("./file as Text").unwrap();
    match e.as_ref() {
        ExprF::Embed(imp) => assert_eq!(imp.mode, ImportMode::RawText),
        other => panic!("unexpected: {:?}", other),
    }
    let e = parse("missing").unwrap();
    match e.as_ref() {
        ExprF::Embed(imp) => {
            assert_eq!(imp.mode, ImportMode::Code);
            assert!(matches!(imp.location, ImportLocation::Missing));
        }
        other => panic!("unexpected: {:?}", other),
    }
}

#[test]
fn if_then_else() {
    let e = parse("if True then 1 else 2").unwrap();
    let expected = bare(ExprF::BoolIf(
        bare(ExprF::BoolLit(true)),
        bare(ExprF::NaturalLit(1)),
        bare(ExprF::NaturalLit(2)),
    ));
    assert!(subexpr_eq(&e, &expected));
}

#[test]
fn merge_forms() {
    let e = parse("merge h u").unwrap();
    let expected = bare(ExprF::Merge(var("h"), var("u"), None));
    assert!(subexpr_eq(&e, &expected));
    let e = parse("merge h u : Bool").unwrap();
    let expected = bare(ExprF::Merge(
        var("h"),
        var("u"),
        Some(bare(ExprF::Builtin(Builtin::Bool))),
    ));
    assert!(subexpr_eq(&e, &expected));
}

#[test]
fn integers_parse() {
    let e = parse("+2").unwrap();
    assert!(subexpr_eq(&e, &bare(ExprF::IntegerLit(2))));
    let e = parse("-7").unwrap();
    assert!(subexpr_eq(&e, &bare(ExprF::IntegerLit(-7))));
}

#[test]
fn comments_are_whitespace() {
    let e = parse("-- hello\nTrue {- block {- nested -} -} ").unwrap();
    assert!(subexpr_eq(&e, &bare(ExprF::BoolLit(true))));
}

#[test]
fn shift_moves_matching_offsets() {
    let v = V(label("x"), 3);
    let cutoff = V(label("x"), 1);
    let shifted = v.shift(2, &cutoff);
    assert!(shifted.0.eq_label(&label("x")));
    assert_eq!(shifted.1, 5);
    // A different name stays put.
    let w = V(label("y"), 3);
    let shifted = w.shift(2, &cutoff);
    assert_eq!(shifted.1, 3);
    // A smaller offset than the cutoff stays put.
    let u = V(label("x"), 0);
    let shifted = u.shift(2, &cutoff);
    assert_eq!(shifted.1, 0);
}

#[test]
fn trivial_result_unwraps() {
    let r: Result<u8, X> = Ok(7);
    assert_eq!(dhall_syntax::trivial_result(r), 7);
}

#[test]
fn add_ui_signed_offsets() {
    assert_eq!(dhall_syntax::add_ui(5, -3), 2);
    assert_eq!(dhall_syntax::add_ui(5, 3), 8);
}

#[test]
fn lone_dollar_is_literal() {
    let e = parse("\"a$b\"").unwrap();
    match e.as_ref() {
        ExprF::TextLit(t) => assert_eq!(t.head, "a$b"),
        other => panic!("unexpected: {:?}", other),
    }
}

#[test]
fn multiline_without_trailing_newline() {
    let e = parse("''\nfoo''").unwrap();
    match e.as_ref() {
        ExprF::TextLit(t) => assert_eq!(t.head, "foo"),
        other => panic!("unexpected: {:?}", other),
    }
}

#[test]
fn some_of_parenthesised_lambda() {
    let e = parse("Some (λ(x : Bool) → x)").unwrap();
    match e.as_ref() {
        ExprF::SomeLit(inner) => assert!(matches!(inner.as_ref(), ExprF::Lam(_, _, _))),
        other => panic!("unexpected: {:?}", other),
    }
}

#[test]
fn comments_inside_records() {
    let e = parse("{ a {- key -} = -- value\n 1 }").unwrap();
    match e.as_ref() {
        ExprF::RecordLit(rows) => {
            assert_eq!(rows.len(), 1);
            assert!(matches!(rows[0].1.as_ref(), ExprF::NaturalLit(1)));
        }
        other => panic!("unexpected: {:?}", other),
    }
}

#[test]
fn let_of_lambda() {
    let e = parse("let f = λ(x : Bool) → x in f True").unwrap();
    match e.as_ref() {
        ExprF::Let(_, None, v, b) => {
            assert!(matches!(v.as_ref(), ExprF::Lam(_, _, _)));
            assert!(matches!(b.as_ref(), ExprF::App(_, _)));
        }
        other => panic!("unexpected: {:?}", other),
    }
}

#[test]
fn escape_shorthands() {
    let e = parse("\"\\n\\t\\\\\\\"\\$\\/\\b\\f\\r\"").unwrap();
    match e.as_ref() {
        ExprF::TextLit(t) => assert_eq!(t.head, "\n\t\\\"$/\u{8}\u{c}\r"),
        other => panic!("unexpected: {:?}", other),
    }
}
