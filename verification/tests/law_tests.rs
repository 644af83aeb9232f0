use dhall_syntax::eq::subexpr_eq;
use dhall_syntax::import::{Import, ImportLocation, ImportMode};
use dhall_syntax::tree::no_embeds;
use dhall_syntax::{
    rc, Builtin, Const, DoubleDecoder, ExprF, Label, Normalized, Noted, ParsedExpr,
    SimpleStaticType, Span, StaticType, SubExpr, X,
};

struct StdDecoder;

impl DoubleDecoder for StdDecoder {
    fn decode_bits(&self, s: &str) -> u64 {
        match s.parse::<f64>() {
            Ok(x) => x.to_bits(),
            Err(_) => f64::INFINITY.to_bits(),
        }
    }
}

fn parse(s: &str) -> ParsedExpr {
    dhall_syntax::parse_expr(s, &StdDecoder).unwrap()
}

#[test]
fn note_absurd_twice_keeps_structure() {
    let e: SubExpr<X, u32> = Noted::from_expr_no_note(ExprF::SomeLit(Noted::from_expr_no_note(
        ExprF::Embed(5u32),
    )));
    let once: SubExpr<X, u32> = e.note_absurd();
    let twice: SubExpr<Span, u32> = once.note_absurd();
    match twice.as_ref() {
        ExprF::SomeLit(inner) => match inner.as_ref() {
            ExprF::Embed(v) => assert_eq!(*v, 5),
            other => panic!("unexpected: {:?}", other),
        },
        other => panic!("unexpected: {:?}", other),
    }
    assert!(twice.note().is_none());
}

#[test]
fn absurd_converts_resolved_trees() {
    let e: SubExpr<X, X> = rc(ExprF::App(
        rc(ExprF::Builtin(Builtin::OptionalNone)),
        rc(ExprF::Builtin(Builtin::Natural)),
    ));
    let r: SubExpr<Span, Import> = e.absurd();
    match r.as_ref() {
        ExprF::App(f, a) => {
            assert!(matches!(f.as_ref(), ExprF::Builtin(Builtin::OptionalNone)));
            assert!(matches!(a.as_ref(), ExprF::Builtin(Builtin::Natural)));
        }
        other => panic!("unexpected: {:?}", other),
    }
    // The walk also certifies that the resolved tree holds no embeds.
    let _again = e.check_no_embeds();
}

#[test]
fn traverse_embed_maps_imports() {
    let e = parse("./a");
    let mapped: Result<SubExpr<Span, u32>, ()> = e.traverse_embed(&|_i: &Import| Ok(7u32));
    match mapped.unwrap().as_ref() {
        ExprF::Embed(v) => assert_eq!(*v, 7),
        other => panic!("unexpected: {:?}", other),
    }
    // An error in the resolver surfaces unchanged.
    let failed: Result<SubExpr<Span, u32>, String> =
        e.traverse_embed(&|_i: &Import| Err(String::from("no resolver")));
    assert_eq!(failed.unwrap_err(), "no resolver");
}

#[test]
fn map_embed_keeps_structure() {
    let e = parse("Some ./a");
    let mapped: SubExpr<Span, ImportMode> = e.map_embed(&|i: &Import| i.mode);
    match mapped.as_ref() {
        ExprF::SomeLit(inner) => match inner.as_ref() {
            ExprF::Embed(m) => assert_eq!(*m, ImportMode::Code),
            other => panic!("unexpected: {:?}", other),
        },
        other => panic!("unexpected: {:?}", other),
    }
}

#[test]
fn map_subexprs_touches_children_not_embeds() {
    let e = parse("[1, 2]");
    let swapped = e.map_subexprs_with_special_handling_of_binders(
        &|_x: &ParsedExpr| Noted::from_expr_no_note(ExprF::NaturalLit(9)),
        &|_l: &Label, _x: &ParsedExpr| Noted::from_expr_no_note(ExprF::NaturalLit(9)),
    );
    let expected: ParsedExpr = Noted::from_expr_no_note(ExprF::NEListLit(vec![
        Noted::from_expr_no_note(ExprF::NaturalLit(9)),
        Noted::from_expr_no_note(ExprF::NaturalLit(9)),
    ]));
    assert!(subexpr_eq(&swapped, &expected));
    // A bare embed is handed back shared.
    let imp = parse("./a");
    let kept = imp.map_subexprs_with_special_handling_of_binders(
        &|_x: &ParsedExpr| Noted::from_expr_no_note(ExprF::NaturalLit(9)),
        &|_l: &Label, _x: &ParsedExpr| Noted::from_expr_no_note(ExprF::NaturalLit(9)),
    );
    assert!(subexpr_eq(&kept, &imp));
}

#[test]
fn traverse_ref_simple_stops_at_errors() {
    let e = parse("[1]");
    let ok: Result<ExprF<Span, Import>, ()> =
        e.as_ref().traverse_ref_simple(&|x: &ParsedExpr| Ok(x.clone()));
    assert!(ok.is_ok());
    let bad: Result<ExprF<Span, Import>, u8> =
        e.as_ref().traverse_ref_simple(&|_x: &ParsedExpr| Err(3u8));
    assert_eq!(bad.unwrap_err(), 3);
}

#[test]
fn simple_static_types_map_as_promised() {
    let t = bool::get_simple_static_type();
    assert!(matches!(t.expr.as_ref(), ExprF::Builtin(Builtin::Bool)));
    let t = u64::get_simple_static_type();
    assert!(matches!(t.expr.as_ref(), ExprF::Builtin(Builtin::Natural)));
    let t = i32::get_simple_static_type();
    assert!(matches!(t.expr.as_ref(), ExprF::Builtin(Builtin::Integer)));
    let t = String::get_simple_static_type();
    assert!(matches!(t.expr.as_ref(), ExprF::Builtin(Builtin::Text)));
    let t = <(bool, String)>::get_simple_static_type();
    match t.expr.as_ref() {
        ExprF::RecordType(rows) => {
            assert_eq!(rows.len(), 2);
            assert_eq!(rows[0].0.name(), "_1");
            assert!(matches!(rows[0].1.as_ref(), ExprF::Builtin(Builtin::Bool)));
            assert_eq!(rows[1].0.name(), "_2");
            assert!(matches!(rows[1].1.as_ref(), ExprF::Builtin(Builtin::Text)));
        }
        other => panic!("unexpected: {:?}", other),
    }
    let t = Option::<bool>::get_simple_static_type();
    match t.expr.as_ref() {
        ExprF::App(f, a) => {
            assert!(matches!(f.as_ref(), ExprF::Builtin(Builtin::Optional)));
            assert!(matches!(a.as_ref(), ExprF::Builtin(Builtin::Bool)));
        }
        other => panic!("unexpected: {:?}", other),
    }
    let t = Vec::<u64>::get_simple_static_type();
    match t.expr.as_ref() {
        ExprF::App(f, a) => {
            assert!(matches!(f.as_ref(), ExprF::Builtin(Builtin::List)));
            assert!(matches!(a.as_ref(), ExprF::Builtin(Builtin::Natural)));
        }
        other => panic!("unexpected: {:?}", other),
    }
    let t = Result::<bool, String>::get_simple_static_type();
    match t.expr.as_ref() {
        ExprF::UnionType(alts) => {
            assert_eq!(alts.len(), 2);
            assert_eq!(alts[0].0.name(), "Err");
            assert_eq!(alts[1].0.name(), "Ok");
        }
        other => panic!("unexpected: {:?}", other),
    }
    let t = core::marker::PhantomData::<bool>::get_simple_static_type();
    match t.expr.as_ref() {
        ExprF::RecordType(rows) => assert!(rows.is_empty()),
        other => panic!("unexpected: {:?}", other),
    }
    let t = <&bool>::get_simple_static_type();
    assert!(matches!(t.expr.as_ref(), ExprF::Builtin(Builtin::Bool)));
}

#[test]
fn static_type_wraps_in_normalized_shell() {
    let n: Normalized = bool::get_static_type();
    assert!(matches!(n.thunk.as_ref(), ExprF::Builtin(Builtin::Bool)));
    assert_eq!(n.typ, Some(Const::Type));
}

#[test]
fn build_rows_sorts_and_rejects_duplicates() {
    let b = Label::new(String::from("b"));
    let a = Label::new(String::from("a"));
    let rows = dhall_syntax::dmap::build_rows(vec![(b, 2u8), (a, 1u8)]).unwrap();
    assert_eq!(rows[0].0.name(), "a");
    assert_eq!(rows[0].1, 1);
    assert_eq!(rows[1].0.name(), "b");
    assert_eq!(rows[1].1, 2);
    let a1 = Label::new(String::from("a"));
    let a2 = Label::new(String::from("a"));
    let dup = dhall_syntax::dmap::build_rows(vec![(a1, 1u8), (a2, 2u8)]);
    assert_eq!(dup.unwrap_err().name(), "a");
}

#[test]
fn mixed_indent_strips_nothing() {
    let e = parse("''\n\tx\n  y\n ''");
    match e.as_ref() {
        // The tab defeats the candidate indent, so nothing is stripped, and
        // the last line keeps its lone space.
        ExprF::TextLit(t) => assert_eq!(t.head, "\tx\n  y\n "),
        other => panic!("unexpected: {:?}", other),
    }
}

#[test]
fn multiline_escapes() {
    let e = parse("''\na ''' b ''${ c\n''");
    match e.as_ref() {
        ExprF::TextLit(t) => assert_eq!(t.head, "a '' b ${ c\n"),
        other => panic!("unexpected: {:?}", other),
    }
}

#[test]
fn hash_digest_decoded_from_hex() {
    // The digest below is not all zeros, so a wrapper handing back its
    // input unchanged could not produce these bytes.
    let e = parse("./x sha256:0102030405060708090a0b0c0d0e0f101112131415161718191a1b1c1d1e1f20");
    match e.as_ref() {
        ExprF::Embed(imp) => match &imp.hash {
            Some(dhall_syntax::import::Hash::SHA256(bytes)) => {
                let expected: Vec<u8> = (1..=32).collect();
                assert_eq!(bytes, &expected);
            }
            other => panic!("unexpected hash: {:?}", other),
        },
        other => panic!("unexpected: {:?}", other),
    }
}

#[test]
fn using_headers_clause() {
    let e = parse("https://example.com/a using ./headers");
    match e.as_ref() {
        ExprF::Embed(imp) => match &imp.location {
            ImportLocation::Remote(url) => {
                let headers = url.headers.as_ref().unwrap();
                assert!(matches!(headers.0, ImportLocation::Local(_, _)));
            }
            other => panic!("unexpected location: {:?}", other),
        },
        other => panic!("unexpected: {:?}", other),
    }
}

#[test]
fn keywords_are_no_identifiers() {
    assert!(dhall_syntax::parse_expr("let", &StdDecoder).is_err());
    assert!(dhall_syntax::parse_expr("in", &StdDecoder).is_err());
    assert!(dhall_syntax::parse_expr("then", &StdDecoder).is_err());
}

#[test]
fn spans_cover_their_text() {
    let e = parse("  { a = 1 }  ");
    let span = e.note().clone().unwrap();
    assert_eq!(span.start, 2);
    assert_eq!(span.end, 11);
}

#[test]
fn operator_spellings() {
    let cases: Vec<(&str, dhall_syntax::BinOp)> = vec![
        ("a ? b", dhall_syntax::BinOp::ImportAlt),
        ("a || b", dhall_syntax::BinOp::BoolOr),
        ("a + b", dhall_syntax::BinOp::NaturalPlus),
        ("a ++ b", dhall_syntax::BinOp::TextAppend),
        ("a # b", dhall_syntax::BinOp::ListAppend),
        ("a && b", dhall_syntax::BinOp::BoolAnd),
        ("a ∧ b", dhall_syntax::BinOp::Combine),
        ("a /\\ b", dhall_syntax::BinOp::Combine),
        ("a ⫽ b", dhall_syntax::BinOp::Prefer),
        ("a // b", dhall_syntax::BinOp::Prefer),
        ("a ⩓ b", dhall_syntax::BinOp::CombineTypes),
        ("a //\\ b", dhall_syntax::BinOp::CombineTypes),
        ("a * b", dhall_syntax::BinOp::NaturalTimes),
        ("a == b", dhall_syntax::BinOp::BoolEQ),
        ("a != b", dhall_syntax::BinOp::BoolNE),
        ("a ≡ b", dhall_syntax::BinOp::Equivalence),
        ("a === b", dhall_syntax::BinOp::Equivalence),
    ];
    for (text, op) in cases {
        let e = parse(text);
        match e.as_ref() {
            ExprF::BinOp(got, _, _) => assert_eq!(*got, op, "for {:?}", text),
            other => panic!("unexpected for {:?}: {:?}", text, other),
        }
    }
}

#[test]
fn forall_spellings() {
    for text in ["∀(x : Type) → x", "forall (x : Type) -> x"] {
        let e = parse(text);
        match e.as_ref() {
            ExprF::Pi(l, t, b) => {
                assert_eq!(l.name(), "x");
                assert!(matches!(t.as_ref(), ExprF::Const(Const::Type)));
                assert!(matches!(b.as_ref(), ExprF::Var(_)));
            }
            other => panic!("unexpected for {:?}: {:?}", text, other),
        }
    }
}

#[test]
fn let_with_annotation() {
    let e = parse("let x : Natural = 1 in x");
    match e.as_ref() {
        ExprF::Let(l, Some(t), v, _b) => {
            assert_eq!(l.name(), "x");
            assert!(matches!(t.as_ref(), ExprF::Builtin(Builtin::Natural)));
            assert!(matches!(v.as_ref(), ExprF::NaturalLit(1)));
        }
        other => panic!("unexpected: {:?}", other),
    }
}

#[test]
fn quoted_labels() {
    let e = parse("`strange name`");
    match e.as_ref() {
        ExprF::Var(v) => assert_eq!(v.0.name(), "strange name"),
        other => panic!("unexpected: {:?}", other),
    }
}

#[test]
fn parenthesised_grouping_beats_application() {
    let e = parse("f (g x)");
    match e.as_ref() {
        ExprF::App(f, arg) => {
            assert!(matches!(f.as_ref(), ExprF::Var(_)));
            assert!(matches!(arg.as_ref(), ExprF::App(_, _)));
        }
        other => panic!("unexpected: {:?}", other),
    }
}

#[test]
fn leftover_input_is_rejected() {
    assert!(dhall_syntax::parse_expr("True False garbage )", &StdDecoder).is_err());
    assert!(dhall_syntax::parse_expr("", &StdDecoder).is_err());
}

#[test]
fn natural_fits_full_word() {
    let e = parse("18446744073709551615");
    match e.as_ref() {
        ExprF::NaturalLit(n) => assert_eq!(*n, usize::MAX),
        other => panic!("unexpected: {:?}", other),
    }
}

#[test]
fn integer_boundaries() {
    let e = parse("-9223372036854775808");
    match e.as_ref() {
        ExprF::IntegerLit(n) => assert_eq!(*n, isize::MIN),
        other => panic!("unexpected: {:?}", other),
    }
    assert!(dhall_syntax::parse_expr("+9223372036854775808", &StdDecoder).is_err());
}

#[test]
fn import_alternative_operator() {
    let e = parse("./a ? ./b");
    match e.as_ref() {
        ExprF::BinOp(op, l, r) => {
            assert_eq!(*op, dhall_syntax::BinOp::ImportAlt);
            assert!(matches!(l.as_ref(), ExprF::Embed(_)));
            assert!(matches!(r.as_ref(), ExprF::Embed(_)));
        }
        other => panic!("unexpected: {:?}", other),
    }
}

#[test]
fn function_types_are_right_associated() {
    let e = parse("Bool -> Natural -> Text");
    match e.as_ref() {
        ExprF::Pi(_, a, b) => {
            assert!(matches!(a.as_ref(), ExprF::Builtin(Builtin::Bool)));
            assert!(matches!(b.as_ref(), ExprF::Pi(_, _, _)));
        }
        other => panic!("unexpected: {:?}", other),
    }
}

#[test]
fn nested_interpolation() {
    let e = parse("\"a${\"b${x}c\"}d\"");
    match e.as_ref() {
        ExprF::TextLit(t) => {
            assert_eq!(t.head, "a");
            assert_eq!(t.tail.len(), 1);
            assert_eq!(t.tail[0].1, "d");
            match t.tail[0].0.as_ref() {
                ExprF::TextLit(inner) => {
                    assert_eq!(inner.head, "b");
                    assert_eq!(inner.tail.len(), 1);
                    assert_eq!(inner.tail[0].1, "c");
                }
                other => panic!("unexpected: {:?}", other),
            }
        }
        other => panic!("unexpected: {:?}", other),
    }
}

#[test]
fn lambda_body_extends_right() {
    // The body of a lambda swallows the whole operator expression after it.
    let e = parse("λ(x : Natural) → x + 1");
    match e.as_ref() {
        ExprF::Lam(_, _, body) => {
            assert!(matches!(body.as_ref(), ExprF::BinOp(_, _, _)));
        }
        other => panic!("unexpected: {:?}", other),
    }
}

#[test]
fn record_of_expressions() {
    let e = parse("{ f = λ(x : Bool) → x, t = { n : Natural } }");
    match e.as_ref() {
        ExprF::RecordLit(rows) => {
            assert_eq!(rows.len(), 2);
            assert_eq!(rows[0].0.name(), "f");
            assert!(matches!(rows[0].1.as_ref(), ExprF::Lam(_, _, _)));
            assert_eq!(rows[1].0.name(), "t");
            assert!(matches!(rows[1].1.as_ref(), ExprF::RecordType(_)));
        }
        other => panic!("unexpected: {:?}", other),
    }
}

#[test]
fn structural_equality_ignores_notes_only() {
    // Spans differ, structure does not.
    let spanned = parse("  1  ");
    let bare: ParsedExpr = Noted::from_expr_no_note(ExprF::NaturalLit(1));
    assert!(subexpr_eq(&spanned, &bare));
    // Different structure is told apart.
    assert!(!subexpr_eq(&parse("1"), &parse("2")));
    assert!(!subexpr_eq(&parse("[1]"), &parse("[1, 1]")));
    assert!(!subexpr_eq(&parse("{ a = 1 }"), &parse("{ b = 1 }")));
    assert!(!subexpr_eq(&parse("./a"), &parse("./b")));
}

#[test]
fn reserved_words_of_the_grammar_are_rejected() {
    // The grammar reserves these; the syntax tree has no forms for them, so
    // they are errors rather than variables.
    assert!(dhall_syntax::parse_expr("assert", &StdDecoder).is_err());
    assert!(dhall_syntax::parse_expr("toMap", &StdDecoder).is_err());
}

#[test]
fn posix_env_escapes_decode() {
    let e = parse("env:\"A\\tB\\\\C\\\"D\"");
    match e.as_ref() {
        ExprF::Embed(imp) => match &imp.location {
            ImportLocation::Env(name) => assert_eq!(name, "A\tB\\C\"D"),
            other => panic!("unexpected location: {:?}", other),
        },
        other => panic!("unexpected: {:?}", other),
    }
}
