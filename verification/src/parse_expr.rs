//! The expression grammar: a recursive descent from source characters to
//! spanned trees, built on the literal, import and operator readers.

use crate::expr::{BinOp, Builtin, Const, ExprF, InterpolatedText, Label, NaiveDouble, Noted, Span, SubExpr};
use crate::import::Import;
use crate::parse::{
    error_at, is_digit, is_label_first, is_keyword, lex_label, lex_simple_label, skip_ws,
    spec_digit, DoubleDecoder, ParseError, ParseErrorKind, Step,
};
use crate::parse_import::{match_word, word_at};
use crate::strutil::chars_to_string;
use vstd::prelude::*;

verus! {

broadcast use vstd::string::group_string_axioms;

/// The trees the parser builds: spans as notes, imports as embeds.
pub type ParsedSubExpr = SubExpr<Span, Import>;

/// The bit pattern of the one `NaN` this parser produces.
pub const NAN_BITS: u64 = 0x7FF8000000000000;

/// The bit pattern of positive infinity.
pub const INF_BITS: u64 = 0x7FF0000000000000;

/// The bit pattern of negative infinity.
pub const NEG_INF_BITS: u64 = 0xFFF0000000000000;

/// Wraps a node with the span it covers, counted in characters of the input.
fn spanned(e: ExprF<Span, Import>, start: usize, end: usize) -> (r: ParsedSubExpr)
    ensures
        r.spec_expr() == e,
        r.spec_note() == Some(Span { start, end }),
{
    Noted::new(e, Span { start, end })
}

/// Wraps a node that stands for no particular stretch of input.
fn unspanned(e: ExprF<Span, Import>) -> (r: ParsedSubExpr)
    ensures
        r.spec_expr() == e,
        r.spec_note() == None::<Span>,
{
    Noted::from_expr_no_note(e)
}

/// The position after an arrow, written `->` or as one character.
fn arrow_at(inp: &Vec<char>, pos: usize) -> (r: Option<usize>)
    requires
        pos <= inp@.len(),
    ensures
        r matches Some(p2) ==> pos < p2 <= inp@.len(),
{
    let n = inp.len();
    if pos < n && inp[pos] == '\u{2192}' {
        Some(pos + 1)
    } else if pos < n && n - pos >= 2 && inp[pos] == '-' && inp[pos + 1] == '>' {
        Some(pos + 2)
    } else {
        None
    }
}

/// The operator starting at `pos`, with the position after it. Longer
/// spellings win over their prefixes, and the operators that a literal could
/// also start demand whitespace after them.
fn lex_operator(inp: &Vec<char>, pos: usize) -> (r: Option<(BinOp, usize)>)
    requires
        pos <= inp@.len(),
    ensures
        r matches Some(t) ==> pos < t.1 <= inp@.len(),
{
    let n = inp.len();
    if pos >= n {
        return None;
    }
    let c = inp[pos];
    let ws_after = |q: usize| -> (b: bool)
        requires
            q <= inp@.len(),
        {
            q < inp.len() && (inp[q] == ' ' || inp[q] == '\t' || inp[q] == '\n' || inp[q] == '\r')
        };
    if c == '?' {
        if ws_after(pos + 1) {
            return Some((BinOp::ImportAlt, pos + 1));
        }
        return None;
    }
    if c == '|' && pos + 1 < n && inp[pos + 1] == '|' {
        return Some((BinOp::BoolOr, pos + 2));
    }
    if c == '+' {
        if pos + 1 < n && inp[pos + 1] == '+' {
            return Some((BinOp::TextAppend, pos + 2));
        }
        if ws_after(pos + 1) {
            return Some((BinOp::NaturalPlus, pos + 1));
        }
        return None;
    }
    if c == '#' {
        return Some((BinOp::ListAppend, pos + 1));
    }
    if c == '&' && pos + 1 < n && inp[pos + 1] == '&' {
        return Some((BinOp::BoolAnd, pos + 2));
    }
    if c == '\u{2227}' {
        return Some((BinOp::Combine, pos + 1));
    }
    if c == '/' {
        if pos + 1 < n && inp[pos + 1] == '\\' {
            return Some((BinOp::Combine, pos + 2));
        }
        if pos + 1 < n && inp[pos + 1] == '/' {
            if pos + 2 < n && inp[pos + 2] == '\\' {
                return Some((BinOp::CombineTypes, pos + 3));
            }
            return Some((BinOp::Prefer, pos + 2));
        }
        return None;
    }
    if c == '\u{2AFD}' {
        return Some((BinOp::Prefer, pos + 1));
    }
    if c == '\u{2A53}' {
        return Some((BinOp::CombineTypes, pos + 1));
    }
    if c == '*' {
        return Some((BinOp::NaturalTimes, pos + 1));
    }
    if c == '=' && pos + 1 < n && inp[pos + 1] == '=' {
        if pos + 2 < n && inp[pos + 2] == '=' {
            return Some((BinOp::Equivalence, pos + 3));
        }
        return Some((BinOp::BoolEQ, pos + 2));
    }
    if c == '!' && pos + 1 < n && inp[pos + 1] == '=' {
        return Some((BinOp::BoolNE, pos + 2));
    }
    if c == '\u{2261}' {
        return Some((BinOp::Equivalence, pos + 1));
    }
    None
}

} // verus!

verus! {


/// Whether the rest of the input from `pos` is exactly one identifier-shaped
/// token: a label token reaching the end of the input, with no slash
/// extension.
pub open spec fn lone_token_at(inp: Seq<char>, pos: int) -> bool {
    &&& 0 <= pos < inp.len()
    &&& crate::parse::spec_label_first(inp[pos])
    &&& !slash_extended(inp, pos)
    &&& pos + label_token(inp, pos).len() == inp.len()
}

/// What a reader owes when the rest of the input is exactly one
/// identifier-shaped token: each literal word its value, a reserved word an
/// error — except `missing`, which is an import — a builtin name its
/// builtin, and anything else the variable under that name.
pub open spec fn lone_token_is(inp: Seq<char>, pos: int, r: Step<ParsedSubExpr>) -> bool {
    let token = label_token(inp, pos);
    &&& (token == "True"@ ==> (r matches Ok(t) && t.0.spec_expr() == ExprF::BoolLit::<
        Span,
        Import,
    >(true) && t.1 == pos + token.len()))
    &&& (token == "False"@ ==> (r matches Ok(t) && t.0.spec_expr() == ExprF::BoolLit::<
        Span,
        Import,
    >(false) && t.1 == pos + token.len()))
    &&& (token == "Type"@ ==> (r matches Ok(t) && t.0.spec_expr() == ExprF::Const::<
        Span,
        Import,
    >(Const::Type) && t.1 == pos + token.len()))
    &&& (token == "Kind"@ ==> (r matches Ok(t) && t.0.spec_expr() == ExprF::Const::<
        Span,
        Import,
    >(Const::Kind) && t.1 == pos + token.len()))
    &&& (token == "Sort"@ ==> (r matches Ok(t) && t.0.spec_expr() == ExprF::Const::<
        Span,
        Import,
    >(Const::Sort) && t.1 == pos + token.len()))
    &&& (token == "NaN"@ ==> (r matches Ok(t) && (t.0.spec_expr() matches ExprF::DoubleLit(d)
        && d@ == NAN_BITS) && t.1 == pos + token.len()))
    &&& (token == "Infinity"@ ==> (r matches Ok(t) && (t.0.spec_expr() matches ExprF::DoubleLit(
        d,
    ) && d@ == INF_BITS) && t.1 == pos + token.len()))
    &&& (!literal_word(token) && crate::parse::spec_keyword(token) && token != "missing"@
        ==> r is Err)
    &&& (!literal_word(token) && !crate::parse::spec_keyword(token) ==> (crate::expr::builtin_of(
        token,
    ) matches Some(b) ==> (r matches Ok(t) && t.0.spec_expr() == ExprF::Builtin::<Span, Import>(
        b,
    ) && t.1 == pos + token.len())))
    &&& ((!literal_word(token) && !crate::parse::spec_keyword(token) && crate::expr::builtin_of(
        token,
    ) is None) ==> (r matches Ok(t) && (t.0.spec_expr() matches ExprF::Var(v) && v.0@ == token)
        && t.1 == pos + token.len()))
    &&& (r matches Ok(t) ==> (t.0.spec_note() matches Some(sp) && sp.start == pos && sp.end as int
        == t.1))
}

/// As `lone_token_is`, for the readers that also resolve imports: the word
/// `missing` becomes the unresolvable import.
pub open spec fn lone_token_step(inp: Seq<char>, pos: int, r: Step<ParsedSubExpr>) -> bool {
    let token = label_token(inp, pos);
    &&& lone_token_is(inp, pos, r)
    &&& (token == "missing"@ ==> (r matches Ok(t) && (t.0.spec_expr() matches ExprF::Embed(imp)
        && imp.location is Missing && imp.mode == crate::import::ImportMode::Code
        && imp.hash is None) && t.1 == pos + token.len()))
}

/// What a result whose root embeds an import owes, for an input whose first
/// character can only start an import: a local location is exactly what
/// `local_at` denotes there, and a hash the byte value of its 64 digits.
pub open spec fn import_shaped(inp: Seq<char>, pos: int, r: Step<ParsedSubExpr>) -> bool {
    r matches Ok(t) ==> (t.0.spec_expr() matches ExprF::Embed(imp) ==> {
        &&& (imp.location matches crate::import::ImportLocation::Local(pre, comps) ==> (
        crate::parse_import::local_at(inp, pos) matches Some(la) && pre == la.0 && comps@.len()
            == la.1.len() && (forall|k: int|
            0 <= k < la.1.len() ==> (#[trigger] comps@[k])@ == la.1[k])))
        &&& (imp.hash matches Some(h) ==> (exists|q: int|
            #![trigger crate::parse::label_run_from(inp, q)]
            {
                let nr = crate::parse::label_run_from(inp, q);
                &&& 0 <= q
                &&& inp.subrange(q, q + nr) == "sha256"@
                &&& h@ == crate::parse_import::hex_bytes(inp.subrange(q + nr + 1, q + nr + 1 + 64))
            }))
    })
}

/// Whether the character can only start an import.
pub open spec fn import_first(c: char) -> bool {
    c == '.' || c == '~' || c == '/'
}

/// A run of label characters bounded on both sides has exactly that length.
proof fn lemma_run_exact(s: Seq<char>, k: int, e: int)
    requires
        0 <= k <= e <= s.len(),
        forall|j: int| k <= j < e ==> crate::parse::spec_label_next(#[trigger] s[j]),
        e == s.len() || !crate::parse::spec_label_next(s[e]),
    ensures
        crate::parse::label_run_from(s, k) == e - k,
    decreases e - k,
{
    if k < e {
        lemma_run_exact(s, k + 1, e);
    }
}

/// Every character inside a label run is a label character.
proof fn lemma_run_chars(s: Seq<char>, k: int)
    requires
        0 <= k <= s.len(),
    ensures
        k + crate::parse::label_run_from(s, k) <= s.len(),
        forall|j: int|
            k <= j < k + crate::parse::label_run_from(s, k) ==> crate::parse::spec_label_next(
                #[trigger] s[j],
            ),
    decreases s.len() - k,
{
    if k < s.len() && crate::parse::spec_label_next(s[k]) {
        lemma_run_chars(s, k + 1);
    }
}

/// A lone token fills the rest of the input with label characters.
proof fn lemma_lone_all_label(s: Seq<char>, pos: int)
    requires
        lone_token_at(s, pos),
    ensures
        crate::parse_import::all_label_to_end(s, pos),
{
    lemma_run_chars(s, pos + 1);
}

/// A word standing at `pos` with label characters after its head is exactly
/// the label token there.
proof fn lemma_token_of_word(s: Seq<char>, pos: int, w: Seq<char>)
    requires
        word_at(s, pos, w),
        w.len() >= 1,
        forall|j: int| 1 <= j < w.len() ==> crate::parse::spec_label_next(#[trigger] w[j]),
    ensures
        label_token(s, pos) == w,
{
    assert forall|j: int| pos + 1 <= j < pos + w.len() implies crate::parse::spec_label_next(
        #[trigger] s[j],
    ) by {
        assert(s.subrange(pos, pos + w.len())[j - pos] == s[j]);
    }
    lemma_run_exact(s, pos + 1, pos + w.len());
    assert(label_token(s, pos) =~= w);
}

/// Grounds the spelling of the literal words and of `missing`, so that the
/// solver can tell the tokens apart.
proof fn lemma_ground_words()
    ensures
        "True"@.len() == 4 && "True"@[0] == 'T' && "True"@[1] == 'r' && "True"@[2] == 'u'
            && "True"@[3] == 'e',
        "False"@.len() == 5 && "False"@[0] == 'F' && "False"@[1] == 'a' && "False"@[2] == 'l'
            && "False"@[3] == 's' && "False"@[4] == 'e',
        "Type"@.len() == 4 && "Type"@[0] == 'T' && "Type"@[1] == 'y' && "Type"@[2] == 'p'
            && "Type"@[3] == 'e',
        "Kind"@.len() == 4 && "Kind"@[0] == 'K' && "Kind"@[1] == 'i' && "Kind"@[2] == 'n'
            && "Kind"@[3] == 'd',
        "Sort"@.len() == 4 && "Sort"@[0] == 'S' && "Sort"@[1] == 'o' && "Sort"@[2] == 'r'
            && "Sort"@[3] == 't',
        "NaN"@.len() == 3 && "NaN"@[0] == 'N' && "NaN"@[1] == 'a' && "NaN"@[2] == 'N',
        "Infinity"@.len() == 8 && "Infinity"@[0] == 'I' && "Infinity"@[1] == 'n' && "Infinity"@[2]
            == 'f' && "Infinity"@[3] == 'i' && "Infinity"@[4] == 'n' && "Infinity"@[5] == 'i'
            && "Infinity"@[6] == 't' && "Infinity"@[7] == 'y',
        "missing"@.len() == 7 && "missing"@[0] == 'm' && "missing"@[1] == 'i' && "missing"@[2]
            == 's' && "missing"@[3] == 's' && "missing"@[4] == 'i' && "missing"@[5] == 'n'
            && "missing"@[6] == 'g',
{
    reveal_strlit("True");
    reveal_strlit("False");
    reveal_strlit("Type");
    reveal_strlit("Kind");
    reveal_strlit("Sort");
    reveal_strlit("NaN");
    reveal_strlit("Infinity");
    reveal_strlit("missing");
}

/// A successful read of a lone token ends at the end of the input.
proof fn lemma_lone_ok_end(inp: Seq<char>, pos: int, t: (ParsedSubExpr, usize))
    requires
        lone_token_at(inp, pos),
        lone_token_step(inp, pos, Ok(t)),
    ensures
        t.1 == inp.len(),
{
    let token = label_token(inp, pos);
    if token == "True"@ {
    } else if token == "False"@ {
    } else if token == "Type"@ {
    } else if token == "Kind"@ {
    } else if token == "Sort"@ {
    } else if token == "NaN"@ {
    } else if token == "Infinity"@ {
    } else if token == "missing"@ {
    } else if crate::parse::spec_keyword(token) {
    } else if crate::expr::builtin_of(token) is Some {
    } else {
    }
}

/// Parses a whole expression: binders, `let` chains, conditionals, `merge`
/// with an annotation, function types and annotated operator expressions.
#[verifier::rlimit(60)]
#[verifier::spinoff_prover]
#[verifier::loop_isolation(false)]
pub fn parse_expression<D: DoubleDecoder>(inp: &Vec<char>, pos: usize, dec: &D) -> (r: Step<
    ParsedSubExpr,
>)
    requires
        pos <= inp@.len(),
    ensures
        r matches Ok(t) ==> pos < t.1 <= inp@.len(),
        lone_token_at(inp@, pos as int) ==> lone_token_step(inp@, pos as int, r),
        pos < inp@.len() && import_first(inp@[pos as int]) ==> import_shaped(inp@, pos as int, r),
    decreases inp@.len() - pos, 11int,
{
    proof {
        lemma_ground_words();
    }
    let n = inp.len();
    if pos >= n {
        return Err(error_at(ParseErrorKind::GrammarMismatch, inp, pos, pos, "expected an expression"));
    }
    let c = inp[pos];
    // λ(x : A) -> b
    if c == '\u{3BB}' || c == '\\' {
        let q = skip_ws(inp, pos + 1);
        if !(q < n && inp[q] == '(') {
            return Err(error_at(ParseErrorKind::GrammarMismatch, inp, pos, q, "expected ( after the lambda"));
        }
        let q2 = skip_ws(inp, q + 1);
        let (l, q3) = lex_label(inp, q2)?;
        let q4 = skip_ws(inp, q3);
        if !(q4 < n && inp[q4] == ':') {
            return Err(error_at(ParseErrorKind::GrammarMismatch, inp, pos, q4, "expected : in the lambda binder"));
        }
        let q5 = skip_ws(inp, q4 + 1);
        let (typ, q6) = parse_expression(inp, q5, dec)?;
        let q7 = skip_ws(inp, q6);
        if !(q7 < n && inp[q7] == ')') {
            return Err(error_at(ParseErrorKind::GrammarMismatch, inp, pos, q7, "expected ) after the binder"));
        }
        let q8 = skip_ws(inp, q7 + 1);
        let q9 = match arrow_at(inp, q8) {
            Some(p) => p,
            None => {
                return Err(error_at(ParseErrorKind::GrammarMismatch, inp, pos, q8, "expected an arrow"));
            },
        };
        let q10 = skip_ws(inp, q9);
        let (body, q11) = parse_expression(inp, q10, dec)?;
        return Ok((spanned(ExprF::Lam(l, typ, body), pos, q11), q11));
    }
    // ∀(x : A) -> B
    let forall_end: Option<usize> = if c == '\u{2200}' {
        Some(pos + 1)
    } else {
        match_word(inp, pos, "forall")
    };
    match forall_end {
        Some(fe) => {
            proof {
                if c != '\u{2200}' {
                    reveal_strlit("forall");
                    assert("forall"@.len() == 6 && "forall"@[0] == 'f' && "forall"@[1] == 'o'
                        && "forall"@[2] == 'r' && "forall"@[3] == 'a' && "forall"@[4] == 'l'
                        && "forall"@[5] == 'l');
                    if lone_token_at(inp@, pos as int) {
                        lemma_token_of_word(inp@, pos as int, "forall"@);
                    }
                }
            }
            let q = skip_ws(inp, fe);
            if !(q < n && inp[q] == '(') {
                return Err(error_at(ParseErrorKind::GrammarMismatch, inp, pos, q, "expected ( after forall"));
            }
            let q2 = skip_ws(inp, q + 1);
            let (l, q3) = lex_label(inp, q2)?;
            let q4 = skip_ws(inp, q3);
            if !(q4 < n && inp[q4] == ':') {
                return Err(error_at(ParseErrorKind::GrammarMismatch, inp, pos, q4, "expected : in the forall binder"));
            }
            let q5 = skip_ws(inp, q4 + 1);
            let (typ, q6) = parse_expression(inp, q5, dec)?;
            let q7 = skip_ws(inp, q6);
            if !(q7 < n && inp[q7] == ')') {
                return Err(error_at(ParseErrorKind::GrammarMismatch, inp, pos, q7, "expected ) after the binder"));
            }
            let q8 = skip_ws(inp, q7 + 1);
            let q9 = match arrow_at(inp, q8) {
                Some(p) => p,
                None => {
                    return Err(error_at(ParseErrorKind::GrammarMismatch, inp, pos, q8, "expected an arrow"));
                },
            };
            let q10 = skip_ws(inp, q9);
            let (body, q11) = parse_expression(inp, q10, dec)?;
            return Ok((spanned(ExprF::Pi(l, typ, body), pos, q11), q11));
        },
        None => {},
    }
    // if c then a else b
    match match_word(inp, pos, "if") {
        Some(ke) => {
            proof {
                reveal_strlit("if");
                assert("if"@.len() == 2 && "if"@[0] == 'i' && "if"@[1] == 'f');
                if lone_token_at(inp@, pos as int) {
                    lemma_token_of_word(inp@, pos as int, "if"@);
                }
            }
            let q = skip_ws(inp, ke);
            let (cond, q2) = parse_expression(inp, q, dec)?;
            let q3 = skip_ws(inp, q2);
            let ke2 = match match_word(inp, q3, "then") {
                Some(p) => p,
                None => {
                    return Err(error_at(ParseErrorKind::GrammarMismatch, inp, pos, q3, "expected then"));
                },
            };
            proof {
                reveal_strlit("then");
            }
            let q4 = skip_ws(inp, ke2);
            let (a, q5) = parse_expression(inp, q4, dec)?;
            let q6 = skip_ws(inp, q5);
            let ke3 = match match_word(inp, q6, "else") {
                Some(p) => p,
                None => {
                    return Err(error_at(ParseErrorKind::GrammarMismatch, inp, pos, q6, "expected else"));
                },
            };
            proof {
                reveal_strlit("else");
            }
            let q7 = skip_ws(inp, ke3);
            let (b, q8) = parse_expression(inp, q7, dec)?;
            return Ok((spanned(ExprF::BoolIf(cond, a, b), pos, q8), q8));
        },
        None => {},
    }
    // let x [: T] = r ... in e, folded innermost-first
    match match_word(inp, pos, "let") {
        Some(ke) => {
            proof {
                reveal_strlit("let");
                assert("let"@.len() == 3 && "let"@[0] == 'l' && "let"@[1] == 'e' && "let"@[2]
                    == 't');
                if lone_token_at(inp@, pos as int) {
                    lemma_token_of_word(inp@, pos as int, "let"@);
                }
            }
            let mut bindings: Vec<(Label, Option<ParsedSubExpr>, ParsedSubExpr)> = Vec::new();
            let mut cur = skip_ws(inp, ke);
            loop
                invariant
                    pos < cur <= inp@.len(),
                    n == inp@.len(),
                decreases inp@.len() - cur,
            {
                let (l, b1) = lex_label(inp, cur)?;
                let b2 = skip_ws(inp, b1);
                let mut annot: Option<ParsedSubExpr> = None;
                let mut b3 = b2;
                if b2 < n && inp[b2] == ':' {
                    let a1 = skip_ws(inp, b2 + 1);
                    let (t, a2) = parse_expression(inp, a1, dec)?;
                    annot = Some(t);
                    b3 = skip_ws(inp, a2);
                }
                if !(b3 < n && inp[b3] == '=') {
                    return Err(error_at(ParseErrorKind::GrammarMismatch, inp, pos, b3, "expected = in the let binding"));
                }
                let b4 = skip_ws(inp, b3 + 1);
                let (rhs, b5) = parse_expression(inp, b4, dec)?;
                bindings.push((l, annot, rhs));
                let b6 = skip_ws(inp, b5);
                match match_word(inp, b6, "let") {
                    Some(k2) => {
                        proof {
                            reveal_strlit("let");
                        }
                        cur = skip_ws(inp, k2);
                    },
                    None => {
                        let k3 = match match_word(inp, b6, "in") {
                            Some(p) => p,
                            None => {
                                return Err(error_at(ParseErrorKind::GrammarMismatch, inp, pos, b6, "expected let or in"));
                            },
                        };
                        proof {
                            reveal_strlit("in");
                        }
                        let q = skip_ws(inp, k3);
                        let (body, q2) = parse_expression(inp, q, dec)?;
                        let mut acc = body;
                        loop
                            invariant
                                true,
                            decreases bindings@.len(),
                        {
                            match bindings.pop() {
                                Some(b) => {
                                    acc = unspanned(ExprF::Let(b.0, b.1, b.2, acc));
                                },
                                None => {
                                    break ;
                                },
                            }
                        }
                        return Ok((acc, q2));
                    },
                }
            }
        },
        None => {},
    }
    // merge x y : t
    match parse_merge_annot(inp, pos, dec) {
        Ok(t) => {
            return Ok(t);
        },
        Err(_) => {},
    }
    // An operator expression, a function type built from it, or an annotated
    // expression.
    let (e, p2) = parse_operator_expression(inp, pos, dec)?;
    let q = skip_ws(inp, p2);
    match arrow_at(inp, q) {
        Some(a1) => {
            let a2 = skip_ws(inp, a1);
            let (body, a3) = parse_expression(inp, a2, dec)?;
            let underscore = Label::new(chars_to_string(vec!['_'].as_slice()));
            return Ok((spanned(ExprF::Pi(underscore, e, body), pos, a3), a3));
        },
        None => {},
    }
    if q < n && inp[q] == ':' && (q + 1 < n && (inp[q + 1] == ' ' || inp[q + 1] == '\t' || inp[q
        + 1] == '\n' || inp[q + 1] == '\r')) {
        let a1 = skip_ws(inp, q + 1);
        let (annot, a2) = parse_expression(inp, a1, dec)?;
        // The deprecated optional literal `[x] : Optional t` still parses.
        let deprecated: Option<ExprF<Span, Import>> = match e.as_ref() {
            ExprF::NEListLit(v) => {
                if v.len() == 1 {
                    match annot.as_ref() {
                        ExprF::App(f, a) => match f.as_ref() {
                            ExprF::Builtin(Builtin::Optional) => Some(
                                ExprF::OldOptionalLit(Some(v[0].clone()), a.clone()),
                            ),
                            _ => None,
                        },
                        _ => None,
                    }
                } else {
                    None
                }
            },
            _ => None,
        };
        match deprecated {
            Some(x) => {
                return Ok((spanned(x, pos, a2), a2));
            },
            None => {
                return Ok((spanned(ExprF::Annot(e, annot), pos, a2), a2));
            },
        }
    }
    Ok((e, p2))
}

/// Parses `merge x y : t`, the annotated form.
fn parse_merge_annot<D: DoubleDecoder>(inp: &Vec<char>, pos: usize, dec: &D) -> (r: Step<
    ParsedSubExpr,
>)
    requires
        pos <= inp@.len(),
    ensures
        r matches Ok(t) ==> pos < t.1 <= inp@.len() && t.0.spec_expr() is Merge,
        lone_token_at(inp@, pos as int) ==> r is Err,
    decreases inp@.len() - pos, 10int,
{
    let n = inp.len();
    let ke = match match_word(inp, pos, "merge") {
        Some(p) => p,
        None => {
            return Err(error_at(ParseErrorKind::GrammarMismatch, inp, pos, pos, "expected merge"));
        },
    };
    proof {
        reveal_strlit("merge");
        assert("merge"@.len() == 5 && "merge"@[0] == 'm' && "merge"@[1] == 'e' && "merge"@[2]
            == 'r' && "merge"@[3] == 'g' && "merge"@[4] == 'e');
        if lone_token_at(inp@, pos as int) {
            lemma_token_of_word(inp@, pos as int, "merge"@);
        }
    }
    let q = skip_ws(inp, ke);
    let (x, q2) = parse_import_expression(inp, q, dec)?;
    let q3 = skip_ws(inp, q2);
    let (y, q4) = parse_import_expression(inp, q3, dec)?;
    let q5 = skip_ws(inp, q4);
    if !(q5 < n && inp[q5] == ':') {
        return Err(error_at(ParseErrorKind::GrammarMismatch, inp, pos, q5, "expected : after merge"));
    }
    let q6 = skip_ws(inp, q5 + 1);
    let (z, q7) = parse_application_expression(inp, q6, dec)?;
    Ok((spanned(ExprF::Merge(x, y, Some(z)), pos, q7), q7))
}

/// Parses a flat run of operator expressions and climbs it into the
/// precedence-correct tree; every operator is left-associative.
#[verifier::loop_isolation(false)]
pub fn parse_operator_expression<D: DoubleDecoder>(inp: &Vec<char>, pos: usize, dec: &D) -> (r:
    Step<ParsedSubExpr>)
    requires
        pos <= inp@.len(),
    ensures
        r matches Ok(t) ==> pos < t.1 <= inp@.len(),
        lone_token_at(inp@, pos as int) ==> lone_token_step(inp@, pos as int, r),
        pos < inp@.len() && import_first(inp@[pos as int]) ==> import_shaped(inp@, pos as int, r),
    decreases inp@.len() - pos, 8int,
{
    let (first, p) = parse_application_expression(inp, pos, dec)?;
    proof {
        if lone_token_at(inp@, pos as int) {
            lemma_lone_ok_end(inp@, pos as int, (first, p));
        }
    }
    let ghost gfirst = first;
    let mut pairs: Vec<(BinOp, ParsedSubExpr)> = Vec::new();
    let mut cur = p;
    loop
        invariant
            pos < cur <= inp@.len(),
            lone_token_at(inp@, pos as int) ==> pairs@.len() == 0 && cur as int == inp@.len()
                && lone_token_step(inp@, pos as int, Ok((gfirst, cur))),
            pos < inp@.len() && import_first(inp@[pos as int]) ==> import_shaped(
                inp@,
                pos as int,
                Ok((gfirst, cur)),
            ),
        decreases inp@.len() - cur,
    {
        let q = skip_ws(inp, cur);
        match lex_operator(inp, q) {
            Some((op, q2)) => {
                let q3 = skip_ws(inp, q2);
                match parse_application_expression(inp, q3, dec) {
                    Ok((operand, q4)) => {
                        pairs.push((op, operand));
                        cur = q4;
                    },
                    Err(e) => {
                        return Err(e);
                    },
                }
            },
            None => {
                break ;
            },
        }
    }
    let (tree, rest_idx) = crate::parse_ops::climb(first, &pairs, 0, 0);
    proof {
        if lone_token_at(inp@, pos as int) {
            assert(crate::parse_ops::uniform_prec(pairs@, 0));
            assert(crate::parse_ops::is_left_fold(tree, gfirst, pairs@.skip(0)));
            assert(pairs@.skip(0) =~= pairs@);
            assert(tree == gfirst);
        }
        if pos < inp@.len() && import_first(inp@[pos as int]) && tree.spec_expr() is Embed {
            // A climbed run leaves an operator node on top, so an embed on
            // top means nothing was climbed.
            if pairs@.len() > 0 {
                assert(tree.spec_expr() is BinOp);
            }
            assert(crate::parse_ops::uniform_prec(pairs@, 0));
            assert(crate::parse_ops::is_left_fold(tree, gfirst, pairs@.skip(0)));
            assert(pairs@.skip(0) =~= pairs@);
            assert(tree == gfirst);
        }
    }
    Ok((tree, cur))
}

/// Parses left-associated applications: `f a b` is `(f a) b`.
#[verifier::loop_isolation(false)]
pub fn parse_application_expression<D: DoubleDecoder>(inp: &Vec<char>, pos: usize, dec: &D) -> (r:
    Step<ParsedSubExpr>)
    requires
        pos <= inp@.len(),
    ensures
        r matches Ok(t) ==> pos < t.1 <= inp@.len(),
        lone_token_at(inp@, pos as int) ==> lone_token_step(inp@, pos as int, r),
        pos < inp@.len() && import_first(inp@[pos as int]) ==> import_shaped(inp@, pos as int, r),
    decreases inp@.len() - pos, 7int,
{
    let (first, p) = parse_first_application(inp, pos, dec)?;
    proof {
        if lone_token_at(inp@, pos as int) {
            lemma_lone_ok_end(inp@, pos as int, (first, p));
        }
    }
    let mut acc = first;
    let mut cur = p;
    loop
        invariant
            pos < cur <= inp@.len(),
            lone_token_at(inp@, pos as int) ==> cur as int == inp@.len() && lone_token_step(
                inp@,
                pos as int,
                Ok((acc, cur)),
            ),
            pos < inp@.len() && import_first(inp@[pos as int]) ==> import_shaped(
                inp@,
                pos as int,
                Ok((acc, cur)),
            ),
        decreases inp@.len() - cur,
    {
        let q = skip_ws(inp, cur);
        if q == cur {
            break ;
        }
        match parse_import_expression(inp, q, dec) {
            Ok((arg, q2)) => {
                acc = unspanned(ExprF::App(acc, arg));
                cur = q2;
            },
            Err(_) => {
                break ;
            },
        }
    }
    Ok((acc, cur))
}

/// Parses the head of an application: `merge x y`, `Some e`, or an import
/// expression.
fn parse_first_application<D: DoubleDecoder>(inp: &Vec<char>, pos: usize, dec: &D) -> (r: Step<
    ParsedSubExpr,
>)
    requires
        pos <= inp@.len(),
    ensures
        r matches Ok(t) ==> pos < t.1 <= inp@.len(),
        lone_token_at(inp@, pos as int) ==> lone_token_step(inp@, pos as int, r),
        pos < inp@.len() && import_first(inp@[pos as int]) ==> import_shaped(inp@, pos as int, r),
    decreases inp@.len() - pos, 6int,
{
    proof {
        lemma_ground_words();
    }
    match match_word(inp, pos, "merge") {
        Some(ke) => {
            proof {
                reveal_strlit("merge");
                assert("merge"@.len() == 5 && "merge"@[0] == 'm' && "merge"@[1] == 'e'
                    && "merge"@[2] == 'r' && "merge"@[3] == 'g' && "merge"@[4] == 'e');
                if lone_token_at(inp@, pos as int) {
                    lemma_token_of_word(inp@, pos as int, "merge"@);
                }
            }
            let q = skip_ws(inp, ke);
            let (x, q2) = parse_import_expression(inp, q, dec)?;
            let q3 = skip_ws(inp, q2);
            let (y, q4) = parse_import_expression(inp, q3, dec)?;
            return Ok((spanned(ExprF::Merge(x, y, None), pos, q4), q4));
        },
        None => {},
    }
    match match_word(inp, pos, "Some") {
        Some(ke) => {
            proof {
                reveal_strlit("Some");
                assert("Some"@.len() == 4 && "Some"@[0] == 'S' && "Some"@[1] == 'o' && "Some"@[2]
                    == 'm' && "Some"@[3] == 'e');
                if lone_token_at(inp@, pos as int) {
                    lemma_token_of_word(inp@, pos as int, "Some"@);
                }
            }
            let q = skip_ws(inp, ke);
            let (e, q2) = parse_import_expression(inp, q, dec)?;
            return Ok((spanned(ExprF::SomeLit(e), pos, q2), q2));
        },
        None => {},
    }
    parse_import_expression(inp, pos, dec)
}

/// Parses an import, or a selector expression where no import stands.
pub fn parse_import_expression<D: DoubleDecoder>(inp: &Vec<char>, pos: usize, dec: &D) -> (r: Step<
    ParsedSubExpr,
>)
    requires
        pos <= inp@.len(),
    ensures
        r matches Ok(t) ==> pos < t.1 <= inp@.len(),
        lone_token_at(inp@, pos as int) ==> lone_token_step(inp@, pos as int, r),
        pos < inp@.len() && import_first(inp@[pos as int]) ==> import_shaped(inp@, pos as int, r),
    decreases inp@.len() - pos, 5int,
{
    proof {
        lemma_ground_words();
        if lone_token_at(inp@, pos as int) {
            lemma_lone_all_label(inp@, pos as int);
        }
    }
    match crate::parse_import::parse_import(inp, pos) {
        Ok((imp, p2)) => {
            proof {
                if lone_token_at(inp@, pos as int) {
                    assert(word_at(inp@, pos as int, "missing"@));
                    lemma_token_of_word(inp@, pos as int, "missing"@);
                }
            }
            return Ok((spanned(ExprF::Embed(imp), pos, p2), p2));
        },
        Err(e) => {
            if e.kind == ParseErrorKind::UnknownHashAlgorithm {
                proof {
                    if lone_token_at(inp@, pos as int) {
                        if word_at(inp@, pos as int, "missing"@) {
                            lemma_token_of_word(inp@, pos as int, "missing"@);
                        }
                    }
                }
                return Err(e);
            }
        },
    }
    proof {
        if lone_token_at(inp@, pos as int) && label_token(inp@, pos as int) == "missing"@ {
            lemma_ground_words();
            lemma_run_chars(inp@, pos + 1);
            assert(label_token(inp@, pos as int).len() == 7);
            assert(pos + 1 + crate::parse::label_run_from(inp@, pos + 1) == pos + 7);
            assert(inp@.subrange(pos as int, pos + 7) == "missing"@);
            assert(word_at(inp@, pos as int, "missing"@));
        }
    }
    parse_selector_expression(inp, pos, dec)
}

/// Parses a primitive expression with its chain of field accesses and
/// projections, left-folded.
#[verifier::loop_isolation(false)]
fn parse_selector_expression<D: DoubleDecoder>(inp: &Vec<char>, pos: usize, dec: &D) -> (r: Step<
    ParsedSubExpr,
>)
    requires
        pos <= inp@.len(),
    ensures
        r matches Ok(t) ==> pos < t.1 <= inp@.len(),
        lone_token_at(inp@, pos as int) ==> lone_token_is(inp@, pos as int, r),
        pos < inp@.len() && import_first(inp@[pos as int]) ==> r is Err,
    decreases inp@.len() - pos, 4int,
{
    let n = inp.len();
    let prim = parse_primitive_expression(inp, pos, dec);
    proof {
        if pos < inp@.len() && import_first(inp@[pos as int]) {
            assert(prim is Err);
        }
    }
    let (first, p) = prim?;
    let mut acc = first;
    let mut cur = p;
    loop
        invariant
            pos < cur <= inp@.len(),
            n == inp@.len(),
            !(pos < inp@.len() && import_first(inp@[pos as int])),
            lone_token_at(inp@, pos as int) ==> lone_token_is(
                inp@,
                pos as int,
                Ok((acc, cur)),
            ),
        decreases inp@.len() - cur,
    {
        let q = skip_ws(inp, cur);
        if !(q < n && inp[q] == '.') {
            break ;
        }
        let q2 = skip_ws(inp, q + 1);
        if q2 < n && inp[q2] == '{' {
            // A projection: `e.{ x, y }`.
            let mut labels: Vec<Label> = Vec::new();
            let mut r2 = skip_ws(inp, q2 + 1);
            if r2 < n && inp[r2] == '}' {
                acc = unspanned(ExprF::Projection(acc, labels));
                cur = r2 + 1;
                continue ;
            }
            loop
                invariant
                    pos < r2 <= inp@.len(),
                    cur < r2,
                    n == inp@.len(),
                decreases inp@.len() - r2,
            {
                let (l, s1) = lex_label(inp, r2)?;
                labels.push(l);
                let s2 = skip_ws(inp, s1);
                if s2 < n && inp[s2] == ',' {
                    r2 = skip_ws(inp, s2 + 1);
                } else if s2 < n && inp[s2] == '}' {
                    r2 = s2 + 1;
                    break ;
                } else {
                    return Err(error_at(ParseErrorKind::GrammarMismatch, inp, pos, s2, "expected , or } in the projection"));
                }
            }
            acc = unspanned(ExprF::Projection(acc, labels));
            cur = r2;
        } else if q2 < n && inp[q2] == '(' {
            // The grammar admits selection by an expression, but building it
            // is unsupported.
            return Err(error_at(ParseErrorKind::CustomParse, inp, pos, q2, "selection by expression is unsupported"));
        } else {
            let (l, s1) = lex_label(inp, q2)?;
            acc = unspanned(ExprF::Field(acc, l));
            cur = s1;
        }
    }
    Ok((acc, cur))
}

} // verus!

verus! {

/// Parses a primitive expression: a literal, a record, a union, a list, an
/// identifier or a parenthesised expression. The clauses below pin the
/// numeric literals, the `-Infinity` keyword, and every identifier-shaped
/// token down to the value it parses to.
#[verifier::rlimit(60)]
#[verifier::spinoff_prover]
fn parse_primitive_expression<D: DoubleDecoder>(inp: &Vec<char>, pos: usize, dec: &D) -> (r: Step<
    ParsedSubExpr,
>)
    requires
        pos <= inp@.len(),
    ensures
        r matches Ok(t) ==> pos < t.1 <= inp@.len(),
        pos < inp@.len() && spec_digit(inp@[pos as int]) && crate::parse_num::double_token_end(
            inp@,
            pos as int,
        ) is None ==> {
            let run_end = pos + crate::parse::digit_run_from(inp@, pos as int);
            &&& (r is Ok <==> crate::parse_num::digits_value(
                inp@.subrange(pos as int, run_end),
            ) <= usize::MAX)
            &&& (r matches Ok(t) ==> t.1 == run_end && (t.0.spec_expr()
                matches ExprF::NaturalLit(v) && v == crate::parse_num::digits_value(
                inp@.subrange(pos as int, run_end),
            )) && t.0.spec_note() == Some(Span { start: pos, end: t.1 }))
        },
        pos < inp@.len() && spec_digit(inp@[pos as int]) && crate::parse_num::double_token_end(
            inp@,
            pos as int,
        ) is Some ==> (r matches Ok(t) ==> crate::parse_num::double_token_end(inp@, pos as int)
            == Some(t.1 as int) && (t.0.spec_expr() matches ExprF::DoubleLit(d)
            && !crate::parse_num::spec_inf_bits(d@))),
        pos < inp@.len() && inp@[pos as int] == '-' && word_at(inp@, pos + 1, "Infinity"@) ==> (r
            matches Ok(t) && (t.0.spec_expr() matches ExprF::DoubleLit(d) && d@ == NEG_INF_BITS)
            && t.1 == pos + 9),
        lone_token_at(inp@, pos as int) ==> lone_token_is(inp@, pos as int, r),
        pos < inp@.len() && import_first(inp@[pos as int]) ==> r is Err,
        pos < inp@.len() && inp@[pos as int] == '{' ==> (r matches Ok(t) ==> {
            ||| (t.0.spec_expr() matches ExprF::RecordType(rows) && crate::dmap::row_sorted(
                rows@,
            ))
            ||| (t.0.spec_expr() matches ExprF::RecordLit(rows) && crate::dmap::row_sorted(rows@))
        }),
        pos < inp@.len() && inp@[pos as int] == '<' ==> (r matches Ok(t) ==> {
            ||| (t.0.spec_expr() matches ExprF::UnionType(alts) && crate::dmap::row_sorted(alts@))
            ||| (t.0.spec_expr() matches ExprF::UnionLit(sl, sv, alts) && crate::dmap::row_sorted(
                alts@,
            ) && !crate::dmap::has_key(alts@, sl@))
        }),
        pos < inp@.len() && crate::parse::spec_label_first(inp@[pos as int]) && !slash_extended(
            inp@,
            pos as int,
        ) ==> {
            let token = label_token(inp@, pos as int);
            &&& (token == "True"@ ==> (r matches Ok(t) && t.0.spec_expr() == ExprF::BoolLit::<
                Span,
                Import,
            >(true) && t.1 == pos + token.len() && t.0.spec_note() == Some(
                Span { start: pos, end: t.1 },
            )))
            &&& (token == "False"@ ==> (r matches Ok(t) && t.0.spec_expr() == ExprF::BoolLit::<
                Span,
                Import,
            >(false) && t.1 == pos + token.len()))
            &&& (token == "Type"@ ==> (r matches Ok(t) && t.0.spec_expr() == ExprF::Const::<
                Span,
                Import,
            >(Const::Type) && t.1 == pos + token.len()))
            &&& (token == "Kind"@ ==> (r matches Ok(t) && t.0.spec_expr() == ExprF::Const::<
                Span,
                Import,
            >(Const::Kind) && t.1 == pos + token.len()))
            &&& (token == "Sort"@ ==> (r matches Ok(t) && t.0.spec_expr() == ExprF::Const::<
                Span,
                Import,
            >(Const::Sort) && t.1 == pos + token.len()))
            &&& (token == "NaN"@ ==> (r matches Ok(t) && (t.0.spec_expr()
                matches ExprF::DoubleLit(d) && d@ == NAN_BITS) && t.1 == pos + token.len()))
            &&& (token == "Infinity"@ ==> (r matches Ok(t) && (t.0.spec_expr()
                matches ExprF::DoubleLit(d) && d@ == INF_BITS) && t.1 == pos + token.len()))
            &&& (!literal_word(token) && crate::parse::spec_keyword(token) ==> r is Err)
            &&& (!literal_word(token) && !crate::parse::spec_keyword(token) ==> (
            crate::expr::builtin_of(token) matches Some(b) ==> (r matches Ok(t) && t.0.spec_expr()
                == ExprF::Builtin::<Span, Import>(b) && t.1 == pos + token.len())))
            &&& ((!literal_word(token) && !crate::parse::spec_keyword(token)
                && crate::expr::builtin_of(token) is None) ==> (r matches Ok(t) ==> (
            t.0.spec_expr() matches ExprF::Var(v) && v.0@ == token)))
        },
    decreases inp@.len() - pos, 3int,
{
    let n = inp.len();
    if pos >= n {
        return Err(error_at(ParseErrorKind::GrammarMismatch, inp, pos, pos, "expected an expression"));
    }
    let c = inp[pos];
    if is_digit(c) {
        match crate::parse_num::lex_double_token(inp, pos) {
            Ok(_) => {
                let (bits, p2) = crate::parse_num::parse_numeric_double(inp, pos, dec)?;
                return Ok((spanned(ExprF::DoubleLit(NaiveDouble::from_bits(bits)), pos, p2), p2));
            },
            Err(_) => {},
        }
        let (v, p2) = crate::parse_num::parse_natural(inp, pos)?;
        return Ok((spanned(ExprF::NaturalLit(v), pos, p2), p2));
    }
    if c == '+' || c == '-' {
        if c == '-' {
            match match_word(inp, pos + 1, "Infinity") {
                Some(p2) => {
                    proof {
                        reveal_strlit("Infinity");
                        assert("Infinity"@.len() == 8);
                    }
                    return Ok(
                        (spanned(ExprF::DoubleLit(NaiveDouble::from_bits(NEG_INF_BITS)), pos, p2), p2),
                    );
                },
                None => {},
            }
        }
        match crate::parse_num::lex_double_token(inp, pos) {
            Ok(_) => {
                let (bits, p2) = crate::parse_num::parse_numeric_double(inp, pos, dec)?;
                return Ok((spanned(ExprF::DoubleLit(NaiveDouble::from_bits(bits)), pos, p2), p2));
            },
            Err(_) => {},
        }
        let (v, p2) = crate::parse_num::parse_integer(inp, pos)?;
        return Ok((spanned(ExprF::IntegerLit(v), pos, p2), p2));
    }
    if c == '"' {
        let (t, p2) = parse_double_quote_text(inp, pos, dec)?;
        return Ok((spanned(ExprF::TextLit(t), pos, p2), p2));
    }
    if c == '\'' && pos + 1 < n && inp[pos + 1] == '\'' {
        let (t, p2) = parse_single_quote_text(inp, pos, dec)?;
        return Ok((spanned(ExprF::TextLit(t), pos, p2), p2));
    }
    if c == '{' {
        return parse_record(inp, pos, dec);
    }
    if c == '<' {
        return parse_union(inp, pos, dec);
    }
    if c == '[' {
        return parse_list(inp, pos, dec);
    }
    if c == '(' {
        let q = skip_ws(inp, pos + 1);
        let (e, q2) = parse_expression(inp, q, dec)?;
        let q3 = skip_ws(inp, q2);
        if !(q3 < n && inp[q3] == ')') {
            return Err(error_at(ParseErrorKind::GrammarMismatch, inp, pos, q3, "expected )"));
        }
        return Ok((e, q3 + 1));
    }
    if c == '`' {
        let (l, p2) = lex_label(inp, pos)?;
        return parse_variable_tail(inp, pos, l, p2);
    }
    if is_label_first(c) {
        return parse_identifier(inp, pos, dec);
    }
    Err(error_at(ParseErrorKind::GrammarMismatch, inp, pos, pos, "expected an expression"))
}

/// Whether the label token at `pos` extends into builtin territory: a slash
/// directly after it, then another label.
pub open spec fn slash_extended(s: Seq<char>, pos: int) -> bool {
    let le = pos + 1 + crate::parse::label_run_from(s, pos + 1);
    le < s.len() && s[le] == '/' && le + 1 < s.len() && crate::parse::spec_label_first(
        s[le + 1],
    )
}

/// The label token at `pos`: its first character and the label run after it.
pub open spec fn label_token(s: Seq<char>, pos: int) -> Seq<char> {
    s.subrange(pos, pos + 1 + crate::parse::label_run_from(s, pos + 1))
}

/// Whether the token is one of the literal words the identifier reader
/// resolves before anything else.
pub open spec fn literal_word(token: Seq<char>) -> bool {
    ||| token == "True"@
    ||| token == "False"@
    ||| token == "Type"@
    ||| token == "Kind"@
    ||| token == "Sort"@
    ||| token == "NaN"@
    ||| token == "Infinity"@
}

/// Parses an identifier: a builtin, a boolean or universe keyword, a double
/// keyword, or a variable with its optional de Bruijn index. The clauses
/// below spell out what every token becomes, except where a slash extends it
/// into builtin territory.
fn parse_identifier<D: DoubleDecoder>(inp: &Vec<char>, pos: usize, dec: &D) -> (r: Step<
    ParsedSubExpr,
>)
    requires
        pos <= inp@.len(),
    ensures
        r matches Ok(t) ==> pos < t.1 <= inp@.len() && t.0.spec_note() == Some(
            Span { start: pos, end: t.1 },
        ),
        lone_token_at(inp@, pos as int) ==> lone_token_is(inp@, pos as int, r),
        pos < inp@.len() && crate::parse::spec_label_first(inp@[pos as int]) && !slash_extended(
            inp@,
            pos as int,
        ) ==> {
            let token = label_token(inp@, pos as int);
            &&& (token == "True"@ ==> (r matches Ok(t) && t.0.spec_expr() == ExprF::BoolLit::<
                Span,
                Import,
            >(true) && t.1 == pos + token.len()))
            &&& (token == "False"@ ==> (r matches Ok(t) && t.0.spec_expr() == ExprF::BoolLit::<
                Span,
                Import,
            >(false) && t.1 == pos + token.len()))
            &&& (token == "Type"@ ==> (r matches Ok(t) && t.0.spec_expr() == ExprF::Const::<
                Span,
                Import,
            >(Const::Type) && t.1 == pos + token.len()))
            &&& (token == "Kind"@ ==> (r matches Ok(t) && t.0.spec_expr() == ExprF::Const::<
                Span,
                Import,
            >(Const::Kind) && t.1 == pos + token.len()))
            &&& (token == "Sort"@ ==> (r matches Ok(t) && t.0.spec_expr() == ExprF::Const::<
                Span,
                Import,
            >(Const::Sort) && t.1 == pos + token.len()))
            &&& (token == "NaN"@ ==> (r matches Ok(t) && (t.0.spec_expr()
                matches ExprF::DoubleLit(d) && d@ == NAN_BITS) && t.1 == pos + token.len()))
            &&& (token == "Infinity"@ ==> (r matches Ok(t) && (t.0.spec_expr()
                matches ExprF::DoubleLit(d) && d@ == INF_BITS) && t.1 == pos + token.len()))
            &&& (!literal_word(token) && crate::parse::spec_keyword(token) ==> r is Err)
            &&& (!literal_word(token) && !crate::parse::spec_keyword(token) ==> (
            crate::expr::builtin_of(token) matches Some(b) ==> (r matches Ok(t) && t.0.spec_expr()
                == ExprF::Builtin::<Span, Import>(b) && t.1 == pos + token.len())))
            &&& ((!literal_word(token) && !crate::parse::spec_keyword(token)
                && crate::expr::builtin_of(token) is None) ==> (r matches Ok(t) ==> (
            t.0.spec_expr() matches ExprF::Var(v) && v.0@ == token)))
            &&& ((!literal_word(token) && !crate::parse::spec_keyword(token)
                && crate::expr::builtin_of(token) is None && pos + token.len() == inp@.len())
                ==> r is Ok)
        },
    decreases inp@.len() - pos, 2int,
{
    proof {
        reveal_strlit("True");
        reveal_strlit("False");
        reveal_strlit("Type");
        reveal_strlit("Kind");
        reveal_strlit("Sort");
        reveal_strlit("NaN");
        reveal_strlit("Infinity");
        assert("True"@.len() == 4 && "True"@[0] == 'T' && "True"@[1] == 'r' && "True"@[2] == 'u' && "True"@[3] == 'e');
        assert("False"@.len() == 5 && "False"@[0] == 'F' && "False"@[1] == 'a' && "False"@[2] == 'l' && "False"@[3] == 's' && "False"@[4] == 'e');
        assert("Type"@.len() == 4 && "Type"@[0] == 'T' && "Type"@[1] == 'y' && "Type"@[2] == 'p' && "Type"@[3] == 'e');
        assert("Kind"@.len() == 4 && "Kind"@[0] == 'K' && "Kind"@[1] == 'i' && "Kind"@[2] == 'n' && "Kind"@[3] == 'd');
        assert("Sort"@.len() == 4 && "Sort"@[0] == 'S' && "Sort"@[1] == 'o' && "Sort"@[2] == 'r' && "Sort"@[3] == 't');
        assert("NaN"@.len() == 3 && "NaN"@[0] == 'N' && "NaN"@[1] == 'a' && "NaN"@[2] == 'N');
        assert("Infinity"@.len() == 8 && "Infinity"@[0] == 'I' && "Infinity"@[1] == 'n' && "Infinity"@[2] == 'f' && "Infinity"@[3] == 'i' && "Infinity"@[4] == 'n' && "Infinity"@[5] == 'i' && "Infinity"@[6] == 't' && "Infinity"@[7] == 'y');
    }
    let n = inp.len();
    let (token, p2) = lex_simple_label(inp, pos)?;
    // A slash extends the name into builtin territory: `Natural/fold`.
    if p2 < n && inp[p2] == '/' && p2 + 1 < n && is_label_first(inp[p2 + 1]) {
        let mut name = token;
        let mut cur = p2;
        loop
            invariant
                pos < cur <= inp@.len(),
                n == inp@.len(),
            decreases inp@.len() - cur,
        {
            if cur < n && inp[cur] == '/' && cur + 1 < n && is_label_first(inp[cur + 1]) {
                name.push('/');
                let (seg, c2) = lex_simple_label(inp, cur + 1)?;
                let mut k: usize = 0;
                while k < seg.len()
                    invariant
                        k <= seg@.len(),
                    decreases seg@.len() - k,
                {
                    name.push(seg[k]);
                    k = k + 1;
                }
                cur = c2;
            } else {
                break ;
            }
        }
        let text = chars_to_string(name.as_slice());
        match Builtin::parse(text.as_str()) {
            Some(b) => {
                return Ok((spanned(ExprF::Builtin(b), pos, cur), cur));
            },
            None => {
                return Err(error_at(ParseErrorKind::UnknownBuiltin, inp, pos, cur, "unrecognized builtin"));
            },
        }
    }
    if crate::strutil::chars_eq_str(token.as_slice(), "True") {
        return Ok((spanned(ExprF::BoolLit(true), pos, p2), p2));
    }
    if crate::strutil::chars_eq_str(token.as_slice(), "False") {
        return Ok((spanned(ExprF::BoolLit(false), pos, p2), p2));
    }
    if crate::strutil::chars_eq_str(token.as_slice(), "Type") {
        return Ok((spanned(ExprF::Const(Const::Type), pos, p2), p2));
    }
    if crate::strutil::chars_eq_str(token.as_slice(), "Kind") {
        return Ok((spanned(ExprF::Const(Const::Kind), pos, p2), p2));
    }
    if crate::strutil::chars_eq_str(token.as_slice(), "Sort") {
        return Ok((spanned(ExprF::Const(Const::Sort), pos, p2), p2));
    }
    if crate::strutil::chars_eq_str(token.as_slice(), "NaN") {
        return Ok((spanned(ExprF::DoubleLit(NaiveDouble::from_bits(NAN_BITS)), pos, p2), p2));
    }
    if crate::strutil::chars_eq_str(token.as_slice(), "Infinity") {
        return Ok((spanned(ExprF::DoubleLit(NaiveDouble::from_bits(INF_BITS)), pos, p2), p2));
    }
    if is_keyword(&token) {
        return Err(error_at(ParseErrorKind::GrammarMismatch, inp, pos, p2, "a keyword is no identifier"));
    }
    let text = chars_to_string(token.as_slice());
    match Builtin::parse(text.as_str()) {
        Some(b) => {
            return Ok((spanned(ExprF::Builtin(b), pos, p2), p2));
        },
        None => {},
    }
    parse_variable_tail(inp, pos, Label::new(text), p2)
}

/// Parses the optional `@n` de Bruijn index after a variable name: the
/// result is a variable under that name, spanned from `pos`.
fn parse_variable_tail(inp: &Vec<char>, pos: usize, l: Label, p2: usize) -> (r: Step<
    ParsedSubExpr,
>)
    requires
        pos < p2 <= inp@.len(),
    ensures
        r matches Ok(t) ==> pos < t.1 <= inp@.len() && t.0.spec_note() == Some(
            Span { start: pos, end: t.1 },
        ) && (t.0.spec_expr() matches ExprF::Var(v) && v.0@ == l@),
        p2 == inp@.len() ==> (r matches Ok(t) && t.1 == p2),
{
    let n = inp.len();
    let q = skip_ws(inp, p2);
    if q < n && inp[q] == '@' {
        let q2 = skip_ws(inp, q + 1);
        let (idx, q3) = crate::parse_num::parse_natural(inp, q2)?;
        return Ok((spanned(ExprF::Var(crate::expr::V(l, idx)), pos, q3), q3));
    }
    Ok((spanned(ExprF::Var(crate::expr::V(l, 0)), pos, p2), p2))
}

} // verus!

verus! {

/// Parses a record type or literal: `{}` is the empty record type, `{=}`
/// the empty record literal; a shared key among the entries is a parse
/// error, never a silent overwrite, so the rows of a success are strictly
/// sorted by key.
fn parse_record<D: DoubleDecoder>(inp: &Vec<char>, pos: usize, dec: &D) -> (r: Step<ParsedSubExpr>)
    requires
        pos <= inp@.len(),
        pos < inp@.len() ==> inp@[pos as int] == '{',
    ensures
        r matches Ok(t) ==> pos < t.1 <= inp@.len(),
        r matches Ok(t) ==> {
            ||| (t.0.spec_expr() matches ExprF::RecordType(rows) && crate::dmap::row_sorted(
                rows@,
            ))
            ||| (t.0.spec_expr() matches ExprF::RecordLit(rows) && crate::dmap::row_sorted(rows@))
        },
    decreases inp@.len() - pos, 2int,
{
    let n = inp.len();
    if pos >= n {
        return Err(error_at(ParseErrorKind::GrammarMismatch, inp, pos, pos, "expected a record"));
    }
    let q = skip_ws(inp, pos + 1);
    if q < n && inp[q] == '}' {
        return Ok((spanned(ExprF::RecordType(Vec::new()), pos, q + 1), q + 1));
    }
    if q < n && inp[q] == '=' {
        let q2 = skip_ws(inp, q + 1);
        if !(q2 < n && inp[q2] == '}') {
            return Err(error_at(ParseErrorKind::GrammarMismatch, inp, pos, q2, "expected } after ="));
        }
        return Ok((spanned(ExprF::RecordLit(Vec::new()), pos, q2 + 1), q2 + 1));
    }
    // The separator of the first entry decides between a type and a literal.
    let mut entries: Vec<(Label, ParsedSubExpr)> = Vec::new();
    let (first_label, e1) = lex_label(inp, q)?;
    let e2 = skip_ws(inp, e1);
    let is_type: bool = if e2 < n && inp[e2] == ':' {
        true
    } else if e2 < n && inp[e2] == '=' {
        false
    } else {
        return Err(error_at(ParseErrorKind::GrammarMismatch, inp, pos, e2, "expected : or = in the record"));
    };
    let e3 = skip_ws(inp, e2 + 1);
    let (first_value, e4) = parse_expression(inp, e3, dec)?;
    entries.push((first_label, first_value));
    let mut cur = skip_ws(inp, e4);
    loop
        invariant
            pos < cur <= inp@.len(),
            n == inp@.len(),
        decreases inp@.len() - cur,
    {
        if cur < n && inp[cur] == '}' {
            cur = cur + 1;
            break ;
        }
        if !(cur < n && inp[cur] == ',') {
            return Err(error_at(ParseErrorKind::GrammarMismatch, inp, pos, cur, "expected , or } in the record"));
        }
        let s1 = skip_ws(inp, cur + 1);
        let (l, s2) = lex_label(inp, s1)?;
        let s3 = skip_ws(inp, s2);
        let sep = if is_type {
            ':'
        } else {
            '='
        };
        if !(s3 < n && inp[s3] == sep) {
            return Err(error_at(ParseErrorKind::GrammarMismatch, inp, pos, s3, "mismatched record entry separator"));
        }
        let s4 = skip_ws(inp, s3 + 1);
        let (v, s5) = parse_expression(inp, s4, dec)?;
        entries.push((l, v));
        cur = skip_ws(inp, s5);
    }
    match crate::dmap::build_rows(entries) {
        Ok(rows) => {
            if is_type {
                Ok((spanned(ExprF::RecordType(rows), pos, cur), cur))
            } else {
                Ok((spanned(ExprF::RecordLit(rows), pos, cur), cur))
            }
        },
        Err(_) => Err(error_at(ParseErrorKind::CustomParse, inp, pos, cur, "a key appears twice in the record")),
    }
}

/// Parses a union type, or a union literal where one alternative is given a
/// value with `=`; a shared key is a parse error, so the alternatives of a
/// success are strictly sorted by key, the selected one among none of them.
fn parse_union<D: DoubleDecoder>(inp: &Vec<char>, pos: usize, dec: &D) -> (r: Step<ParsedSubExpr>)
    requires
        pos <= inp@.len(),
        pos < inp@.len() ==> inp@[pos as int] == '<',
    ensures
        r matches Ok(t) ==> pos < t.1 <= inp@.len(),
        r matches Ok(t) ==> {
            ||| (t.0.spec_expr() matches ExprF::UnionType(alts) && crate::dmap::row_sorted(alts@))
            ||| (t.0.spec_expr() matches ExprF::UnionLit(sl, sv, alts) && crate::dmap::row_sorted(
                alts@,
            ) && !crate::dmap::has_key(alts@, sl@))
        },
    decreases inp@.len() - pos, 2int,
{
    let n = inp.len();
    if pos >= n {
        return Err(error_at(ParseErrorKind::GrammarMismatch, inp, pos, pos, "expected a union"));
    }
    let mut cur = skip_ws(inp, pos + 1);
    let mut alts: Vec<(Label, Option<ParsedSubExpr>)> = Vec::new();
    let mut selected: Option<(Label, ParsedSubExpr)> = None;
    if cur < n && inp[cur] == '>' {
        return Ok((spanned(ExprF::UnionType(alts), pos, cur + 1), cur + 1));
    }
    loop
        invariant
            pos < cur <= inp@.len(),
            n == inp@.len(),
        decreases inp@.len() - cur,
    {
        let (l, s1) = lex_label(inp, cur)?;
        let s2 = skip_ws(inp, s1);
        if s2 < n && inp[s2] == ':' {
            let s3 = skip_ws(inp, s2 + 1);
            let (t, s4) = parse_expression(inp, s3, dec)?;
            alts.push((l, Some(t)));
            cur = skip_ws(inp, s4);
        } else if s2 < n && inp[s2] == '=' {
            let s3 = skip_ws(inp, s2 + 1);
            let (v, s4) = parse_expression(inp, s3, dec)?;
            match selected {
                Some(_) => {
                    return Err(error_at(ParseErrorKind::CustomParse, inp, pos, s4, "a union literal selects one alternative"));
                },
                None => {
                    selected = Some((l, v));
                },
            }
            cur = skip_ws(inp, s4);
        } else {
            alts.push((l, None));
            cur = s2;
        }
        if cur < n && inp[cur] == '|' {
            cur = skip_ws(inp, cur + 1);
        } else if cur < n && inp[cur] == '>' {
            cur = cur + 1;
            break ;
        } else {
            return Err(error_at(ParseErrorKind::GrammarMismatch, inp, pos, cur, "expected | or > in the union"));
        }
    }
    match selected {
        Some((sl, sv)) => {
            // The selected key may not reappear among the alternatives.
            let mut k: usize = 0;
            while k < alts.len()
                invariant
                    k <= alts@.len(),
                    pos <= cur <= inp@.len(),
                    forall|j: int| 0 <= j < k ==> (#[trigger] alts@[j]).0@ != sl@,
                decreases alts@.len() - k,
            {
                if alts[k].0.eq_label(&sl) {
                    return Err(error_at(ParseErrorKind::CustomParse, inp, pos, cur, "a key appears twice in the union"));
                }
                k = k + 1;
            }
            let ghost raw = alts@;
            match crate::dmap::build_rows(alts) {
                Ok(rows) => {
                    proof {
                        if crate::dmap::has_key(rows@, sl@) {
                            let i = choose|i: int|
                                0 <= i < rows@.len() && (#[trigger] rows@[i]).0@ == sl@;
                            assert(rows@.contains(rows@[i]));
                            assert(raw.contains(rows@[i]));
                            let j = choose|j: int| 0 <= j < raw.len() && raw[j] == rows@[i];
                            assert(raw[j].0@ == sl@);
                        }
                    }
                    Ok((spanned(ExprF::UnionLit(sl, sv, rows), pos, cur), cur))
                },
                Err(_) => Err(error_at(ParseErrorKind::CustomParse, inp, pos, cur, "a key appears twice in the union")),
            }
        },
        None => {
            match crate::dmap::build_rows(alts) {
                Ok(rows) => Ok((spanned(ExprF::UnionType(rows), pos, cur), cur)),
                Err(_) => Err(error_at(ParseErrorKind::CustomParse, inp, pos, cur, "a key appears twice in the union")),
            }
        },
    }
}

/// Parses a list literal; the empty list takes its annotation, and the
/// deprecated optional literal `[] : Optional t` still parses.
fn parse_list<D: DoubleDecoder>(inp: &Vec<char>, pos: usize, dec: &D) -> (r: Step<ParsedSubExpr>)
    requires
        pos <= inp@.len(),
        pos < inp@.len() ==> inp@[pos as int] == '[',
    ensures
        r matches Ok(t) ==> pos < t.1 <= inp@.len(),
    decreases inp@.len() - pos, 2int,
{
    let n = inp.len();
    if pos >= n {
        return Err(error_at(ParseErrorKind::GrammarMismatch, inp, pos, pos, "expected a list"));
    }
    let q = skip_ws(inp, pos + 1);
    if q < n && inp[q] == ']' {
        let q2 = skip_ws(inp, q + 1);
        if !(q2 < n && inp[q2] == ':') {
            return Err(error_at(ParseErrorKind::GrammarMismatch, inp, pos, q2, "an empty list needs its type"));
        }
        let q3 = skip_ws(inp, q2 + 1);
        let (annot, q4) = parse_application_expression(inp, q3, dec)?;
        let deprecated: Option<ExprF<Span, Import>> = match annot.as_ref() {
            ExprF::App(f, a) => match f.as_ref() {
                ExprF::Builtin(Builtin::Optional) => Some(ExprF::OldOptionalLit(None, a.clone())),
                _ => None,
            },
            _ => None,
        };
        match deprecated {
            Some(x) => {
                return Ok((spanned(x, pos, q4), q4));
            },
            None => {
                return Ok((spanned(ExprF::EmptyListLit(annot), pos, q4), q4));
            },
        }
    }
    let mut items: Vec<ParsedSubExpr> = Vec::new();
    let (first, e1) = parse_expression(inp, q, dec)?;
    items.push(first);
    let mut cur = skip_ws(inp, e1);
    loop
        invariant
            pos < cur <= inp@.len(),
            n == inp@.len(),
        decreases inp@.len() - cur,
    {
        if cur < n && inp[cur] == ']' {
            cur = cur + 1;
            break ;
        }
        if !(cur < n && inp[cur] == ',') {
            return Err(error_at(ParseErrorKind::GrammarMismatch, inp, pos, cur, "expected , or ] in the list"));
        }
        let s1 = skip_ws(inp, cur + 1);
        let (v, s2) = parse_expression(inp, s1, dec)?;
        items.push(v);
        cur = skip_ws(inp, s2);
    }
    Ok((spanned(ExprF::NEListLit(items), pos, cur), cur))
}

} // verus!

verus! {

/// Finishes the fragment before an interpolation or the end of a literal:
/// the first fragment becomes the head, later ones trail their expressions.
fn finish_fragment(
    head: &mut String,
    tail: &mut Vec<(ParsedSubExpr, String)>,
    pending: Option<ParsedSubExpr>,
    buf: Vec<char>,
)
    ensures
        pending is None ==> final(head)@ == buf@ && final(tail)@ == old(tail)@,
        pending matches Some(pe) ==> *final(head) == *old(head) && final(tail)@.len() == old(
            tail,
        )@.len() + 1 && final(tail)@.last().0 == pe && final(tail)@.last().1@ == buf@ && (forall|
            k: int,
        | 0 <= k < old(tail)@.len() ==> final(tail)@[k] == old(tail)@[k]),
{
    let frag = chars_to_string(buf.as_slice());
    match pending {
        None => {
            *head = frag;
        },
        Some(pe) => {
            tail.push((pe, frag));
        },
    }
}

/// Reads the unicode escape value after `\u`: four hexadecimal digits, or
/// one to eight of them in braces — nine or more, or none, are rejected.
fn lex_unicode_escape(inp: &Vec<char>, pos: usize) -> (r: Step<u32>)
    requires
        pos <= inp@.len(),
    ensures
        pos < inp@.len() && inp@[pos as int] == '{' ==> {
            let run = crate::parse_import::hex_run_from(inp@, pos + 1);
            &&& (r is Ok <==> 1 <= run <= 8 && pos + 1 + run < inp@.len() && inp@[pos + 1 + run]
                == '}')
            &&& (r matches Ok(t) ==> t.0 == crate::parse_text::hex_value(
                inp@.subrange(pos + 1, pos + 1 + run),
            ) && t.1 == pos + run + 2)
            &&& ((run == 0 || run > 8) ==> (r matches Err(e) && e.kind
                == ParseErrorKind::CustomParse))
        },
        !(pos < inp@.len() && inp@[pos as int] == '{') ==> {
            let run = crate::parse_import::hex_run_from(inp@, pos as int);
            &&& (r is Ok <==> run >= 4)
            &&& (r matches Ok(t) ==> t.0 == crate::parse_text::hex_value(
                inp@.subrange(pos as int, pos + 4),
            ) && t.1 == pos + 4)
        },
        r matches Ok(t) ==> pos < t.1 <= inp@.len(),
{
    let n = inp.len();
    let mut digits: Vec<char> = Vec::new();
    if pos < n && inp[pos] == '{' {
        let mut i = pos + 1;
        while i < n && crate::parse_text::is_hex_digit(inp[i]) && digits.len() < 9
            invariant
                pos < i <= n,
                n == inp@.len(),
                digits@ == inp@.subrange(pos + 1, i as int),
                digits@.len() <= 9,
                forall|j: int|
                    0 <= j < digits@.len() ==> crate::parse_text::spec_hex_digit(
                        #[trigger] digits@[j],
                    ),
                crate::parse_import::hex_run_from(inp@, pos + 1) == i - pos - 1
                    + crate::parse_import::hex_run_from(inp@, i as int),
            decreases n - i,
        {
            digits.push(inp[i]);
            i = i + 1;
            proof {
                assert(digits@ =~= inp@.subrange(pos + 1, i as int));
            }
        }
        if digits.len() == 0 || digits.len() > 8 {
            return Err(error_at(ParseErrorKind::CustomParse, inp, pos, i, "an escape value holds one to eight hexadecimal digits"));
        }
        if !(i < n && inp[i] == '}') {
            return Err(error_at(ParseErrorKind::GrammarMismatch, inp, pos, i, "expected } after the escape value"));
        }
        let v = crate::parse_text::hex_digits_value(&digits);
        Ok((v, i + 1))
    } else {
        let mut i = pos;
        while i < n && crate::parse_text::is_hex_digit(inp[i]) && digits.len() < 4
            invariant
                pos <= i <= n,
                n == inp@.len(),
                digits@ == inp@.subrange(pos as int, i as int),
                digits@.len() <= 4,
                forall|j: int|
                    0 <= j < digits@.len() ==> crate::parse_text::spec_hex_digit(
                        #[trigger] digits@[j],
                    ),
                crate::parse_import::hex_run_from(inp@, pos as int) == i - pos
                    + crate::parse_import::hex_run_from(inp@, i as int),
            decreases n - i,
        {
            digits.push(inp[i]);
            i = i + 1;
            proof {
                assert(digits@ =~= inp@.subrange(pos as int, i as int));
            }
        }
        if digits.len() != 4 {
            proof {
                assert(digits@.len() < 4);
                assert(crate::parse_import::hex_run_from(inp@, i as int) == 0);
                assert(crate::parse_import::hex_run_from(inp@, pos as int) < 4);
            }
            return Err(error_at(ParseErrorKind::CustomParse, inp, pos, i, "an escape value holds four hexadecimal digits"));
        }
        let v = crate::parse_text::hex_digits_value(&digits);
        Ok((v, i))
    }
}

/// Parses a double-quoted text literal with its escapes and interpolations.
fn parse_double_quote_text<D: DoubleDecoder>(inp: &Vec<char>, pos: usize, dec: &D) -> (r: Step<
    InterpolatedText<ParsedSubExpr>,
>)
    requires
        pos <= inp@.len(),
        pos < inp@.len() ==> inp@[pos as int] == '"',
    ensures
        r matches Ok(t) ==> pos < t.1 <= inp@.len(),
    decreases inp@.len() - pos, 2int,
{
    let n = inp.len();
    if pos >= n {
        return Err(error_at(ParseErrorKind::GrammarMismatch, inp, pos, pos, "expected a text literal"));
    }
    let mut head: String = String::new();
    let mut tail: Vec<(ParsedSubExpr, String)> = Vec::new();
    let mut pending: Option<ParsedSubExpr> = None;
    let mut buf: Vec<char> = Vec::new();
    let mut i = pos + 1;
    loop
        invariant
            pos < i <= inp@.len(),
            n == inp@.len(),
        decreases inp@.len() - i,
    {
        if i >= n {
            return Err(error_at(ParseErrorKind::GrammarMismatch, inp, pos, n, "unterminated text literal"));
        }
        let c = inp[i];
        if c == '"' {
            finish_fragment(&mut head, &mut tail, pending, buf);
            return Ok((InterpolatedText { head, tail }, i + 1));
        }
        if c == '$' && i + 1 < n && inp[i + 1] == '{' {
            let q = skip_ws(inp, i + 2);
            let (e, q2) = parse_expression(inp, q, dec)?;
            let q3 = skip_ws(inp, q2);
            if !(q3 < n && inp[q3] == '}') {
                return Err(error_at(ParseErrorKind::GrammarMismatch, inp, pos, q3, "expected } after the interpolation"));
            }
            finish_fragment(&mut head, &mut tail, pending, buf);
            pending = Some(e);
            buf = Vec::new();
            i = q3 + 1;
            continue ;
        }
        if c == '\\' {
            if i + 1 >= n {
                return Err(error_at(ParseErrorKind::GrammarMismatch, inp, pos, n, "unterminated escape"));
            }
            let e = inp[i + 1];
            if let Some(decoded) = crate::parse_text::decode_simple_escape(e) {
                buf.push(decoded);
                i = i + 2;
            } else if e == 'u' {
                let (v, q) = lex_unicode_escape(inp, i + 2)?;
                match crate::parse_text::decode_escape_value(v) {
                    Ok(ch) => {
                        buf.push(ch);
                        i = q;
                    },
                    Err(kind) => {
                        return Err(error_at(kind, inp, i, q, "rejected escape value"));
                    },
                }
            } else {
                return Err(error_at(ParseErrorKind::CustomParse, inp, i, i + 2, "unknown escape"));
            }
            continue ;
        }
        buf.push(c);
        i = i + 1;
    }
}

/// The head characters of each line.
pub open spec fn head_views(ss: Seq<InterpolatedText<ParsedSubExpr>>) -> Seq<Seq<char>> {
    ss.map_values(|l: InterpolatedText<ParsedSubExpr>| l.head@)
}

/// What follows the first line in a join: nothing, or a newline and the
/// joined rest.
pub open spec fn tail_join(ss: Seq<Seq<char>>) -> Seq<char> {
    if ss.len() == 0 {
        Seq::empty()
    } else {
        seq!['\n'] + join_heads(ss)
    }
}

/// Joins the stripped lines of a multiline literal with newlines into one
/// text literal. Where no line holds an interpolation, the result is their
/// heads joined with newlines.
#[verifier::loop_isolation(false)]
fn join_lines(lines: Vec<InterpolatedText<ParsedSubExpr>>) -> (r: InterpolatedText<ParsedSubExpr>)
    ensures
        (forall|k: int| 0 <= k < lines@.len() ==> (#[trigger] lines@[k]).tail@.len() == 0) ==> (
        r.tail@.len() == 0 && r.head@ == join_heads(head_views(lines@))),
{
    let ghost orig = lines@;
    let ghost cond = forall|k: int|
        0 <= k < orig.len() ==> (#[trigger] orig[k]).tail@.len() == 0;
    let mut rest = lines;
    if rest.len() == 0 {
        return InterpolatedText { head: String::new(), tail: Vec::new() };
    }
    let mut acc = rest.remove(0);
    proof {
        if cond {
            assert(head_views(orig) =~= seq![acc.head@] + head_views(rest@));
            assert(head_views(orig).drop_first() =~= head_views(rest@));
        }
    }
    loop
        invariant
            cond ==> acc.tail@.len() == 0,
            cond ==> (forall|k: int|
                0 <= k < rest@.len() ==> (#[trigger] rest@[k]).tail@.len() == 0),
            cond ==> join_heads(head_views(orig)) == acc.head@ + tail_join(head_views(rest@)),
        decreases rest@.len(),
    {
        if rest.len() == 0 {
            break ;
        }
        let ghost rest_before = rest@;
        let line = rest.remove(0);
        proof {
            if cond {
                assert(head_views(rest_before) =~= seq![line.head@] + head_views(rest@));
                assert(head_views(rest_before).drop_first() =~= head_views(rest@));
                assert(tail_join(head_views(rest_before)) =~= seq!['\n'] + line.head@ + tail_join(
                    head_views(rest@),
                ));
            }
        }
        if acc.tail.len() == 0 {
            let mut h = acc.head;
            h.append("\n");
            h.append(line.head.as_str());
            proof {
                reveal_strlit("\n");
                assert("\n"@ =~= seq!['\n']);
                if cond {
                    assert(h@ =~= acc.head@ + seq!['\n'] + line.head@);
                }
            }
            let ghost acc_head_old = acc.head@;
            acc = InterpolatedText { head: h, tail: line.tail };
            proof {
                if cond {
                    assert(acc.head@ + tail_join(head_views(rest@)) =~= acc_head_old + (seq![
                        '\n',
                    ] + line.head@ + tail_join(head_views(rest@))));
                }
            }
        } else {
            let mut tail = acc.tail;
            let p = tail.pop().unwrap();
            let mut frag = p.1;
            frag.append("\n");
            frag.append(line.head.as_str());
            tail.push((p.0, frag));
            let mut ltail = line.tail;
            let mut k: usize = 0;
            loop
                invariant
                    true,
                decreases ltail@.len(),
            {
                if ltail.len() == 0 {
                    break ;
                }
                tail.push(ltail.remove(0));
            }
            acc = InterpolatedText { head: acc.head, tail };
        }
    }
    proof {
        if cond {
            assert(tail_join(head_views(rest@)) =~= Seq::<char>::empty());
            assert(acc.head@ =~= acc.head@ + Seq::<char>::empty());
        }
    }
    acc
}

/// Parses a multiline text literal: lines are collected, their shared
/// indent stripped, and the result joined with newlines. For a body of
/// plain text — no interpolation, no carriage return, no escape at its end
/// — the result is pinned exactly: the text up to the closing quotes, split
/// at newlines, stripped of the shared indent, and joined again.
#[verifier::rlimit(100)]
#[verifier::spinoff_prover]
#[verifier::loop_isolation(false)]
fn parse_single_quote_text<D: DoubleDecoder>(inp: &Vec<char>, pos: usize, dec: &D) -> (r: Step<
    InterpolatedText<ParsedSubExpr>,
>)
    requires
        pos <= inp@.len(),
    ensures
        r matches Ok(t) ==> pos < t.1 <= inp@.len(),
        ({
            &&& pos + 2 < inp@.len()
            &&& inp@[pos as int] == '\''
            &&& inp@[pos + 1] == '\''
            &&& inp@[pos + 2] == '\n'
            &&& plain_text_region(inp@, pos + 3)
        }) ==> {
            let q = first_quote(inp@, pos + 3);
            let body_lines = split_nl(inp@.subrange(pos + 3, q));
            let m = trim_len_ch(body_lines);
            &&& r matches Ok(t) && t.1 == q + 2 && t.0.tail@.len() == 0 && t.0.head@
                == join_heads(body_lines.map_values(|l: Seq<char>| line_strip(l, m)))
        },
    decreases inp@.len() - pos, 2int,
{
    let ghost cond = pos + 2 < inp@.len() && inp@[pos as int] == '\'' && inp@[pos + 1] == '\''
        && inp@[pos + 2] == '\n' && plain_text_region(inp@, pos + 3);
    let ghost q = first_quote(inp@, pos + 3);
    proof {
        if cond {
            lemma_first_quote(inp@, pos + 3);
        }
    }
    let n = inp.len();
    if !(pos < n && n - pos >= 2 && inp[pos] == '\'' && inp[pos + 1] == '\'') {
        return Err(error_at(ParseErrorKind::GrammarMismatch, inp, pos, pos, "expected a multiline literal"));
    }
    let mut i = pos + 2;
    // The opening quotes end their line.
    if i < n && inp[i] == '\r' && i + 1 < n && inp[i + 1] == '\n' {
        i = i + 2;
    } else if i < n && inp[i] == '\n' {
        i = i + 1;
    } else {
        return Err(error_at(ParseErrorKind::GrammarMismatch, inp, pos, i, "a multiline literal starts after its line end"));
    }
    let mut lines: Vec<InterpolatedText<ParsedSubExpr>> = Vec::new();
    let mut head: String = String::new();
    let mut tail: Vec<(ParsedSubExpr, String)> = Vec::new();
    let mut pending: Option<ParsedSubExpr> = None;
    let mut buf: Vec<char> = Vec::new();
    proof {
        if cond {
            assert(head_views(lines@).push(buf@) =~= split_nl(
                inp@.subrange(pos + 3, pos + 3),
            ));
        }
    }
    loop
        invariant
            pos < i <= inp@.len(),
            cond ==> pos + 3 <= i <= q,
            cond ==> pending is None,
            cond ==> tail@.len() == 0,
            cond ==> (forall|k: int|
                0 <= k < lines@.len() ==> (#[trigger] lines@[k]).tail@.len() == 0),
            cond ==> head_views(lines@).push(buf@) == split_nl(inp@.subrange(pos + 3, i as int)),
        decreases inp@.len() - i,
    {
        if i >= n {
            return Err(error_at(ParseErrorKind::GrammarMismatch, inp, pos, n, "unterminated multiline literal"));
        }
        let c = inp[i];
        if c == '\'' && i + 1 < n && inp[i + 1] == '\'' {
            proof {
                if cond {
                    assert(i == q);
                }
            }
            if i + 2 < n && inp[i + 2] == '\'' {
                buf.push('\'');
                buf.push('\'');
                i = i + 3;
                continue ;
            }
            if n - i >= 4 && inp[i + 2] == '$' && inp[i + 3] == '{' {
                buf.push('$');
                buf.push('{');
                i = i + 4;
                continue ;
            }
            // The closing quotes.
            let ghost buf_snap = buf@;
            let ghost lines_snap = lines@;
            finish_fragment(&mut head, &mut tail, pending, buf);
            lines.push(InterpolatedText { head, tail });
            proof {
                if cond {
                    assert(head_views(lines@) =~= head_views(lines_snap).push(buf_snap));
                }
            }
            let ghost final_views = head_views(lines@);
            let stripped = crate::parse_text::trim_indent(lines);
            proof {
                if cond {
                    lemma_trim_len_equiv(lines@, final_views);
                    let m = trim_len_ch(final_views);
                    assert forall|k: int| 0 <= k < stripped@.len() implies (
                    #[trigger] stripped@[k]).tail@.len() == 0 && stripped@[k].head@ == line_strip(
                        final_views[k],
                        m,
                    ) by {
                        if crate::parse_text::text_is_empty(lines@[k]) {
                            assert(stripped@[k] == lines@[k]);
                        }
                    }
                    assert(head_views(stripped@) =~= final_views.map_values(
                        |l: Seq<char>| line_strip(l, m),
                    ));
                }
            }
            return Ok((join_lines(stripped), i + 2));
        }
        if c == '$' && i + 1 < n && inp[i + 1] == '{' {
            let q2a = skip_ws(inp, i + 2);
            let (e, q2) = parse_expression(inp, q2a, dec)?;
            let q3 = skip_ws(inp, q2);
            if !(q3 < n && inp[q3] == '}') {
                return Err(error_at(ParseErrorKind::GrammarMismatch, inp, pos, q3, "expected } after the interpolation"));
            }
            finish_fragment(&mut head, &mut tail, pending, buf);
            pending = Some(e);
            buf = Vec::new();
            i = q3 + 1;
            continue ;
        }
        if c == '\r' && i + 1 < n && inp[i + 1] == '\n' {
            finish_fragment(&mut head, &mut tail, pending, buf);
            lines.push(InterpolatedText { head, tail });
            head = String::new();
            tail = Vec::new();
            pending = None;
            buf = Vec::new();
            i = i + 2;
            continue ;
        }
        if c == '\n' {
            let ghost buf_snap = buf@;
            let ghost lines_snap = lines@;
            finish_fragment(&mut head, &mut tail, pending, buf);
            lines.push(InterpolatedText { head, tail });
            head = String::new();
            tail = Vec::new();
            pending = None;
            buf = Vec::new();
            i = i + 1;
            proof {
                if cond {
                    assert(head_views(lines@) =~= head_views(lines_snap).push(buf_snap));
                    lemma_split_push_nl(inp@.subrange(pos + 3, i - 1));
                    assert(inp@.subrange(pos + 3, i as int) =~= inp@.subrange(
                        pos + 3,
                        i - 1,
                    ).push('\n'));
                    assert(head_views(lines@).push(buf@) =~= split_nl(
                        inp@.subrange(pos + 3, i as int),
                    ));
                }
            }
            continue ;
        }
        buf.push(c);
        i = i + 1;
        proof {
            if cond {
                lemma_split_push(inp@.subrange(pos + 3, i - 1), c);
                lemma_split_nonempty(inp@.subrange(pos + 3, i - 1));
                assert(inp@.subrange(pos + 3, i as int) =~= inp@.subrange(pos + 3, i - 1).push(
                    c,
                ));
                assert(head_views(lines@).push(buf@) =~= split_nl(
                    inp@.subrange(pos + 3, i as int),
                ));
            }
        }
    }
}

} // verus!

verus! {

/// The result of a parse.
pub type ParseResult<T> = Result<T, ParseError>;

/// Parses a complete Dhall expression: the whole input must be consumed,
/// up to surrounding whitespace. The decimal-to-binary conversion of numeric
/// double literals is the decoder's. What each construct parses to is said
/// piece by piece — by the literal decoders, the row builder, the operator
/// climber and the import readers this function is built from — and stated
/// end to end below for an input that is one bare token.
pub fn parse_expr<D: DoubleDecoder>(s: &str, decoder: &D) -> (r: ParseResult<ParsedSubExpr>)
    ensures
        s@.len() == 0 ==> r is Err,
        lone_token_at(s@, 0) ==> {
            let token = label_token(s@, 0);
            &&& (token == "True"@ ==> (r matches Ok(e) && e.spec_expr() == ExprF::BoolLit::<
                Span,
                Import,
            >(true)))
            &&& (token == "False"@ ==> (r matches Ok(e) && e.spec_expr() == ExprF::BoolLit::<
                Span,
                Import,
            >(false)))
            &&& (token == "Type"@ ==> (r matches Ok(e) && e.spec_expr() == ExprF::Const::<
                Span,
                Import,
            >(Const::Type)))
            &&& (token == "Kind"@ ==> (r matches Ok(e) && e.spec_expr() == ExprF::Const::<
                Span,
                Import,
            >(Const::Kind)))
            &&& (token == "Sort"@ ==> (r matches Ok(e) && e.spec_expr() == ExprF::Const::<
                Span,
                Import,
            >(Const::Sort)))
            &&& (token == "NaN"@ ==> (r matches Ok(e) && (e.spec_expr() matches ExprF::DoubleLit(
                d,
            ) && d@ == NAN_BITS)))
            &&& (token == "Infinity"@ ==> (r matches Ok(e) && (e.spec_expr()
                matches ExprF::DoubleLit(d) && d@ == INF_BITS)))
            &&& (!literal_word(token) && crate::parse::spec_keyword(token) && token != "missing"@
                ==> r is Err)
            &&& (!literal_word(token) && !crate::parse::spec_keyword(token) ==> (
            crate::expr::builtin_of(token) matches Some(b) ==> (r matches Ok(e) && e.spec_expr()
                == ExprF::Builtin::<Span, Import>(b))))
            &&& ((!literal_word(token) && !crate::parse::spec_keyword(token)
                && crate::expr::builtin_of(token) is None) ==> (r matches Ok(e) && (e.spec_expr()
                matches ExprF::Var(v) && v.0@ == token)))
            &&& (r matches Ok(e) ==> (e.spec_note() matches Some(sp) && sp.start == 0 && sp.end
                as int == s@.len()))
        },
        ({
            let q = crate::parse::ws_end(s@, 0);
            0 <= q < s@.len() && import_first(s@[q])
        }) ==> (r matches Ok(e) ==> import_shaped(
            s@,
            crate::parse::ws_end(s@, 0),
            Ok((e, 0usize)),
        )),
{
    let chars = crate::strutil::str_to_chars(s);
    let q = skip_ws(&chars, 0);
    let (e, p) = match parse_expression(&chars, q, decoder) {
        Ok(t) => t,
        Err(err) => {
            return Err(err);
        },
    };
    let rest = skip_ws(&chars, p);
    if rest != chars.len() {
        return Err(error_at(ParseErrorKind::GrammarMismatch, &chars, rest, chars.len(), "expected the end of the input"));
    }
    Ok(e)
}

} // verus!

verus! {

/// The position of the first single quote at or after `i`, or the end.
pub open spec fn first_quote(s: Seq<char>, i: int) -> int
    decreases s.len() - i,
{
    if 0 <= i < s.len() {
        if s[i] == '\'' {
            i
        } else {
            first_quote(s, i + 1)
        }
    } else {
        s.len() as int
    }
}

/// Everything before the first quote is quote-free, and the position is in
/// bounds.
pub proof fn lemma_first_quote(s: Seq<char>, i: int)
    requires
        0 <= i <= s.len(),
    ensures
        i <= first_quote(s, i) <= s.len(),
        first_quote(s, i) < s.len() ==> s[first_quote(s, i)] == '\'',
        forall|j: int| i <= j < first_quote(s, i) ==> s[j] != '\'',
    decreases s.len() - i,
{
    if i < s.len() && s[i] != '\'' {
        lemma_first_quote(s, i + 1);
    }
}

/// Whether the multiline body from `i` to its closing quotes holds only
/// plain text: no interpolation, no carriage return, no escape after the
/// closing pair — the shape whose result the reader's contract pins down.
pub open spec fn plain_text_region(s: Seq<char>, i: int) -> bool {
    let q = first_quote(s, i);
    &&& 0 <= i <= s.len()
    &&& q + 1 < s.len() && s[q + 1] == '\''
    &&& (q + 2 == s.len() || (s[q + 2] != '\'' && s[q + 2] != '$'))
    &&& (forall|j: int| i <= j < q ==> s[j] != '$' && s[j] != '\r')
}

/// The lines of a text, split at every newline: one more line than there
/// are newlines.
pub open spec fn split_nl(s: Seq<char>) -> Seq<Seq<char>>
    decreases s.len(),
{
    if s.len() == 0 {
        seq![Seq::<char>::empty()]
    } else if s[0] == '\n' {
        seq![Seq::<char>::empty()] + split_nl(s.drop_first())
    } else {
        let t = split_nl(s.drop_first());
        seq![seq![s[0]] + t[0]] + t.drop_first()
    }
}

/// A split always holds at least one line.
pub proof fn lemma_split_nonempty(s: Seq<char>)
    ensures
        split_nl(s).len() >= 1,
    decreases s.len(),
{
    if s.len() > 0 {
        lemma_split_nonempty(s.drop_first());
    }
}

/// Appending an ordinary character extends the last line.
pub proof fn lemma_split_push(s: Seq<char>, c: char)
    requires
        c != '\n',
    ensures
        split_nl(s.push(c)) =~~= split_nl(s).update(
            split_nl(s).len() - 1,
            split_nl(s).last().push(c),
        ),
    decreases s.len(),
{
    lemma_split_nonempty(s);
    if s.len() == 0 {
        reveal_with_fuel(split_nl, 3);
        assert(s.push(c) =~= seq![c]);
        assert(seq![c].drop_first() =~= Seq::<char>::empty());
        assert(split_nl(seq![c])[0] =~= seq![c]);
        assert(split_nl(seq![c]).len() == 1);
        assert(split_nl(s)[0].push(c) =~= seq![c]);
    } else {
        lemma_split_push(s.drop_first(), c);
        lemma_split_nonempty(s.drop_first());
        assert(s.push(c).drop_first() =~= s.drop_first().push(c));
        assert(s.push(c)[0] == s[0]);
    }
}

/// Appending a newline starts a fresh empty line.
pub proof fn lemma_split_push_nl(s: Seq<char>)
    ensures
        split_nl(s.push('\n')) =~~= split_nl(s) + seq![Seq::<char>::empty()],
    decreases s.len(),
{
    lemma_split_nonempty(s);
    if s.len() == 0 {
        reveal_with_fuel(split_nl, 3);
        assert(s.push('\n') =~= seq!['\n']);
        assert(seq!['\n'].drop_first() =~= Seq::<char>::empty());
    } else {
        lemma_split_push_nl(s.drop_first());
        lemma_split_nonempty(s.drop_first());
        assert(s.push('\n').drop_first() =~= s.drop_first().push('\n'));
        assert(s.push('\n')[0] == s[0]);
    }
}

/// The indentation shared by character lines: the same fold as
/// `fold_indent`, line emptiness being zero length.
pub open spec fn fold_indent_ch(lines: Seq<Seq<char>>, last: Seq<char>, m: nat, idx: int) -> nat
    decreases lines.len() - idx,
{
    if idx < 0 || idx >= lines.len() {
        m
    } else {
        fold_indent_ch(
            lines,
            last,
            if lines[idx].len() == 0 {
                m
            } else {
                crate::parse_text::common_capped(last, lines[idx], m, 0)
            },
            idx + 1,
        )
    }
}

/// The number of characters the shared indent of character lines holds.
pub open spec fn trim_len_ch(lines: Seq<Seq<char>>) -> nat {
    if lines.len() == 0 {
        0
    } else {
        fold_indent_ch(
            lines,
            lines.last(),
            crate::parse_text::indent_run_from(lines.last(), 0),
            0,
        )
    }
}

/// A non-empty line with its shared indent removed; an empty one unchanged.
pub open spec fn line_strip(l: Seq<char>, m: nat) -> Seq<char> {
    if l.len() == 0 {
        l
    } else {
        crate::parse_text::stripped_head(l, m)
    }
}

/// Lines joined with newlines.
pub open spec fn join_heads(ss: Seq<Seq<char>>) -> Seq<char>
    decreases ss.len(),
{
    if ss.len() == 0 {
        Seq::empty()
    } else if ss.len() == 1 {
        ss[0]
    } else {
        ss[0] + seq!['\n'] + join_heads(ss.drop_first())
    }
}

/// The indent fold over text-literal lines equals the fold over their head
/// characters when no line holds an interpolation.
proof fn lemma_fold_indent_equiv(
    itls: Seq<InterpolatedText<ParsedSubExpr>>,
    views: Seq<Seq<char>>,
    last: Seq<char>,
    m: nat,
    idx: int,
)
    requires
        itls.len() == views.len(),
        forall|k: int|
            0 <= k < itls.len() ==> (#[trigger] itls[k]).head@ == views[k] && itls[k].tail@.len()
                == 0,
    ensures
        crate::parse_text::fold_indent(itls, last, m, idx) == fold_indent_ch(views, last, m, idx),
    decreases itls.len() - idx,
{
    if 0 <= idx < itls.len() {
        assert(crate::parse_text::text_is_empty(itls[idx]) <==> views[idx].len() == 0);
        lemma_fold_indent_equiv(
            itls,
            views,
            last,
            if views[idx].len() == 0 {
                m
            } else {
                crate::parse_text::common_capped(last, views[idx], m, 0)
            },
            idx + 1,
        );
    }
}

/// The shared indent of text-literal lines equals that of their head
/// characters when no line holds an interpolation.
pub proof fn lemma_trim_len_equiv(
    itls: Seq<InterpolatedText<ParsedSubExpr>>,
    views: Seq<Seq<char>>,
)
    requires
        itls.len() == views.len(),
        forall|k: int|
            0 <= k < itls.len() ==> (#[trigger] itls[k]).head@ == views[k] && itls[k].tail@.len()
                == 0,
    ensures
        crate::parse_text::trim_len(itls) == trim_len_ch(views),
{
    if itls.len() > 0 {
        assert(itls.last().head@ == views.last());
        lemma_fold_indent_equiv(
            itls,
            views,
            views.last(),
            crate::parse_text::indent_run_from(views.last(), 0),
            0,
        );
    }
}

} // verus!
