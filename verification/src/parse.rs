//! The parser's ground layer: diagnostics, character classes, whitespace
//! and comments, and labels.

use crate::expr::{Label, Span};
use crate::strutil::chars_to_string;
use vstd::prelude::*;

verus! {

/// What went wrong during a parse.
#[derive(Debug, Clone, Copy, PartialEq, Eq, Structural)]
pub enum ParseErrorKind {
    /// The input did not match the grammar.
    GrammarMismatch,
    /// A rule-local validation failed.
    CustomParse,
    /// A string escape named a code point in the surrogate range.
    InvalidSurrogate,
    /// A string escape named a non-character code point.
    InvalidNonCharacter,
    /// A numeric literal does not fit its type.
    Overflow,
    /// A token shaped like a builtin names none.
    UnknownBuiltin,
    /// A hash literal names an unsupported algorithm.
    UnknownHashAlgorithm,
}

/// A parse diagnostic: its kind, the range of the offending text, and a
/// rendered message quoting that text.
#[derive(Debug)]
pub struct ParseError {
    pub kind: ParseErrorKind,
    pub span: Span,
    pub message: String,
}

/// The usual result of a parse step: a value and the position after it, or a
/// diagnostic.
pub type Step<T> = Result<(T, usize), ParseError>;

/// Converts a decimal decoder of IEEE 754 doubles. The syntax of the literal
/// is checked by the parser; only the conversion of its decimal value to the
/// 64 bits of the nearest double is delegated, since that computation is
/// floating point, which this crate does not hold.
pub trait DoubleDecoder {
    /// The bits of the double nearest to the decimal number `s` holds,
    /// with the bits of an infinity when it is out of range.
    fn decode_bits(&self, s: &str) -> u64;
}

/// Whether `c` can start a simple label.
pub open spec fn spec_label_first(c: char) -> bool {
    ('A' <= c && c <= 'Z') || ('a' <= c && c <= 'z') || c == '_'
}

/// Whether `c` can continue a simple label.
pub open spec fn spec_label_next(c: char) -> bool {
    spec_label_first(c) || ('0' <= c && c <= '9') || c == '-'
}

/// Whether `c` is a decimal digit.
pub open spec fn spec_digit(c: char) -> bool {
    '0' <= c && c <= '9'
}

pub fn is_label_first(c: char) -> (r: bool)
    ensures
        r == spec_label_first(c),
{
    ('A' <= c && c <= 'Z') || ('a' <= c && c <= 'z') || c == '_'
}

pub fn is_label_next(c: char) -> (r: bool)
    ensures
        r == spec_label_next(c),
{
    is_label_first(c) || ('0' <= c && c <= '9') || c == '-'
}

pub fn is_digit(c: char) -> (r: bool)
    ensures
        r == spec_digit(c),
{
    '0' <= c && c <= '9'
}

/// The length of the run of decimal digits of `s` from `i` on.
pub open spec fn digit_run_from(s: Seq<char>, i: int) -> nat
    decreases s.len() - i,
{
    if 0 <= i < s.len() && spec_digit(s[i]) {
        1 + digit_run_from(s, i + 1)
    } else {
        0
    }
}

/// The length of the run of label characters of `s` from `i` on.
pub open spec fn label_run_from(s: Seq<char>, i: int) -> nat
    decreases s.len() - i,
{
    if 0 <= i < s.len() && spec_label_next(s[i]) {
        1 + label_run_from(s, i + 1)
    } else {
        0
    }
}

/// Builds a diagnostic whose message quotes the offending characters.
pub fn error_at(kind: ParseErrorKind, inp: &Vec<char>, start: usize, end: usize, what: &str) -> (r:
    ParseError)
    requires
        start <= end <= inp@.len(),
    ensures
        r.kind == kind,
        r.span == (Span { start, end }),
        r.message@ == what@ + " while matching on: "@ + inp@.subrange(start as int, end as int),
{
    let mut msg = String::new();
    msg.append(what);
    msg.append(" while matching on: ");
    let ghost prefix = msg@;
    let mut i = start;
    while i < end
        invariant
            start <= i <= end <= inp@.len(),
            msg@ == prefix + inp@.subrange(start as int, i as int),
        decreases end - i,
    {
        msg.push(inp[i]);
        i = i + 1;
        proof {
            assert(msg@ =~= prefix + inp@.subrange(start as int, i as int));
        }
    }
    proof {
        assert(msg@ =~= what@ + " while matching on: "@ + inp@.subrange(
            start as int,
            end as int,
        ));
    }
    ParseError { kind, span: Span { start, end }, message: msg }
}

/// Whether position `i` starts whitespace or a comment.
pub open spec fn spec_ws_start(s: Seq<char>, i: int) -> bool {
    &&& 0 <= i < s.len()
    &&& {
        ||| s[i] == ' '
        ||| s[i] == '\t'
        ||| s[i] == '\n'
        ||| s[i] == '\r'
        ||| (s[i] == '-' && i + 1 < s.len() && s[i + 1] == '-')
        ||| (s[i] == '{' && i + 1 < s.len() && s[i + 1] == '-')
    }
}

/// Where the whitespace ends: the position after the run of blanks, line
/// comments and nested block comments starting at `i`, scanned with the
/// current block-comment depth and whether a line comment is open.
pub open spec fn ws_scan(s: Seq<char>, i: int, depth: nat, in_line: bool) -> int
    decreases s.len() - i,
{
    if i < 0 || i >= s.len() {
        s.len() as int
    } else if in_line {
        if s[i] == '\n' {
            ws_scan(s, i + 1, depth, false)
        } else {
            ws_scan(s, i + 1, depth, true)
        }
    } else if depth > 0 {
        if s[i] == '{' && i + 1 < s.len() && s[i + 1] == '-' {
            if depth < usize::MAX as nat {
                ws_scan(s, i + 2, depth + 1, false)
            } else {
                ws_scan(s, i + 2, depth, false)
            }
        } else if s[i] == '-' && i + 1 < s.len() && s[i + 1] == '}' {
            ws_scan(s, i + 2, (depth - 1) as nat, false)
        } else {
            ws_scan(s, i + 1, depth, false)
        }
    } else if s[i] == ' ' || s[i] == '\t' || s[i] == '\n' || s[i] == '\r' {
        ws_scan(s, i + 1, 0, false)
    } else if s[i] == '-' && i + 1 < s.len() && s[i + 1] == '-' {
        ws_scan(s, i + 2, 0, true)
    } else if s[i] == '{' && i + 1 < s.len() && s[i + 1] == '-' {
        ws_scan(s, i + 2, 1, false)
    } else {
        i
    }
}

/// Where the whitespace starting at `i` ends, outside any comment.
pub open spec fn ws_end(s: Seq<char>, i: int) -> int {
    ws_scan(s, i, 0, false)
}

/// Skips whitespace, line comments and nested block comments: returns
/// exactly where `ws_end` says the run ends.
pub fn skip_ws(inp: &Vec<char>, pos: usize) -> (r: usize)
    requires
        pos <= inp@.len(),
    ensures
        pos <= r <= inp@.len(),
        r == ws_end(inp@, pos as int),
        !spec_ws_start(inp@, pos as int) && pos < inp@.len() ==> r == pos,
{
    let n = inp.len();
    let mut i = pos;
    // Depth of block comment nesting; characters inside are skipped blindly.
    let mut depth: usize = 0;
    // Whether the rest of the current line is a comment.
    let mut in_line: bool = false;
    loop
        invariant
            pos <= i <= n,
            n == inp@.len(),
            ws_end(inp@, pos as int) == ws_scan(inp@, i as int, depth as nat, in_line),
            !spec_ws_start(inp@, pos as int) && pos < n ==> i == pos && depth == 0 && !in_line,
        decreases n - i + (if in_line {
            1int
        } else {
            0int
        }),
    {
        if i >= n {
            return n;
        }
        let c = inp[i];
        if in_line {
            if c == '\n' {
                in_line = false;
            }
            i = i + 1;
        } else if depth > 0 {
            if c == '{' && i + 1 < n && inp[i + 1] == '-' {
                if depth < usize::MAX {
                    depth = depth + 1;
                }
                i = i + 2;
            } else if c == '-' && i + 1 < n && inp[i + 1] == '}' {
                depth = depth - 1;
                i = i + 2;
            } else {
                i = i + 1;
            }
        } else if c == ' ' || c == '\t' || c == '\n' || c == '\r' {
            i = i + 1;
        } else if c == '-' && i + 1 < n && inp[i + 1] == '-' {
            in_line = true;
            i = i + 2;
        } else if c == '{' && i + 1 < n && inp[i + 1] == '-' {
            depth = 1;
            i = i + 2;
        } else {
            return i;
        }
    }
}

/// Reads a simple label: one label-first character, then the maximal run of
/// label characters.
pub fn lex_simple_label(inp: &Vec<char>, pos: usize) -> (r: Step<Vec<char>>)
    requires
        pos <= inp@.len(),
    ensures
        r is Ok <==> pos < inp@.len() && spec_label_first(inp@[pos as int]),
        r matches Ok(t) ==> t.1 == pos + 1 + label_run_from(inp@, pos + 1) && t.1 <= inp@.len()
            && t.0@ == inp@.subrange(pos as int, t.1 as int),
{
    let n = inp.len();
    if pos >= n || !is_label_first(inp[pos]) {
        return Err(
            error_at(
                ParseErrorKind::GrammarMismatch,
                inp,
                pos,
                if pos < n {
                    pos + 1
                } else {
                    pos
                },
                "expected a label",
            ),
        );
    }
    let mut out: Vec<char> = Vec::new();
    out.push(inp[pos]);
    let mut i = pos + 1;
    while i < n && is_label_next(inp[i])
        invariant
            pos < i <= n,
            n == inp@.len(),
            out@.len() == i - pos,
            out@ == inp@.subrange(pos as int, i as int),
            label_run_from(inp@, pos + 1) == i - pos - 1 + label_run_from(inp@, i as int),
        decreases n - i,
    {
        out.push(inp[i]);
        i = i + 1;
        proof {
            assert(out@ =~= inp@.subrange(pos as int, i as int));
        }
    }
    Ok((out, i))
}

/// The run of characters other than a backtick: the inside of a quoted label.
pub open spec fn quoted_run_from(s: Seq<char>, i: int) -> nat
    decreases s.len() - i,
{
    if 0 <= i < s.len() && s[i] != '`' {
        1 + quoted_run_from(s, i + 1)
    } else {
        0
    }
}

/// Reads a label in backticks; any character but a backtick may appear.
pub fn lex_quoted_label(inp: &Vec<char>, pos: usize) -> (r: Step<Vec<char>>)
    requires
        pos <= inp@.len(),
    ensures
        r is Ok <==> pos < inp@.len() && inp@[pos as int] == '`' && pos + 1 + quoted_run_from(
            inp@,
            pos + 1,
        ) < inp@.len(),
        r matches Ok(t) ==> t.1 == pos + 2 + quoted_run_from(inp@, pos + 1) && t.1 <= inp@.len()
            && t.0@ == inp@.subrange(pos + 1, t.1 - 1),
{
    let n = inp.len();
    if pos >= n || inp[pos] != '`' {
        return Err(error_at(ParseErrorKind::GrammarMismatch, inp, pos, pos, "expected `"));
    }
    let mut out: Vec<char> = Vec::new();
    let mut i = pos + 1;
    while i < n && inp[i] != '`'
        invariant
            pos < i <= n,
            n == inp@.len(),
            out@ == inp@.subrange(pos + 1, i as int),
            quoted_run_from(inp@, pos + 1) == i - pos - 1 + quoted_run_from(inp@, i as int),
        decreases n - i,
    {
        out.push(inp[i]);
        i = i + 1;
        proof {
            assert(out@ =~= inp@.subrange(pos + 1, i as int));
        }
    }
    if i >= n {
        return Err(
            error_at(ParseErrorKind::GrammarMismatch, inp, pos, n, "unterminated quoted label"),
        );
    }
    Ok((out, i + 1))
}

/// Reads a label, simple or quoted: the name of a simple label is the label
/// run it spells, the name of a quoted label the text between its backticks.
pub fn lex_label(inp: &Vec<char>, pos: usize) -> (r: Step<Label>)
    requires
        pos <= inp@.len(),
    ensures
        r matches Ok(t) ==> pos < t.1 <= inp@.len(),
        pos < inp@.len() && inp@[pos as int] == '`' ==> (r is Ok <==> pos + 1 + quoted_run_from(
            inp@,
            pos + 1,
        ) < inp@.len()),
        pos < inp@.len() && inp@[pos as int] == '`' ==> (r matches Ok(t) ==> t.1 == pos + 2
            + quoted_run_from(inp@, pos + 1) && t.0@ == inp@.subrange(pos + 1, t.1 - 1)),
        pos < inp@.len() && inp@[pos as int] != '`' ==> (r is Ok <==> spec_label_first(
            inp@[pos as int],
        )),
        pos < inp@.len() && inp@[pos as int] != '`' ==> (r matches Ok(t) ==> t.1 == pos + 1
            + label_run_from(inp@, pos + 1) && t.0@ == inp@.subrange(pos as int, t.1 as int)),
        pos == inp@.len() ==> r is Err,
{
    let n = inp.len();
    if pos < n && inp[pos] == '`' {
        let (chars, p2) = lex_quoted_label(inp, pos)?;
        Ok((Label::new(chars_to_string(chars.as_slice())), p2))
    } else {
        let (chars, p2) = lex_simple_label(inp, pos)?;
        Ok((Label::new(chars_to_string(chars.as_slice())), p2))
    }
}

/// The reserved keywords: the words no simple label may spell.
pub open spec fn spec_keyword(s: Seq<char>) -> bool {
    ||| s == "if"@
    ||| s == "then"@
    ||| s == "else"@
    ||| s == "let"@
    ||| s == "in"@
    ||| s == "using"@
    ||| s == "missing"@
    ||| s == "as"@
    ||| s == "Infinity"@
    ||| s == "NaN"@
    ||| s == "merge"@
    ||| s == "Some"@
    ||| s == "forall"@
    ||| s == "assert"@
    ||| s == "toMap"@
}

/// Whether the characters spell a reserved keyword, which no simple label may.
pub fn is_keyword(chars: &Vec<char>) -> (r: bool)
    ensures
        r == spec_keyword(chars@),
{
    crate::strutil::chars_eq_str(chars.as_slice(), "if") || crate::strutil::chars_eq_str(
        chars.as_slice(),
        "then",
    ) || crate::strutil::chars_eq_str(chars.as_slice(), "else") || crate::strutil::chars_eq_str(
        chars.as_slice(),
        "let",
    ) || crate::strutil::chars_eq_str(chars.as_slice(), "in") || crate::strutil::chars_eq_str(
        chars.as_slice(),
        "using",
    ) || crate::strutil::chars_eq_str(chars.as_slice(), "missing") || crate::strutil::chars_eq_str(
        chars.as_slice(),
        "as",
    ) || crate::strutil::chars_eq_str(chars.as_slice(), "Infinity") || crate::strutil::chars_eq_str(
        chars.as_slice(),
        "NaN",
    ) || crate::strutil::chars_eq_str(chars.as_slice(), "merge") || crate::strutil::chars_eq_str(
        chars.as_slice(),
        "Some",
    ) || crate::strutil::chars_eq_str(chars.as_slice(), "forall") || crate::strutil::chars_eq_str(
        chars.as_slice(),
        "assert",
    ) || crate::strutil::chars_eq_str(chars.as_slice(), "toMap")
}

} // verus!
