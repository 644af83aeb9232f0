//! Text-literal machinery: unicode escape values with their rejection
//! rules, and the indentation stripping of multiline literals.

use crate::expr::InterpolatedText;
use crate::parse::ParseErrorKind;
use crate::strutil::{chars_to_string, str_to_chars};
use vstd::prelude::*;
use vstd::string::StrSliceExecFns;

verus! {

/// Relies on std's `char::from_u32`: yields the character with that code
/// point, and nothing for surrogates and values past the last code point.
pub assume_specification[ char::from_u32 ](i: u32) -> (r: Option<char>)
    ensures
        r is Some <==> (i < 0xD800 || (0xDFFF < i && i <= 0x10FFFF)),
        r matches Some(c) ==> c as u32 == i,
;

/// Whether `c` is a hexadecimal digit.
pub open spec fn spec_hex_digit(c: char) -> bool {
    spec_digit_hex_value(c) < 16
}

/// The value of a hexadecimal digit; 16 marks everything else.
pub open spec fn spec_digit_hex_value(c: char) -> nat {
    if '0' <= c && c <= '9' {
        (c as nat - '0' as nat) as nat
    } else if 'a' <= c && c <= 'f' {
        (c as nat - 'a' as nat + 10) as nat
    } else if 'A' <= c && c <= 'F' {
        (c as nat - 'A' as nat + 10) as nat
    } else {
        16
    }
}

/// The value of a run of hexadecimal digits.
pub open spec fn hex_value(s: Seq<char>) -> nat
    decreases s.len(),
{
    if s.len() == 0 {
        0
    } else {
        hex_value(s.drop_last()) * 16 + spec_digit_hex_value(s.last())
    }
}

pub fn is_hex_digit(c: char) -> (r: bool)
    ensures
        r == spec_hex_digit(c),
{
    ('0' <= c && c <= '9') || ('a' <= c && c <= 'f') || ('A' <= c && c <= 'F')
}

pub fn hex_digit_value(c: char) -> (r: u32)
    requires
        spec_hex_digit(c),
    ensures
        r == spec_digit_hex_value(c),
{
    let v = c as u32;
    if '0' <= c && c <= '9' {
        v - 48
    } else if 'a' <= c && c <= 'f' {
        v - 97 + 10
    } else {
        v - 65 + 10
    }
}

/// The value of at most eight hexadecimal digits.
pub fn hex_digits_value(digits: &Vec<char>) -> (r: u32)
    requires
        digits@.len() <= 8,
        forall|i: int| 0 <= i < digits@.len() ==> spec_hex_digit(#[trigger] digits@[i]),
    ensures
        r == hex_value(digits@),
{
    let mut acc: u32 = 0;
    let mut i: usize = 0;
    while i < digits.len()
        invariant
            i <= digits@.len(),
            digits@.len() <= 8,
            forall|j: int| 0 <= j < digits@.len() ==> spec_hex_digit(#[trigger] digits@[j]),
            acc == hex_value(digits@.subrange(0, i as int)),
            acc < 0x10000000 || i == 8,
        decreases digits@.len() - i,
    {
        proof {
            assert(digits@.subrange(0, i + 1).drop_last() =~= digits@.subrange(0, i as int));
            lemma_hex_value_bound(digits@.subrange(0, i as int));
            lemma_hex_value_bound(digits@.subrange(0, i + 1));
            lemma_pow16_concrete();
            lemma_pow16_mono(i as nat, 7);
            if i + 1 <= 7 {
                lemma_pow16_mono((i + 1) as nat, 7);
            }
        }
        let d = hex_digit_value(digits[i]);
        acc = acc * 16 + d;
        i = i + 1;
    }
    proof {
        assert(digits@.subrange(0, digits@.len() as int) =~= digits@);
    }
    acc
}

/// Powers of sixteen do not shrink as the exponent grows.
proof fn lemma_pow16_mono(a: nat, b: nat)
    requires
        a <= b,
    ensures
        pow16(a) <= pow16(b),
    decreases b,
{
    if a < b {
        lemma_pow16_mono(a, (b - 1) as nat);
        assert(pow16(b) == 16 * pow16((b - 1) as nat));
    }
}

/// At most eight hexadecimal digits stay below 2^32.
proof fn lemma_hex_value_bound(s: Seq<char>)
    requires
        s.len() <= 8,
        forall|i: int| 0 <= i < s.len() ==> spec_hex_digit(#[trigger] s[i]),
    ensures
        hex_value(s) < pow16(s.len() as nat),
    decreases s.len(),
{
    if s.len() > 0 {
        assert(s.drop_last() =~= s.subrange(0, s.len() - 1));
        assert(forall|i: int|
            0 <= i < s.drop_last().len() ==> spec_hex_digit(#[trigger] s.drop_last()[i]));
        lemma_hex_value_bound(s.drop_last());
        assert(spec_hex_digit(s.last()));
        assert(hex_value(s) < pow16(s.len() as nat)) by (nonlinear_arith)
            requires
                hex_value(s) == hex_value(s.drop_last()) * 16 + spec_digit_hex_value(s.last()),
                hex_value(s.drop_last()) < pow16((s.len() - 1) as nat),
                spec_digit_hex_value(s.last()) < 16,
                pow16(s.len() as nat) == 16 * pow16((s.len() - 1) as nat),
        ;
    }
}

/// The concrete powers of sixteen the bound above needs.
proof fn lemma_pow16_concrete()
    ensures
        pow16(7) == 0x10000000,
        pow16(8) == 0x100000000,
{
    assert(pow16(0) == 1);
    assert(pow16(1) == 16);
    assert(pow16(2) == 0x100);
    assert(pow16(3) == 0x1000);
    assert(pow16(4) == 0x10000);
    assert(pow16(5) == 0x100000);
    assert(pow16(6) == 0x1000000);
    assert(pow16(7) == 0x10000000);
    assert(pow16(8) == 0x100000000);
}

/// Sixteen to the `n`th.
pub open spec fn pow16(n: nat) -> nat
    decreases n,
{
    if n == 0 {
        1
    } else {
        16 * pow16((n - 1) as nat)
    }
}

/// The single-character escapes of a double-quoted literal.
pub open spec fn simple_escape(c: char) -> Option<char> {
    if c == '"' {
        Some('"')
    } else if c == '$' {
        Some('$')
    } else if c == '\\' {
        Some('\\')
    } else if c == '/' {
        Some('/')
    } else if c == 'b' {
        Some('\u{0008}')
    } else if c == 'f' {
        Some('\u{000C}')
    } else if c == 'n' {
        Some('\n')
    } else if c == 'r' {
        Some('\r')
    } else if c == 't' {
        Some('\t')
    } else {
        None
    }
}

/// Decodes a single-character escape of a double-quoted literal: quote,
/// dollar, backslash, slash, backspace, form feed, newline, carriage return
/// and tab; anything else is none of them.
pub fn decode_simple_escape(c: char) -> (r: Option<char>)
    ensures
        r == simple_escape(c),
{
    if c == '"' {
        Some('"')
    } else if c == '$' {
        Some('$')
    } else if c == '\\' {
        Some('\\')
    } else if c == '/' {
        Some('/')
    } else if c == 'b' {
        Some('\u{0008}')
    } else if c == 'f' {
        Some('\u{000C}')
    } else if c == 'n' {
        Some('\n')
    } else if c == 'r' {
        Some('\r')
    } else if c == 't' {
        Some('\t')
    } else {
        None
    }
}

/// The escapes of a quoted POSIX environment variable name.
pub open spec fn posix_escape(c: char) -> Option<char> {
    if c == '"' {
        Some('"')
    } else if c == '\\' {
        Some('\\')
    } else if c == 'a' {
        Some('\u{0007}')
    } else if c == 'b' {
        Some('\u{0008}')
    } else if c == 'f' {
        Some('\u{000C}')
    } else if c == 'n' {
        Some('\n')
    } else if c == 'r' {
        Some('\r')
    } else if c == 't' {
        Some('\t')
    } else if c == 'v' {
        Some('\u{000B}')
    } else {
        None
    }
}

/// Decodes an escape of a quoted POSIX environment variable name: quote,
/// backslash, alert, backspace, form feed, newline, carriage return, tab and
/// vertical tab; any other character stands for itself.
pub fn decode_posix_escape(c: char) -> (r: Option<char>)
    ensures
        r == posix_escape(c),
{
    if c == '"' {
        Some('"')
    } else if c == '\\' {
        Some('\\')
    } else if c == 'a' {
        Some('\u{0007}')
    } else if c == 'b' {
        Some('\u{0008}')
    } else if c == 'f' {
        Some('\u{000C}')
    } else if c == 'n' {
        Some('\n')
    } else if c == 'r' {
        Some('\r')
    } else if c == 't' {
        Some('\t')
    } else if c == 'v' {
        Some('\u{000B}')
    } else {
        None
    }
}

/// How a unicode escape value is judged: the error kind it draws, or
/// nothing for an accepted code point.
pub open spec fn classify_escape(v: nat) -> Result<(), ParseErrorKind> {
    if 0xD800 <= v && v <= 0xDFFF {
        Err(ParseErrorKind::InvalidSurrogate)
    } else if v > 0x10FFFF {
        Err(ParseErrorKind::CustomParse)
    } else if v % 0x10000 >= 0xFFFE {
        Err(ParseErrorKind::InvalidNonCharacter)
    } else {
        Ok(())
    }
}

/// Turns the value of a `\u` escape into its character: surrogates, values
/// past the last code point, and the non-characters ending every plane are
/// rejected, each with its own error kind.
pub fn decode_escape_value(v: u32) -> (r: Result<char, ParseErrorKind>)
    ensures
        r is Ok <==> classify_escape(v as nat) is Ok,
        r matches Err(k) ==> Err::<(), ParseErrorKind>(k) == classify_escape(v as nat),
        r matches Ok(c) ==> c as u32 == v,
{
    if 0xD800 <= v && v <= 0xDFFF {
        return Err(ParseErrorKind::InvalidSurrogate);
    }
    if v > 0x10FFFF {
        return Err(ParseErrorKind::CustomParse);
    }
    if v % 0x10000 >= 0xFFFE {
        return Err(ParseErrorKind::InvalidNonCharacter);
    }
    match char::from_u32(v) {
        Some(c) => Ok(c),
        None => {
            // `from_u32` accepts every value below 0x110000 outside the
            // surrogate range, all of which were let through above.
            proof {
                assert(false);
            }
            Err(ParseErrorKind::CustomParse)
        },
    }
}

} // verus!

verus! {

/// Whether `c` counts as indentation.
pub open spec fn spec_is_indent(c: char) -> bool {
    c == ' ' || c == '\t'
}

/// The length of the run of indentation characters of `s` from `i` on.
pub open spec fn indent_run_from(s: Seq<char>, i: int) -> nat
    decreases s.len() - i,
{
    if 0 <= i < s.len() && spec_is_indent(s[i]) {
        1 + indent_run_from(s, i + 1)
    } else {
        0
    }
}

/// The length of the common prefix of `p` and `s` from `i` on, capped at
/// `cap` characters.
pub open spec fn common_capped(p: Seq<char>, s: Seq<char>, cap: nat, i: int) -> nat
    decreases p.len() - i,
{
    if 0 <= i < cap && i < p.len() && i < s.len() && p[i] == s[i] {
        1 + common_capped(p, s, cap, i + 1)
    } else {
        0
    }
}

/// Whether the line holds nothing at all.
pub open spec fn text_is_empty<SE>(t: InterpolatedText<SE>) -> bool {
    t.head@.len() == 0 && t.tail@.len() == 0
}

/// The indentation length shared by the lines: the leading whitespace of the
/// last line, shortened in lockstep against every non-empty line.
pub open spec fn fold_indent<SE>(
    lines: Seq<InterpolatedText<SE>>,
    last_head: Seq<char>,
    m: nat,
    idx: int,
) -> nat
    decreases lines.len() - idx,
{
    if idx < 0 || idx >= lines.len() {
        m
    } else {
        fold_indent(
            lines,
            last_head,
            if text_is_empty(lines[idx]) {
                m
            } else {
                common_capped(last_head, lines[idx].head@, m, 0)
            },
            idx + 1,
        )
    }
}

/// The number of characters the shared indent holds.
pub open spec fn trim_len<SE>(lines: Seq<InterpolatedText<SE>>) -> nat {
    if lines.len() == 0 {
        0
    } else {
        fold_indent(
            lines,
            lines.last().head@,
            indent_run_from(lines.last().head@, 0),
            0,
        )
    }
}

/// A head with its shared indent removed.
pub open spec fn stripped_head(s: Seq<char>, m: nat) -> Seq<char> {
    if m <= s.len() {
        s.skip(m as int)
    } else {
        Seq::empty()
    }
}

fn indent_run_exec(s: &Vec<char>, i: usize) -> (r: usize)
    requires
        i <= s@.len(),
    ensures
        r == indent_run_from(s@, i as int),
        i + r <= s@.len(),
    decreases s@.len() - i,
{
    if i < s.len() && (s[i] == ' ' || s[i] == '\t') {
        1 + indent_run_exec(s, i + 1)
    } else {
        0
    }
}

fn common_capped_exec(p: &Vec<char>, s: &Vec<char>, cap: usize, i: usize) -> (r: usize)
    requires
        i <= p@.len(),
    ensures
        r == common_capped(p@, s@, cap as nat, i as int),
        i + r <= p@.len(),
    decreases p@.len() - i,
{
    if i < cap && i < p.len() && i < s.len() && p[i] == s[i] {
        1 + common_capped_exec(p, s, cap, i + 1)
    } else {
        0
    }
}

fn text_is_empty_exec<SE>(t: &InterpolatedText<SE>) -> (r: bool)
    ensures
        r == text_is_empty(*t),
{
    t.head.as_str().unicode_len() == 0 && t.tail.len() == 0
}

/// Strips the indentation shared by the lines of a multiline literal: the
/// leading whitespace of the last line, shortened in lockstep against every
/// non-empty line, is removed from the head of every non-empty line.
pub fn trim_indent<SE>(lines: Vec<InterpolatedText<SE>>) -> (r: Vec<InterpolatedText<SE>>)
    ensures
        r@.len() == lines@.len(),
        forall|i: int|
            0 <= i < lines@.len() ==> if text_is_empty(#[trigger] lines@[i]) {
                r@[i] == lines@[i]
            } else {
                r@[i].head@ == stripped_head(lines@[i].head@, trim_len(lines@)) && r@[i].tail
                    == lines@[i].tail
            },
{
    let n = lines.len();
    if n == 0 {
        return lines;
    }
    let last_head = str_to_chars(lines[n - 1].head.as_str());
    let mut m: usize = indent_run_exec(&last_head, 0);
    let mut idx: usize = 0;
    proof {
        assert(last_head@ == lines@.last().head@);
    }
    while idx < n
        invariant
            idx <= n,
            n == lines@.len(),
            n >= 1,
            last_head@ == lines@.last().head@,
            fold_indent(lines@, last_head@, m as nat, idx as int) == trim_len(lines@),
            m <= last_head@.len(),
        decreases n - idx,
    {
        if !text_is_empty_exec(&lines[idx]) {
            let line_head = str_to_chars(lines[idx].head.as_str());
            m = common_capped_exec(&last_head, &line_head, m, 0);
        }
        idx = idx + 1;
    }
    let mut out: Vec<InterpolatedText<SE>> = Vec::new();
    let mut i: usize = 0;
    // Pull the lines out one by one, stripping the shared indent off the
    // head of each non-empty one.
    let mut rest = lines;
    while i < n
        invariant
            i <= n,
            n >= 1,
            out@.len() == i,
            rest@.len() == n - i,
            m as nat == trim_len(lines@),
            n == lines@.len(),
            forall|j: int| 0 <= j < n - i ==> rest@[j] == lines@[i + j],
            forall|j: int|
                0 <= j < i ==> if text_is_empty(#[trigger] lines@[j]) {
                    out@[j] == lines@[j]
                } else {
                    out@[j].head@ == stripped_head(lines@[j].head@, trim_len(lines@))
                        && out@[j].tail == lines@[j].tail
                },
        decreases n - i,
    {
        let line = rest.remove(0);
        proof {
            assert(line == lines@[i as int]);
        }
        if text_is_empty_exec(&line) {
            out.push(line);
        } else {
            let head_chars = str_to_chars(line.head.as_str());
            let keep_from = if m <= head_chars.len() {
                m
            } else {
                head_chars.len()
            };
            let mut new_head_chars: Vec<char> = Vec::new();
            let mut k = keep_from;
            while k < head_chars.len()
                invariant
                    keep_from <= k <= head_chars@.len(),
                    new_head_chars@ == head_chars@.subrange(keep_from as int, k as int),
                decreases head_chars@.len() - k,
            {
                new_head_chars.push(head_chars[k]);
                k = k + 1;
                proof {
                    assert(new_head_chars@ =~= head_chars@.subrange(keep_from as int, k as int));
                }
            }
            proof {
                assert(new_head_chars@ =~= stripped_head(lines@[i as int].head@, m as nat));
            }
            let new_head = chars_to_string(new_head_chars.as_slice());
            out.push(InterpolatedText { head: new_head, tail: line.tail });
        }
        i = i + 1;
    }
    out
}

} // verus!
