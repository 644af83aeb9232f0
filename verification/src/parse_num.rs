//! Numeric literals: naturals and integers with their exact decimal values
//! and overflow checks, and the syntax of doubles.

use crate::parse::{
    digit_run_from, error_at, is_digit, spec_digit, DoubleDecoder, ParseError, ParseErrorKind,
    Step,
};
use crate::strutil::chars_to_string;
use vstd::prelude::*;

verus! {

/// The value of a run of decimal digits.
pub open spec fn digits_value(s: Seq<char>) -> nat
    decreases s.len(),
{
    if s.len() == 0 {
        0
    } else {
        (digits_value(s.drop_last()) * 10 + (s.last() as int - '0' as int)) as nat
    }
}

/// Whether every character is a decimal digit.
pub open spec fn all_digits(s: Seq<char>) -> bool {
    forall|i: int| 0 <= i < s.len() ==> spec_digit(#[trigger] s[i])
}

/// Reads the maximal non-empty run of decimal digits.
pub fn lex_digits(inp: &Vec<char>, pos: usize) -> (r: Step<Vec<char>>)
    requires
        pos <= inp@.len(),
    ensures
        r is Ok <==> pos < inp@.len() && spec_digit(inp@[pos as int]),
        r matches Ok(t) ==> t.1 == pos + digit_run_from(inp@, pos as int) && t.1 <= inp@.len()
            && t.0@ == inp@.subrange(pos as int, t.1 as int) && all_digits(t.0@) && (t.1
            < inp@.len() ==> !spec_digit(inp@[t.1 as int])),
        r matches Err(e) ==> e.kind == ParseErrorKind::GrammarMismatch,
{
    let n = inp.len();
    if pos >= n || !is_digit(inp[pos]) {
        return Err(error_at(ParseErrorKind::GrammarMismatch, inp, pos, pos, "expected a digit"));
    }
    let mut out: Vec<char> = Vec::new();
    let mut i = pos;
    while i < n && is_digit(inp[i])
        invariant
            pos <= i <= n,
            n == inp@.len(),
            out@ == inp@.subrange(pos as int, i as int),
            all_digits(out@),
            digit_run_from(inp@, pos as int) == i - pos + digit_run_from(inp@, i as int),
        decreases n - i,
    {
        out.push(inp[i]);
        i = i + 1;
        proof {
            assert(out@ =~= inp@.subrange(pos as int, i as int));
        }
    }
    Ok((out, i))
}

/// The value of the digits, when it fits a `usize`.
pub fn digits_to_usize(digits: &Vec<char>) -> (r: Option<usize>)
    requires
        all_digits(digits@),
    ensures
        r matches Some(v) ==> v == digits_value(digits@),
        r is None <==> digits_value(digits@) > usize::MAX,
{
    let mut acc: usize = 0;
    let mut i: usize = 0;
    while i < digits.len()
        invariant
            i <= digits@.len(),
            all_digits(digits@),
            acc == digits_value(digits@.subrange(0, i as int)),
        decreases digits@.len() - i,
    {
        let d: u32 = digits[i] as u32;
        let dv: usize = (d - 48) as usize;
        proof {
            assert(spec_digit(digits@[i as int]));
            assert(dv <= 9);
            assert(digits@.subrange(0, i + 1).drop_last() =~= digits@.subrange(0, i as int));
        }
        if acc > usize::MAX / 10 || (acc == usize::MAX / 10 && dv > usize::MAX % 10) {
            proof {
                lemma_digits_value_grows(digits@, i + 1 as int);
                assert(acc * 10 + dv > usize::MAX) by (nonlinear_arith)
                    requires
                        acc > usize::MAX / 10 || (acc == usize::MAX / 10 && dv > usize::MAX % 10),
                        dv <= 9,
                ;
            }
            return None;
        }
        proof {
            assert(acc * 10 + dv <= usize::MAX) by (nonlinear_arith)
                requires
                    acc <= usize::MAX / 10,
                    acc < usize::MAX / 10 || dv <= usize::MAX % 10,
                    dv <= 9,
            ;
        }
        acc = acc * 10 + dv;
        i = i + 1;
    }
    proof {
        assert(digits@.subrange(0, digits@.len() as int) =~= digits@);
    }
    Some(acc)
}

/// A longer digit prefix never has a smaller value.
proof fn lemma_digits_value_grows(s: Seq<char>, i: int)
    requires
        0 <= i <= s.len(),
        all_digits(s),
    ensures
        digits_value(s.subrange(0, i)) <= digits_value(s),
    decreases s.len() - i,
{
    if i < s.len() {
        lemma_digits_value_grows(s, i + 1);
        assert(s.subrange(0, i + 1).drop_last() =~= s.subrange(0, i));
        assert(s.subrange(0, i + 1).last() == s[i]);
        assert(spec_digit(s[i]));
        assert(digits_value(s.subrange(0, i)) <= digits_value(s.subrange(0, i + 1)))
            by (nonlinear_arith)
            requires
                digits_value(s.subrange(0, i + 1)) == (digits_value(s.subrange(0, i)) * 10 + (
                s.subrange(0, i + 1).last() as int - '0' as int)) as nat,
                '0' as int <= s.subrange(0, i + 1).last() as int,
        ;
    } else {
        assert(s.subrange(0, i) =~= s);
    }
}

/// Parses a natural literal: the maximal run of digits at `pos`, succeeding
/// exactly when there is one and its value fits the type.
pub fn parse_natural(inp: &Vec<char>, pos: usize) -> (r: Step<usize>)
    requires
        pos <= inp@.len(),
    ensures
        r is Ok <==> pos < inp@.len() && spec_digit(inp@[pos as int]) && digits_value(
            inp@.subrange(pos as int, pos + digit_run_from(inp@, pos as int)),
        ) <= usize::MAX,
        r matches Ok(t) ==> t.1 == pos + digit_run_from(inp@, pos as int) && t.1 <= inp@.len()
            && t.0 == digits_value(inp@.subrange(pos as int, t.1 as int)),
{
    let (digits, p2) = lex_digits(inp, pos)?;
    match digits_to_usize(&digits) {
        Some(v) => Ok((v, p2)),
        None => Err(
            error_at(
                ParseErrorKind::CustomParse,
                inp,
                pos,
                p2,
                "natural literal does not fit 64 bits",
            ),
        ),
    }
}

/// Parses an integer literal: a mandatory sign, then the maximal run of
/// digits, succeeding exactly when both are there and the signed value fits
/// the type.
pub fn parse_integer(inp: &Vec<char>, pos: usize) -> (r: Step<isize>)
    requires
        pos <= inp@.len(),
    ensures
        r is Ok <==> pos < inp@.len() && (inp@[pos as int] == '+' || inp@[pos as int] == '-')
            && pos + 1 < inp@.len() && spec_digit(inp@[pos + 1]) && (if inp@[pos as int] == '-' {
            digits_value(inp@.subrange(pos + 1, pos + 1 + digit_run_from(inp@, pos + 1)))
                <= isize::MAX as nat + 1
        } else {
            digits_value(inp@.subrange(pos + 1, pos + 1 + digit_run_from(inp@, pos + 1)))
                <= isize::MAX as nat
        }),
        r matches Ok(t) ==> t.1 == pos + 1 + digit_run_from(inp@, pos + 1) && t.1 <= inp@.len()
            && (inp@[pos as int] == '-' ==> t.0 == -(digits_value(
            inp@.subrange(pos + 1, t.1 as int),
        ) as int)) && (inp@[pos as int] == '+' ==> t.0 == digits_value(
            inp@.subrange(pos + 1, t.1 as int),
        ) as int),
{
    let n = inp.len();
    if pos >= n || !(inp[pos] == '+' || inp[pos] == '-') {
        return Err(
            error_at(ParseErrorKind::GrammarMismatch, inp, pos, pos, "expected a signed integer"),
        );
    }
    let negative = inp[pos] == '-';
    let (digits, p2) = lex_digits(inp, pos + 1)?;
    let magnitude = match digits_to_usize(&digits) {
        Some(v) => v,
        None => {
            return Err(
                error_at(
                    ParseErrorKind::CustomParse,
                    inp,
                    pos,
                    p2,
                    "integer literal does not fit 64 bits",
                ),
            );
        },
    };
    let max_pos: usize = isize::MAX as usize;
    if negative {
        if magnitude > max_pos + 1 {
            return Err(
                error_at(
                    ParseErrorKind::CustomParse,
                    inp,
                    pos,
                    p2,
                    "integer literal does not fit 64 bits",
                ),
            );
        }
        if magnitude == max_pos + 1 {
            Ok((isize::MIN, p2))
        } else {
            Ok((-(magnitude as isize), p2))
        }
    } else {
        if magnitude > max_pos {
            return Err(
                error_at(
                    ParseErrorKind::CustomParse,
                    inp,
                    pos,
                    p2,
                    "integer literal does not fit 64 bits",
                ),
            );
        }
        Ok((magnitude as isize, p2))
    }
}

/// Whether the bits are one of the two IEEE 754 double infinities.
pub open spec fn spec_inf_bits(b: u64) -> bool {
    b == 0x7FF0000000000000 || b == 0xFFF0000000000000
}

/// Whether those bits are an infinity.
pub fn is_inf_bits(b: u64) -> (r: bool)
    ensures
        r == spec_inf_bits(b),
{
    b == 0x7FF0000000000000 || b == 0xFFF0000000000000
}

/// Where the exponent part of a double token ends: unchanged when no
/// well-formed exponent follows, since the reader then leaves it alone.
pub open spec fn exp_end(s: Seq<char>, i: int) -> int {
    if 0 <= i < s.len() && (s[i] == 'e' || s[i] == 'E') {
        let k = if i + 1 < s.len() && (s[i + 1] == '+' || s[i + 1] == '-') {
            i + 2
        } else {
            i + 1
        };
        if k < s.len() && spec_digit(s[k]) {
            k + digit_run_from(s, k)
        } else {
            i
        }
    } else {
        i
    }
}

/// Where the numeric double token starting at `pos` ends: an optional sign,
/// the maximal digit run, an optional point with a digit run, an optional
/// exponent — and nothing at all unless a point or an exponent is there,
/// since the token would otherwise be a natural or integer literal.
pub open spec fn double_token_end(s: Seq<char>, pos: int) -> Option<int> {
    let i0 = if 0 <= pos < s.len() && (s[pos] == '+' || s[pos] == '-') {
        pos + 1
    } else {
        pos
    };
    if !(0 <= i0 < s.len() && spec_digit(s[i0])) {
        None
    } else {
        let i1 = i0 + digit_run_from(s, i0);
        if i1 < s.len() && s[i1] == '.' {
            if i1 + 1 < s.len() && spec_digit(s[i1 + 1]) {
                Some(exp_end(s, i1 + 1 + digit_run_from(s, i1 + 1)))
            } else {
                None
            }
        } else {
            if exp_end(s, i1) != i1 {
                Some(exp_end(s, i1))
            } else {
                None
            }
        }
    }
}

/// Reads the characters of a numeric double literal, exactly the token that
/// `double_token_end` delimits.
pub fn lex_double_token(inp: &Vec<char>, pos: usize) -> (r: Step<Vec<char>>)
    requires
        pos <= inp@.len(),
    ensures
        r is Ok <==> double_token_end(inp@, pos as int) is Some,
        r matches Ok(t) ==> double_token_end(inp@, pos as int) == Some(t.1 as int) && t.1
            <= inp@.len() && pos < t.1 && t.0@ == inp@.subrange(pos as int, t.1 as int),
        r matches Err(e) ==> e.kind == ParseErrorKind::GrammarMismatch,
{
    let n = inp.len();
    let mut i = pos;
    if i < n && (inp[i] == '+' || inp[i] == '-') {
        i = i + 1;
    }
    let (_digits, p2) = lex_digits(inp, i)?;
    i = p2;
    let mut fractional_or_exponent = false;
    if i < n && inp[i] == '.' {
        let (_frac, p3) = lex_digits(inp, i + 1)?;
        i = p3;
        fractional_or_exponent = true;
    }
    if i < n && (inp[i] == 'e' || inp[i] == 'E') {
        let k = if i + 1 < n && (inp[i + 1] == '+' || inp[i + 1] == '-') {
            i + 2
        } else {
            i + 1
        };
        if k < n && is_digit(inp[k]) {
            let (_exps, p4) = lex_digits(inp, k)?;
            i = p4;
            fractional_or_exponent = true;
        }
    }
    if !fractional_or_exponent {
        return Err(
            error_at(ParseErrorKind::GrammarMismatch, inp, pos, i, "not a double literal"),
        );
    }
    let mut out: Vec<char> = Vec::new();
    let mut k2 = pos;
    while k2 < i
        invariant
            pos <= k2 <= i <= inp@.len(),
            out@ == inp@.subrange(pos as int, k2 as int),
        decreases i - k2,
    {
        out.push(inp[k2]);
        k2 = k2 + 1;
        proof {
            assert(out@ =~= inp@.subrange(pos as int, k2 as int));
        }
    }
    Ok((out, i))
}

/// Parses a numeric double literal: the token `double_token_end` delimits is
/// handed to `decoder`, and bits of an infinity are rejected as an overflow.
/// Success is owed exactly when the token is there and the decoder's bits
/// are finite; what the bits are is the decoder's to say.
pub fn parse_numeric_double<D: DoubleDecoder>(inp: &Vec<char>, pos: usize, decoder: &D) -> (r: Step<
    u64,
>)
    requires
        pos <= inp@.len(),
    ensures
        double_token_end(inp@, pos as int) is None ==> (r matches Err(e) && e.kind
            == ParseErrorKind::GrammarMismatch),
        r matches Ok(t) ==> double_token_end(inp@, pos as int) == Some(t.1 as int) && pos < t.1
            <= inp@.len() && !spec_inf_bits(t.0) && (exists|txt: &str|
            txt@ == inp@.subrange(pos as int, t.1 as int) && call_ensures(
                D::decode_bits,
                (decoder, txt),
                t.0,
            )),
        r matches Err(e) ==> (e.kind == ParseErrorKind::Overflow <==> double_token_end(
            inp@,
            pos as int,
        ) is Some),
        r matches Err(e) && e.kind == ParseErrorKind::Overflow ==> (exists|txt: &str, bits: u64|
            txt@ == inp@.subrange(
                pos as int,
                double_token_end(inp@, pos as int)->Some_0,
            ) && spec_inf_bits(bits) && call_ensures(D::decode_bits, (decoder, txt), bits)),
{
    let (token, p2) = lex_double_token(inp, pos)?;
    let text = chars_to_string(token.as_slice());
    let txt = text.as_str();
    let bits = decoder.decode_bits(txt);
    if is_inf_bits(bits) {
        proof {
            assert(txt@ == inp@.subrange(pos as int, p2 as int) && spec_inf_bits(bits)
                && call_ensures(D::decode_bits, (decoder, txt), bits));
        }
        return Err(
            error_at(
                ParseErrorKind::Overflow,
                inp,
                pos,
                p2,
                "overflow while parsing double literal",
            ),
        );
    }
    proof {
        assert(txt@ == inp@.subrange(pos as int, p2 as int) && call_ensures(
            D::decode_bits,
            (decoder, txt),
            bits,
        ));
    }
    Ok((bits, p2))
}

} // verus!
