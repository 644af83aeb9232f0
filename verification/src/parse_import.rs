//! Import syntax: local paths with percent-encoded quoted components,
//! URLs, environment variables, hashes and import modes.

use crate::import::{FilePrefix, Import, ImportHashed, ImportLocation, ImportMode, Scheme, URLData};
use crate::parse::{error_at, label_run_from, ParseError, ParseErrorKind, Step};
use crate::parse_text::{hex_value, spec_hex_digit};
use crate::strutil::chars_to_string;
use vstd::prelude::*;

verus! {

/// The uppercase hexadecimal digit for a nibble.
pub open spec fn nibble_char(n: nat) -> char {
    if n == 0 {
        '0'
    } else if n == 1 {
        '1'
    } else if n == 2 {
        '2'
    } else if n == 3 {
        '3'
    } else if n == 4 {
        '4'
    } else if n == 5 {
        '5'
    } else if n == 6 {
        '6'
    } else if n == 7 {
        '7'
    } else if n == 8 {
        '8'
    } else if n == 9 {
        '9'
    } else if n == 10 {
        'A'
    } else if n == 11 {
        'B'
    } else if n == 12 {
        'C'
    } else if n == 13 {
        'D'
    } else if n == 14 {
        'E'
    } else {
        'F'
    }
}

/// The percent-encoding of one byte: a percent sign and two uppercase
/// hexadecimal digits.
pub open spec fn pct_encoded(b: u8) -> Seq<char> {
    seq!['%', nibble_char((b / 16) as nat), nibble_char((b % 16) as nat)]
}

/// Relies on `percent_encoding::percent_encode_byte`: the percent-encoding
/// of the byte, as a percent sign and two uppercase hexadecimal digits.
#[verifier::external_body]
fn percent_encode_byte_wrapped(b: u8) -> (r: &'static str)
    ensures
        r@ == pct_encoded(b),
{
    percent_encoding::percent_encode_byte(b)
}

/// The bytes a run of hexadecimal digit pairs spells.
pub open spec fn hex_bytes(s: Seq<char>) -> Seq<u8>
    decreases s.len(),
{
    if s.len() < 2 {
        Seq::empty()
    } else {
        hex_bytes(s.subrange(0, s.len() - 2)).push(
            (hex_value(s.subrange(s.len() - 2, s.len() as int)) % 256) as u8,
        )
    }
}

/// Whether `s` is a well-formed run of hexadecimal digit pairs.
pub open spec fn valid_hex(s: Seq<char>) -> bool {
    s.len() % 2 == 0 && forall|i: int| 0 <= i < s.len() ==> spec_hex_digit(#[trigger] s[i])
}

/// Relies on `hex::decode`: decodes pairs of hexadecimal digits, of either
/// case, into bytes, and fails exactly on other inputs.
#[verifier::external_body]
fn hex_decode_wrapped(s: &str) -> (r: Option<Vec<u8>>)
    ensures
        r is Some <==> valid_hex(s@),
        r matches Some(v) ==> v@ == hex_bytes(s@),
{
    match hex::decode(s) {
        Ok(v) => Some(v),
        Err(_) => None,
    }
}

/// The number of bytes a run of hexadecimal digit pairs spells: one for two.
pub proof fn lemma_hex_bytes_len(s: Seq<char>)
    ensures
        hex_bytes(s).len() == s.len() / 2,
    decreases s.len(),
{
    if s.len() >= 2 {
        lemma_hex_bytes_len(s.subrange(0, s.len() - 2));
    }
}

/// The length of the run of hexadecimal digits of `s` from `i` on.
pub open spec fn hex_run_from(s: Seq<char>, i: int) -> nat
    decreases s.len() - i,
{
    if 0 <= i < s.len() && spec_hex_digit(s[i]) {
        1 + hex_run_from(s, i + 1)
    } else {
        0
    }
}

/// Whether `c` may appear in an unquoted path component.
pub open spec fn spec_path_char(c: char) -> bool {
    ||| c == '!'
    ||| ('$' <= c && c <= '\'')
    ||| c == '*'
    ||| c == '+'
    ||| c == '-'
    ||| c == '.'
    ||| ('0' <= c && c <= ';')
    ||| c == '='
    ||| ('@' <= c && c <= 'Z')
    ||| ('^' <= c && c <= 'z')
    ||| c == '|'
    ||| c == '~'
}

fn is_path_char(c: char) -> (r: bool)
    ensures
        r == spec_path_char(c),
{
    c == '!' || ('$' <= c && c <= '\'') || c == '*' || c == '+' || c == '-' || c == '.' || ('0' <= c
        && c <= ';') || c == '=' || ('@' <= c && c <= 'Z') || ('^' <= c && c <= 'z') || c == '|'
        || c == '~'
}

/// Whether a quoted path character is percent-encoded: the ASCII controls
/// and the reserved punctuation; everything else passes through.
pub open spec fn spec_reserved(c: char) -> bool {
    ||| (c as u32) < 0x20
    ||| c as u32 == 0x7F
    ||| c == '='
    ||| c == ':'
    ||| c == '/'
    ||| c == '?'
    ||| c == '#'
    ||| c == '['
    ||| c == ']'
    ||| c == '@'
    ||| c == '!'
    ||| c == '$'
    ||| c == '&'
    ||| c == '\''
    ||| c == '('
    ||| c == ')'
    ||| c == '*'
    ||| c == '+'
    ||| c == ','
    ||| c == ';'
}

fn is_reserved(c: char) -> (r: bool)
    ensures
        r == spec_reserved(c),
{
    let v = c as u32;
    v < 0x20 || v == 0x7F || c == '=' || c == ':' || c == '/' || c == '?' || c == '#' || c == '['
        || c == ']' || c == '@' || c == '!' || c == '$' || c == '&' || c == '\'' || c == '(' || c
        == ')' || c == '*' || c == '+' || c == ',' || c == ';'
}

/// The encoding of one quoted-path character: ASCII in the reserved set is
/// percent-encoded, everything else stands as itself.
pub open spec fn encode_char(c: char) -> Seq<char> {
    if (c as u32) < 0x80 && spec_reserved(c) {
        pct_encoded(c as u8)
    } else {
        seq![c]
    }
}

/// The length of the run of unquoted path characters of `s` from `i` on.
pub open spec fn path_run_from(s: Seq<char>, i: int) -> nat
    decreases s.len() - i,
{
    if 0 <= i < s.len() && spec_path_char(s[i]) {
        1 + path_run_from(s, i + 1)
    } else {
        0
    }
}

/// The length of the run of characters other than a double quote: the inside
/// of a quoted path component.
pub open spec fn qpath_run_from(s: Seq<char>, i: int) -> nat
    decreases s.len() - i,
{
    if 0 <= i < s.len() && s[i] != '"' {
        1 + qpath_run_from(s, i + 1)
    } else {
        0
    }
}

/// A run of path characters stays inside the text.
pub proof fn lemma_path_run_bound(s: Seq<char>, i: int)
    requires
        0 <= i <= s.len(),
    ensures
        i + path_run_from(s, i) <= s.len(),
    decreases s.len() - i,
{
    if i < s.len() && spec_path_char(s[i]) {
        lemma_path_run_bound(s, i + 1);
    }
}

/// A run of non-quote characters stays inside the text.
pub proof fn lemma_qpath_run_bound(s: Seq<char>, i: int)
    requires
        0 <= i <= s.len(),
    ensures
        i + qpath_run_from(s, i) <= s.len(),
    decreases s.len() - i,
{
    if i < s.len() && s[i] != '"' {
        lemma_qpath_run_bound(s, i + 1);
    }
}

/// The path component starting at `i`, as the characters it denotes and the
/// position after it: a quoted component is the percent-encoding of the text
/// between its quotes, an unquoted one its non-empty run of path characters.
pub open spec fn comp_at(s: Seq<char>, i: int) -> Option<(Seq<char>, int)> {
    if 0 <= i < s.len() && s[i] == '"' {
        if i + 1 + qpath_run_from(s, i + 1) < s.len() {
            Some(
                (
                    encode_seq(s.subrange(i + 1, i + 1 + qpath_run_from(s, i + 1))),
                    i + 2 + qpath_run_from(s, i + 1),
                ),
            )
        } else {
            None
        }
    } else {
        if path_run_from(s, i) > 0 {
            Some((s.subrange(i, i + path_run_from(s, i)), i + path_run_from(s, i)))
        } else {
            None
        }
    }
}

/// The components that further `/`-prefixed steps denote from `i` on, and
/// where they end: empty as soon as no slash-and-component follows.
pub open spec fn more_comps(s: Seq<char>, i: int) -> (Seq<Seq<char>>, int)
    decreases s.len() - i,
{
    if 0 <= i < s.len() && s[i] == '/' && comp_at(s, i + 1) is Some {
        let c = comp_at(s, i + 1)->Some_0;
        if c.1 <= s.len() {
            let rest = more_comps(s, c.1);
            (seq![c.0] + rest.0, rest.1)
        } else {
            (Seq::empty(), i)
        }
    } else {
        (Seq::empty(), i)
    }
}

/// The whole path starting at `i`: a slash, a component, then any further
/// slash-prefixed components.
pub open spec fn path_at(s: Seq<char>, i: int) -> Option<(Seq<Seq<char>>, int)> {
    if 0 <= i < s.len() && s[i] == '/' && comp_at(s, i + 1) is Some {
        let c = comp_at(s, i + 1)->Some_0;
        let rest = more_comps(s, c.1);
        Some((seq![c.0] + rest.0, rest.1))
    } else {
        None
    }
}

/// The encoding of a quoted path component, character by character.
pub open spec fn encode_seq(s: Seq<char>) -> Seq<char>
    decreases s.len(),
{
    if s.len() == 0 {
        Seq::empty()
    } else {
        encode_seq(s.drop_last()) + encode_char(s.last())
    }
}

/// Percent-encodes a quoted path component.
pub fn encode_component(s: &Vec<char>) -> (r: Vec<char>)
    ensures
        r@ == encode_seq(s@),
{
    let mut out: Vec<char> = Vec::new();
    let mut i: usize = 0;
    while i < s.len()
        invariant
            i <= s@.len(),
            out@ == encode_seq(s@.subrange(0, i as int)),
        decreases s@.len() - i,
    {
        let c = s[i];
        if (c as u32) < 0x80 && is_reserved(c) {
            let enc = percent_encode_byte_wrapped(c as u8);
            let enc_chars = crate::strutil::str_to_chars(enc);
            let mut k: usize = 0;
            while k < enc_chars.len()
                invariant
                    k <= enc_chars@.len(),
                    out@ == encode_seq(s@.subrange(0, i as int)) + enc_chars@.subrange(
                        0,
                        k as int,
                    ),
                decreases enc_chars@.len() - k,
            {
                out.push(enc_chars[k]);
                k = k + 1;
                proof {
                    assert(out@ =~= encode_seq(s@.subrange(0, i as int)) + enc_chars@.subrange(
                        0,
                        k as int,
                    ));
                }
            }
            proof {
                assert(enc_chars@.subrange(0, enc_chars@.len() as int) =~= enc_chars@);
                assert(s@.subrange(0, i + 1).drop_last() =~= s@.subrange(0, i as int));
                assert(s@.subrange(0, i + 1).last() == c);
                assert(out@ =~= encode_seq(s@.subrange(0, i + 1)));
            }
        } else {
            out.push(c);
            proof {
                assert(s@.subrange(0, i + 1).drop_last() =~= s@.subrange(0, i as int));
                assert(s@.subrange(0, i + 1).last() == c);
                assert(out@ =~= encode_seq(s@.subrange(0, i + 1)));
            }
        }
        i = i + 1;
    }
    proof {
        assert(s@.subrange(0, s@.len() as int) =~= s@);
    }
    out
}

/// Reads one path component: a quoted component becomes the percent-encoding
/// of the text between its quotes, an unquoted one its non-empty run of path
/// characters, taken verbatim.
pub fn parse_path_component(inp: &Vec<char>, pos: usize) -> (r: Step<String>)
    requires
        pos <= inp@.len(),
    ensures
        r is Ok <==> comp_at(inp@, pos as int) is Some,
        r matches Ok(t) ==> comp_at(inp@, pos as int) matches Some(c) && t.0@ == c.0 && t.1 == c.1
            && t.1 <= inp@.len(),
        r matches Err(e) ==> e.kind == ParseErrorKind::GrammarMismatch,
{
    let n = inp.len();
    if pos < n && inp[pos] == '"' {
        let mut i = pos + 1;
        let mut content: Vec<char> = Vec::new();
        while i < n && inp[i] != '"'
            invariant
                pos < i <= n,
                n == inp@.len(),
                content@ == inp@.subrange(pos + 1, i as int),
                qpath_run_from(inp@, pos + 1) == i - pos - 1 + qpath_run_from(inp@, i as int),
            decreases n - i,
        {
            content.push(inp[i]);
            i = i + 1;
            proof {
                assert(content@ =~= inp@.subrange(pos + 1, i as int));
            }
        }
        if i >= n {
            return Err(
                error_at(
                    ParseErrorKind::GrammarMismatch,
                    inp,
                    pos,
                    n,
                    "unterminated quoted path component",
                ),
            );
        }
        let encoded = encode_component(&content);
        Ok((chars_to_string(encoded.as_slice()), i + 1))
    } else {
        let mut i = pos;
        let mut content: Vec<char> = Vec::new();
        while i < n && is_path_char(inp[i])
            invariant
                pos <= i <= n,
                n == inp@.len(),
                content@ == inp@.subrange(pos as int, i as int),
                path_run_from(inp@, pos as int) == i - pos + path_run_from(inp@, i as int),
            decreases n - i,
        {
            content.push(inp[i]);
            i = i + 1;
            proof {
                assert(content@ =~= inp@.subrange(pos as int, i as int));
            }
        }
        if i == pos {
            return Err(
                error_at(ParseErrorKind::GrammarMismatch, inp, pos, pos, "expected a path"),
            );
        }
        Ok((chars_to_string(content.as_slice()), i))
    }
}

/// Reads the path: a slash, a component, then any further slash-prefixed
/// components, exactly as `path_at` denotes them.
pub fn parse_path(inp: &Vec<char>, pos: usize) -> (r: Step<Vec<String>>)
    requires
        pos <= inp@.len(),
    ensures
        r is Ok <==> path_at(inp@, pos as int) is Some,
        r matches Ok(t) ==> pos < t.1 <= inp@.len() && (path_at(inp@, pos as int) matches Some(p)
            && t.1 == p.1 && t.0@.len() == p.0.len() && (forall|k: int|
            0 <= k < p.0.len() ==> (#[trigger] t.0@[k])@ == p.0[k])),
        r matches Err(e) ==> e.kind == ParseErrorKind::GrammarMismatch,
{
    let n = inp.len();
    if pos >= n || inp[pos] != '/' {
        return Err(error_at(ParseErrorKind::GrammarMismatch, inp, pos, pos, "expected /"));
    }
    let mut components: Vec<String> = Vec::new();
    let (first, mut i) = parse_path_component(inp, pos + 1)?;
    components.push(first);
    proof {
        let c = comp_at(inp@, pos + 1)->Some_0;
        let p = path_at(inp@, pos as int)->Some_0;
        assert(c.1 == i as int && i <= n);
        assert(p.0 == seq![c.0] + more_comps(inp@, i as int).0);
        assert(p.1 == more_comps(inp@, i as int).1);
        assert(components@[0] == first);
    }
    loop
        invariant
            pos < i <= n,
            n == inp@.len(),
            path_at(inp@, pos as int) is Some,
            components@.len() >= 1,
            ({
                let p = path_at(inp@, pos as int)->Some_0;
                let rest = more_comps(inp@, i as int);
                &&& p.1 == rest.1
                &&& p.0.len() == components@.len() + rest.0.len()
                &&& (forall|k: int|
                    0 <= k < components@.len() ==> (#[trigger] components@[k])@ == p.0[k])
                &&& (forall|k: int|
                    0 <= k < rest.0.len() ==> #[trigger] rest.0[k] == p.0[
                        components@.len() + k
                    ])
            }),
        ensures
            pos < i <= n,
            ({
                let p = path_at(inp@, pos as int)->Some_0;
                &&& p.1 == i as int
                &&& p.0.len() == components@.len()
                &&& (forall|k: int|
                    0 <= k < components@.len() ==> (#[trigger] components@[k])@ == p.0[k])
            }),
        decreases n - i,
    {
        if !(i < n && inp[i] == '/') {
            proof {
                assert(more_comps(inp@, i as int).0 =~= Seq::<Seq<char>>::empty());
                assert(more_comps(inp@, i as int).1 == i as int);
            }
            break ;
        }
        match parse_path_component(inp, i + 1) {
            Ok((c, p2)) => {
                let ghost rest_before = more_comps(inp@, i as int);
                let ghost spec_c = comp_at(inp@, i + 1)->Some_0;
                components.push(c);
                proof {
                    assert(spec_c.1 == p2 as int && p2 <= n);
                    assert(rest_before.0 =~= seq![spec_c.0] + more_comps(inp@, p2 as int).0);
                    assert(rest_before.1 == more_comps(inp@, p2 as int).1);
                    assert(components@.last()@ == spec_c.0);
                    let p = path_at(inp@, pos as int)->Some_0;
                    let rest_new = more_comps(inp@, p2 as int);
                    assert(p.0.len() == components@.len() + rest_new.0.len());
                    assert(rest_before.0[0] == spec_c.0);
                    assert forall|k: int|
                        0 <= k < components@.len() implies (#[trigger] components@[k])@ == p.0[k] by {
                        if k + 1 == components@.len() {
                            assert(rest_before.0[0] == p.0[k]);
                        }
                    }
                    assert forall|k: int|
                        0 <= k < rest_new.0.len() implies #[trigger] rest_new.0[k] == p.0[
                            components@.len() + k
                        ] by {
                        assert(rest_before.0[k + 1] == rest_new.0[k]);
                        assert(rest_before.0[k + 1] == p.0[components@.len() + k]);
                    }
                }
                i = p2;
            },
            Err(_) => {
                // A trailing slash belongs to what follows, not to the path.
                proof {
                    assert(comp_at(inp@, i + 1) is None);
                    assert(more_comps(inp@, i as int).0 =~= Seq::<Seq<char>>::empty());
                    assert(more_comps(inp@, i as int).1 == i as int);
                }
                break ;
            },
        }
    }
    Ok((components, i))
}

/// Reads a hash literal: an algorithm name before a colon, then hexadecimal
/// digits. Only `sha256` with exactly 64 digits is accepted, and the digest
/// is their byte value; any other algorithm name draws its own error kind.
pub fn parse_hash(inp: &Vec<char>, pos: usize) -> (r: Step<crate::import::Hash>)
    requires
        pos <= inp@.len(),
    ensures
        ({
            let nr = label_run_from(inp@, pos as int);
            let named = nr > 0 && pos + nr < inp@.len() && inp@[pos + nr] == ':';
            let hr = hex_run_from(inp@, pos + nr + 1);
            &&& (r is Ok <==> named && inp@.subrange(pos as int, pos + nr) == "sha256"@ && hr
                == 64)
            &&& (r matches Ok(t) ==> t.1 == pos + nr + 1 + 64 && t.1 <= inp@.len() && t.0@
                == hex_bytes(inp@.subrange(pos + nr + 1, pos + nr + 1 + 64)))
            &&& (r matches Err(e) ==> (e.kind == ParseErrorKind::UnknownHashAlgorithm <==> named
                && inp@.subrange(pos as int, pos + nr) != "sha256"@))
        }),
{
    let n = inp.len();
    // The algorithm name: a run of label characters directly before a colon.
    let mut i = pos;
    let mut name: Vec<char> = Vec::new();
    while i < n && crate::parse::is_label_next(inp[i])
        invariant
            pos <= i <= n,
            n == inp@.len(),
            name@ == inp@.subrange(pos as int, i as int),
            label_run_from(inp@, pos as int) == i - pos + label_run_from(inp@, i as int),
        decreases n - i,
    {
        name.push(inp[i]);
        i = i + 1;
        proof {
            assert(name@ =~= inp@.subrange(pos as int, i as int));
        }
    }
    if i == pos || !(i < n && inp[i] == ':') {
        return Err(
            error_at(ParseErrorKind::GrammarMismatch, inp, pos, i, "expected a hash literal"),
        );
    }
    if !crate::strutil::chars_eq_str(name.as_slice(), "sha256") {
        return Err(
            error_at(ParseErrorKind::UnknownHashAlgorithm, inp, pos, i, "unknown hashing protocol"),
        );
    }
    let mut digits: Vec<char> = Vec::new();
    let mut j = i + 1;
    while j < n && crate::parse_text::is_hex_digit(inp[j])
        invariant
            i < j <= n,
            n == inp@.len(),
            digits@ == inp@.subrange(i + 1, j as int),
            forall|k: int| 0 <= k < digits@.len() ==> spec_hex_digit(#[trigger] digits@[k]),
            hex_run_from(inp@, i + 1) == j - i - 1 + hex_run_from(inp@, j as int),
        decreases n - j,
    {
        digits.push(inp[j]);
        j = j + 1;
        proof {
            assert(digits@ =~= inp@.subrange(i + 1, j as int));
        }
    }
    if digits.len() != 64 {
        return Err(
            error_at(
                ParseErrorKind::CustomParse,
                inp,
                pos,
                j,
                "a hash holds exactly 64 hexadecimal digits",
            ),
        );
    }
    let text = chars_to_string(digits.as_slice());
    match hex_decode_wrapped(text.as_str()) {
        Some(bytes) => {
            proof {
                lemma_hex_bytes_len(digits@);
            }
            Ok((crate::import::Hash::SHA256(bytes), j))
        },
        None => {
            // Sixty-four hexadecimal digits always decode.
            proof {
                assert(valid_hex(digits@));
            }
            Err(
                error_at(
                    ParseErrorKind::CustomParse,
                    inp,
                    pos,
                    j,
                    "a hash holds hexadecimal digits",
                ),
            )
        },
    }
}

} // verus!

verus! {

/// Whether everything from `pos` to the end of the input is one label-shaped
/// token: a label-first character, then label characters to the end.
pub open spec fn all_label_to_end(s: Seq<char>, pos: int) -> bool {
    &&& 0 <= pos < s.len()
    &&& crate::parse::spec_label_first(s[pos])
    &&& (forall|j: int| pos < j < s.len() ==> crate::parse::spec_label_next(#[trigger] s[j]))
}

/// Whether the word `w` stands at `pos` in `s`, ending at a label boundary.
pub open spec fn word_at(s: Seq<char>, pos: int, w: Seq<char>) -> bool {
    &&& 0 <= pos
    &&& pos + w.len() <= s.len()
    &&& s.subrange(pos, pos + w.len()) == w
    &&& (pos + w.len() == s.len() || !crate::parse::spec_label_next(s[pos + w.len()]))
}

/// The position after the word `w` when it stands at `pos` and ends at a
/// label boundary; nothing otherwise.
pub fn match_word(inp: &Vec<char>, pos: usize, w: &str) -> (r: Option<usize>)
    requires
        pos <= inp@.len(),
    ensures
        r is Some <==> word_at(inp@, pos as int, w@),
        r matches Some(p2) ==> p2 == pos + w@.len() && p2 <= inp@.len(),
{
    let wc = crate::strutil::str_to_chars(w);
    let m = wc.len();
    let n = inp.len();
    if m > n || pos > n - m {
        return None;
    }
    let mut i: usize = 0;
    while i < m
        invariant
            i <= m,
            m == wc@.len(),
            wc@ == w@,
            n == inp@.len(),
            pos + m <= n,
            forall|j: int| 0 <= j < i ==> inp@[pos + j] == wc@[j],
        decreases m - i,
    {
        if inp[pos + i] != wc[i] {
            proof {
                assert(inp@.subrange(pos as int, pos + m)[i as int] != w@[i as int]);
            }
            return None;
        }
        i = i + 1;
    }
    if pos + m < inp.len() && crate::parse::is_label_next(inp[pos + m]) {
        proof {
            assert(inp@.subrange(pos as int, (pos + m) as int) =~= w@);
        }
        return None;
    }
    proof {
        assert(inp@.subrange(pos as int, (pos + m) as int) =~= w@);
    }
    Some(pos + m)
}

/// The local import starting at `pos`: its anchor prefix, components and
/// end, read off the leading characters and the path after them.
pub open spec fn local_at(s: Seq<char>, pos: int) -> Option<(FilePrefix, Seq<Seq<char>>, int)> {
    if 0 <= pos < s.len() && s[pos] == '.' {
        if pos + 1 < s.len() && s[pos + 1] == '.' {
            match path_at(s, pos + 2) {
                Some(p) => Some((FilePrefix::Parent, p.0, p.1)),
                None => None,
            }
        } else {
            match path_at(s, pos + 1) {
                Some(p) => Some((FilePrefix::Here, p.0, p.1)),
                None => None,
            }
        }
    } else if 0 <= pos < s.len() && s[pos] == '~' {
        match path_at(s, pos + 1) {
            Some(p) => Some((FilePrefix::Home, p.0, p.1)),
            None => None,
        }
    } else if 0 <= pos < s.len() && s[pos] == '/' {
        match path_at(s, pos) {
            Some(p) => Some((FilePrefix::Absolute, p.0, p.1)),
            None => None,
        }
    } else {
        None
    }
}

/// Reads a local path import: exactly the anchor prefix and components that
/// `local_at` denotes.
pub fn parse_local(inp: &Vec<char>, pos: usize) -> (r: Step<(FilePrefix, Vec<String>)>)
    requires
        pos <= inp@.len(),
    ensures
        r is Ok <==> local_at(inp@, pos as int) is Some,
        r matches Ok(t) ==> pos < t.1 <= inp@.len() && (local_at(inp@, pos as int) matches Some(la)
            && t.0.0 == la.0 && t.1 == la.2 && t.0.1@.len() == la.1.len() && (forall|k: int|
            0 <= k < la.1.len() ==> (#[trigger] t.0.1@[k])@ == la.1[k])),
        r matches Err(e) ==> e.kind == ParseErrorKind::GrammarMismatch,
{
    let n = inp.len();
    if pos < n && inp[pos] == '.' {
        if pos + 1 < n && inp[pos + 1] == '.' {
            let (p, p2) = parse_path(inp, pos + 2)?;
            Ok(((FilePrefix::Parent, p), p2))
        } else {
            let (p, p2) = parse_path(inp, pos + 1)?;
            Ok(((FilePrefix::Here, p), p2))
        }
    } else if pos < n && inp[pos] == '~' {
        let (p, p2) = parse_path(inp, pos + 1)?;
        Ok(((FilePrefix::Home, p), p2))
    } else if pos < n && inp[pos] == '/' {
        let (p, p2) = parse_path(inp, pos)?;
        Ok(((FilePrefix::Absolute, p), p2))
    } else {
        Err(error_at(ParseErrorKind::GrammarMismatch, inp, pos, pos, "expected a local import"))
    }
}

/// Whether `c` may appear in an authority.
pub open spec fn spec_authority_char(c: char) -> bool {
    (c as u32) > 0x20 && c != '/' && c != '"' && c != '<' && c != '>' && c != '\\' && c != '^'
        && c != '`' && c != '{' && c != '}' && c != '|'
}

fn is_authority_char(c: char) -> (r: bool)
    ensures
        r == spec_authority_char(c),
{
    let v = c as u32;
    v > 0x20 && c != '/' && c != '"' && c != '<' && c != '>' && c != '\\' && c != '^' && c != '`'
        && c != '{' && c != '}' && c != '|'
}

/// The length of the run of authority characters of `s` from `i` on.
pub open spec fn auth_run_from(s: Seq<char>, i: int) -> nat
    decreases s.len() - i,
{
    if 0 <= i < s.len() && spec_authority_char(s[i]) {
        1 + auth_run_from(s, i + 1)
    } else {
        0
    }
}

/// Whether `c` may appear in a query.
pub open spec fn spec_query_char(c: char) -> bool {
    (c as u32) > 0x20 && c != ')' && c != ']' && c != '}' && c != ','
}

fn is_query_char(c: char) -> (r: bool)
    ensures
        r == spec_query_char(c),
{
    let v = c as u32;
    v > 0x20 && c != ')' && c != ']' && c != '}' && c != ','
}

/// The length of the run of query characters of `s` from `i` on.
pub open spec fn query_run_from(s: Seq<char>, i: int) -> nat
    decreases s.len() - i,
{
    if 0 <= i < s.len() && spec_query_char(s[i]) {
        1 + query_run_from(s, i + 1)
    } else {
        0
    }
}

/// The raw URL starting at `pos`: its scheme, authority, path components,
/// optional query, and end — or nothing where the shape is not there.
pub open spec fn url_at(s: Seq<char>, pos: int) -> Option<
    (Scheme, Seq<char>, Seq<Seq<char>>, Option<Seq<char>>, int),
> {
    if !(0 <= pos && pos + 4 <= s.len() && s.subrange(pos, pos + 4) == "http"@) {
        None
    } else {
        let scheme = if pos + 4 < s.len() && s[pos + 4] == 's' {
            Scheme::HTTPS
        } else {
            Scheme::HTTP
        };
        let i = if scheme == Scheme::HTTPS {
            pos + 5
        } else {
            pos + 4
        };
        if !(i + 3 <= s.len() && s[i] == ':' && s[i + 1] == '/' && s[i + 2] == '/') {
            None
        } else {
            let astart = i + 3;
            let aend = astart + auth_run_from(s, astart);
            match path_at(s, aend) {
                None => None,
                Some(p) => {
                    if p.1 < s.len() && s[p.1] == '?' {
                        let qend = p.1 + 1 + query_run_from(s, p.1 + 1);
                        Some(
                            (
                                scheme,
                                s.subrange(astart, aend),
                                p.0,
                                Some(s.subrange(p.1 + 1, qend)),
                                qend,
                            ),
                        )
                    } else {
                        Some((scheme, s.subrange(astart, aend), p.0, None, p.1))
                    }
                },
            }
        }
    }
}

/// Reads a remote location without its headers clause: exactly the scheme,
/// authority, path components and query that `url_at` denotes.
pub fn parse_http_raw(inp: &Vec<char>, pos: usize) -> (r: Step<URLData<ImportHashed>>)
    requires
        pos <= inp@.len(),
    ensures
        r is Ok <==> url_at(inp@, pos as int) is Some,
        r matches Ok(t) ==> pos < t.1 <= inp@.len() && (url_at(inp@, pos as int) matches Some(u)
            && t.0.scheme == u.0 && t.0.authority@ == u.1 && t.1 == u.4 && t.0.path@.len()
            == u.2.len() && (forall|k: int|
            0 <= k < u.2.len() ==> (#[trigger] t.0.path@[k])@ == u.2[k]) && (match (
            t.0.query,
            u.3,
        ) {
            (None, None) => true,
            (Some(qs), Some(qv)) => qs@ == qv,
            _ => false,
        }) && t.0.headers is None),
        all_label_to_end(inp@, pos as int) ==> (r matches Err(e) && e.kind
            == ParseErrorKind::GrammarMismatch),
        r matches Err(e) ==> e.kind == ParseErrorKind::GrammarMismatch,
{
    let n = inp.len();
    let mut i = pos;
    if !(i < n && n - i >= 4 && inp[i] == 'h' && inp[i + 1] == 't' && inp[i + 2] == 't' && inp[i
        + 3] == 'p') {
        proof {
            reveal_strlit("http");
            assert("http"@.len() == 4 && "http"@[0] == 'h' && "http"@[1] == 't' && "http"@[2]
                == 't' && "http"@[3] == 'p');
        }
        return Err(error_at(ParseErrorKind::GrammarMismatch, inp, pos, pos, "expected a URL"));
    }
    proof {
        reveal_strlit("http");
        assert("http"@.len() == 4 && "http"@[0] == 'h' && "http"@[1] == 't' && "http"@[2] == 't'
            && "http"@[3] == 'p');
        assert(inp@.subrange(pos as int, pos + 4) =~= "http"@);
    }
    i = i + 4;
    let scheme = if i < n && inp[i] == 's' {
        i = i + 1;
        Scheme::HTTPS
    } else {
        Scheme::HTTP
    };
    if !(i < n && n - i >= 3 && inp[i] == ':' && inp[i + 1] == '/' && inp[i + 2] == '/') {
        return Err(error_at(ParseErrorKind::GrammarMismatch, inp, pos, i, "expected ://"));
    }
    i = i + 3;
    let ghost astart = i as int;
    let mut authority: Vec<char> = Vec::new();
    while i < n && is_authority_char(inp[i])
        invariant
            pos < i <= n,
            astart <= i,
            n == inp@.len(),
            authority@ == inp@.subrange(astart, i as int),
            auth_run_from(inp@, astart) == i - astart + auth_run_from(inp@, i as int),
        decreases n - i,
    {
        authority.push(inp[i]);
        i = i + 1;
        proof {
            assert(authority@ =~= inp@.subrange(astart, i as int));
        }
    }
    let (path, mut p2) = parse_path(inp, i)?;
    let mut query: Option<String> = None;
    if p2 < n && inp[p2] == '?' {
        let ghost qstart = p2 + 1 as int;
        let mut q: Vec<char> = Vec::new();
        let mut k = p2 + 1;
        while k < n && is_query_char(inp[k])
            invariant
                p2 < k <= n,
                qstart <= k,
                n == inp@.len(),
                q@ == inp@.subrange(qstart, k as int),
                query_run_from(inp@, qstart) == k - qstart + query_run_from(inp@, k as int),
            decreases n - k,
        {
            q.push(inp[k]);
            k = k + 1;
            proof {
                assert(q@ =~= inp@.subrange(qstart, k as int));
            }
        }
        query = Some(chars_to_string(q.as_slice()));
        p2 = k;
    }
    Ok(
        (
            URLData {
                scheme,
                authority: chars_to_string(authority.as_slice()),
                path,
                query,
                headers: None,
            },
            p2,
        ),
    )
}

/// Whether `c` may appear in a bash-style environment variable name.
pub open spec fn spec_env_char(c: char) -> bool {
    crate::parse::spec_label_next(c) && c != '-'
}

/// The length of the run of bash-style name characters of `s` from `i` on.
pub open spec fn env_run_from(s: Seq<char>, i: int) -> nat
    decreases s.len() - i,
{
    if 0 <= i < s.len() && spec_env_char(s[i]) {
        1 + env_run_from(s, i + 1)
    } else {
        0
    }
}

/// The content and end of a quoted POSIX environment variable name from
/// `i` on: characters up to the closing quote, a backslash pair decoding
/// per the escape table, an unlisted pair standing for its second
/// character; nothing where no closing quote comes.
pub open spec fn penv_scan(s: Seq<char>, i: int) -> Option<(Seq<char>, int)>
    decreases s.len() - i,
{
    if !(0 <= i < s.len()) {
        None
    } else if s[i] == '"' {
        Some((Seq::empty(), i + 1))
    } else if s[i] == '\\' && i + 1 < s.len() {
        let d = match crate::parse_text::posix_escape(s[i + 1]) {
            Some(d) => d,
            None => s[i + 1],
        };
        match penv_scan(s, i + 2) {
            None => None,
            Some(p) => Some((seq![d] + p.0, p.1)),
        }
    } else {
        match penv_scan(s, i + 1) {
            None => None,
            Some(p) => Some((seq![s[i]] + p.0, p.1)),
        }
    }
}

/// Reads an environment variable import: a bash-style name taken verbatim,
/// or a quoted POSIX name with its escapes, exactly as `penv_scan` decodes
/// them.
pub fn parse_env(inp: &Vec<char>, pos: usize) -> (r: Step<String>)
    requires
        pos <= inp@.len(),
    ensures
        r matches Ok(t) ==> pos < t.1 <= inp@.len(),
        pos < inp@.len() && inp@.len() - pos >= 4 && inp@[pos as int] == 'e' && inp@[pos + 1]
            == 'n' && inp@[pos + 2] == 'v' && inp@[pos + 3] == ':' && !(pos + 4 < inp@.len()
            && inp@[pos + 4] == '"') ==> {
            let run = env_run_from(inp@, pos + 4);
            &&& (r is Ok <==> run > 0)
            &&& (r matches Ok(t) ==> t.0@ == inp@.subrange(pos + 4, pos + 4 + run) && t.1 == pos
                + 4 + run)
        },
        pos < inp@.len() && inp@.len() - pos >= 5 && inp@[pos as int] == 'e' && inp@[pos + 1]
            == 'n' && inp@[pos + 2] == 'v' && inp@[pos + 3] == ':' && inp@[pos + 4] == '"' ==> {
            &&& (r is Ok <==> penv_scan(inp@, pos + 5) is Some)
            &&& (r matches Ok(t) ==> (penv_scan(inp@, pos + 5) matches Some(p) && t.0@ == p.0
                && t.1 == p.1))
        },
{
    let n = inp.len();
    if !(pos < n && n - pos >= 4 && inp[pos] == 'e' && inp[pos + 1] == 'n' && inp[pos + 2] == 'v'
        && inp[pos + 3] == ':') {
        return Err(
            error_at(ParseErrorKind::GrammarMismatch, inp, pos, pos, "expected an env import"),
        );
    }
    let mut i = pos + 4;
    if i < n && inp[i] == '"' {
        i = i + 1;
        let ghost body_start = i as int;
        let mut out: Vec<char> = Vec::new();
        while i < n && inp[i] != '"'
            invariant
                pos < i <= n,
                body_start <= i,
                n == inp@.len(),
                penv_scan(inp@, body_start) is Some <==> penv_scan(inp@, i as int) is Some,
                penv_scan(inp@, i as int) matches Some(sq) ==> (penv_scan(inp@, body_start)
                    matches Some(p) && p.0 == out@ + sq.0 && p.1 == sq.1),
            decreases n - i,
        {
            let ghost i0 = i as int;
            let ghost out0 = out@;
            if inp[i] == '\\' && i + 1 < n {
                let e = inp[i + 1];
                // Unlisted characters after the backslash stand for
                // themselves.
                let decoded: char = match crate::parse_text::decode_posix_escape(e) {
                    Some(d) => d,
                    None => e,
                };
                out.push(decoded);
                i = i + 2;
                proof {
                    match penv_scan(inp@, i as int) {
                        Some(sq) => {
                            assert(penv_scan(inp@, i0) matches Some(p0) && p0.0 == seq![decoded]
                                + sq.0 && p0.1 == sq.1);
                            assert(out@ + sq.0 =~= out0 + (seq![decoded] + sq.0));
                        },
                        None => {},
                    }
                }
            } else {
                out.push(inp[i]);
                i = i + 1;
                proof {
                    match penv_scan(inp@, i as int) {
                        Some(sq) => {
                            assert(penv_scan(inp@, i0) matches Some(p0) && p0.0 == seq![
                                inp@[i0],
                            ] + sq.0 && p0.1 == sq.1);
                            assert(out@ + sq.0 =~= out0 + (seq![inp@[i0]] + sq.0));
                        },
                        None => {},
                    }
                }
            }
        }
        if i >= n {
            return Err(
                error_at(
                    ParseErrorKind::GrammarMismatch,
                    inp,
                    pos,
                    n,
                    "unterminated environment variable",
                ),
            );
        }
        proof {
            assert(penv_scan(inp@, i as int) matches Some(sq) && sq.0 =~= Seq::<char>::empty()
                && sq.1 == i + 1);
            match penv_scan(inp@, body_start) {
                Some(p) => {
                    assert(p.0 =~= out@ + Seq::<char>::empty());
                    assert(p.0 =~= out@);
                },
                None => {},
            }
        }
        Ok((chars_to_string(out.as_slice()), i + 1))
    } else {
        let mut out: Vec<char> = Vec::new();
        while i < n && (crate::parse::is_label_next(inp[i]) && inp[i] != '-')
            invariant
                pos + 4 <= i <= n,
                n == inp@.len(),
                out@ == inp@.subrange(pos + 4, i as int),
                env_run_from(inp@, pos + 4) == i - pos - 4 + env_run_from(inp@, i as int),
            decreases n - i,
        {
            out.push(inp[i]);
            i = i + 1;
            proof {
                assert(out@ =~= inp@.subrange(pos + 4, i as int));
            }
        }
        if out.len() == 0 {
            return Err(
                error_at(
                    ParseErrorKind::GrammarMismatch,
                    inp,
                    pos,
                    i,
                    "expected an environment variable name",
                ),
            );
        }
        Ok((chars_to_string(out.as_slice()), i))
    }
}

/// Reads where an import points. A local import is exactly what `local_at`
/// denotes, and the word `missing` always reads as the unresolvable import.
pub fn parse_import_type(inp: &Vec<char>, pos: usize) -> (r: Step<ImportLocation>)
    requires
        pos <= inp@.len(),
    ensures
        r matches Ok(t) ==> pos < t.1 <= inp@.len(),
        word_at(inp@, pos as int, "missing"@) ==> (r matches Ok(t) && t.0 is Missing && t.1 == pos
            + 7),
        all_label_to_end(inp@, pos as int) && !word_at(inp@, pos as int, "missing"@) ==> (r
            matches Err(e) && e.kind == ParseErrorKind::GrammarMismatch),
        r matches Ok(t) ==> (t.0 matches ImportLocation::Local(pre, comps) ==> (local_at(
            inp@,
            pos as int,
        ) matches Some(la) && pre == la.0 && t.1 == la.2 && comps@.len() == la.1.len() && (forall|
            k: int,
        |
            0 <= k < la.1.len() ==> (#[trigger] comps@[k])@ == la.1[k]))),
        pos < inp@.len() && (inp@[pos as int] == '.' || inp@[pos as int] == '~'
            || inp@[pos as int] == '/') ==> (r is Ok <==> local_at(inp@, pos as int) is Some),
        pos < inp@.len() && (inp@[pos as int] == '.' || inp@[pos as int] == '~'
            || inp@[pos as int] == '/') ==> (r matches Ok(t) ==> t.0 is Local),
    decreases inp@.len() - pos, 1int,
{
    let n = inp.len();
    match match_word(inp, pos, "missing") {
        Some(p2) => {
            proof {
                reveal_strlit("missing");
                assert(inp@.subrange(pos as int, pos + 7)[0] == "missing"@[0]);
                assert(inp@[pos as int] == 'm');
            }
            return Ok((ImportLocation::Missing, p2));
        },
        None => {},
    }
    if pos < n && (inp[pos] == '.' || inp[pos] == '~' || inp[pos] == '/') {
        let ((prefix, path), p2) = parse_local(inp, pos)?;
        return Ok((ImportLocation::Local(prefix, path), p2));
    }
    if pos < n && n - pos >= 4 && inp[pos] == 'e' && inp[pos + 1] == 'n' && inp[pos + 2] == 'v'
        && inp[pos + 3] == ':' {
        let (name, p2) = parse_env(inp, pos)?;
        return Ok((ImportLocation::Env(name), p2));
    }
    if pos < n && n - pos >= 4 && inp[pos] == 'h' && inp[pos + 1] == 't' && inp[pos + 2] == 't'
        && inp[pos + 3] == 'p' {
        let (mut url, p2) = parse_http_raw(inp, pos)?;
        // An optional `using` clause hands the request headers import over.
        let after_ws = crate::parse::skip_ws(inp, p2);
        if after_ws > p2 {
            match match_word(inp, after_ws, "using") {
                Some(kw_end) => {
                    let arg_pos = crate::parse::skip_ws(inp, kw_end);
                    let (headers, p3) = parse_import_hashed(inp, arg_pos)?;
                    url.headers = Some(Box::new(headers));
                    return Ok((ImportLocation::Remote(url), p3));
                },
                None => {},
            }
        }
        return Ok((ImportLocation::Remote(url), p2));
    }
    Err(error_at(ParseErrorKind::GrammarMismatch, inp, pos, pos, "expected an import"))
}

/// Reads an import location with its optional hash: the location is the
/// import type's, and a hash that is there is the byte value of its 64
/// hexadecimal digits after a `sha256:` prefix.
pub fn parse_import_hashed(inp: &Vec<char>, pos: usize) -> (r: Step<ImportHashed>)
    requires
        pos <= inp@.len(),
    ensures
        r matches Ok(t) ==> pos < t.1 <= inp@.len(),
        all_label_to_end(inp@, pos as int) && !word_at(inp@, pos as int, "missing"@) ==> (r
            matches Err(e) && e.kind == ParseErrorKind::GrammarMismatch),
        word_at(inp@, pos as int, "missing"@) && pos + 7 == inp@.len() ==> (r matches Ok(t)
            && t.0.0 is Missing && t.0.1 is None && t.1 == pos + 7),
        pos < inp@.len() && (inp@[pos as int] == '.' || inp@[pos as int] == '~'
            || inp@[pos as int] == '/') && (local_at(inp@, pos as int) matches Some(la) && la.2
            == inp@.len()) ==> (r matches Ok(t) && t.1 == inp@.len()),
        r matches Ok(t) ==> (t.0.0 matches ImportLocation::Local(pre, comps) ==> (local_at(
            inp@,
            pos as int,
        ) matches Some(la) && pre == la.0 && comps@.len() == la.1.len() && (forall|k: int|
            0 <= k < la.1.len() ==> (#[trigger] comps@[k])@ == la.1[k]))),
        r matches Ok(t) ==> (t.0.1 matches Some(h) ==> (exists|q: int|
            #![trigger label_run_from(inp@, q)]
            {
                let nr = label_run_from(inp@, q);
                &&& 0 <= q
                &&& inp@.subrange(q, q + nr) == "sha256"@
                &&& h@ == hex_bytes(inp@.subrange(q + nr + 1, q + nr + 1 + 64))
            })),
    decreases inp@.len() - pos, 2int,
{
    let (location, p2) = parse_import_type(inp, pos)?;
    let after_ws = crate::parse::skip_ws(inp, p2);
    if after_ws > p2 && after_ws < inp.len() {
        match parse_hash(inp, after_ws) {
            Ok((h, p3)) => {
                return Ok(((location, Some(h)), p3));
            },
            Err(e) => {
                // A named but unsupported algorithm is an error of its own;
                // anything else is simply not a hash.
                if e.kind == ParseErrorKind::UnknownHashAlgorithm {
                    return Err(e);
                }
                return Ok(((location, None), p2));
            },
        }
    }
    Ok(((location, None), p2))
}

/// Reads a whole import: its location, optional hash, and optional mode.
/// A local location is exactly what `local_at` denotes, and a hash that is
/// there is the byte value of its 64 hexadecimal digits.
pub fn parse_import(inp: &Vec<char>, pos: usize) -> (r: Step<Import>)
    requires
        pos <= inp@.len(),
    ensures
        r matches Ok(t) ==> pos < t.1 <= inp@.len(),
        all_label_to_end(inp@, pos as int) && !word_at(inp@, pos as int, "missing"@) ==> (r
            matches Err(e) && e.kind == ParseErrorKind::GrammarMismatch),
        word_at(inp@, pos as int, "missing"@) && pos + 7 == inp@.len() ==> (r matches Ok(t)
            && t.0.location is Missing && t.0.hash is None && t.0.mode == ImportMode::Code && t.1
            == pos + 7),
        pos < inp@.len() && (inp@[pos as int] == '.' || inp@[pos as int] == '~'
            || inp@[pos as int] == '/') && (local_at(inp@, pos as int) matches Some(la) && la.2
            == inp@.len()) ==> (r matches Ok(t) && t.1 == inp@.len()),
        r matches Ok(t) ==> (t.0.location matches ImportLocation::Local(pre, comps) ==> (local_at(
            inp@,
            pos as int,
        ) matches Some(la) && pre == la.0 && comps@.len() == la.1.len() && (forall|k: int|
            0 <= k < la.1.len() ==> (#[trigger] comps@[k])@ == la.1[k]))),
        r matches Ok(t) ==> (t.0.hash matches Some(h) ==> (exists|q: int|
            #![trigger label_run_from(inp@, q)]
            {
                let nr = label_run_from(inp@, q);
                &&& 0 <= q
                &&& inp@.subrange(q, q + nr) == "sha256"@
                &&& h@ == hex_bytes(inp@.subrange(q + nr + 1, q + nr + 1 + 64))
            })),
{
    let ((location, hash), p2) = parse_import_hashed(inp, pos)?;
    let after_ws = crate::parse::skip_ws(inp, p2);
    if after_ws > p2 {
        match match_word(inp, after_ws, "as") {
            Some(kw_end) => {
                let arg_pos = crate::parse::skip_ws(inp, kw_end);
                match match_word(inp, arg_pos, "Text") {
                    Some(mode_end) => {
                        proof {
                            reveal_strlit("Text");
                        }
                        return Ok(
                            (Import { mode: ImportMode::RawText, location, hash }, mode_end),
                        );
                    },
                    None => {},
                }
                match match_word(inp, arg_pos, "Location") {
                    Some(mode_end) => {
                        proof {
                            reveal_strlit("Location");
                        }
                        return Ok(
                            (Import { mode: ImportMode::Location, location, hash }, mode_end),
                        );
                    },
                    None => {},
                }
                return Err(
                    error_at(
                        ParseErrorKind::GrammarMismatch,
                        inp,
                        after_ws,
                        arg_pos,
                        "expected Text or Location after as",
                    ),
                );
            },
            None => {},
        }
    }
    Ok((Import { mode: ImportMode::Code, location, hash }, p2))
}

} // verus!
