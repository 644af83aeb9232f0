//! Sorted key-value rows for records and unions: insertion keeps the keys
//! strictly ordered, and a repeated key is reported, never overwritten.

use crate::expr::Label;
use crate::strutil::str_to_chars;
use vstd::prelude::*;
use vstd::string::StrSliceExecFns;

verus! {

/// Two characters with the same code point are the same character.
pub proof fn lemma_char_eq(c: char, d: char)
    requires
        c as u32 == d as u32,
    ensures
        c == d,
{
}

/// Casting a character through `u32` keeps its code point.
pub proof fn lemma_char_cast(c: char)
    ensures
        (c as u32) as int == c as int,
{
}

/// Strict lexicographic order on character sequences, by code point.
pub open spec fn lex_lt(a: Seq<char>, b: Seq<char>) -> bool
    decreases a.len(),
{
    if b.len() == 0 {
        false
    } else if a.len() == 0 {
        true
    } else if (a[0] as int) < (b[0] as int) {
        true
    } else if a[0] == b[0] {
        lex_lt(a.drop_first(), b.drop_first())
    } else {
        false
    }
}

/// Of two character sequences, exactly one of: the first is smaller, they
/// are equal, the second is smaller.
pub proof fn lemma_lex_total(a: Seq<char>, b: Seq<char>)
    ensures
        lex_lt(a, b) || lex_lt(b, a) || a == b,
        lex_lt(a, b) ==> !lex_lt(b, a) && a != b,
        lex_lt(b, a) ==> !lex_lt(a, b) && a != b,
    decreases a.len(),
{
    if a.len() == 0 || b.len() == 0 {
        if a.len() == 0 && b.len() == 0 {
            assert(a =~= b);
        }
    } else {
        let a0 = a[0];
        let b0 = b[0];
        lemma_lex_total(a.drop_first(), b.drop_first());
        if (a0 as int) < (b0 as int) {
            assert(lex_lt(a, b));
        } else if (b0 as int) < (a0 as int) {
            assert(lex_lt(b, a));
        } else {
            assert(a0 == b0);
            if a.drop_first() == b.drop_first() {
                assert(a =~= seq![a0] + a.drop_first());
                assert(b =~= seq![b0] + b.drop_first());
                assert(a == b);
            }
        }
    }
}

/// Lexicographic order is transitive.
pub proof fn lemma_lex_trans(a: Seq<char>, b: Seq<char>, c: Seq<char>)
    requires
        lex_lt(a, b),
        lex_lt(b, c),
    ensures
        lex_lt(a, c),
    decreases a.len() + b.len() + c.len(),
{
    if a.len() > 0 && b.len() > 0 && c.len() > 0 {
        if a[0] == b[0] && b[0] == c[0] {
            lemma_lex_trans(a.drop_first(), b.drop_first(), c.drop_first());
        }
    }
}

/// Compares from index `i` on: -1, 0 or 1 as the first run of characters is
/// smaller, equal or greater.
fn cmp_chars_from(a: &Vec<char>, b: &Vec<char>, i: usize) -> (r: i8)
    requires
        i <= a@.len(),
        i <= b@.len(),
    ensures
        r == -1 <==> lex_lt(a@.skip(i as int), b@.skip(i as int)),
        r == 0 <==> a@.skip(i as int) == b@.skip(i as int),
        r == 1 <==> lex_lt(b@.skip(i as int), a@.skip(i as int)),
    decreases a@.len() - i,
{
    proof {
        lemma_lex_total(a@.skip(i as int), b@.skip(i as int));
    }
    if i == a.len() && i == b.len() {
        proof {
            assert(a@.skip(i as int) =~= b@.skip(i as int));
        }
        0
    } else if i == a.len() {
        proof {
            assert(a@.skip(i as int).len() == 0);
            assert(b@.skip(i as int).len() > 0);
        }
        -1
    } else if i == b.len() {
        proof {
            assert(b@.skip(i as int).len() == 0);
            assert(a@.skip(i as int).len() > 0);
        }
        1
    } else {
        let ca = a[i];
        let cb = b[i];
        proof {
            assert(a@.skip(i as int)[0] == a@[i as int]);
            assert(b@.skip(i as int)[0] == b@[i as int]);
            assert(a@.skip(i as int).drop_first() =~= a@.skip(i + 1));
            assert(b@.skip(i as int).drop_first() =~= b@.skip(i + 1));
        }
        proof {
            lemma_char_cast(ca);
            lemma_char_cast(cb);
        }
        if (ca as u32) < (cb as u32) {
            -1
        } else if (cb as u32) < (ca as u32) {
            1
        } else {
            proof {
                lemma_char_eq(ca, cb);
            }
            cmp_chars_from(a, b, i + 1)
        }
    }
}

/// Compares two labels: -1, 0 or 1 as the first is smaller, equal or
/// greater in the lexicographic order of their characters.
pub fn label_cmp(a: &Label, b: &Label) -> (r: i8)
    ensures
        r == -1 <==> lex_lt(a@, b@),
        r == 0 <==> a@ == b@,
        r == 1 <==> lex_lt(b@, a@),
{
    let ac = str_to_chars(a.name().as_str());
    let bc = str_to_chars(b.name().as_str());
    let r = cmp_chars_from(&ac, &bc, 0);
    proof {
        assert(ac@.skip(0) =~= a@);
        assert(bc@.skip(0) =~= b@);
    }
    r
}

/// Whether the rows are strictly sorted by label.
pub open spec fn row_sorted<T>(rows: Seq<(Label, T)>) -> bool {
    forall|i: int, j: int|
        0 <= i < j < rows.len() ==> lex_lt((#[trigger] rows[i]).0@, (#[trigger] rows[j]).0@)
}

/// Whether some row carries the key.
pub open spec fn has_key<T>(rows: Seq<(Label, T)>, l: Seq<char>) -> bool {
    exists|i: int| 0 <= i < rows.len() && (#[trigger] rows[i]).0@ == l
}

/// Whether two entries share a key.
pub open spec fn has_dup<T>(entries: Seq<(Label, T)>) -> bool {
    exists|i: int, j: int|
        0 <= i < j < entries.len() && (#[trigger] entries[i]).0@ == (#[trigger] entries[j]).0@
}

/// Inserts a key-value row into rows sorted by key, keeping them sorted;
/// a row under the same key already there is reported instead.
pub fn insert_row<T>(rows: Vec<(Label, T)>, l: Label, v: T) -> (r: Result<Vec<(Label, T)>, ()>)
    requires
        row_sorted(rows@),
    ensures
        r matches Ok(t) ==> row_sorted(t@) && t@.len() == rows@.len() + 1 && (forall|x: (Label, T)|
            t@.contains(x) <==> (rows@.contains(x) || x == (l, v))),
        r is Ok <==> !has_key(rows@, l@),
    decreases rows@.len(),
{
    let ghost orig = rows@;
    let mut rows = rows;
    if rows.len() == 0 {
        let mut out: Vec<(Label, T)> = Vec::new();
        out.push((l, v));
        proof {
            assert(out@[0] == (l, v));
            assert forall|x: (Label, T)| out@.contains(x) implies (orig.contains(x) || x == (
            l,
            v,
            )) by {
                let i = choose|i: int| 0 <= i < out@.len() && out@[i] == x;
                assert(out@[i] == x);
            }
        }
        return Ok(out);
    }
    let c = label_cmp(&l, &rows[0].0);
    if c == 0 {
        proof {
            assert(orig[0].0@ == l@);
        }
        return Err(());
    }
    if c < 0 {
        proof {
            lemma_lex_total(l@, orig[0].0@);
        }
        rows.insert(0, (l, v));
        proof {
            assert(rows@ =~= seq![(l, v)] + orig);
            assert forall|i: int, j: int| 0 <= i < j < rows@.len() implies lex_lt(
                (#[trigger] rows@[i]).0@,
                (#[trigger] rows@[j]).0@,
            ) by {
                if i == 0 {
                    assert(rows@[j] == orig[j - 1]);
                    if j - 1 > 0 {
                        assert(lex_lt(orig[0].0@, orig[j - 1].0@));
                        lemma_lex_trans(l@, orig[0].0@, orig[j - 1].0@);
                    }
                } else {
                    assert(rows@[i] == orig[i - 1]);
                    assert(rows@[j] == orig[j - 1]);
                }
            }
            assert forall|x: (Label, T)| rows@.contains(x) implies (orig.contains(x) || x == (
            l,
            v,
            )) by {
                let i = choose|i: int| 0 <= i < rows@.len() && rows@[i] == x;
                if i > 0 {
                    assert(orig[i - 1] == x);
                }
            }
            assert forall|x: (Label, T)| orig.contains(x) implies rows@.contains(x) by {
                let i = choose|i: int| 0 <= i < orig.len() && orig[i] == x;
                assert(rows@[i + 1] == x);
            }
            assert(rows@[0] == (l, v));
            assert forall|i: int| 0 <= i < orig.len() implies (#[trigger] orig[i]).0@ != l@ by {
                lemma_lex_total(l@, orig[i].0@);
                if i > 0 {
                    assert(lex_lt(orig[0].0@, orig[i].0@));
                    lemma_lex_trans(l@, orig[0].0@, orig[i].0@);
                }
            }
        }
        return Ok(rows);
    }
    // The new key is greater than the first: it belongs in the tail.
    proof {
        lemma_lex_total(l@, orig[0].0@);
        assert(lex_lt(orig[0].0@, l@));
    }
    let first = rows.remove(0);
    let ghost tail = rows@;
    proof {
        assert(first == orig[0]);
        assert forall|i: int, j: int| 0 <= i < j < tail.len() implies lex_lt(
            (#[trigger] tail[i]).0@,
            (#[trigger] tail[j]).0@,
        ) by {
            assert(tail[i] == orig[i + 1]);
            assert(tail[j] == orig[j + 1]);
        }
    }
    match insert_row(rows, l, v) {
        Ok(t) => {
            let mut t = t;
            let ghost trec = t@;
            t.insert(0, first);
            proof {
                assert(t@ =~= seq![first] + trec);
                assert(t@[0] == first);
                assert forall|j: int| 1 <= j < t@.len() implies lex_lt(
                    first.0@,
                    (#[trigger] t@[j]).0@,
                ) by {
                    assert(trec.contains(t@[j])) by {
                        assert(trec[j - 1] == t@[j]);
                    }
                    if tail.contains(t@[j]) {
                        let k = choose|k: int| 0 <= k < tail.len() && tail[k] == t@[j];
                        assert(orig[k + 1] == tail[k]);
                        assert(lex_lt(orig[0].0@, orig[k + 1].0@));
                    } else {
                        assert(t@[j] == (l, v));
                    }
                }
                assert forall|i: int, j: int| 0 <= i < j < t@.len() implies lex_lt(
                    (#[trigger] t@[i]).0@,
                    (#[trigger] t@[j]).0@,
                ) by {
                    if i > 0 {
                        assert(trec[i - 1] == t@[i]);
                        assert(trec[j - 1] == t@[j]);
                        assert(row_sorted(trec));
                    }
                }
                assert forall|x: (Label, T)| t@.contains(x) implies (orig.contains(x) || x == (
                l,
                v,
                )) by {
                    let i = choose|i: int| 0 <= i < t@.len() && t@[i] == x;
                    if i == 0 {
                        assert(orig[0] == x);
                    } else {
                        assert(trec[i - 1] == x);
                        assert(trec.contains(x));
                        if tail.contains(x) {
                            let k = choose|k: int| 0 <= k < tail.len() && tail[k] == x;
                            assert(orig[k + 1] == x);
                        }
                    }
                }
                assert forall|x: (Label, T)| (orig.contains(x) || x == (l, v)) implies t@.contains(
                    x,
                ) by {
                    if orig.contains(x) {
                        let i = choose|i: int| 0 <= i < orig.len() && orig[i] == x;
                        if i == 0 {
                            assert(t@[0] == x);
                        } else {
                            assert(tail[i - 1] == x);
                            assert(tail.contains(x));
                            assert(trec.contains(x));
                            let k = choose|k: int| 0 <= k < trec.len() && trec[k] == x;
                            assert(t@[k + 1] == x);
                        }
                    } else {
                        assert(trec.contains(x));
                        let k = choose|k: int| 0 <= k < trec.len() && trec[k] == x;
                        assert(t@[k + 1] == x);
                    }
                }
                assert forall|i: int| 0 <= i < orig.len() implies (#[trigger] orig[i]).0@
                    != l@ by {
                    if i == 0 {
                        lemma_lex_total(l@, orig[0].0@);
                    } else {
                        assert(tail[i - 1] == orig[i]);
                        assert(!has_key(tail, l@));
                        assert(tail[i - 1].0@ != l@);
                    }
                }
            }
            Ok(t)
        },
        Err(e) => {
            proof {
                let k = choose|k: int| 0 <= k < tail.len() && (#[trigger] tail[k]).0@ == l@;
                assert(orig[k + 1] == tail[k]);
                assert(orig[k + 1].0@ == l@);
            }
            Err(e)
        },
    }
}

} // verus!

verus! {

/// Builds the sorted row vector of a record or union from its entries in
/// source order. Two entries under one key are a collision, reported with
/// that key: there is no silent last-wins.
#[verifier::loop_isolation(false)]
pub fn build_rows<T>(entries: Vec<(Label, T)>) -> (r: Result<Vec<(Label, T)>, Label>)
    ensures
        r matches Ok(rows) ==> row_sorted(rows@) && rows@.len() == entries@.len() && (forall|
            x: (Label, T),
        | rows@.contains(x) <==> entries@.contains(x)),
        r is Ok <==> !has_dup(entries@),
{
    let ghost orig = entries@;
    let mut rest = entries;
    let mut rows: Vec<(Label, T)> = Vec::new();
    let mut i: usize = 0;
    let n = rest.len();
    while i < n
        invariant
            i <= n,
            n == orig.len(),
            rest@.len() == n - i,
            forall|j: int| 0 <= j < n - i ==> rest@[j] == orig[i + j],
            row_sorted(rows@),
            rows@.len() == i,
            forall|x: (Label, T)| rows@.contains(x) <==> orig.subrange(0, i as int).contains(x),
            !has_dup(orig.subrange(0, i as int)),
        decreases n - i,
    {
        let e = rest.remove(0);
        proof {
            assert(e == orig[i as int]);
        }
        let key_copy = e.0.clone();
        let ghost rows_before = rows@;
        match insert_row(rows, e.0, e.1) {
            Ok(t) => {
                rows = t;
                proof {
                    let ghost pre = orig.subrange(0, i as int);
                    let ghost cur = orig.subrange(0, i + 1);
                    assert(cur.drop_last() =~= pre);
                    assert(cur.last() == orig[i as int]);
                    assert forall|x: (Label, T)| rows@.contains(x) implies cur.contains(x) by {
                        if rows_before.contains(x) {
                            assert(pre.contains(x));
                            let k = choose|k: int| 0 <= k < pre.len() && pre[k] == x;
                            assert(cur[k] == x);
                        } else {
                            assert(x == orig[i as int]);
                            assert(cur[i as int] == x);
                        }
                    }
                    assert forall|x: (Label, T)| cur.contains(x) implies rows@.contains(x) by {
                        let k = choose|k: int| 0 <= k < cur.len() && cur[k] == x;
                        if k < i {
                            assert(pre[k] == x);
                            assert(pre.contains(x));
                        }
                    }
                    assert forall|j1: int, j2: int| 0 <= j1 < j2 < cur.len() implies (
                    #[trigger] cur[j1]).0@ != (#[trigger] cur[j2]).0@ by {
                        if j2 < i {
                            assert(pre[j1] == cur[j1]);
                            assert(pre[j2] == cur[j2]);
                            assert(!has_dup(pre));
                        } else {
                            assert(cur[j2] == orig[i as int]);
                            assert(pre[j1] == cur[j1]);
                            assert(pre.contains(pre[j1]));
                            assert(rows_before.contains(pre[j1]));
                            assert(!has_key(rows_before, orig[i as int].0@));
                            let m = choose|m: int|
                                0 <= m < rows_before.len() && rows_before[m] == pre[j1];
                            assert(rows_before[m].0@ != orig[i as int].0@);
                        }
                    }
                    assert(!has_dup(cur));
                }
            },
            Err(_) => {
                proof {
                    let ghost pre = orig.subrange(0, i as int);
                    assert(has_key(rows_before, orig[i as int].0@));
                    let k = choose|k: int|
                        0 <= k < rows_before.len() && (#[trigger] rows_before[k]).0@ == orig[
                            i as int
                        ].0@;
                    assert(rows_before.contains(rows_before[k]));
                    assert(pre.contains(rows_before[k]));
                    let m = choose|m: int| 0 <= m < pre.len() && pre[m] == rows_before[k];
                    assert(pre[m] == orig[m]);
                    assert(orig[m].0@ == orig[i as int].0@);
                    assert(has_dup(orig)) by {
                        assert(0 <= m < i < orig.len() && orig[m].0@ == orig[i as int].0@);
                    }
                }
                return Err(key_copy);
            },
        }
        i = i + 1;
    }
    proof {
        assert(orig.subrange(0, n as int) =~= orig);
    }
    Ok(rows)
}

} // verus!
