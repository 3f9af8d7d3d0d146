//! The numeric order of user numbers written as decimal digit strings.

use vstd::prelude::*;
use crate::text::{lemma_strip_front_split, same_chars, strip_front, strip_front_chars, CharClass};

verus! {

/// `a` comes before `b` in dictionary order, among strings of equal length.
pub open spec fn lex_less(a: Seq<char>, b: Seq<char>) -> bool {
    exists|i: int|
        0 <= i < a.len() && i < b.len() && a.subrange(0, i) == b.subrange(0, i) && a[i] < b[i]
}

/// The number that digit string `a` writes is below the one `b` writes: fewer
/// significant digits first, then digit by digit. Of two ways to write one number,
/// the one with fewer leading zeros comes first.
pub open spec fn id_less(a: Seq<char>, b: Seq<char>) -> bool {
    let x = strip_front(a, CharClass::Zero);
    let y = strip_front(b, CharClass::Zero);
    x.len() < y.len() || (x.len() == y.len() && lex_less(x, y)) || (x == y && a.len() < b.len())
}

proof fn lemma_lex_less_transitive(a: Seq<char>, b: Seq<char>, c: Seq<char>)
    requires
        a.len() == b.len() == c.len(),
        lex_less(a, b),
        lex_less(b, c),
    ensures
        lex_less(a, c),
{
    let i = choose|i: int|
        0 <= i < a.len() && i < b.len() && a.subrange(0, i) == b.subrange(0, i) && a[i] < b[i];
    let j = choose|j: int|
        0 <= j < b.len() && j < c.len() && b.subrange(0, j) == c.subrange(0, j) && b[j] < c[j];
    let k = if i < j { i } else { j };
    assert forall|t: int| 0 <= t < k implies a[t] == c[t] by {
        assert(a.subrange(0, i)[t] == b.subrange(0, i)[t]);
        assert(b.subrange(0, j)[t] == c.subrange(0, j)[t]);
    }
    assert(a.subrange(0, k) =~= c.subrange(0, k));
    if i < j {
        assert(b.subrange(0, j)[i] == c.subrange(0, j)[i]);
    } else if j < i {
        assert(a.subrange(0, i)[j] == b.subrange(0, i)[j]);
    }
    assert(0 <= k < a.len() && k < c.len() && a.subrange(0, k) == c.subrange(0, k) && a[k] < c[k]);
}

/// The order of user numbers is transitive.
pub proof fn lemma_id_less_transitive(a: Seq<char>, b: Seq<char>, c: Seq<char>)
    requires
        id_less(a, b),
        id_less(b, c),
    ensures
        id_less(a, c),
{
    let x = strip_front(a, CharClass::Zero);
    let y = strip_front(b, CharClass::Zero);
    let z = strip_front(c, CharClass::Zero);
    if x.len() == y.len() && y.len() == z.len() && lex_less(x, y) && lex_less(y, z) {
        lemma_lex_less_transitive(x, y, z);
    }
}

proof fn lemma_lex_less_total(x: Seq<char>, y: Seq<char>)
    requires
        x.len() == y.len(),
        x != y,
    ensures
        lex_less(x, y) || lex_less(y, x),
    decreases x.len(),
{
    if x.len() == 0 {
        assert(x =~= y);
    }
    if x[0] != y[0] {
        assert(x.subrange(0, 0) =~= y.subrange(0, 0));
        if x[0] < y[0] {
            assert(lex_less(x, y));
        } else {
            assert(lex_less(y, x));
        }
    } else {
        let xt = x.drop_first();
        let yt = y.drop_first();
        if xt == yt {
            assert(x =~= y) by {
                assert forall|t: int| 0 <= t < x.len() implies x[t] == y[t] by {
                    if t > 0 {
                        assert(x[t] == xt[t - 1] && y[t] == yt[t - 1]);
                    }
                }
            }
        }
        lemma_lex_less_total(xt, yt);
        if lex_less(xt, yt) {
            let i = choose|i: int|
                0 <= i < xt.len() && i < yt.len() && xt.subrange(0, i) == yt.subrange(0, i) && xt[i] < yt[i];
            assert forall|t: int| 0 <= t < i + 1 implies x[t] == y[t] by {
                if t > 0 {
                    assert(xt.subrange(0, i)[t - 1] == yt.subrange(0, i)[t - 1]);
                }
            }
            assert(x.subrange(0, i + 1) =~= y.subrange(0, i + 1));
            assert(x[i + 1] == xt[i] && y[i + 1] == yt[i]);
            assert(lex_less(x, y));
        } else {
            let i = choose|i: int|
                0 <= i < yt.len() && i < xt.len() && yt.subrange(0, i) == xt.subrange(0, i) && yt[i] < xt[i];
            assert forall|t: int| 0 <= t < i + 1 implies x[t] == y[t] by {
                if t > 0 {
                    assert(xt.subrange(0, i)[t - 1] == yt.subrange(0, i)[t - 1]);
                }
            }
            assert(y.subrange(0, i + 1) =~= x.subrange(0, i + 1));
            assert(x[i + 1] == xt[i] && y[i + 1] == yt[i]);
            assert(lex_less(y, x));
        }
    }
}

/// Of two different user numbers, one comes before the other.
pub proof fn lemma_id_less_total(a: Seq<char>, b: Seq<char>)
    requires
        a != b,
    ensures
        id_less(a, b) || id_less(b, a),
{
    let x = strip_front(a, CharClass::Zero);
    let y = strip_front(b, CharClass::Zero);
    if x.len() == y.len() {
        if x != y {
            lemma_lex_less_total(x, y);
        } else if a.len() == b.len() {
            lemma_strip_front_split(a, CharClass::Zero);
            lemma_strip_front_split(b, CharClass::Zero);
            let ja = choose|j: int|
                0 <= j <= a.len() && strip_front(a, CharClass::Zero) == a.subrange(j, a.len() as int)
                    && forall|t: int| 0 <= t < j ==> CharClass::Zero.has(#[trigger] a[t]);
            let jb = choose|j: int|
                0 <= j <= b.len() && strip_front(b, CharClass::Zero) == b.subrange(j, b.len() as int)
                    && forall|t: int| 0 <= t < j ==> CharClass::Zero.has(#[trigger] b[t]);
            assert forall|t: int| 0 <= t < a.len() implies a[t] == b[t] by {
                if t >= ja {
                    assert(a[t] == x[t - ja] && b[t] == y[t - jb]);
                } else {
                    assert(CharClass::Zero.has(a[t]) && CharClass::Zero.has(b[t]));
                }
            }
            assert(a =~= b);
        }
    }
}

fn lex_less_exec(a: &Vec<char>, b: &Vec<char>) -> (r: bool)
    requires
        a.len() == b.len(),
    ensures
        r == lex_less(a@, b@),
{
    let mut i: usize = 0;
    while i < a.len()
        invariant
            i <= a.len() == b.len(),
            a@.subrange(0, i as int) == b@.subrange(0, i as int),
        decreases a.len() - i,
    {
        if a[i] != b[i] {
            let less = a[i] < b[i];
            if !less {
                assert forall|j: int|
                    !(0 <= j < a.len() && j < b.len() && a@.subrange(0, j) == b@.subrange(0, j)
                        && a@[j] < b@[j]) by {
                    if 0 <= j < a.len() && a@.subrange(0, j) == b@.subrange(0, j) && j > i {
                        assert(a@.subrange(0, j)[i as int] == b@.subrange(0, j)[i as int]);
                    }
                    if 0 <= j < i {
                        assert(a@.subrange(0, i as int)[j] == b@.subrange(0, i as int)[j]);
                    }
                }
            }
            return less;
        }
        assert(a@.subrange(0, i + 1) =~= a@.subrange(0, i as int).push(a@[i as int]));
        assert(b@.subrange(0, i + 1) =~= b@.subrange(0, i as int).push(b@[i as int]));
        i = i + 1;
    }
    assert(a@ =~= b@) by {
        assert(a@ =~= a@.subrange(0, i as int));
        assert(b@ =~= b@.subrange(0, i as int));
    }
    assert forall|j: int|
        !(0 <= j < a.len() && j < b.len() && a@.subrange(0, j) == b@.subrange(0, j) && a@[j]
            < b@[j]) by {}
    false
}

/// Whether user number `a` comes before user number `b`.
pub fn id_less_exec(a: &Vec<char>, b: &Vec<char>) -> (r: bool)
    ensures
        r == id_less(a@, b@),
{
    let x = strip_front_chars(a, CharClass::Zero);
    let y = strip_front_chars(b, CharClass::Zero);
    if x.len() != y.len() {
        return x.len() < y.len();
    }
    if lex_less_exec(&x, &y) {
        return true;
    }
    same_chars(&x, &y) && a.len() < b.len()
}

} // verus!
