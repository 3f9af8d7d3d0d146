//! Character-sequence helpers shared by the configuration parser and the
//! dial-plan extractor.

use vstd::prelude::*;

verus! {

/// The Unicode `White_Space` property, which `char::is_whitespace` tests.
pub open spec fn is_space(c: char) -> bool {
    let u = c as u32;
    (0x9 <= u && u <= 0xd) || u == 0x20 || u == 0x85 || u == 0xa0 || u == 0x1680
        || (0x2000 <= u && u <= 0x200a) || u == 0x2028 || u == 0x2029 || u == 0x202f
        || u == 0x205f || u == 0x3000
}

/// The characters a trimming operation removes from the ends of a sequence.
#[derive(Clone, Copy, PartialEq, Eq)]
pub enum CharClass {
    /// White space.
    Space,
    /// White space and double quotes.
    SpaceOrQuote,
    /// Underscores.
    Underscore,
    /// The digit zero.
    Zero,
}

impl CharClass {
    pub open spec fn has(self, c: char) -> bool {
        match self {
            CharClass::Space => is_space(c),
            CharClass::SpaceOrQuote => is_space(c) || c == '"',
            CharClass::Underscore => c == '_',
            CharClass::Zero => c == '0',
        }
    }

    pub fn contains(self, c: char) -> (r: bool)
        ensures
            r == self.has(c),
    {
        match self {
            CharClass::Space => is_space_char(c),
            CharClass::SpaceOrQuote => is_space_char(c) || c == '"',
            CharClass::Underscore => c == '_',
            CharClass::Zero => c == '0',
        }
    }
}

pub fn is_space_char(c: char) -> (r: bool)
    ensures
        r == is_space(c),
{
    let u = c as u32;
    (0x9 <= u && u <= 0xd) || u == 0x20 || u == 0x85 || u == 0xa0 || u == 0x1680
        || (0x2000 <= u && u <= 0x200a) || u == 0x2028 || u == 0x2029 || u == 0x202f
        || u == 0x205f || u == 0x3000
}

/// `s` without the leading characters of class `k`.
pub open spec fn strip_front(s: Seq<char>, k: CharClass) -> Seq<char>
    decreases s.len(),
{
    if s.len() > 0 && k.has(s[0]) {
        strip_front(s.drop_first(), k)
    } else {
        s
    }
}

/// `s` without the trailing characters of class `k`.
pub open spec fn strip_back(s: Seq<char>, k: CharClass) -> Seq<char>
    decreases s.len(),
{
    if s.len() > 0 && k.has(s.last()) {
        strip_back(s.drop_last(), k)
    } else {
        s
    }
}

/// `s` without the characters of class `k` at either end.
pub open spec fn strip(s: Seq<char>, k: CharClass) -> Seq<char> {
    strip_back(strip_front(s, k), k)
}

/// Whether `pat` occurs in `s` starting at index `i`.
pub open spec fn occurs_at(s: Seq<char>, pat: Seq<char>, i: int) -> bool {
    0 <= i && i + pat.len() <= s.len() && s.subrange(i, i + pat.len()) == pat
}

/// The first index at or after `i` where `pat` occurs in `s`.
pub open spec fn find_from(s: Seq<char>, pat: Seq<char>, i: nat) -> Option<nat>
    decreases s.len() + 1 - i,
{
    if i + pat.len() > s.len() {
        None
    } else if occurs_at(s, pat, i as int) {
        Some(i)
    } else {
        find_from(s, pat, i + 1)
    }
}

/// The first index where `pat` occurs in `s`.
pub open spec fn find(s: Seq<char>, pat: Seq<char>) -> Option<nat> {
    find_from(s, pat, 0)
}

/// `s` with every `from` replaced by `to`.
pub open spec fn replace_char(s: Seq<char>, from: char, to: char) -> Seq<char> {
    s.map_values(|c: char| if c == from { to } else { c })
}

/// The characters of `s`, in order.
pub fn chars_of(s: &str) -> (r: Vec<char>)
    ensures
        r@ == s@,
{
    let mut r: Vec<char> = Vec::new();
    for c in it: s.chars()
        invariant
            it.seq() == s@,
            r@ == it.seq().subrange(0, it.index() as int),
    {
        r.push(c);
    }
    r
}

/// Relies on `String`'s `FromIterator<char>`: the string holds the characters in order.
#[verifier::external_body]
pub fn string_of(v: &[char]) -> (r: String)
    ensures
        r@ == v@,
{
    v.iter().collect()
}

/// The characters of `v` from `lo` up to `hi`.
pub fn copy_range(v: &Vec<char>, lo: usize, hi: usize) -> (r: Vec<char>)
    requires
        lo <= hi <= v.len(),
    ensures
        r@ == v@.subrange(lo as int, hi as int),
{
    let mut r: Vec<char> = Vec::new();
    let mut i: usize = lo;
    while i < hi
        invariant
            lo <= i <= hi <= v.len(),
            r@ == v@.subrange(lo as int, i as int),
        decreases hi - i,
    {
        r.push(v[i]);
        i = i + 1;
        assert(r@ =~= v@.subrange(lo as int, i as int));
    }
    r
}

/// `v` without the leading characters of class `k`.
pub fn strip_front_chars(v: &Vec<char>, k: CharClass) -> (r: Vec<char>)
    ensures
        r@ == strip_front(v@, k),
{
    let n = v.len();
    let mut i: usize = 0;
    assert(v@.subrange(0, n as int) =~= v@);
    while i < n && k.contains(v[i])
        invariant
            i <= n == v.len(),
            strip_front(v@.subrange(i as int, n as int), k) == strip_front(v@, k),
        decreases n - i,
    {
        assert(v@.subrange(i as int, n as int).drop_first() =~= v@.subrange(i + 1, n as int));
        i = i + 1;
    }
    copy_range(v, i, n)
}

/// `v` without the trailing characters of class `k`.
pub fn strip_back_chars(v: &Vec<char>, k: CharClass) -> (r: Vec<char>)
    ensures
        r@ == strip_back(v@, k),
{
    let mut j: usize = v.len();
    assert(v@.subrange(0, j as int) =~= v@);
    while j > 0 && k.contains(v[j - 1])
        invariant
            j <= v.len(),
            strip_back(v@.subrange(0, j as int), k) == strip_back(v@, k),
        decreases j,
    {
        assert(v@.subrange(0, j as int).drop_last() =~= v@.subrange(0, j - 1));
        j = j - 1;
    }
    copy_range(v, 0, j)
}

/// `v` without the characters of class `k` at either end.
pub fn strip_chars(v: &Vec<char>, k: CharClass) -> (r: Vec<char>)
    ensures
        r@ == strip(v@, k),
{
    let f = strip_front_chars(v, k);
    strip_back_chars(&f, k)
}

/// The characters of `a` followed by those of `b`.
pub fn concat_chars(a: &Vec<char>, b: &Vec<char>) -> (r: Vec<char>)
    ensures
        r@ == a@ + b@,
{
    let mut r = copy_range(a, 0, a.len());
    let mut i: usize = 0;
    assert(a@.subrange(0, a.len() as int) =~= a@);
    while i < b.len()
        invariant
            i <= b.len(),
            r@ == a@ + b@.subrange(0, i as int),
        decreases b.len() - i,
    {
        r.push(b[i]);
        i = i + 1;
        assert(r@ =~= a@ + b@.subrange(0, i as int));
    }
    assert(b@.subrange(0, b.len() as int) =~= b@);
    r
}

/// `strip_front` drops a prefix made of characters of class `k`.
pub proof fn lemma_strip_front_split(s: Seq<char>, k: CharClass)
    ensures
        exists|j: int|
            0 <= j <= s.len() && strip_front(s, k) == s.subrange(j, s.len() as int) && forall|t: int|
                0 <= t < j ==> k.has(#[trigger] s[t]),
        !(strip_front(s, k).len() > 0 && k.has(strip_front(s, k)[0])),
    decreases s.len(),
{
    if s.len() > 0 && k.has(s[0]) {
        let d = s.drop_first();
        lemma_strip_front_split(d, k);
        let j = choose|j: int|
            0 <= j <= d.len() && strip_front(d, k) == d.subrange(j, d.len() as int) && forall|t: int|
                0 <= t < j ==> k.has(#[trigger] d[t]);
        assert(d.subrange(j, d.len() as int) =~= s.subrange(j + 1, s.len() as int));
        assert forall|t: int| 0 <= t < j + 1 implies k.has(#[trigger] s[t]) by {
            if t > 0 {
                assert(s[t] == d[t - 1]);
            }
        }
    } else {
        assert(s.subrange(0, s.len() as int) =~= s);
    }
}

/// Where `find_from` lands, `pat` occurs, at or after the start.
pub proof fn lemma_find_from_bounds(s: Seq<char>, pat: Seq<char>, i: nat)
    ensures
        find_from(s, pat, i) matches Some(x) ==> i <= x && x + pat.len() <= s.len()
            && occurs_at(s, pat, x as int),
    decreases s.len() + 1 - i,
{
    if i + pat.len() <= s.len() && !occurs_at(s, pat, i as int) {
        lemma_find_from_bounds(s, pat, i + 1);
    }
}

/// Searching a suffix of `s` finds what searching `s` from the same place finds.
pub proof fn lemma_find_from_suffix(s: Seq<char>, pat: Seq<char>, start: nat, i: nat)
    requires
        start <= i <= s.len(),
    ensures
        find_from(s.subrange(start as int, s.len() as int), pat, (i - start) as nat) == (
        match find_from(s, pat, i) {
            Some(x) => Some((x - start) as nat),
            None => None,
        }),
    decreases s.len() + 1 - i,
{
    let t = s.subrange(start as int, s.len() as int);
    lemma_find_from_bounds(s, pat, i);
    if i + pat.len() <= s.len() {
        assert(t.subrange(i - start, i - start + pat.len()) =~= s.subrange(
            i as int,
            (i + pat.len()) as int,
        ));
        if !occurs_at(s, pat, i as int) {
            assert(i < s.len()) by {
                if i == s.len() {
                    assert(s.subrange(i as int, (i + pat.len()) as int) =~= pat);
                }
            }
            lemma_find_from_suffix(s, pat, start, i + 1);
        }
    }
}

/// The first index at or after `from` where `pat` occurs in `v`.
pub fn find_chars(v: &Vec<char>, pat: &Vec<char>, from: usize) -> (r: Option<usize>)
    requires
        from <= v.len(),
    ensures
        r matches Some(i) ==> find_from(v@, pat@, from as nat) == Some(i as nat),
        r is None ==> find_from(v@, pat@, from as nat) is None,
{
    let mut i: usize = from;
    while i <= v.len() && pat.len() <= v.len() - i
        invariant
            from <= i,
            find_from(v@, pat@, i as nat) == find_from(v@, pat@, from as nat),
        decreases v.len() + 1 - i,
    {
        let mut j: usize = 0;
        while j < pat.len() && v[i + j] == pat[j]
            invariant
                j <= pat.len(),
                i + pat.len() <= v.len(),
                forall|t: int| 0 <= t < j ==> v@[i + t] == pat@[t],
            decreases pat.len() - j,
        {
            j = j + 1;
        }
        if j == pat.len() {
            assert(v@.subrange(i as int, i + pat.len()) =~= pat@);
            return Some(i);
        }
        assert(!occurs_at(v@, pat@, i as int)) by {
            if v@.subrange(i as int, i + pat.len()) == pat@ {
                assert(v@.subrange(i as int, i + pat.len())[j as int] == v@[i + j]);
            }
        }
        i = i + 1;
    }
    None
}

/// `v` with every `from` replaced by `to`.
pub fn replace_chars(v: &Vec<char>, from: char, to: char) -> (r: Vec<char>)
    ensures
        r@ == replace_char(v@, from, to),
{
    let mut r: Vec<char> = Vec::new();
    let mut i: usize = 0;
    while i < v.len()
        invariant
            i <= v.len(),
            r@ == replace_char(v@.subrange(0, i as int), from, to),
        decreases v.len() - i,
    {
        let c = if v[i] == from { to } else { v[i] };
        r.push(c);
        i = i + 1;
        assert(r@ =~= replace_char(v@.subrange(0, i as int), from, to));
    }
    assert(v@.subrange(0, v.len() as int) =~= v@);
    r
}

/// Whether `a` and `b` hold the same characters.
pub fn same_chars(a: &Vec<char>, b: &Vec<char>) -> (r: bool)
    ensures
        r == (a@ == b@),
{
    if a.len() != b.len() {
        return false;
    }
    let mut i: usize = 0;
    while i < a.len()
        invariant
            i <= a.len() == b.len(),
            forall|t: int| 0 <= t < i ==> a@[t] == b@[t],
        decreases a.len() - i,
    {
        if a[i] != b[i] {
            return false;
        }
        i = i + 1;
    }
    assert(a@ =~= b@);
    true
}

} // verus!
