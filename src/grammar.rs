//! The shapes of configuration keys and values that carry dial plans.

use vstd::prelude::*;
use crate::text::{chars_of, copy_range, concat_chars, occurs_at, same_chars};

verus! {

pub open spec fn is_digit(c: char) -> bool {
    '0' <= c && c <= '9'
}

/// A non-empty run of decimal digits.
pub open spec fn is_digits(s: Seq<char>) -> bool {
    s.len() > 0 && forall|i: int| 0 <= i < s.len() ==> is_digit(s[i])
}

/// The end of the run of digits in `s` that starts at `j`.
pub open spec fn run_end(s: Seq<char>, j: int) -> int
    decreases s.len() - j,
{
    if 0 <= j < s.len() && is_digit(s[j]) {
        run_end(s, j + 1)
    } else {
        j
    }
}

/// `planner_profile_<n>_plan_<m>_<f>`.
pub open spec fn plan_key(n: Seq<char>, m: Seq<char>, f: Seq<char>) -> Seq<char> {
    "planner_profile_"@ + n + "_plan_"@ + m + "_"@ + f
}

/// `k` names field `f` (`srce` or `dest`) of plan `m` in profile `n`.
pub open spec fn is_plan_key(k: Seq<char>, n: Seq<char>, m: Seq<char>, f: Seq<char>) -> bool {
    &&& is_digits(n)
    &&& is_digits(m)
    &&& f == "srce"@ || f == "dest"@
    &&& k == plan_key(n, m, f)
}

/// `sip_auth_user_<n>_subscriber`.
pub open spec fn subscriber_key(n: Seq<char>) -> Seq<char> {
    "sip_auth_user_"@ + n + "_subscriber"@
}

/// `sip_auth_user_<n>_username`.
pub open spec fn username_key(n: Seq<char>) -> Seq<char> {
    "sip_auth_user_"@ + n + "_username"@
}

/// `k` is the subscriber key of user `n`.
pub open spec fn is_subscriber_key(k: Seq<char>, n: Seq<char>) -> bool {
    is_digits(n) && k == subscriber_key(n)
}

/// An interface token `IF:<digits>` starting at `i`.
pub open spec fn if_token_at(v: Seq<char>, i: int) -> Option<Seq<char>> {
    if occurs_at(v, "IF:"@, i) && i + 3 < v.len() && is_digit(v[i + 3]) {
        Some(v.subrange(i, run_end(v, i + 3)))
    } else {
        None
    }
}

/// The leftmost interface token in `v` at or after `i`.
pub open spec fn if_token_from(v: Seq<char>, i: int) -> Option<Seq<char>>
    decreases v.len() - i,
{
    if i < 0 || i >= v.len() {
        None
    } else if if_token_at(v, i) is Some {
        if_token_at(v, i)
    } else {
        if_token_from(v, i + 1)
    }
}

/// The leftmost interface token `IF:<digits>` in `v`.
pub open spec fn if_token(v: Seq<char>) -> Option<Seq<char>> {
    if_token_from(v, 0)
}

/// The number of a telephone reference starting at `i`: `TEL:<digits>`, or
/// `TEL:(<digits>)<digits>` with the parentheses left out.
pub open spec fn tel_at(v: Seq<char>, i: int) -> Option<Seq<char>> {
    let j = i + 4;
    if !occurs_at(v, "TEL:"@, i) || j >= v.len() {
        None
    } else if v[j] == '(' && j + 1 < v.len() && is_digit(v[j + 1]) && run_end(v, j + 1) < v.len()
        && v[run_end(v, j + 1)] == ')' {
        let e = run_end(v, j + 1);
        Some(v.subrange(j + 1, e) + v.subrange(e + 1, run_end(v, e + 1)))
    } else if is_digit(v[j]) {
        Some(v.subrange(j, run_end(v, j)))
    } else {
        None
    }
}

/// The leftmost telephone number in `v` at or after `i`.
pub open spec fn tel_from(v: Seq<char>, i: int) -> Option<Seq<char>>
    decreases v.len() - i,
{
    if i < 0 || i >= v.len() {
        None
    } else if tel_at(v, i) is Some {
        tel_at(v, i)
    } else {
        tel_from(v, i + 1)
    }
}

/// The leftmost telephone number in `v`.
pub open spec fn tel_number(v: Seq<char>) -> Option<Seq<char>> {
    tel_from(v, 0)
}

pub proof fn lemma_run_end(s: Seq<char>, j: int)
    requires
        0 <= j <= s.len(),
    ensures
        j <= run_end(s, j) <= s.len(),
        forall|t: int| j <= t < run_end(s, j) ==> is_digit(s[t]),
        run_end(s, j) < s.len() ==> !is_digit(s[run_end(s, j)]),
    decreases s.len() - j,
{
    if j < s.len() && is_digit(s[j]) {
        lemma_run_end(s, j + 1);
    }
}

/// The end of the run of digits in `v` that starts at `j`.
pub fn digit_run_end(v: &Vec<char>, j: usize) -> (r: usize)
    requires
        j <= v.len(),
    ensures
        r == run_end(v@, j as int),
        j <= r <= v.len(),
{
    proof {
        lemma_run_end(v@, j as int);
    }
    let mut e: usize = j;
    while e < v.len() && '0' <= v[e] && v[e] <= '9'
        invariant
            j <= e <= v.len(),
            run_end(v@, e as int) == run_end(v@, j as int),
        decreases v.len() - e,
    {
        e = e + 1;
    }
    e
}

/// A run of `d` digits at `j` that nothing digit follows ends at `j + d`.
pub proof fn lemma_run_end_exact(s: Seq<char>, j: int, d: int)
    requires
        0 <= j,
        0 <= d,
        j + d <= s.len(),
        forall|t: int| j <= t < j + d ==> is_digit(s[t]),
        j + d == s.len() || !is_digit(s[j + d]),
    ensures
        run_end(s, j) == j + d,
    decreases d,
{
    if d > 0 {
        lemma_run_end_exact(s, j + 1, d - 1);
    }
}

/// Where a plan key's parts stand in it.
proof fn lemma_plan_key_parts(k: Seq<char>, n: Seq<char>, m: Seq<char>, f: Seq<char>)
    requires
        is_plan_key(k, n, m, f),
    ensures
        occurs_at(k, "planner_profile_"@, 0),
        run_end(k, 16) == 16 + n.len() as int,
        k.subrange(16, 16 + n.len() as int) == n,
        occurs_at(k, "_plan_"@, 16 + n.len() as int),
        run_end(k, 22 + n.len() as int) == 22 + n.len() as int + m.len() as int,
        k.subrange(22 + n.len() as int, 22 + n.len() as int + m.len() as int) == m,
        occurs_at(k, "_"@, 22 + n.len() as int + m.len() as int),
        k.subrange(23 + n.len() as int + m.len() as int, k.len() as int) == f,
{
    reveal_strlit("planner_profile_");
    reveal_strlit("_plan_");
    reveal_strlit("_");
    let a = 16 + n.len() as int;
    let b = 22 + n.len() as int + m.len() as int;
    assert(k.subrange(0, 16) =~= "planner_profile_"@);
    assert(k.subrange(16, a) =~= n);
    assert(k.subrange(a, a + 6) =~= "_plan_"@);
    assert(k.subrange(a + 6, b) =~= m);
    assert(k.subrange(b, b + 1) =~= "_"@);
    assert(k.subrange(b + 1, k.len() as int) =~= f);
    assert(k[a] == '_');
    assert(k[b] == '_');
    lemma_run_end_exact(k, 16, n.len() as int);
    lemma_run_end_exact(k, a + 6, m.len() as int as int);
}

/// Where a subscriber key's user number stands in it.
proof fn lemma_subscriber_key_parts(k: Seq<char>, n: Seq<char>)
    requires
        is_subscriber_key(k, n),
    ensures
        occurs_at(k, "sip_auth_user_"@, 0),
        run_end(k, 14) == 14 + n.len() as int,
        k.subrange(14, 14 + n.len() as int) == n,
        k.subrange(14 + n.len() as int, k.len() as int) == "_subscriber"@,
{
    reveal_strlit("sip_auth_user_");
    reveal_strlit("_subscriber");
    let a = 14 + n.len() as int;
    assert(k.subrange(0, 14) =~= "sip_auth_user_"@);
    assert(k.subrange(14, a) =~= n);
    assert(k.subrange(a, k.len() as int) =~= "_subscriber"@);
    assert(k[a] == '_');
    lemma_run_end_exact(k, 14, n.len() as int);
}

/// A plan key names one profile, one plan and one field.
pub proof fn lemma_plan_key_unique(
    k: Seq<char>,
    n: Seq<char>,
    m: Seq<char>,
    f: Seq<char>,
    n2: Seq<char>,
    m2: Seq<char>,
    f2: Seq<char>,
)
    requires
        is_plan_key(k, n, m, f),
        is_plan_key(k, n2, m2, f2),
    ensures
        n == n2 && m == m2 && f == f2,
{
    lemma_plan_key_parts(k, n, m, f);
    lemma_plan_key_parts(k, n2, m2, f2);
}

/// A subscriber key names one user.
pub proof fn lemma_subscriber_key_unique(k: Seq<char>, n: Seq<char>, n2: Seq<char>)
    requires
        is_subscriber_key(k, n),
        is_subscriber_key(k, n2),
    ensures
        n == n2,
{
    lemma_subscriber_key_parts(k, n);
    lemma_subscriber_key_parts(k, n2);
}

/// The profile number, plan number and field of a plan key; the field is `true` for
/// `srce` and `false` for `dest`.
pub fn parse_plan_key(k: &Vec<char>) -> (r: Option<(Vec<char>, Vec<char>, bool)>)
    ensures
        r matches Some(t) ==> is_plan_key(k@, t.0@, t.1@, if t.2 { "srce"@ } else { "dest"@ }),
        r is None ==> forall|n: Seq<char>, m: Seq<char>, f: Seq<char>| !is_plan_key(k@, n, m, f),
{
    let head = chars_of("planner_profile_");
    let mid = chars_of("_plan_");
    let sep = chars_of("_");
    let srce = chars_of("srce");
    let dest = chars_of("dest");
    proof {
        reveal_strlit("planner_profile_");
        reveal_strlit("_plan_");
        reveal_strlit("_");
    }
    let ok = occurs_at_exec(k, &head, 0);
    if !ok || k.len() < 16 {
        proof {
            assert forall|n: Seq<char>, m: Seq<char>, f: Seq<char>| !is_plan_key(k@, n, m, f) by {
                if is_plan_key(k@, n, m, f) {
                    lemma_plan_key_parts(k@, n, m, f);
                }
            }
        }
        return None;
    }
    let e1 = digit_run_end(k, 16);
    let ok = e1 > 16 && occurs_at_exec(k, &mid, e1);
    if !ok {
        proof {
            assert forall|n: Seq<char>, m: Seq<char>, f: Seq<char>| !is_plan_key(k@, n, m, f) by {
                if is_plan_key(k@, n, m, f) {
                    lemma_plan_key_parts(k@, n, m, f);
                }
            }
        }
        return None;
    }
    let b = e1 + 6;
    let e2 = digit_run_end(k, b);
    let ok = e2 > b && occurs_at_exec(k, &sep, e2);
    if !ok {
        proof {
            assert forall|n: Seq<char>, m: Seq<char>, f: Seq<char>| !is_plan_key(k@, n, m, f) by {
                if is_plan_key(k@, n, m, f) {
                    lemma_plan_key_parts(k@, n, m, f);
                }
            }
        }
        return None;
    }
    let n = copy_range(k, 16, e1);
    let m = copy_range(k, b, e2);
    let rest = copy_range(k, e2 + 1, k.len());
    proof {
        lemma_run_end(k@, 16);
        lemma_run_end(k@, b as int);
        assert(k@.subrange(0, 16) == head@);
        assert(k@.subrange(e1 as int, b as int) == mid@);
        assert(k@.subrange(e2 as int, e2 + 1) == sep@);
        assert(k@ =~= head@ + n@ + mid@ + m@ + sep@ + rest@);
    }
    let is_srce = same_chars(&rest, &srce);
    if is_srce || same_chars(&rest, &dest) {
        Some((n, m, is_srce))
    } else {
        proof {
            assert forall|n2: Seq<char>, m2: Seq<char>, f: Seq<char>| !is_plan_key(k@, n2, m2, f) by {
                if is_plan_key(k@, n2, m2, f) {
                    lemma_plan_key_parts(k@, n2, m2, f);
                }
            }
        }
        None
    }
}

/// The user number of a subscriber key.
pub fn parse_subscriber_key(k: &Vec<char>) -> (r: Option<Vec<char>>)
    ensures
        r matches Some(n) ==> is_subscriber_key(k@, n@),
        r is None ==> forall|n: Seq<char>| !is_subscriber_key(k@, n),
{
    let head = chars_of("sip_auth_user_");
    let tail = chars_of("_subscriber");
    proof {
        reveal_strlit("sip_auth_user_");
    }
    let ok = occurs_at_exec(k, &head, 0);
    if !ok || k.len() < 14 {
        proof {
            assert forall|n: Seq<char>| !is_subscriber_key(k@, n) by {
                if is_subscriber_key(k@, n) {
                    lemma_subscriber_key_parts(k@, n);
                }
            }
        }
        return None;
    }
    let e = digit_run_end(k, 14);
    let rest = copy_range(k, e, k.len());
    if e > 14 && same_chars(&rest, &tail) {
        let n = copy_range(k, 14, e);
        proof {
            lemma_run_end(k@, 14);
            assert(k@.subrange(0, 14) == head@);
            assert(k@ =~= head@ + n@ + rest@);
        }
        Some(n)
    } else {
        proof {
            assert forall|n: Seq<char>| !is_subscriber_key(k@, n) by {
                if is_subscriber_key(k@, n) {
                    lemma_subscriber_key_parts(k@, n);
                }
            }
        }
        None
    }
}

/// Whether `pat` occurs in `v` at `i`.
pub fn occurs_at_exec(v: &Vec<char>, pat: &Vec<char>, i: usize) -> (r: bool)
    ensures
        r == occurs_at(v@, pat@, i as int),
{
    if i > v.len() || pat.len() > v.len() - i {
        return false;
    }
    let mut t: usize = 0;
    while t < pat.len()
        invariant
            t <= pat.len(),
            i + pat.len() <= v.len(),
            forall|u: int| 0 <= u < t ==> v@[i + u] == pat@[u],
        decreases pat.len() - t,
    {
        if v[i + t] != pat[t] {
            assert(v@.subrange(i as int, i + pat.len())[t as int] != pat@[t as int]);
            return false;
        }
        t = t + 1;
    }
    assert(v@.subrange(i as int, i + pat.len()) =~= pat@);
    true
}

/// The leftmost interface token `IF:<digits>` in `v`.
pub fn find_if_token(v: &Vec<char>) -> (r: Option<Vec<char>>)
    ensures
        r matches Some(t) ==> if_token(v@) == Some(t@),
        r is None ==> if_token(v@) is None,
{
    let marker = chars_of("IF:");
    proof {
        reveal_strlit("IF:");
    }
    let mut i: usize = 0;
    while i < v.len()
        invariant
            i <= v.len(),
            marker@ == "IF:"@,
            if_token_from(v@, i as int) == if_token(v@),
        decreases v.len() - i,
    {
        if occurs_at_exec(v, &marker, i) && 3 < v.len() - i && '0' <= v[i + 3] && v[i + 3] <= '9' {
            let e = digit_run_end(v, i + 3);
            return Some(copy_range(v, i, e));
        }
        i = i + 1;
    }
    None
}

/// The leftmost telephone number in `v`.
pub fn find_tel_number(v: &Vec<char>) -> (r: Option<Vec<char>>)
    ensures
        r matches Some(t) ==> tel_number(v@) == Some(t@),
        r is None ==> tel_number(v@) is None,
{
    let marker = chars_of("TEL:");
    proof {
        reveal_strlit("TEL:");
    }
    let mut i: usize = 0;
    while i < v.len()
        invariant
            i <= v.len(),
            marker@ == "TEL:"@,
            tel_from(v@, i as int) == tel_number(v@),
        decreases v.len() - i,
    {
        if occurs_at_exec(v, &marker, i) && 4 < v.len() - i {
            let j = i + 4;
            if v[j] == '(' && j + 1 < v.len() && '0' <= v[j + 1] && v[j + 1] <= '9' {
                let e = digit_run_end(v, j + 1);
                if e < v.len() && v[e] == ')' {
                    let e2 = digit_run_end(v, e + 1);
                    let a = copy_range(v, j + 1, e);
                    let b = copy_range(v, e + 1, e2);
                    return Some(concat_chars(&a, &b));
                }
            }
            if '0' <= v[j] && v[j] <= '9' {
                let e = digit_run_end(v, j);
                return Some(copy_range(v, j, e));
            }
        }
        i = i + 1;
    }
    None
}

} // verus!
