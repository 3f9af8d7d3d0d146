//! The dial-plan extractor: from a configuration map to per-profile routing records.

use vstd::prelude::*;
use crate::config::ConfigMap;
use crate::grammar::{
    find_if_token, find_tel_number, if_token, is_digits, is_plan_key, is_subscriber_key,
    lemma_plan_key_unique, lemma_subscriber_key_unique, parse_plan_key, parse_subscriber_key,
    plan_key, subscriber_key, tel_number, username_key,
};
use crate::order::{id_less, id_less_exec, lemma_id_less_total, lemma_id_less_transitive};
use crate::text::{chars_of, concat_chars, same_chars, string_of};

verus! {

/// One routing rule: a source interface, a destination, and the subscriber behind
/// the source.
pub struct DialPlan {
    pub srce: Option<String>,
    pub dest_raw: Option<String>,
    pub dest_tel: Option<String>,
    pub subscriber: Option<String>,
}

/// The dial plans of one profile, by plan id (`plan_<m>`).
pub struct Profile {
    pub plans: Vec<(String, DialPlan)>,
}

/// The dial plans of one device, by profile id (`profile_<n>`), and the device's
/// identity.
pub struct DialPlanConfig {
    pub profiles: Vec<(String, Profile)>,
    pub ip_address: Option<String>,
    pub hostname: Option<String>,
}

/// Profile `i` of `ps` and its plan `j` exist, with ids `profile_<n>` and `plan_<m>`.
pub open spec fn names_in(ps: Seq<(String, Profile)>, i: int, j: int, n: Seq<char>, m: Seq<char>) -> bool {
    &&& 0 <= i < ps.len()
    &&& 0 <= j < ps[i].1.plans@.len()
    &&& ps[i].0@ == profile_id(n)
    &&& ps[i].1.plans@[j].0@ == plan_id(m)
}

/// Plan `j` of profile `i` in `ps` is a plan the configuration names, as it describes it.
pub open spec fn described(cfg: Map<Seq<char>, Seq<char>>, ps: Seq<(String, Profile)>, i: int, j: int) -> bool {
    exists|n: Seq<char>, m: Seq<char>|
        #[trigger] names_in(ps, i, j, n, m) && has_plan(cfg, n, m) && plan_fits(cfg, n, m, ps[i].1.plans@[j].1)
}

/// Plan `j` of profile `i` in `ps` came from one of the first `t` number pairs, and
/// is what the configuration says of that pair.
pub open spec fn built_from(
    cfg: Map<Seq<char>, Seq<char>>,
    ps: Seq<(String, Profile)>,
    pairs: Seq<(Vec<char>, Vec<char>)>,
    t: int,
    i: int,
    j: int,
) -> bool {
    exists|u: int|
        0 <= u < t && #[trigger] names_in(ps, i, j, pairs[u].0@, pairs[u].1@) && plan_fits(
            cfg,
            pairs[u].0@,
            pairs[u].1@,
            ps[i].1.plans@[j].1,
        )
}

/// Some profile of `ps` holds plan `plan_<m>` of profile `profile_<n>`.
pub open spec fn covered(ps: Seq<(String, Profile)>, n: Seq<char>, m: Seq<char>) -> bool {
    exists|i: int, j: int| #[trigger] names_in(ps, i, j, n, m)
}

/// No profile id occurs twice in `ps`, and no plan id twice within a profile.
pub open spec fn ids_unique(ps: Seq<(String, Profile)>) -> bool {
    &&& forall|i1: int, i2: int|
        0 <= i1 < ps.len() && 0 <= i2 < ps.len() && i1 != i2 ==> ps[i1].0@ != ps[i2].0@
    &&& forall|i: int, j1: int, j2: int|
        0 <= i < ps.len() && 0 <= j1 < ps[i].1.plans@.len() && 0 <= j2 < ps[i].1.plans@.len() && j1
            != j2 ==> ps[i].1.plans@[j1].0@ != ps[i].1.plans@[j2].0@
}

impl DialPlanConfig {
    /// No profile id occurs twice, and no plan id twice within a profile.
    pub open spec fn wf(&self) -> bool {
        ids_unique(self.profiles@)
    }
}

/// One line of the tabular export.
pub struct ExportRow {
    pub vega_ip: String,
    pub vega_name: String,
    pub profile: String,
    pub plan: String,
    pub port: String,
    pub destination_ext: Option<String>,
    pub user_lineport: String,
}

pub open spec fn opt_view(o: Option<String>) -> Option<Seq<char>> {
    match o {
        Some(s) => Some(s@),
        None => None,
    }
}

/// The value under `k`, if any.
pub open spec fn lookup(cfg: Map<Seq<char>, Seq<char>>, k: Seq<char>) -> Option<Seq<char>> {
    if cfg.contains_key(k) {
        Some(cfg[k])
    } else {
        None
    }
}

pub open spec fn profile_id(n: Seq<char>) -> Seq<char> {
    "profile_"@ + n
}

pub open spec fn plan_id(m: Seq<char>) -> Seq<char> {
    "plan_"@ + m
}

/// The configuration names a source or a destination for plan `m` of profile `n`.
pub open spec fn has_plan(cfg: Map<Seq<char>, Seq<char>>, n: Seq<char>, m: Seq<char>) -> bool {
    &&& is_digits(n)
    &&& is_digits(m)
    &&& cfg.contains_key(plan_key(n, m, "srce"@)) || cfg.contains_key(plan_key(n, m, "dest"@))
}

/// The interface token of the plan's source.
pub open spec fn srce_of(cfg: Map<Seq<char>, Seq<char>>, n: Seq<char>, m: Seq<char>) -> Option<
    Seq<char>,
> {
    match lookup(cfg, plan_key(n, m, "srce"@)) {
        Some(v) => if_token(v),
        None => None,
    }
}

/// The plan's destination as written.
pub open spec fn dest_raw_of(cfg: Map<Seq<char>, Seq<char>>, n: Seq<char>, m: Seq<char>) -> Option<
    Seq<char>,
> {
    lookup(cfg, plan_key(n, m, "dest"@))
}

/// The telephone number in the plan's destination.
pub open spec fn dest_tel_of(cfg: Map<Seq<char>, Seq<char>>, n: Seq<char>, m: Seq<char>) -> Option<
    Seq<char>,
> {
    match dest_raw_of(cfg, n, m) {
        Some(v) => tel_number(v),
        None => None,
    }
}

/// User `n` is a subscriber whose authentication identity is `s`.
pub open spec fn subscribes(cfg: Map<Seq<char>, Seq<char>>, n: Seq<char>, s: Seq<char>) -> bool {
    is_digits(n) && lookup(cfg, subscriber_key(n)) == Some(s)
}

/// User `n` is the lowest-numbered subscriber with identity `s`.
pub open spec fn first_subscriber(cfg: Map<Seq<char>, Seq<char>>, s: Seq<char>, n: Seq<char>) -> bool {
    subscribes(cfg, n, s) && forall|n2: Seq<char>| #[trigger]
        subscribes(cfg, n2, s) ==> !id_less(n2, n)
}

/// The username of user `n`, empty where the configuration gives none.
pub open spec fn username_of(cfg: Map<Seq<char>, Seq<char>>, n: Seq<char>) -> Seq<char> {
    match lookup(cfg, username_key(n)) {
        Some(u) => u,
        None => Seq::empty(),
    }
}

/// Some subscriber has identity `s`.
pub open spec fn has_subscriber(cfg: Map<Seq<char>, Seq<char>>, s: Seq<char>) -> bool {
    exists|n: Seq<char>| #[trigger] subscribes(cfg, n, s)
}

/// `u` is the username of the lowest-numbered subscriber with identity `s`.
pub open spec fn first_username(cfg: Map<Seq<char>, Seq<char>>, s: Seq<char>, u: Seq<char>) -> bool {
    exists|n: Seq<char>| #[trigger] first_subscriber(cfg, s, n) && u == username_of(cfg, n)
}

/// `r` is the subscriber of a plan whose source is `srce`: the username of the
/// lowest-numbered subscriber whose identity equals the source, if there is one.
pub open spec fn subscriber_fits(
    cfg: Map<Seq<char>, Seq<char>>,
    srce: Option<Seq<char>>,
    r: Option<Seq<char>>,
) -> bool {
    match srce {
        None => r is None,
        Some(s) => if has_subscriber(cfg, s) {
            r matches Some(u) && first_username(cfg, s, u)
        } else {
            r is None
        },
    }
}

/// `p` is what the configuration says of plan `m` in profile `n`.
pub open spec fn plan_fits(cfg: Map<Seq<char>, Seq<char>>, n: Seq<char>, m: Seq<char>, p: DialPlan) -> bool {
    &&& opt_view(p.srce) == srce_of(cfg, n, m)
    &&& opt_view(p.dest_raw) == dest_raw_of(cfg, n, m)
    &&& opt_view(p.dest_tel) == dest_tel_of(cfg, n, m)
    &&& subscriber_fits(cfg, srce_of(cfg, n, m), opt_view(p.subscriber))
}

/// The collected subscriber records: each one true of the configuration, and one
/// for every subscriber key in it.
pub open spec fn records_fit(cfg: Map<Seq<char>, Seq<char>>, records: Seq<(Vec<char>, String)>) -> bool {
    &&& forall|t: int| 0 <= t < records.len() ==> subscribes(cfg, #[trigger] records[t].0@, records[t].1@)
    &&& forall|n: Seq<char>, s: Seq<char>| #[trigger] subscribes(cfg, n, s) ==> exists|t: int|
        0 <= t < records.len() && records[t].0@ == n
}

/// The subscriber of a source is determined: one user number is the lowest among
/// those with that identity, so one username is its.
pub proof fn first_username_is_unique(cfg: Map<Seq<char>, Seq<char>>, s: Seq<char>, u1: Seq<char>, u2: Seq<char>)
    requires
        first_username(cfg, s, u1),
        first_username(cfg, s, u2),
    ensures
        u1 == u2,
{
    let n1 = choose|n: Seq<char>| #[trigger] first_subscriber(cfg, s, n) && u1 == username_of(cfg, n);
    let n2 = choose|n: Seq<char>| #[trigger] first_subscriber(cfg, s, n) && u2 == username_of(cfg, n);
    if n1 != n2 {
        lemma_id_less_total(n1, n2);
        assert(subscribes(cfg, n1, s) && subscribes(cfg, n2, s));
    }
}

proof fn lemma_first_subscriber_fits(cfg: Map<Seq<char>, Seq<char>>, s: Seq<char>, n: Seq<char>)
    requires
        first_subscriber(cfg, s, n),
    ensures
        subscriber_fits(cfg, Some(s), Some(username_of(cfg, n))),
{
    assert(subscribes(cfg, n, s));
    assert(first_subscriber(cfg, s, n));
}

/// The subscriber records of the configuration: user number and identity.
fn collect_subscribers(cfg: &ConfigMap) -> (r: Vec<(Vec<char>, String)>)
    requires
        cfg.wf(),
    ensures
        records_fit(cfg@, r@),
{
    let entries = cfg.entries();
    proof {
        cfg.lemma_entries();
    }
    let mut r: Vec<(Vec<char>, String)> = Vec::new();
    let mut i: usize = 0;
    while i < entries.len()
        invariant
            i <= entries.len(),
            cfg.wf(),
            entries@ == cfg.entry_seq(),
            forall|t: int| 0 <= t < r@.len() ==> subscribes(cfg@, #[trigger] r@[t].0@, r@[t].1@),
            forall|j: int, n: Seq<char>|
                0 <= j < i && #[trigger] is_subscriber_key(entries@[j].0@, n) ==> exists|t: int|
                    0 <= t < r@.len() && r@[t].0@ == n,
        decreases entries.len() - i,
    {
        proof {
            cfg.lemma_entries();
        }
        let key = chars_of(entries[i].0.as_str());
        match parse_subscriber_key(&key) {
            Some(n) => {
                let ghost t = r@.len();
                let ghost old_r = r@;
                r.push((n, entries[i].1.clone()));
                assert(cfg@.contains_key(entries@[i as int].0@));
                assert forall|t2: int| 0 <= t2 < r@.len() implies subscribes(
                    cfg@,
                    #[trigger] r@[t2].0@,
                    r@[t2].1@,
                ) by {
                    if t2 < t {
                        assert(r@[t2] == old_r[t2]);
                    }
                }
                assert forall|j: int, n2: Seq<char>|
                    0 <= j < i + 1 && #[trigger] is_subscriber_key(entries@[j].0@, n2) implies exists|t2: int|
                        0 <= t2 < r@.len() && r@[t2].0@ == n2 by {
                    if j == i {
                        lemma_subscriber_key_unique(entries@[j].0@, n2, r@[t as int].0@);
                        assert(r@[t as int].0@ == n2);
                    } else {
                        let t2 = choose|t2: int| 0 <= t2 < old_r.len() && old_r[t2].0@ == n2;
                        assert(r@[t2] == old_r[t2]);
                    }
                }
            },
            None => {},
        }
        i = i + 1;
    }
    assert forall|n: Seq<char>, s: Seq<char>| #[trigger] subscribes(cfg@, n, s) implies exists|t: int|
        0 <= t < r@.len() && r@[t].0@ == n by {
        let j = choose|j: int| 0 <= j < entries@.len() && entries@[j].0@ == subscriber_key(n);
        assert(is_subscriber_key(entries@[j].0@, n));
    }
    r
}

/// The username of the lowest-numbered subscriber whose identity is `s`.
fn find_subscriber(cfg: &ConfigMap, records: &Vec<(Vec<char>, String)>, s: &Vec<char>) -> (r:
    Option<String>)
    requires
        cfg.wf(),
        records_fit(cfg@, records@),
    ensures
        subscriber_fits(cfg@, Some(s@), opt_view(r)),
{
    let mut best: Option<usize> = None;
    let mut i: usize = 0;
    let target = string_of(s.as_slice());
    while i < records.len()
        invariant
            i <= records.len(),
            target@ == s@,
            best matches Some(b) ==> b < i && records@[b as int].1@ == s@ && forall|j: int|
                0 <= j < i && records@[j].1@ == s@ ==> !id_less(records@[j].0@, records@[b as int].0@),
            best is None ==> forall|j: int| 0 <= j < i ==> records@[j].1@ != s@,
        decreases records.len() - i,
    {
        if records[i].1 == target {
            match best {
                Some(b) => {
                    if id_less_exec(&records[i].0, &records[b].0) {
                        proof {
                            assert forall|j: int|
                                0 <= j < i + 1 && records@[j].1@ == s@ implies !id_less(
                                records@[j].0@,
                                records@[i as int].0@,
                            ) by {
                                if j < i && id_less(records@[j].0@, records@[i as int].0@) {
                                    lemma_id_less_transitive(
                                        records@[j].0@,
                                        records@[i as int].0@,
                                        records@[b as int].0@,
                                    );
                                }
                            }
                        }
                        best = Some(i);
                    }
                },
                None => {
                    best = Some(i);
                },
            }
        }
        i = i + 1;
    }
    match best {
        None => {
            assert(!has_subscriber(cfg@, s@)) by {
                if has_subscriber(cfg@, s@) {
                    let n = choose|n: Seq<char>| subscribes(cfg@, n, s@);
                    let t = choose|t: int| 0 <= t < records@.len() && records@[t].0@ == n;
                    assert(subscribes(cfg@, records@[t].0@, records@[t].1@));
                    assert(records@[t].1@ == s@);
                }
            }
            let r: Option<String> = None;
            assert(subscriber_fits(cfg@, Some(s@), opt_view(r)));
            r
        },
        Some(b) => {
            let n = &records[b].0;
            let head = chars_of("sip_auth_user_");
            let tail = chars_of("_username");
            let k1 = concat_chars(&head, n);
            let k = concat_chars(&k1, &tail);
            let ks = string_of(k.as_slice());
            let u = match cfg.get(&ks) {
                Some(u) => u.clone(),
                None => String::new(),
            };
            assert(subscribes(cfg@, records@[b as int].0@, records@[b as int].1@));
            assert(first_subscriber(cfg@, s@, n@)) by {
                assert forall|n2: Seq<char>| #[trigger] subscribes(cfg@, n2, s@) implies !id_less(n2, n@) by {
                    let t = choose|t: int| 0 <= t < records@.len() && records@[t].0@ == n2;
                    assert(subscribes(cfg@, records@[t].0@, records@[t].1@));
                }
            }
            assert(u@ == username_of(cfg@, n@));
            proof {
                lemma_first_subscriber_fits(cfg@, s@, n@);
            }
            Some(u)
        },
    }
}

fn plan_key_string(n: &Vec<char>, m: &Vec<char>, f: &str) -> (r: String)
    ensures
        r@ == plan_key(n@, m@, f@),
{
    let a = concat_chars(&chars_of("planner_profile_"), n);
    let b = concat_chars(&a, &chars_of("_plan_"));
    let c = concat_chars(&b, m);
    let d = concat_chars(&c, &chars_of("_"));
    let e = concat_chars(&d, &chars_of(f));
    string_of(e.as_slice())
}

/// Plan `m` of profile `n` as the configuration describes it.
fn build_plan(cfg: &ConfigMap, records: &Vec<(Vec<char>, String)>, n: &Vec<char>, m: &Vec<char>) -> (r:
    DialPlan)
    requires
        cfg.wf(),
        records_fit(cfg@, records@),
    ensures
        plan_fits(cfg@, n@, m@, r),
{
    let srce_key = plan_key_string(n, m, "srce");
    let dest_key = plan_key_string(n, m, "dest");
    let srce_token: Option<Vec<char>> = match cfg.get(&srce_key) {
        Some(v) => find_if_token(&chars_of(v.as_str())),
        None => None,
    };
    let (dest_raw, dest_tel) = match cfg.get(&dest_key) {
        Some(v) => {
            let tel = match find_tel_number(&chars_of(v.as_str())) {
                Some(t) => Some(string_of(t.as_slice())),
                None => None,
            };
            (Some(v.clone()), tel)
        },
        None => (None, None),
    };
    let (srce, subscriber) = match srce_token {
        Some(t) => (Some(string_of(t.as_slice())), find_subscriber(cfg, records, &t)),
        None => (None, None),
    };
    DialPlan { srce, dest_raw, dest_tel, subscriber }
}

/// The distinct (profile, plan) number pairs of the configuration.
fn collect_plans(cfg: &ConfigMap) -> (r: Vec<(Vec<char>, Vec<char>)>)
    requires
        cfg.wf(),
    ensures
        forall|t: int| 0 <= t < r@.len() ==> has_plan(cfg@, #[trigger] r@[t].0@, r@[t].1@),
        forall|t1: int, t2: int|
            0 <= t1 < r@.len() && 0 <= t2 < r@.len() && t1 != t2 ==> r@[t1].0@ != r@[t2].0@
                || r@[t1].1@ != r@[t2].1@,
        forall|n: Seq<char>, m: Seq<char>| #[trigger] has_plan(cfg@, n, m) ==> exists|t: int|
            0 <= t < r@.len() && r@[t].0@ == n && r@[t].1@ == m,
{
    let entries = cfg.entries();
    let mut r: Vec<(Vec<char>, Vec<char>)> = Vec::new();
    let mut i: usize = 0;
    while i < entries.len()
        invariant
            i <= entries.len(),
            cfg.wf(),
            entries@ == cfg.entry_seq(),
            forall|t: int| 0 <= t < r@.len() ==> has_plan(cfg@, #[trigger] r@[t].0@, r@[t].1@),
            forall|t1: int, t2: int|
                0 <= t1 < r@.len() && 0 <= t2 < r@.len() && t1 != t2 ==> r@[t1].0@ != r@[t2].0@
                    || r@[t1].1@ != r@[t2].1@,
            forall|j: int, n: Seq<char>, m: Seq<char>, f: Seq<char>|
                0 <= j < i && #[trigger] is_plan_key(entries@[j].0@, n, m, f) ==> exists|t: int|
                    0 <= t < r@.len() && r@[t].0@ == n && r@[t].1@ == m,
        decreases entries.len() - i,
    {
        proof {
            cfg.lemma_entries();
        }
        let key = chars_of(entries[i].0.as_str());
        match parse_plan_key(&key) {
            Some(parts) => {
                let (n, m, is_srce) = parts;
                let ghost f = if is_srce { "srce"@ } else { "dest"@ };
                assert(cfg@.contains_key(entries@[i as int].0@));
                let mut found = false;
                let mut t: usize = 0;
                while t < r.len()
                    invariant
                        t <= r@.len(),
                        found ==> exists|t2: int| 0 <= t2 < r@.len() && r@[t2].0@ == n@ && r@[t2].1@ == m@,
                        !found ==> forall|t2: int| 0 <= t2 < t ==> r@[t2].0@ != n@ || r@[t2].1@ != m@,
                    decreases r.len() - t,
                {
                    if same_chars(&r[t].0, &n) && same_chars(&r[t].1, &m) {
                        found = true;
                    }
                    t = t + 1;
                }
                let ghost old_r = r@;
                if !found {
                    r.push((n, m));
                    assert forall|t2: int| 0 <= t2 < old_r.len() implies r@[t2] == old_r[t2] by {}
                }
                assert forall|j: int, n2: Seq<char>, m2: Seq<char>, f2: Seq<char>|
                    0 <= j < i + 1 && #[trigger] is_plan_key(entries@[j].0@, n2, m2, f2) implies exists|t2: int|
                        0 <= t2 < r@.len() && r@[t2].0@ == n2 && r@[t2].1@ == m2 by {
                    if j == i {
                        lemma_plan_key_unique(entries@[j].0@, n2, m2, f2, n@, m@, f);
                        if found {
                            let t3 = choose|t3: int| 0 <= t3 < old_r.len() && old_r[t3].0@ == n@ && old_r[t3].1@ == m@;
                            assert(r@[t3] == old_r[t3]);
                        } else {
                            assert(r@[old_r.len() as int].0@ == n2);
                        }
                    } else {
                        let t3 = choose|t3: int| 0 <= t3 < old_r.len() && old_r[t3].0@ == n2 && old_r[t3].1@ == m2;
                        assert(r@[t3] == old_r[t3]);
                    }
                }
            },
            None => {},
        }
        i = i + 1;
    }
    proof {
        cfg.lemma_entries();
    }
    assert forall|n: Seq<char>, m: Seq<char>| #[trigger] has_plan(cfg@, n, m) implies exists|t: int|
        0 <= t < r@.len() && r@[t].0@ == n && r@[t].1@ == m by {
        let f = if cfg@.contains_key(plan_key(n, m, "srce"@)) { "srce"@ } else { "dest"@ };
        let j = choose|j: int| 0 <= j < entries@.len() && entries@[j].0@ == plan_key(n, m, f);
        assert(is_plan_key(entries@[j].0@, n, m, f));
    }
    r
}

proof fn lemma_prefix_injective(p: Seq<char>, a: Seq<char>, b: Seq<char>)
    requires
        p + a == p + b,
    ensures
        a == b,
{
    assert((p + a).subrange(p.len() as int, (p + a).len() as int) =~= a);
    assert((p + b).subrange(p.len() as int, (p + b).len() as int) =~= b);
}

fn prefixed(prefix: &str, v: &Vec<char>) -> (r: String)
    ensures
        r@ == prefix@ + v@,
{
    let c = concat_chars(&chars_of(prefix), v);
    string_of(c.as_slice())
}

/// Builds the dial plans of one device from its configuration map.
///
/// Every key `planner_profile_<n>_plan_<m>_srce` or `..._dest` gives plan `plan_<m>` of
/// profile `profile_<n>`, and nothing else does. A plan's source is the interface token
/// of its `srce` value; its raw destination is the `dest` value, and its telephone
/// number the one found in that value. Its subscriber is the username of the
/// lowest-numbered user whose `sip_auth_user_<n>_subscriber` value equals the source.
/// `quick_lan_ip` and `quick_hostname` give the device's identity.
pub fn extract_dial_plans(config: &ConfigMap) -> (r: DialPlanConfig)
    requires
        config.wf(),
    ensures
        r.wf(),
        forall|i: int, j: int|
            0 <= i < r.profiles@.len() && 0 <= j < r.profiles@[i].1.plans@.len()
                ==> #[trigger] described(config@, r.profiles@, i, j),
        forall|n: Seq<char>, m: Seq<char>| #[trigger] has_plan(config@, n, m) ==> covered(r.profiles@, n, m),
        opt_view(r.ip_address) == lookup(config@, "quick_lan_ip"@),
        opt_view(r.hostname) == lookup(config@, "quick_hostname"@),
{
    let records = collect_subscribers(config);
    let pairs = collect_plans(config);
    let mut profiles: Vec<(String, Profile)> = Vec::new();
    let mut t: usize = 0;
    while t < pairs.len()
        invariant
            t <= pairs@.len(),
            config.wf(),
            records_fit(config@, records@),
            forall|u: int| 0 <= u < pairs@.len() ==> has_plan(config@, #[trigger] pairs@[u].0@, pairs@[u].1@),
            forall|u1: int, u2: int|
                0 <= u1 < pairs@.len() && 0 <= u2 < pairs@.len() && u1 != u2 ==> pairs@[u1].0@ != pairs@[u2].0@
                    || pairs@[u1].1@ != pairs@[u2].1@,
            ids_unique(profiles@),
            forall|i: int, j: int|
                0 <= i < profiles@.len() && 0 <= j < profiles@[i].1.plans@.len()
                    ==> #[trigger] built_from(config@, profiles@, pairs@, t as int, i, j),
            forall|u: int| 0 <= u < t ==> covered(profiles@, #[trigger] pairs@[u].0@, pairs@[u].1@),
        decreases pairs.len() - t,
    {
        let n = &pairs[t].0;
        let m = &pairs[t].1;
        let plan = build_plan(config, &records, n, m);
        let pid = prefixed("profile_", n);
        let qid = prefixed("plan_", m);
        let mut found: Option<usize> = None;
        let mut i: usize = 0;
        while i < profiles.len()
            invariant
                i <= profiles@.len(),
                found matches Some(k) ==> k < profiles@.len() && profiles@[k as int].0@ == pid@,
                found is None ==> forall|k: int| 0 <= k < i ==> profiles@[k].0@ != pid@,
            decreases profiles.len() - i,
        {
            if profiles[i].0 == pid {
                found = Some(i);
            }
            i = i + 1;
        }
        let ghost old_profiles = profiles@;
        match found {
            Some(k) => {
                let (id, mut prof) = profiles.remove(k);
                let ghost old_plans = prof.plans@;
                prof.plans.push((qid, plan));
                profiles.insert(k, (id, prof));
                let ghost nj = old_plans.len() as int;
                proof {
                    assert(profiles@ =~= old_profiles.update(k as int, profiles@[k as int]));
                    assert(profiles@[k as int].1.plans@ == old_plans.push(profiles@[k as int].1.plans@[nj]));
                    assert(names_in(profiles@, k as int, nj, n@, m@));
                    assert forall|j: int| 0 <= j < nj implies profiles@[k as int].1.plans@[j].0@ != qid@ by {
                        assert(built_from(config@, old_profiles, pairs@, t as int, k as int, j));
                        let u = choose|u: int|
                            0 <= u < t && #[trigger] names_in(old_profiles, k as int, j, pairs@[u].0@, pairs@[u].1@)
                                && plan_fits(config@, pairs@[u].0@, pairs@[u].1@, old_profiles[k as int].1.plans@[j].1);
                        lemma_prefix_injective("profile_"@, pairs@[u].0@, n@);
                        if profiles@[k as int].1.plans@[j].0@ == qid@ {
                            lemma_prefix_injective("plan_"@, pairs@[u].1@, m@);
                        }
                    }
                    assert forall|i: int, j: int|
                        0 <= i < profiles@.len() && 0 <= j < profiles@[i].1.plans@.len() implies #[trigger] built_from(config@, profiles@, pairs@, t + 1, i, j) by {
                        if i == k && j == nj {
                            assert(names_in(profiles@, i, j, pairs@[t as int].0@, pairs@[t as int].1@));
                        } else {
                            assert(built_from(config@, old_profiles, pairs@, t as int, i, j));
                            let u = choose|u: int|
                                0 <= u < t && #[trigger] names_in(old_profiles, i, j, pairs@[u].0@, pairs@[u].1@)
                                    && plan_fits(config@, pairs@[u].0@, pairs@[u].1@, old_profiles[i].1.plans@[j].1);
                            assert(names_in(profiles@, i, j, pairs@[u].0@, pairs@[u].1@));
                        }
                    }
                    assert forall|u: int| 0 <= u < t + 1 implies covered(profiles@, #[trigger] pairs@[u].0@, pairs@[u].1@) by {
                        if u == t {
                            assert(names_in(profiles@, k as int, nj, pairs@[u].0@, pairs@[u].1@));
                        } else {
                            assert(covered(old_profiles, pairs@[u].0@, pairs@[u].1@));
                            let (i, j) = choose|i: int, j: int| names_in(old_profiles, i, j, pairs@[u].0@, pairs@[u].1@);
                            assert(names_in(profiles@, i, j, pairs@[u].0@, pairs@[u].1@));
                        }
                    }
                }
            },
            None => {
                let mut plans: Vec<(String, DialPlan)> = Vec::new();
                plans.push((qid, plan));
                profiles.push((pid, Profile { plans }));
                let ghost ni = old_profiles.len() as int;
                proof {
                    assert(profiles@ == old_profiles.push(profiles@[ni]));
                    assert(names_in(profiles@, ni, 0, n@, m@));
                    assert forall|i: int, j: int|
                        0 <= i < profiles@.len() && 0 <= j < profiles@[i].1.plans@.len() implies #[trigger] built_from(config@, profiles@, pairs@, t + 1, i, j) by {
                        if i == ni {
                            assert(names_in(profiles@, i, j, pairs@[t as int].0@, pairs@[t as int].1@));
                        } else {
                            assert(built_from(config@, old_profiles, pairs@, t as int, i, j));
                            let u = choose|u: int|
                                0 <= u < t && #[trigger] names_in(old_profiles, i, j, pairs@[u].0@, pairs@[u].1@)
                                    && plan_fits(config@, pairs@[u].0@, pairs@[u].1@, old_profiles[i].1.plans@[j].1);
                            assert(names_in(profiles@, i, j, pairs@[u].0@, pairs@[u].1@));
                        }
                    }
                    assert forall|u: int| 0 <= u < t + 1 implies covered(profiles@, #[trigger] pairs@[u].0@, pairs@[u].1@) by {
                        if u == t {
                            assert(names_in(profiles@, ni, 0, pairs@[u].0@, pairs@[u].1@));
                        } else {
                            assert(covered(old_profiles, pairs@[u].0@, pairs@[u].1@));
                            let (i, j) = choose|i: int, j: int| names_in(old_profiles, i, j, pairs@[u].0@, pairs@[u].1@);
                            assert(names_in(profiles@, i, j, pairs@[u].0@, pairs@[u].1@));
                        }
                    }
                }
            },
        }
        t = t + 1;
    }
    let ip_address = match config.get(&string_of(chars_of("quick_lan_ip").as_slice())) {
        Some(v) => Some(v.clone()),
        None => None,
    };
    let hostname = match config.get(&string_of(chars_of("quick_hostname").as_slice())) {
        Some(v) => Some(v.clone()),
        None => None,
    };
    proof {
        assert forall|i: int, j: int|
            0 <= i < profiles@.len() && 0 <= j < profiles@[i].1.plans@.len() implies #[trigger] described(
            config@,
            profiles@,
            i,
            j,
        ) by {
            assert(built_from(config@, profiles@, pairs@, t as int, i, j));
            let u = choose|u: int|
                0 <= u < t && #[trigger] names_in(profiles@, i, j, pairs@[u].0@, pairs@[u].1@)
                    && plan_fits(config@, pairs@[u].0@, pairs@[u].1@, profiles@[i].1.plans@[j].1);
            assert(has_plan(config@, pairs@[u].0@, pairs@[u].1@));
        }
        assert forall|n: Seq<char>, m: Seq<char>| #[trigger] has_plan(config@, n, m) implies covered(
            profiles@,
            n,
            m,
        ) by {
            let u = choose|u: int| 0 <= u < pairs@.len() && pairs@[u].0@ == n && pairs@[u].1@ == m;
            assert(covered(profiles@, pairs@[u].0@, pairs@[u].1@));
        }
    }
    DialPlanConfig { profiles, ip_address, hostname }
}

} // verus!
