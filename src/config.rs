//! The configuration dump parser: raw text to a flat key/value map.

use vstd::prelude::*;
use crate::text::{
    chars_of, concat_chars, copy_range, find, find_chars, find_from, is_space, occurs_at, strip_back, lemma_find_from_bounds, lemma_strip_front_split,
    lemma_find_from_suffix, replace_char, replace_chars, string_of, strip, strip_chars, strip_front,
    strip_front_chars, CharClass,
};

verus! {

/// One parsed statement: a line `set <key> = <value>` gives its normalised key and value.
///
/// The line is trimmed; it counts only if it holds both `=` and `set`. The first `set`
/// is removed, the rest is trimmed again and split at its first `=`. The key half is
/// trimmed, its dots become underscores and its leading underscores go; the value half
/// loses white space and double quotes at both ends. A line whose key comes out empty
/// counts for nothing.
pub open spec fn parse_line(line: Seq<char>) -> Option<(Seq<char>, Seq<char>)> {
    let t = strip(line, CharClass::Space);
    let marker = find(t, "set"@);
    if find(t, "="@) is None || marker is None {
        None
    } else {
        let p = marker->0;
        let r = strip(
            t.subrange(0, p as int) + t.subrange((p + "set"@.len()) as int, t.len() as int),
            CharClass::Space,
        );
        match find(r, "="@) {
            None => None,
            Some(e) => {
                let key = strip_front(
                    replace_char(strip(r.subrange(0, e as int), CharClass::Space), '.', '_'),
                    CharClass::Underscore,
                );
                let value = strip(r.subrange((e + 1) as int, r.len() as int), CharClass::SpaceOrQuote);
                if key.len() == 0 {
                    None
                } else {
                    Some((key, value))
                }
            },
        }
    }
}

/// The lines of `s`: the pieces between newline characters.
pub open spec fn split_lines(s: Seq<char>) -> Seq<Seq<char>>
    decreases s.len(),
{
    let f = find(s, seq!['\n']);
    if f is Some && f->0 < s.len() {
        seq![s.subrange(0, f->0 as int)] + split_lines(s.subrange((f->0 + 1) as int, s.len() as int))
    } else {
        seq![s]
    }
}

/// `m` after the statement on `line`, if any: a later key overwrites an earlier one.
pub open spec fn apply_line(m: Map<Seq<char>, Seq<char>>, line: Seq<char>) -> Map<
    Seq<char>,
    Seq<char>,
> {
    match parse_line(line) {
        Some((k, v)) => m.insert(k, v),
        None => m,
    }
}

/// `m` after the statements on `lines`, first to last.
pub open spec fn apply_lines(m: Map<Seq<char>, Seq<char>>, lines: Seq<Seq<char>>) -> Map<
    Seq<char>,
    Seq<char>,
>
    decreases lines.len(),
{
    if lines.len() == 0 {
        m
    } else {
        apply_lines(apply_line(m, lines[0]), lines.drop_first())
    }
}

/// The map that the configuration text `s` describes.
pub open spec fn parse_config(s: Seq<char>) -> Map<Seq<char>, Seq<char>> {
    apply_lines(Map::empty(), split_lines(s))
}

/// Whether `k` is a normalised key: no dot, and no leading underscore.
pub open spec fn is_normal_key(k: Seq<char>) -> bool {
    &&& forall|i: int| 0 <= i < k.len() ==> k[i] != '.'
    &&& !(k.len() > 0 && k[0] == '_')
}

/// A flat map from normalised configuration keys to values.
pub struct ConfigMap {
    entries: Vec<(String, String)>,
}

impl ConfigMap {
    /// No key occurs twice among the entries.
    pub closed spec fn wf(&self) -> bool {
        forall|i: int, j: int|
            0 <= i < self.entries@.len() && 0 <= j < self.entries@.len() && i != j
                ==> self.entries@[i].0@ != self.entries@[j].0@
    }

    pub closed spec fn has_key_at(&self, k: Seq<char>, i: int) -> bool {
        0 <= i < self.entries@.len() && self.entries@[i].0@ == k
    }

    /// The entries, in the order in which their keys first appeared.
    pub closed spec fn entry_seq(&self) -> Seq<(String, String)> {
        self.entries@
    }

    /// An empty map.
    pub fn new() -> (r: ConfigMap)
        ensures
            r.wf(),
            r@ == Map::<Seq<char>, Seq<char>>::empty(),
    {
        let r = ConfigMap { entries: Vec::new() };
        assert(r@ =~= Map::<Seq<char>, Seq<char>>::empty());
        r
    }

    /// The number of keys.
    pub fn len(&self) -> (r: usize)
        requires
            self.wf(),
        ensures
            r == self@.len(),
    {
        proof {
            self.lemma_len();
        }
        self.entries.len()
    }

    proof fn lemma_len(&self)
        requires
            self.wf(),
        ensures
            self@.len() == self.entries@.len(),
    {
        let keys = self.entries@.map_values(|e: (String, String)| e.0@);
        assert(keys.no_duplicates());
        keys.unique_seq_to_set();
        assert forall|k: Seq<char>| self@.dom().contains(k) <==> keys.to_set().contains(k) by {
            if self@.dom().contains(k) {
                let i = choose|i: int| self.has_key_at(k, i);
                assert(keys[i] == k);
            }
            if keys.to_set().contains(k) {
                let i = choose|i: int| 0 <= i < keys.len() && keys[i] == k;
                assert(self.has_key_at(k, i));
            }
        }
        assert(self@.dom() =~= keys.to_set());
    }

    /// The entries are the map: one for each key, each with the key's value.
    pub proof fn lemma_entries(&self)
        requires
            self.wf(),
        ensures
            forall|i: int|
                0 <= i < self.entry_seq().len() ==> #[trigger] self@.contains_key(
                    self.entry_seq()[i].0@,
                ) && self@[self.entry_seq()[i].0@] == self.entry_seq()[i].1@,
            forall|k: Seq<char>|
                #[trigger] self@.contains_key(k) ==> exists|i: int|
                    0 <= i < self.entry_seq().len() && self.entry_seq()[i].0@ == k,
            forall|i: int, j: int|
                0 <= i < self.entry_seq().len() && 0 <= j < self.entry_seq().len() && i != j
                    ==> self.entry_seq()[i].0@ != self.entry_seq()[j].0@,
    {
        assert forall|i: int| 0 <= i < self.entry_seq().len() implies #[trigger] self@.contains_key(
            self.entry_seq()[i].0@,
        ) && self@[self.entry_seq()[i].0@] == self.entry_seq()[i].1@ by {
            assert(self.has_key_at(self.entries@[i].0@, i));
        }
        assert forall|k: Seq<char>| #[trigger] self@.contains_key(k) implies exists|i: int|
            0 <= i < self.entry_seq().len() && self.entry_seq()[i].0@ == k by {
            let i = choose|i: int| self.has_key_at(k, i);
            assert(0 <= i < self.entry_seq().len() && self.entry_seq()[i].0@ == k);
        }
    }

    /// The entries, in the order in which their keys first appeared.
    pub fn entries(&self) -> (r: &Vec<(String, String)>)
        ensures
            r@ == self.entry_seq(),
    {
        &self.entries
    }

    fn index_of(&self, key: &String) -> (r: Option<usize>)
        requires
            self.wf(),
        ensures
            r matches Some(i) ==> self.has_key_at(key@, i as int),
            r is None ==> !self@.contains_key(key@),
    {
        let mut i: usize = 0;
        while i < self.entries.len()
            invariant
                i <= self.entries@.len(),
                forall|j: int| 0 <= j < i ==> self.entries@[j].0@ != key@,
            decreases self.entries.len() - i,
        {
            if self.entries[i].0 == *key {
                return Some(i);
            }
            i = i + 1;
        }
        None
    }

    /// The value stored under `key`.
    pub fn get(&self, key: &String) -> (r: Option<&String>)
        requires
            self.wf(),
        ensures
            r matches Some(v) ==> self@.contains_key(key@) && self@[key@] == v@,
            r is None ==> !self@.contains_key(key@),
    {
        match self.index_of(key) {
            Some(i) => Some(&self.entries[i].1),
            None => None,
        }
    }

    /// Stores `value` under `key`, replacing what was there.
    pub fn insert(&mut self, key: String, value: String)
        requires
            old(self).wf(),
        ensures
            final(self).wf(),
            final(self)@ == old(self)@.insert(key@, value@),
    {
        let ghost k = key@;
        let ghost v = value@;
        match self.index_of(&key) {
            Some(i) => {
                self.entries.set(i, (key, value));
                assert forall|j: int| 0 <= j < self.entries@.len() implies #[trigger] self.entries@[j].0@
                    == old(self).entries@[j].0@ by {}
                assert forall|k2: Seq<char>, j: int| #[trigger] self.has_key_at(k2, j) == old(self).has_key_at(k2, j) by {}
                assert forall|k2: Seq<char>| #[trigger] self@.contains_key(k2) implies self@[k2] == old(
                    self,
                )@.insert(k, v)[k2] by {
                    if self@.contains_key(k2) {
                        let j = choose|j: int| self.has_key_at(k2, j);
                        if k2 != k {
                            assert(old(self).has_key_at(k2, j));
                        } else {
                            assert(j == i);
                        }
                    }
                }
                assert forall|k2: Seq<char>| self@.contains_key(k2) <==> old(self)@.insert(
                    k,
                    v,
                ).contains_key(k2) by {
                    if self@.contains_key(k2) {
                        let j = choose|j: int| self.has_key_at(k2, j);
                        assert(old(self).has_key_at(k2, j));
                    }
                    if old(self)@.contains_key(k2) {
                        let j = choose|j: int| old(self).has_key_at(k2, j);
                        assert(self.has_key_at(k2, j));
                    }
                    if k2 == k {
                        assert(self.has_key_at(k2, i as int));
                    }
                }
                assert(self@.dom() =~= old(self)@.insert(k, v).dom());
                assert(self@ =~= old(self)@.insert(k, v));
            },
            None => {
                self.entries.push((key, value));
                let ghost n = self.entries@.len() - 1;
                assert forall|j: int| 0 <= j < n implies #[trigger] self.entries@[j].0@ != k by {
                    if self.entries@[j].0@ == k {
                        assert(old(self).has_key_at(k, j));
                    }
                }
                assert forall|k2: Seq<char>| #[trigger] self@.contains_key(k2) implies self@[k2] == old(
                    self,
                )@.insert(k, v)[k2] by {
                    if self@.contains_key(k2) {
                        let j = choose|j: int| self.has_key_at(k2, j);
                        if k2 != k {
                            assert(old(self).has_key_at(k2, j));
                        } else if j < n {
                            assert(old(self).has_key_at(k2, j));
                        }
                    }
                }
                assert forall|k2: Seq<char>| #[trigger] self@.contains_key(k2) implies old(
                    self,
                )@.insert(k, v).contains_key(k2) by {
                    let j = choose|j: int| self.has_key_at(k2, j);
                    if j < n {
                        assert(old(self).has_key_at(k2, j));
                    }
                }
                assert forall|k2: Seq<char>| #[trigger] old(self)@.insert(k, v).contains_key(k2)
                    implies self@.contains_key(k2) by {
                    if k2 == k {
                        assert(self.has_key_at(k2, n));
                    } else {
                        let j = choose|j: int| old(self).has_key_at(k2, j);
                        assert(self.has_key_at(k2, j));
                    }
                }
                assert(self@ =~= old(self)@.insert(k, v));
            },
        }
    }
}

/// The key and value of the statement on `line`, if it holds one.
pub fn parse_statement(line: &Vec<char>) -> (r: Option<(Vec<char>, Vec<char>)>)
    ensures
        r matches Some(kv) ==> parse_line(line@) == Some((kv.0@, kv.1@)),
        r is None ==> parse_line(line@) is None,
{
    let t = strip_chars(line, CharClass::Space);
    let eq = chars_of("=");
    let marker = chars_of("set");
    proof {
        reveal_strlit("=");
    }
    let has_eq = find_chars(&t, &eq, 0);
    let found = find_chars(&t, &marker, 0);
    if has_eq.is_none() {
        return None;
    }
    let p = match found {
        Some(p) => p,
        None => {
            return None;
        },
    };
    proof {
        lemma_find_from_bounds(t@, marker@, 0);
    }
    let head = copy_range(&t, 0, p);
    let tail = copy_range(&t, p + marker.len(), t.len());
    let joined = concat_chars(&head, &tail);
    let r = strip_chars(&joined, CharClass::Space);
    let e = match find_chars(&r, &eq, 0) {
        Some(e) => e,
        None => {
            return None;
        },
    };
    proof {
        lemma_find_from_bounds(r@, eq@, 0);
    }
    let key_half = copy_range(&r, 0, e);
    let key_trimmed = strip_chars(&key_half, CharClass::Space);
    let key_dots = replace_chars(&key_trimmed, '.', '_');
    let key = strip_front_chars(&key_dots, CharClass::Underscore);
    let value_half = copy_range(&r, e + 1, r.len());
    let value = strip_chars(&value_half, CharClass::SpaceOrQuote);
    if key.len() == 0 {
        None
    } else {
        Some((key, value))
    }
}

/// Parses a configuration dump into its key/value map.
///
/// Each line `set <key> = <value>` contributes one entry (see `parse_line`); other
/// lines, and lines whose key comes out empty, are skipped. A later line overwrites
/// an earlier one with the same key.
pub fn format_config(config: &str) -> (r: ConfigMap)
    ensures
        r.wf(),
        r@ == parse_config(config@),
{
    let text = chars_of(config);
    let newline = chars_of("\n");
    proof {
        reveal_strlit("\n");
        assert(newline@ =~= seq!['\n']);
    }
    let mut map = ConfigMap::new();
    let mut start: usize = 0;
    assert(text@.subrange(0, text@.len() as int) =~= text@);
    loop
        invariant
            start <= text.len(),
            newline@ == seq!['\n'],
            map.wf(),
            apply_lines(map@, split_lines(text@.subrange(start as int, text@.len() as int)))
                == parse_config(config@),
            text@ == config@,
        decreases text.len() - start,
    {
        let ghost rest = text@.subrange(start as int, text@.len() as int);
        let found = find_chars(&text, &newline, start);
        proof {
            lemma_find_from_bounds(text@, newline@, start as nat);
            lemma_find_from_suffix(text@, newline@, start as nat, start as nat);
        }
        let end = match found {
            Some(e) => e,
            None => text.len(),
        };
        let line = copy_range(&text, start, end);
        let ghost before = map@;
        match parse_statement(&line) {
            Some(kv) => {
                let (k, v) = kv;
                map.insert(string_of(k.as_slice()), string_of(v.as_slice()));
            },
            None => {},
        }
        assert(map@ == apply_line(before, line@));
        match found {
            Some(e) => {
                let ghost lines = split_lines(rest);
                assert(rest.subrange(0, (e - start) as int) =~= line@);
                assert(rest.subrange((e - start + 1) as int, rest.len() as int) =~= text@.subrange(
                    e + 1,
                    text@.len() as int,
                ));
                assert(lines.drop_first() =~= split_lines(text@.subrange(e + 1, text@.len() as int)));
                start = e + 1;
            },
            None => {
                assert(rest =~= line@);
                assert(split_lines(rest) == seq![rest]);
                assert(split_lines(rest).drop_first() =~= Seq::<Seq<char>>::empty());
                assert(apply_lines(map@, Seq::<Seq<char>>::empty()) == map@);
                return map;
            },
        }
    }
}

/// Parsing is a function of the text: parsing the same text twice gives the same map.
pub proof fn parse_twice_same_map(text: Seq<char>, first: ConfigMap, second: ConfigMap)
    requires
        first@ == parse_config(text),
        second@ == parse_config(text),
    ensures
        first@ == second@,
{
}

/// Every key that a line yields is normalised.
pub proof fn line_key_is_normal(line: Seq<char>)
    ensures
        parse_line(line) matches Some(kv) ==> is_normal_key(kv.0),
{
    let t = strip(line, CharClass::Space);
    if find(t, "="@) is Some && find(t, "set"@) is Some {
        let p = find(t, "set"@)->0;
        let r = strip(
            t.subrange(0, p as int) + t.subrange((p + "set"@.len()) as int, t.len() as int),
            CharClass::Space,
        );
        if let Some(e) = find(r, "="@) {
            let d = replace_char(strip(r.subrange(0, e as int), CharClass::Space), '.', '_');
            lemma_strip_front_split(d, CharClass::Underscore);
            let key = strip_front(d, CharClass::Underscore);
            let j = choose|j: int|
                0 <= j <= d.len() && key == d.subrange(j, d.len() as int) && forall|t: int|
                    0 <= t < j ==> CharClass::Underscore.has(#[trigger] d[t]);
            assert forall|i: int| 0 <= i < key.len() implies key[i] != '.' by {
                assert(key[i] == d[i + j]);
            }
        }
    }
}

/// No key of a parsed map holds a dot or starts with an underscore.
pub proof fn parsed_keys_are_normal(text: Seq<char>)
    ensures
        forall|k: Seq<char>| #[trigger] parse_config(text).contains_key(k) ==> is_normal_key(k),
{
    lemma_apply_lines_normal(Map::empty(), split_lines(text));
}

proof fn lemma_apply_lines_normal(m: Map<Seq<char>, Seq<char>>, lines: Seq<Seq<char>>)
    requires
        forall|k: Seq<char>| #[trigger] m.contains_key(k) ==> is_normal_key(k),
    ensures
        forall|k: Seq<char>| #[trigger] apply_lines(m, lines).contains_key(k) ==> is_normal_key(k),
    decreases lines.len(),
{
    if lines.len() > 0 {
        line_key_is_normal(lines[0]);
        let m2 = apply_line(m, lines[0]);
        assert forall|k: Seq<char>| #[trigger] m2.contains_key(k) implies is_normal_key(k) by {
            if !m.contains_key(k) {
                assert(parse_line(lines[0]) is Some);
            }
        }
        lemma_apply_lines_normal(m2, lines.drop_first());
        assert(apply_lines(m, lines) == apply_lines(m2, lines.drop_first()));
    } else {
        assert(apply_lines(m, lines) == m);
    }
}

/// A word that may stand on either side of the dot of a `set` statement's key: not
/// empty, with no white space, dot, equals sign or double quote.
pub open spec fn is_plain_word(w: Seq<char>) -> bool {
    w.len() > 0 && forall|i: int|
        0 <= i < w.len() ==> !is_space(#[trigger] w[i]) && w[i] != '.' && w[i] != '=' && w[i] != '"'
}

/// The statement `set <k>.<sub> = "<v>"`.
pub open spec fn dotted_statement(k: Seq<char>, sub: Seq<char>, v: Seq<char>) -> Seq<char> {
    "set "@ + k + "."@ + sub + " = \""@ + v + "\""@
}

proof fn lemma_find_at(s: Seq<char>, pat: Seq<char>, from: nat, i: nat)
    requires
        from <= i,
        occurs_at(s, pat, i as int),
        forall|j: int| from <= j < i ==> !occurs_at(s, pat, j),
    ensures
        find_from(s, pat, from) == Some(i),
    decreases i - from,
{
    if from < i {
        assert(!occurs_at(s, pat, from as int));
        lemma_find_at(s, pat, from + 1, i);
    }
}

proof fn lemma_find_some(s: Seq<char>, pat: Seq<char>, from: nat, i: nat)
    requires
        from <= i,
        occurs_at(s, pat, i as int),
    ensures
        find_from(s, pat, from) is Some,
    decreases i - from,
{
    if from < i && !occurs_at(s, pat, from as int) {
        lemma_find_some(s, pat, from + 1, i);
    }
}

proof fn lemma_find_none(s: Seq<char>, pat: Seq<char>, from: nat)
    requires
        forall|j: int| from <= j ==> !occurs_at(s, pat, j),
    ensures
        find_from(s, pat, from) is None,
    decreases s.len() + 1 - from,
{
    if from + pat.len() <= s.len() {
        lemma_find_none(s, pat, from + 1);
    }
}

/// A line `set <k>.<sub> = "<v>"` on its own gives the one entry `<k>_<sub>` to `<v>`,
/// where `k` and `sub` are plain words, `k` does not start with an underscore, and
/// `v` holds no newline and neither starts nor ends with white space or a quote.
#[verifier::spinoff_prover]
#[verifier::rlimit(80)]
pub proof fn dotted_statement_gives_underscored_key(k: Seq<char>, sub: Seq<char>, v: Seq<char>)
    requires
        is_plain_word(k),
        is_plain_word(sub),
        k[0] != '_',
        v.len() > 0,
        forall|i: int| 0 <= i < v.len() ==> #[trigger] v[i] != '\n',
        !is_space(v[0]) && v[0] != '"',
        !is_space(v.last()) && v.last() != '"',
    ensures
        parse_config(dotted_statement(k, sub, v)) == map![k + "_"@ + sub => v],
{
    reveal_strlit("set ");
    reveal_strlit(".");
    reveal_strlit(" = \"");
    reveal_strlit("\"");
    reveal_strlit("_");
    reveal_strlit("set");
    reveal_strlit("=");
    let line = dotted_statement(k, sub, v);
    let n = line.len();
    let q: int = 4 + k.len() as int + 1 + sub.len() as int + 1;
    // The line is already trimmed.
    assert(strip_front(line, CharClass::Space) == line);
    assert(strip_back(line, CharClass::Space) == line);
    let t = strip(line, CharClass::Space);
    assert(t == line);
    // The first `set` opens the line; an `=` follows the key.
    assert(line.subrange(0, 3) =~= "set"@);
    assert(find(t, "set"@) == Some(0nat));
    assert(line.subrange(q as int, q + 1) =~= "="@);
    lemma_find_some(line, "="@, 0, q as nat);
    // Removing `set` and trimming leaves `<k>.<sub> = "<v>"`.
    let joined = t.subrange(0, 0) + t.subrange(3, n as int);
    let r = k + "."@ + sub + " = \""@ + v + "\""@;
    assert(joined.drop_first() =~= r);
    assert(strip_front(r, CharClass::Space) == r);
    assert(strip_front(joined, CharClass::Space) == r);
    assert(strip_back(r, CharClass::Space) == r);
    assert(strip(joined, CharClass::Space) == r);
    // Its first `=` ends the key half.
    let e: int = k.len() as int + 1 + sub.len() as int + 1;
    assert forall|j: int| 0 <= j < e implies !occurs_at(r, "="@, j) by {
        assert(r.subrange(j, j + 1)[0] == r[j]);
        if j < k.len() {
            assert(r[j] == k[j]);
        } else if j > k.len() && j < k.len() + 1 + sub.len() {
            assert(r[j] == sub[j - k.len() - 1]);
        }
    }
    assert(r.subrange(e as int, e + 1) =~= "="@);
    lemma_find_at(r, "="@, 0, e as nat);
    // The key half trims to `<k>.<sub>`, which becomes `<k>_<sub>`.
    let kh = r.subrange(0, e as int);
    let ks = k + "."@ + sub;
    assert(kh.drop_last() =~= ks);
    assert(strip_front(kh, CharClass::Space) == kh);
    assert(strip_back(ks, CharClass::Space) == ks);
    assert(strip_back(kh, CharClass::Space) == ks);
    assert(replace_char(ks, '.', '_') =~= k + "_"@ + sub);
    assert(strip_front(k + "_"@ + sub, CharClass::Underscore) == k + "_"@ + sub);
    // The value half loses its space and quotes.
    let vh = r.subrange(e + 1, r.len() as int);
    let vq = v + "\""@;
    assert(vh.drop_first().drop_first() =~= vq);
    assert(strip_front(vq, CharClass::SpaceOrQuote) == vq);
    assert(strip_front(vh.drop_first(), CharClass::SpaceOrQuote) == vq);
    assert(strip_front(vh, CharClass::SpaceOrQuote) == vq);
    assert(vq.drop_last() =~= v);
    assert(strip_back(v, CharClass::SpaceOrQuote) == v);
    assert(strip_back(vq, CharClass::SpaceOrQuote) == v);
    assert(parse_line(line) == Some((k + "_"@ + sub, v)));
    // The text is one line.
    assert forall|j: int| 0 <= j implies !occurs_at(line, seq!['\n'], j) by {
        if occurs_at(line, seq!['\n'], j) {
            assert(line.subrange(j, j + 1)[0] == line[j]);
            if 4 <= j < 4 + k.len() {
                assert(line[j] == k[j - 4]);
            } else if 5 + k.len() <= j < 5 + k.len() + sub.len() {
                assert(line[j] == sub[j - 5 - k.len()]);
            } else if q + 2 <= j < q + 2 + v.len() {
                assert(line[j] == v[j - q - 2]);
            }
        }
    }
    lemma_find_none(line, seq!['\n'], 0);
    assert(split_lines(line) == seq![line]);
    assert(seq![line].drop_first() =~= Seq::<Seq<char>>::empty());
    let m1 = apply_line(Map::empty(), line);
    assert(m1 == Map::<Seq<char>, Seq<char>>::empty().insert(k + "_"@ + sub, v));
    assert(apply_lines(m1, Seq::<Seq<char>>::empty()) == m1);
    assert(apply_lines(Map::empty(), seq![line]) == apply_lines(m1, Seq::<Seq<char>>::empty()));
    assert(parse_config(line) =~= map![k + "_"@ + sub => v]);
}

impl View for ConfigMap {
    type V = Map<Seq<char>, Seq<char>>;

    /// Each key maps to the value of the entry that holds it.
    closed spec fn view(&self) -> Map<Seq<char>, Seq<char>> {
        Map::new(
            |k: Seq<char>| exists|i: int| self.has_key_at(k, i),
            |k: Seq<char>| self.entries@[choose|i: int| self.has_key_at(k, i)].1@,
        )
    }
}

} // verus!
