//! Extraction of `key=value` attributes from a message.

use vstd::prelude::*;
use crate::text::{
    CharClass, chars_of, in_class, is_space, is_word, lemma_skip_class, lemma_skip_class_exact, skip,
    skip_class,
};

verus! {

broadcast use vstd::string::group_string_axioms;

/// The mapping that a sequence of pairs denotes when later pairs overwrite earlier ones.
pub open spec fn pairs_map(ps: Seq<(Seq<char>, Seq<char>)>) -> Map<Seq<char>, Seq<char>>
    decreases ps.len(),
{
    if ps.len() == 0 {
        Map::empty()
    } else {
        pairs_map(ps.drop_last()).insert(ps.last().0, ps.last().1)
    }
}

/// No key occurs twice.
pub open spec fn distinct_keys(ps: Seq<(Seq<char>, Seq<char>)>) -> bool {
    forall|i: int, j: int| 0 <= i < j < ps.len() ==> ps[i].0 != ps[j].0
}

/// The views of stored key/value pairs.
pub open spec fn view_pairs(es: Seq<(String, String)>) -> Seq<(Seq<char>, Seq<char>)> {
    es.map_values(|e: (String, String)| (e.0@, e.1@))
}

/// The `key=value` match that starts at position `i` of `s`, if any: its key, its
/// stored value, and the position just past it. A key is a run of word characters
/// followed by `=`; a value is a double-quoted span, stored without its quotes, or
/// else a run of non-whitespace characters.
pub open spec fn pair_at(s: Seq<char>, i: int) -> Option<(Seq<char>, Seq<char>, int)> {
    let j = skip_class(s, i, CharClass::Word);
    if i < j && j + 1 < s.len() && s[j] == '=' && !is_space(s[j + 1]) {
        let q = skip_class(s, j + 2, CharClass::NotQuote);
        if s[j + 1] == '"' && q < s.len() {
            Some((s.subrange(i, j), s.subrange(j + 2, q), q + 1))
        } else {
            let e = skip_class(s, j + 1, CharClass::NonSpace);
            Some((s.subrange(i, j), s.subrange(j + 1, e), e))
        }
    } else {
        None
    }
}

pub proof fn lemma_pair_end(s: Seq<char>, i: int)
    requires
        0 <= i < s.len(),
        pair_at(s, i) is Some,
    ensures
        match pair_at(s, i) {
            Some(t) => i < t.2 <= s.len(),
            None => true,
        },
{
    let j = skip_class(s, i, CharClass::Word);
    lemma_skip_class(s, i, CharClass::Word);
    lemma_skip_class(s, j + 1, CharClass::NonSpace);
    if j + 2 <= s.len() {
        lemma_skip_class(s, j + 2, CharClass::NotQuote);
    }
}

/// The matches found scanning left to right from position `p`: each match is
/// taken at the leftmost position where one starts, and scanning resumes just
/// past it.
pub open spec fn scan(s: Seq<char>, p: int) -> Seq<(Seq<char>, Seq<char>)>
    decreases s.len() - p,
    via scan_decreases
{
    if p < 0 || p >= s.len() {
        Seq::empty()
    } else {
        match pair_at(s, p) {
            Some(t) => seq![(t.0, t.1)] + scan(s, t.2),
            None => scan(s, p + 1),
        }
    }
}

#[via_fn]
proof fn scan_decreases(s: Seq<char>, p: int) {
    if 0 <= p < s.len() && pair_at(s, p) is Some {
        lemma_pair_end(s, p);
    }
}

/// The attributes of a message: later occurrences of a key overwrite earlier ones.
pub open spec fn extract_spec(s: Seq<char>) -> Map<Seq<char>, Seq<char>> {
    pairs_map(scan(s, 0))
}

pub proof fn lemma_pairs_map_dom(ps: Seq<(Seq<char>, Seq<char>)>, k: Seq<char>)
    ensures
        pairs_map(ps).dom().contains(k) <==> exists|i: int| 0 <= i < ps.len() && ps[i].0 == k,
    decreases ps.len(),
{
    if ps.len() > 0 {
        lemma_pairs_map_dom(ps.drop_last(), k);
        if exists|i: int| 0 <= i < ps.len() && ps[i].0 == k {
            let i = choose|i: int| 0 <= i < ps.len() && ps[i].0 == k;
            if i < ps.len() - 1 {
                assert(ps.drop_last()[i] == ps[i]);
            }
        }
        if exists|i: int| 0 <= i < ps.drop_last().len() && ps.drop_last()[i].0 == k {
            let i = choose|i: int| 0 <= i < ps.drop_last().len() && ps.drop_last()[i].0 == k;
            assert(ps[i] == ps.drop_last()[i]);
        }
    }
}

pub proof fn lemma_pairs_map_index(ps: Seq<(Seq<char>, Seq<char>)>, i: int)
    requires
        distinct_keys(ps),
        0 <= i < ps.len(),
    ensures
        pairs_map(ps).dom().contains(ps[i].0),
        pairs_map(ps)[ps[i].0] == ps[i].1,
    decreases ps.len(),
{
    if i < ps.len() - 1 {
        let d = ps.drop_last();
        assert(d[i] == ps[i]);
        assert(distinct_keys(d));
        lemma_pairs_map_index(d, i);
    }
}

pub proof fn lemma_pairs_map_update(
    ps: Seq<(Seq<char>, Seq<char>)>,
    i: int,
    v: Seq<char>,
)
    requires
        distinct_keys(ps),
        0 <= i < ps.len(),
    ensures
        pairs_map(ps.update(i, (ps[i].0, v))) == pairs_map(ps).insert(ps[i].0, v),
    decreases ps.len(),
{
    let k = ps[i].0;
    let u = ps.update(i, (k, v));
    if i == ps.len() - 1 {
        assert(u.drop_last() =~= ps.drop_last());
        assert(pairs_map(u) =~= pairs_map(ps).insert(k, v));
    } else {
        let d = ps.drop_last();
        assert(d[i] == ps[i]);
        assert(distinct_keys(d));
        lemma_pairs_map_update(d, i, v);
        assert(u.drop_last() =~= d.update(i, (k, v)));
        assert(ps.last().0 != k);
        assert(pairs_map(u) =~= pairs_map(ps).insert(k, v));
    }
}

pub proof fn lemma_pairs_map_len(ps: Seq<(Seq<char>, Seq<char>)>)
    requires
        distinct_keys(ps),
    ensures
        pairs_map(ps).dom().finite(),
        pairs_map(ps).dom().len() == ps.len(),
    decreases ps.len(),
{
    if ps.len() > 0 {
        let d = ps.drop_last();
        assert(distinct_keys(d));
        lemma_pairs_map_len(d);
        lemma_pairs_map_dom(d, ps.last().0);
        if exists|i: int| 0 <= i < d.len() && d[i].0 == ps.last().0 {
            let i = choose|i: int| 0 <= i < d.len() && d[i].0 == ps.last().0;
            assert(ps[i] == d[i]);
        }
    }
}

/// Finds the `key=value` match that starts at position `i`: the end of its key,
/// the bounds of its stored value and the position just past it.
fn match_at(cs: &Vec<char>, i: usize) -> (r: Option<(usize, usize, usize, usize)>)
    requires
        i < cs@.len(),
    ensures
        r is Some <==> pair_at(cs@, i as int) is Some,
        r matches Some((j, a, b, e)) ==> {
            let t = pair_at(cs@, i as int)->0;
            &&& i <= j <= cs@.len()
            &&& a <= b <= cs@.len()
            &&& cs@.subrange(i as int, j as int) == t.0
            &&& cs@.subrange(a as int, b as int) == t.1
            &&& e as int == t.2
        },
{
    let j = skip(cs, i, CharClass::Word);
    if i < j && j < cs.len() - 1 && cs[j] == '=' && !crate::text::space_char(cs[j + 1]) {
        let q = skip(cs, j + 2, CharClass::NotQuote);
        if cs[j + 1] == '"' && q < cs.len() {
            Some((j, j + 2, q, q + 1))
        } else {
            let e = skip(cs, j + 1, CharClass::NonSpace);
            Some((j, j + 1, e, e))
        }
    } else {
        None
    }
}

/// The attributes embedded in a message. A key is one or more word characters
/// directly followed by `=`; its value is a double-quoted span (stored without
/// the quotes, and which may hold whitespace and `=`) or else a run of
/// non-whitespace characters. Matches are taken left to right without overlap,
/// and a later occurrence of a key overwrites an earlier one.
pub fn extract(message: &str) -> (r: Attributes)
    ensures
        r.wf(),
        r@ == extract_spec(message@),
{
    let cs = chars_of(message);
    let n = cs.len();
    let mut attrs = Attributes::new();
    let mut p: usize = 0;
    let ghost mut done: Seq<(Seq<char>, Seq<char>)> = Seq::empty();
    while p < n
        invariant
            cs@ == message@,
            n == cs@.len(),
            p <= n,
            scan(cs@, 0) == done + scan(cs@, p as int),
            attrs.wf(),
            attrs@ == pairs_map(done),
        decreases n - p,
    {
        match match_at(&cs, p) {
            Some((j, a, b, e)) => {
                proof {
                    lemma_pair_end(cs@, p as int);
                }
                let key = message.substring_char(p, j).to_owned();
                let value = message.substring_char(a, b).to_owned();
                let ghost kv = (key@, value@);
                assert(scan(cs@, p as int) == seq![kv] + scan(cs@, e as int));
                assert(done + scan(cs@, p as int) =~= done.push(kv) + scan(cs@, e as int));
                assert(done.push(kv).drop_last() =~= done);
                attrs.insert(key, value);
                proof {
                    done = done.push(kv);
                }
                p = e;
            },
            None => {
                p = p + 1;
            },
        }
    }
    assert(done + scan(cs@, p as int) =~= done);
    attrs
}

/// Scanning over positions where no match starts finds nothing.
proof fn lemma_scan_no_match(s: Seq<char>, i: int, j: int)
    requires
        0 <= i <= j <= s.len(),
        forall|m: int| i <= m < j ==> (#[trigger] pair_at(s, m)) is None,
    ensures
        scan(s, i) == scan(s, j),
    decreases j - i,
{
    if i < j {
        lemma_scan_no_match(s, i + 1, j);
    }
}

/// No match starts at `m` when no `=` stands from `m` up to `to`, and `to` is
/// the end or holds a character that is neither a word character nor `=`.
proof fn lemma_no_pair(s: Seq<char>, m: int, to: int)
    requires
        0 <= m <= to <= s.len(),
        forall|x: int| m <= x < to ==> #[trigger] s[x] != '=',
        to == s.len() || (!is_word(s[to]) && s[to] != '='),
    ensures
        pair_at(s, m) is None,
{
    lemma_skip_class(s, m, CharClass::Word);
    let j = skip_class(s, m, CharClass::Word);
    if j > to {
        assert(in_class(CharClass::Word, s[to]));
    }
}

/// Writing one attribute as `k=v` inside a message and extracting again gives
/// back exactly that attribute. The key is word characters; the value is
/// non-empty, has no whitespace, and does not open a double-quoted span; the
/// text before it is empty or ends in whitespace, the text after it is empty or
/// starts with whitespace, and neither holds a `=`.
pub proof fn lemma_extract_round_trip(p: Seq<char>, k: Seq<char>, v: Seq<char>, q: Seq<char>)
    requires
        k.len() > 0,
        forall|m: int| 0 <= m < k.len() ==> is_word(#[trigger] k[m]),
        v.len() > 0,
        forall|m: int| 0 <= m < v.len() ==> !is_space(#[trigger] v[m]),
        !(v[0] == '"' && exists|m: int| 1 <= m < (v + q).len() && (v + q)[m] == '"'),
        p.len() == 0 || is_space(p.last()),
        q.len() == 0 || is_space(q[0]),
        forall|m: int| 0 <= m < p.len() ==> #[trigger] p[m] != '=',
        forall|m: int| 0 <= m < q.len() ==> #[trigger] q[m] != '=',
    ensures
        extract_spec(p + k + seq!['='] + v + q) == map![k => v],
{
    let s = p + k + seq!['='] + v + q;
    let pl = p.len() as int;
    let j = pl + k.len();
    let e = j + 1 + v.len();
    assert(s.len() == e + q.len());
    assert forall|x: int| 0 <= x < pl implies #[trigger] s[x] == p[x] by {}
    assert forall|x: int| pl <= x < j implies #[trigger] s[x] == k[x - pl] by {}
    assert(s[j] == '=');
    assert forall|x: int| j + 1 <= x < e implies #[trigger] s[x] == v[x - j - 1] by {}
    assert forall|x: int| e <= x < s.len() implies #[trigger] s[x] == q[x - e] by {}
    // No match starts in the text before the attribute.
    assert forall|m: int| 0 <= m < pl implies (#[trigger] pair_at(s, m)) is None by {
        assert(s[pl - 1] == p.last());
        lemma_no_pair(s, m, pl - 1);
    }
    lemma_scan_no_match(s, 0, pl);
    // The attribute itself.
    assert forall|x: int| pl <= x < j implies in_class(CharClass::Word, #[trigger] s[x]) by {
        assert(s[x] == k[x - pl]);
    }
    lemma_skip_class_exact(s, pl, j, CharClass::Word);
    assert forall|x: int| j + 1 <= x < e implies in_class(CharClass::NonSpace, #[trigger] s[x]) by {
        assert(s[x] == v[x - j - 1]);
    }
    if e < s.len() {
        assert(s[e] == q[0]);
    }
    lemma_skip_class_exact(s, j + 1, e, CharClass::NonSpace);
    assert(s[j + 1] == v[0]);
    if v[0] == '"' {
        assert forall|x: int| j + 2 <= x < s.len() implies in_class(
            CharClass::NotQuote,
            #[trigger] s[x],
        ) by {
            assert(s[x] == (v + q)[x - j - 1]);
        }
        lemma_skip_class_exact(s, j + 2, s.len() as int, CharClass::NotQuote);
    }
    assert(s.subrange(pl, j) =~= k);
    assert(s.subrange(j + 1, e) =~= v);
    assert(pair_at(s, pl) == Some((k, v, e)));
    // No match starts in the text after it.
    assert forall|m: int| e <= m < s.len() implies (#[trigger] pair_at(s, m)) is None by {
        lemma_no_pair(s, m, s.len() as int);
    }
    lemma_scan_no_match(s, e, s.len() as int);
    assert(scan(s, s.len() as int) == Seq::<(Seq<char>, Seq<char>)>::empty());
    assert(scan(s, pl) =~= seq![(k, v)] + scan(s, e));
    assert(scan(s, 0) =~= seq![(k, v)]);
    let ps = seq![(k, v)];
    assert(ps.drop_last() =~= Seq::<(Seq<char>, Seq<char>)>::empty());
    assert(pairs_map(ps.drop_last()) == Map::<Seq<char>, Seq<char>>::empty());
    assert(pairs_map(ps) =~= map![k => v]);
}

/// A mapping from attribute keys to values, each key held once.
pub struct Attributes {
    entries: Vec<(String, String)>,
}

impl View for Attributes {
    type V = Map<Seq<char>, Seq<char>>;

    closed spec fn view(&self) -> Map<Seq<char>, Seq<char>> {
        pairs_map(view_pairs(self.entries@))
    }
}

impl Attributes {
    /// Keys are unique.
    pub closed spec fn wf(&self) -> bool {
        distinct_keys(view_pairs(self.entries@))
    }

    /// The empty mapping.
    pub fn new() -> (r: Attributes)
        ensures
            r.wf(),
            r@ == Map::<Seq<char>, Seq<char>>::empty(),
    {
        let r = Attributes { entries: Vec::new() };
        assert(view_pairs(r.entries@) =~= Seq::empty());
        r
    }

    /// Sets `key` to `value`, replacing an earlier value of the key.
    pub fn insert(&mut self, key: String, value: String)
        requires
            old(self).wf(),
        ensures
            final(self).wf(),
            final(self)@ == old(self)@.insert(key@, value@),
    {
        let ghost ps = view_pairs(self.entries@);
        let n = self.entries.len();
        let mut i: usize = 0;
        while i < n
            invariant
                n == self.entries@.len(),
                i <= n,
                ps == view_pairs(self.entries@),
                ps == view_pairs(old(self).entries@),
                distinct_keys(ps),
                forall|m: int| 0 <= m < i ==> ps[m].0 != key@,
            decreases n - i,
        {
            if self.entries[i].0 == key {
                assert(ps[i as int].0 == key@);
                proof {
                    lemma_pairs_map_update(ps, i as int, value@);
                }
                self.entries.set(i, (key, value));
                assert(view_pairs(self.entries@) =~= ps.update(i as int, (ps[i as int].0, value@)));
                assert(distinct_keys(view_pairs(self.entries@)));
                assert(pairs_map(view_pairs(self.entries@)) == pairs_map(ps).insert(key@, value@));
                return;
            }
            i = i + 1;
        }
        self.entries.push((key, value));
        let ghost qs = view_pairs(self.entries@);
        assert(qs =~= ps.push((key@, value@)));
        assert(qs.drop_last() =~= ps);
        assert(distinct_keys(qs)) by {
            assert forall|a: int, b: int| 0 <= a < b < qs.len() implies qs[a].0 != qs[b].0 by {
                if b < ps.len() {
                    assert(qs[a] == ps[a] && qs[b] == ps[b]);
                } else {
                    assert(qs[a] == ps[a]);
                }
            }
        }
    }

    /// The value of `key`, if it is present.
    pub fn get(&self, key: &str) -> (r: Option<&String>)
        requires
            self.wf(),
        ensures
            r is Some <==> self@.dom().contains(key@),
            r is Some ==> r->0@ == self@[key@],
    {
        let k = key.to_owned();
        let ghost ps = view_pairs(self.entries@);
        let n = self.entries.len();
        let mut i: usize = 0;
        while i < n
            invariant
                n == self.entries@.len(),
                i <= n,
                ps == view_pairs(self.entries@),
                distinct_keys(ps),
                k@ == key@,
                forall|m: int| 0 <= m < i ==> ps[m].0 != key@,
            decreases n - i,
        {
            if self.entries[i].0 == k {
                proof {
                    lemma_pairs_map_index(ps, i as int);
                }
                return Some(&self.entries[i].1);
            }
            i = i + 1;
        }
        proof {
            lemma_pairs_map_dom(ps, key@);
        }
        None
    }

    /// The number of keys.
    pub fn len(&self) -> (r: usize)
        requires
            self.wf(),
        ensures
            r == self@.dom().len(),
    {
        proof {
            lemma_pairs_map_len(view_pairs(self.entries@));
        }
        self.entries.len()
    }

    /// The stored pairs, each key once, in no particular order.
    pub fn entries(&self) -> (r: &Vec<(String, String)>)
        requires
            self.wf(),
        ensures
            distinct_keys(view_pairs(r@)),
            pairs_map(view_pairs(r@)) == self@,
    {
        &self.entries
    }
}

} // verus!
