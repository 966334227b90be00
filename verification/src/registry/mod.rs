//! The API registry of a source (`registry.json`) and searching it.

pub mod git;

use vstd::prelude::*;
use crate::error::ApixError;
use crate::text::{
    chars_of, contains, contains_chars, is_alnum, is_alnum_exec, lex_lt, lex_lt_chars, owned,
    set_add, set_add_all, set_insert, set_insert_all, starts_with_chars, str_eq, strs, sub_chars,
    to_lowercase, unicode_lower, views, trim, trim_chars, strip_prefixes, strip_prefixes_chars,
    lines, lines_of_str, split_char, drop_empty, append_unique, push_unique_all, string_of,
    strings_of, starts_with_str, extend_str,
};

verus! {

/// One API of a registry.
#[derive(Debug, Clone)]
pub struct ApiEntry {
    pub name: String,
    pub description: String,
    pub versions: Vec<String>,
    pub tags: Vec<String>,
}

/// The APIs of a registry by key, in insertion order, each key once.
#[derive(Debug)]
pub struct ApiTable {
    entries: Vec<(String, ApiEntry)>,
}

/// The names of a list of entries.
pub open spec fn api_keys_of(e: Seq<(String, ApiEntry)>) -> Seq<Seq<char>> {
    e.map_values(|x: (String, ApiEntry)| x.0@)
}

impl ApiTable {
    #[verifier::type_invariant]
    spec fn distinct_names(self) -> bool {
        api_keys_of(self.entries@).no_duplicates()
    }

    /// The keys, in insertion order.
    pub closed spec fn names(self) -> Seq<Seq<char>> {
        api_keys_of(self.entries@)
    }

    /// Key to entry.
    pub closed spec fn apis(self) -> Map<Seq<char>, ApiEntry> {
        Map::new(
            |k: Seq<char>| self.names().contains(k),
            |k: Seq<char>|
                self.entries@[self.names().index_of(k)].1,
        )
    }

    /// An empty table.
    pub fn new() -> (r: Self)
        ensures
            r.names() == Seq::<Seq<char>>::empty(),
            r.apis() == Map::<Seq<char>, ApiEntry>::empty(),
    {
        let r = ApiTable { entries: Vec::new() };
        assert(r.names() =~= Seq::<Seq<char>>::empty());
        assert(r.apis() =~= Map::<Seq<char>, ApiEntry>::empty());
        r
    }

    /// Whether the table is empty.
    pub fn is_empty(&self) -> (r: bool)
        ensures
            r == (self.names().len() == 0),
    {
        self.entries.len() == 0
    }

    /// The number of entries.
    pub fn len(&self) -> (r: usize)
        ensures
            r == self.names().len(),
    {
        self.entries.len()
    }

    /// The position of a key.
    fn position(&self, name: &str) -> (r: Option<usize>)
        ensures
            match r {
                Some(i) => i < self.names().len() && self.names()[i as int] == name@,
                None => !self.names().contains(name@),
            },
    {
        let mut i: usize = 0;
        while i < self.entries.len()
            invariant
                i <= self.entries@.len(),
                forall|j: int| 0 <= j < i ==> self.names()[j] != name@,
            decreases self.entries@.len() - i,
        {
            if str_eq(self.entries[i].0.as_str(), name) {
                return Some(i);
            }
            i = i + 1;
        }
        None
    }

    /// The entry under a key, if there is one.
    pub fn get(&self, name: &str) -> (r: Option<&ApiEntry>)
        ensures
            match r {
                Some(c) => self.apis().contains_key(name@) && *c == self.apis()[name@],
                None => !self.apis().contains_key(name@),
            },
    {
        proof {
            use_type_invariant(self);
        }
        match self.position(name) {
            Some(i) => {
                proof {
                    self.names().index_of_first_ensures(name@);
                    assert(self.names().contains(name@));
                    let k = self.names().index_of(name@);
                    assert(self.names()[k] == name@);
                    assert(k == i);
                }
                Some(&self.entries[i].1)
            },
            None => None,
        }
    }

    /// The keys, in insertion order.
    pub fn keys(&self) -> (r: Vec<String>)
        ensures
            r@.map_values(|s: String| s@) == self.names(),
    {
        let mut r: Vec<String> = Vec::new();
        let mut i: usize = 0;
        while i < self.entries.len()
            invariant
                i <= self.entries@.len(),
                r@.map_values(|s: String| s@) == self.names().take(i as int),
            decreases self.entries@.len() - i,
        {
            let k = owned(self.entries[i].0.as_str());
            assert(self.names()[i as int] == k@);
            let ghost prev = r@;
            r.push(k);
            assert(r@.map_values(|s: String| s@) =~= prev.map_values(|s: String| s@).push(k@));
            assert(self.names().take(i + 1) =~= self.names().take(i as int).push(k@));
            i = i + 1;
        }
        assert(self.names().take(self.names().len() as int) =~= self.names());
        r
    }

    /// Adds or replaces the entry under a key.
    pub fn insert(&mut self, name: String, entry: ApiEntry)
        ensures
            final(self).apis() == old(self).apis().insert(name@, entry),
            old(self).names().contains(name@) ==> final(self).names() == old(self).names(),
            !old(self).names().contains(name@) ==> final(self).names() == old(self).names().push(
                name@,
            ),
    {
        proof {
            use_type_invariant(&*self);
        }
        let ghost old_names = self.names();
        let ghost old_apis = self.apis();
        let ghost nm = name@;
        let ghost rm = entry;
        let pos = self.position(name.as_str());
        let mut entries: Vec<(String, ApiEntry)> = Vec::new();
        std::mem::swap(&mut entries, &mut self.entries);
        assert(api_keys_of(entries@) == old_names);
        match pos {
            Some(i) => {
                entries.set(i, (name, entry));
                assert(api_keys_of(entries@) =~= old_names);
                proof {
                    let t = ApiTable { entries };
                    assert(t.names() =~= old_names);
                    assert forall|k: Seq<char>| #[trigger] t.apis().contains_key(k) implies
                        t.apis()[k] == old_apis.insert(nm, rm)[k] by {
                        old_names.index_of_first_ensures(k);
                        if k == nm {
                            assert(old_names[i as int] == nm);
                            assert(old_names.index_of(nm) == i);
                        } else {
                            assert(old_names[old_names.index_of(k)] == k);
                        }
                    }
                    assert(t.apis() =~= old_apis.insert(nm, rm));
                }
            },
            None => {
                entries.push((name, entry));
                assert(api_keys_of(entries@) =~= old_names.push(nm));
                proof {
                    let t = ApiTable { entries };
                    assert forall|a: int, b: int|
                        0 <= a < t.names().len() && 0 <= b < t.names().len() && a != b implies t.names()[a]
                        != t.names()[b] by {
                        if b == old_names.len() {
                            assert(old_names.contains(old_names[a]));
                        }
                        if a == old_names.len() {
                            assert(old_names.contains(old_names[b]));
                        }
                    }
                    assert forall|k: Seq<char>| #[trigger] t.apis().contains_key(k) implies
                        t.apis()[k] == old_apis.insert(nm, rm)[k] by {
                        if k == nm {
                            assert(t.names()[old_names.len() as int] == nm);
                        } else {
                            assert(old_names.contains(k));
                            let j = old_names.index_of(k);
                            assert(t.names()[j] == k);
                        }
                    }
                    assert forall|k: Seq<char>| old_apis.insert(nm, rm).contains_key(k) implies
                        #[trigger] t.apis().contains_key(k) by {
                        if k == nm {
                            assert(t.names()[old_names.len() as int] == nm);
                        } else {
                            let j = old_names.index_of(k);
                            assert(t.names()[j] == k);
                        }
                    }
                    assert(t.apis() =~= old_apis.insert(nm, rm));
                }
            },
        }
        self.entries = entries;
    }

    /// Whether there is an entry under a key.
    pub fn contains_key(&self, name: &str) -> (r: bool)
        ensures
            r == self.apis().contains_key(name@),
    {
        self.get(name).is_some()
    }

    /// The entries, in insertion order, each with its key.
    pub fn entries(&self) -> (r: &[(String, ApiEntry)])
        ensures
            api_keys_of(r@) == self.names(),
            forall|i: int| 0 <= i < r@.len() ==> self.apis()[#[trigger] r@[i].0@] == r@[i].1,
    {
        proof {
            use_type_invariant(self);
            assert forall|i: int| 0 <= i < self.entries@.len() implies self.apis()[
                #[trigger] self.entries@[i].0@] == self.entries@[i].1 by {
                let k = self.entries@[i].0@;
                assert(self.names()[i] == k);
                assert(self.names().contains(k));
                self.names().index_of_first_ensures(k);
                let j = self.names().index_of(k);
                assert(self.names()[j] == k);
            }
        }
        self.entries.as_slice()
    }
}

/// The registry of a source.
#[derive(Debug)]
pub struct Registry {
    pub apis: ApiTable,
}

// ---------------------------------------------------------------------------
// Scoring a search
// ---------------------------------------------------------------------------

/// The pieces of `s` between characters that are not ASCII letters or
/// digits (`str::split` with that predicate).
pub open spec fn tokens(s: Seq<char>) -> Seq<Seq<char>>
    decreases s.len(),
{
    if s.len() == 0 {
        seq![Seq::<char>::empty()]
    } else {
        let r = tokens(s.drop_last());
        if !is_alnum(s.last()) {
            r.push(Seq::<char>::empty())
        } else {
            r.update(r.len() - 1, r.last().push(s.last()))
        }
    }
}

proof fn lemma_tokens_nonempty(s: Seq<char>)
    ensures
        tokens(s).len() >= 1,
    decreases s.len(),
{
    if s.len() > 0 {
        lemma_tokens_nonempty(s.drop_last());
    }
}

/// The pieces of a text between non-alphanumeric characters.
fn split_tokens(s: &[char]) -> (r: Vec<Vec<char>>)
    ensures
        views(r@) == tokens(s@),
{
    let mut r: Vec<Vec<char>> = Vec::new();
    let mut cur: Vec<char> = Vec::new();
    let mut i: usize = 0;
    assert(s@.take(0) =~= Seq::<char>::empty());
    while i < s.len()
        invariant
            i <= s@.len(),
            views(r@).push(cur@) == tokens(s@.take(i as int)),
        decreases s@.len() - i,
    {
        let c = s[i];
        let ghost prev = tokens(s@.take(i as int));
        assert(s@.take(i + 1).drop_last() =~= s@.take(i as int));
        assert(s@.take(i + 1).last() == c);
        proof {
            lemma_tokens_nonempty(s@.take(i as int));
        }
        if !is_alnum_exec(c) {
            let done = cur;
            r.push(done);
            cur = Vec::new();
            assert(views(r@) =~= prev);
            assert(views(r@).push(cur@) =~= prev.push(Seq::<char>::empty()));
        } else {
            cur.push(c);
            assert(views(r@).push(cur@) =~= prev.update(prev.len() - 1, prev.last().push(c)));
        }
        i = i + 1;
    }
    assert(s@.take(s@.len() as int) =~= s@);
    r.push(cur);
    assert(views(r@) =~= tokens(s@));
    r
}

/// Whether `t` occurs in `s` at index `a`.
spec fn piece_at(s: Seq<char>, t: Seq<char>, a: int) -> bool {
    0 <= a && a + t.len() <= s.len() && s.subrange(a, a + t.len()) == t
}

/// Whether `t` occurs somewhere in `s`.
spec fn is_piece(s: Seq<char>, t: Seq<char>) -> bool {
    exists|a: int| piece_at(s, t, a)
}

/// Each token is a piece of the text, and the last one ends it.
proof fn lemma_tokens_in_text(s: Seq<char>)
    ensures
        tokens(s).len() >= 1,
        tokens(s).last().len() <= s.len(),
        tokens(s).last() == s.subrange(s.len() - tokens(s).last().len(), s.len() as int),
        forall|i: int| 0 <= i < tokens(s).len() ==> is_piece(s, #[trigger] tokens(s)[i]),
    decreases s.len(),
{
    if s.len() == 0 {
        assert(s.subrange(0, 0) =~= Seq::<char>::empty());
        assert(tokens(s)[0] == s.subrange(0, 0));
        assert forall|i: int| 0 <= i < tokens(s).len() implies is_piece(s, #[trigger] tokens(s)[i]) by {
            assert(i == 0);
            assert(piece_at(s, tokens(s)[i], 0));
        }
    } else {
        let p = s.drop_last();
        lemma_tokens_in_text(p);
        let r = tokens(p);
        let t = tokens(s);
        let n = s.len() as int;
        let alnum = is_alnum(s.last());
        let l = r.last().push(s.last());
        if !alnum {
            assert(t == r.push(Seq::<char>::empty()));
            assert(s.subrange(n, n) =~= Seq::<char>::empty());
        } else {
            assert(t == r.update(r.len() - 1, l));
            assert(l =~= s.subrange(n - l.len(), n));
        }
        assert forall|i: int| 0 <= i < t.len() implies is_piece(s, #[trigger] t[i]) by {
            if i < r.len() && (!alnum || i < r.len() - 1) {
                assert(t[i] == r[i]);
                assert(is_piece(p, r[i]));
                let a = choose|a: int| piece_at(p, r[i], a);
                assert(s.subrange(a, a + t[i].len()) =~= p.subrange(a, a + r[i].len()));
                assert(piece_at(s, t[i], a));
            } else if !alnum {
                assert(t[i] == s.subrange(n, n));
                assert(piece_at(s, t[i], n));
            } else {
                assert(t[i] == l);
                assert(piece_at(s, t[i], n - l.len()));
            }
        }
    }
}

proof fn lemma_token_match_contains(text: Seq<char>, q: Seq<char>)
    ensures
        word_exact(text, q) ==> contains(text, q),
        word_prefix(text, q) ==> contains(text, q),
{
    lemma_tokens_in_text(text);
    if word_exact(text, q) {
        let i = choose|i: int| 0 <= i < tokens(text).len() && tokens(text)[i].len() > 0 && tokens(text)[i] == q;
        let a = choose|a: int| piece_at(text, tokens(text)[i], a);
        crate::text::lemma_occurs_contains(text, q, a);
    }
    if word_prefix(text, q) {
        let i = choose|i: int| 0 <= i < tokens(text).len() && tokens(text)[i].len() > 0 && q.is_prefix_of(tokens(text)[i]);
        let a = choose|a: int| piece_at(text, tokens(text)[i], a);
        assert(text.subrange(a, a + q.len()) =~= tokens(text)[i].subrange(0, q.len() as int));
        crate::text::lemma_occurs_contains(text, q, a);
    }
}

/// Whether a non-empty token of `text` equals `q`.
pub open spec fn word_exact(text: Seq<char>, q: Seq<char>) -> bool {
    exists|i: int| 0 <= i < tokens(text).len() && tokens(text)[i].len() > 0 && tokens(text)[i] == q
}

/// Whether a non-empty token of `text` starts with `q`.
pub open spec fn word_prefix(text: Seq<char>, q: Seq<char>) -> bool {
    exists|i: int|
        0 <= i < tokens(text).len() && tokens(text)[i].len() > 0 && q.is_prefix_of(tokens(text)[i])
}

/// Whether a word of the text equals the query.
pub fn contains_word_exact(text: &[char], q: &[char]) -> (r: bool)
    ensures
        r == word_exact(text@, q@),
{
    let ts = split_tokens(text);
    let mut i: usize = 0;
    while i < ts.len()
        invariant
            i <= ts@.len(),
            views(ts@) == tokens(text@),
            forall|j: int| 0 <= j < i ==> !(tokens(text@)[j].len() > 0 && #[trigger] tokens(text@)[j] == q@),
        decreases ts@.len() - i,
    {
        assert(views(ts@)[i as int] == ts@[i as int]@);
        if ts[i].len() > 0 && crate::text::chars_eq(ts[i].as_slice(), q) {
            return true;
        }
        i = i + 1;
    }
    false
}

/// Whether a word of the text starts with the query.
pub fn contains_word_prefix(text: &[char], q: &[char]) -> (r: bool)
    ensures
        r == word_prefix(text@, q@),
{
    let ts = split_tokens(text);
    let mut i: usize = 0;
    while i < ts.len()
        invariant
            i <= ts@.len(),
            views(ts@) == tokens(text@),
            forall|j: int|
                0 <= j < i ==> !(tokens(text@)[j].len() > 0 && q@.is_prefix_of(
                    #[trigger] tokens(text@)[j],
                )),
        decreases ts@.len() - i,
    {
        assert(views(ts@)[i as int] == ts@[i as int]@);
        if ts[i].len() > 0 && starts_with_chars(ts[i].as_slice(), q) {
            return true;
        }
        i = i + 1;
    }
    false
}

/// How well a registry entry matches a query, all of them lower-cased:
/// name matches weigh more than description matches, which weigh more than
/// tag matches; an exact match more than a word match, a word match more
/// than a prefix match, a prefix more than a substring; 0 is no match.
pub open spec fn search_score(name: Seq<char>, desc: Seq<char>, tags: Seq<Seq<char>>, q: Seq<char>) -> i32 {
    if name == q {
        100
    } else if word_exact(name, q) {
        95
    } else if q.is_prefix_of(name) {
        90
    } else if word_prefix(name, q) {
        85
    } else if contains(name, q) {
        80
    } else if word_exact(desc, q) {
        60
    } else if word_prefix(desc, q) {
        55
    } else if contains(desc, q) {
        50
    } else if tags.contains(q) {
        40
    } else if exists|i: int| 0 <= i < tags.len() && q.is_prefix_of(#[trigger] tags[i]) {
        35
    } else if exists|i: int| 0 <= i < tags.len() && contains(#[trigger] tags[i], q) {
        30
    } else {
        0
    }
}

/// A search matches an entry exactly when the query occurs in its name,
/// its description or one of its tags, and a match in the name always
/// outranks a match found only elsewhere.
pub proof fn law_search_score_matches_occurrence(
    name: Seq<char>,
    desc: Seq<char>,
    tags: Seq<Seq<char>>,
    q: Seq<char>,
)
    ensures
        search_score(name, desc, tags, q) > 0 <==> (contains(name, q) || contains(desc, q) || exists|i: int| 0 <= i < tags.len() && contains(#[trigger] tags[i], q)),
        contains(name, q) <==> search_score(name, desc, tags, q) >= 80,
{
    lemma_token_match_contains(name, q);
    lemma_token_match_contains(desc, q);
    if name == q {
        crate::text::lemma_prefix_contains(name, q);
    }
    if q.is_prefix_of(name) {
        crate::text::lemma_prefix_contains(name, q);
    }
    if tags.contains(q) {
        let i = choose|i: int| 0 <= i < tags.len() && tags[i] == q;
        crate::text::lemma_prefix_contains(tags[i], q);
    }
    if exists|i: int| 0 <= i < tags.len() && q.is_prefix_of(#[trigger] tags[i]) {
        let i = choose|i: int| 0 <= i < tags.len() && q.is_prefix_of(#[trigger] tags[i]);
        crate::text::lemma_prefix_contains(tags[i], q);
    }
}

/// None of the name, description or exact tag matches holds.
spec fn no_match_before_tag_prefix(name: Seq<char>, desc: Seq<char>, tags: Seq<Seq<char>>, q: Seq<char>) -> bool {
    &&& name != q
    &&& !word_exact(name, q)
    &&& !q.is_prefix_of(name)
    &&& !word_prefix(name, q)
    &&& !contains(name, q)
    &&& !word_exact(desc, q)
    &&& !word_prefix(desc, q)
    &&& !contains(desc, q)
    &&& !tags.contains(q)
}

/// Scores a match of a lower-cased query against lower-cased fields.
pub fn score_search_match(name: &str, desc: &str, tags: &[String], q: &str) -> (r: i32)
    ensures
        r == search_score(name@, desc@, strs(tags@), q@),
{
    let n = chars_of(name);
    let d = chars_of(desc);
    let qc = chars_of(q);
    if crate::text::chars_eq(n.as_slice(), qc.as_slice()) {
        return 100;
    }
    if contains_word_exact(n.as_slice(), qc.as_slice()) {
        return 95;
    }
    if starts_with_chars(n.as_slice(), qc.as_slice()) {
        return 90;
    }
    if contains_word_prefix(n.as_slice(), qc.as_slice()) {
        return 85;
    }
    if contains_chars(n.as_slice(), qc.as_slice()) {
        return 80;
    }
    if contains_word_exact(d.as_slice(), qc.as_slice()) {
        return 60;
    }
    if contains_word_prefix(d.as_slice(), qc.as_slice()) {
        return 55;
    }
    if contains_chars(d.as_slice(), qc.as_slice()) {
        return 50;
    }
    if crate::text::contains_string(tags, q) {
        return 40;
    }
    let mut i: usize = 0;
    while i < tags.len()
        invariant
            i <= tags@.len(),
            qc@ == q@,
            no_match_before_tag_prefix(name@, desc@, strs(tags@), q@),
            forall|j: int| 0 <= j < i ==> !q@.is_prefix_of(#[trigger] strs(tags@)[j]),
        decreases tags@.len() - i,
    {
        let t = chars_of(tags[i].as_str());
        if starts_with_chars(t.as_slice(), qc.as_slice()) {
            assert(q@.is_prefix_of(strs(tags@)[i as int]));
            return 35;
        }
        i = i + 1;
    }
    let mut i: usize = 0;
    while i < tags.len()
        invariant
            i <= tags@.len(),
            qc@ == q@,
            no_match_before_tag_prefix(name@, desc@, strs(tags@), q@),
            forall|j: int| 0 <= j < tags@.len() ==> !q@.is_prefix_of(#[trigger] strs(tags@)[j]),
            forall|j: int| 0 <= j < i ==> !contains(#[trigger] strs(tags@)[j], q@),
        decreases tags@.len() - i,
    {
        let t = chars_of(tags[i].as_str());
        if contains_chars(t.as_slice(), qc.as_slice()) {
            assert(contains(strs(tags@)[i as int], q@));
            return 30;
        }
        i = i + 1;
    }
    0
}

// ---------------------------------------------------------------------------
// Searching registries
// ---------------------------------------------------------------------------

/// A registry entry that matched a search in one source.
#[derive(Debug, Clone)]
pub struct SearchHit {
    pub source: String,
    pub name: String,
    pub description: String,
    pub versions: Vec<String>,
    pub tags: Vec<String>,
    pub score: i32,
}

/// A hit as (source, name, description, versions, tags, score).
pub open spec fn hit_view(h: SearchHit) -> (
    Seq<char>,
    Seq<char>,
    Seq<char>,
    Seq<Seq<char>>,
    Seq<Seq<char>>,
    int,
) {
    (h.source@, h.name@, h.description@, strs(h.versions@), strs(h.tags@), h.score as int)
}

/// The hits as views.
pub open spec fn hit_views(v: Seq<SearchHit>) -> Seq<
    (Seq<char>, Seq<char>, Seq<char>, Seq<Seq<char>>, Seq<Seq<char>>, int),
> {
    v.map_values(|h: SearchHit| hit_view(h))
}

/// The tags of an entry, lower-cased.
pub open spec fn lower_tags(e: ApiEntry) -> Seq<Seq<char>> {
    strs(e.tags@).map_values(|t: Seq<char>| unicode_lower(t))
}

/// The score of an entry for a lower-cased query.
pub open spec fn entry_score(e: ApiEntry, q: Seq<char>) -> i32 {
    search_score(unicode_lower(e.name@), unicode_lower(e.description@), lower_tags(e), q)
}

/// The hits of a source: its entries (by key, in registry order) that score
/// above 0 for the query.
pub open spec fn source_hits(
    source: Seq<char>,
    keys: Seq<Seq<char>>,
    apis: Map<Seq<char>, ApiEntry>,
    q: Seq<char>,
) -> Seq<(Seq<char>, Seq<char>, Seq<char>, Seq<Seq<char>>, Seq<Seq<char>>, int)>
    decreases keys.len(),
{
    if keys.len() == 0 {
        Seq::empty()
    } else {
        let prev = source_hits(source, keys.drop_last(), apis, q);
        let e = apis[keys.last()];
        let sc = entry_score(e, q);
        if sc == 0 {
            prev
        } else {
            prev.push(
                (source, e.name@, e.description@, strs(e.versions@), strs(e.tags@), sc as int),
            )
        }
    }
}

/// An entry matches a query exactly when the query occurs in its
/// lower-cased name, lower-cased description or one of its lower-cased
/// tags: the comparison is made on lower-cased text.
pub proof fn law_entry_matches_lowercased_fields(e: ApiEntry, q: Seq<char>)
    ensures
        entry_score(e, q) > 0 <==> ({
            ||| contains(unicode_lower(e.name@), q)
            ||| contains(unicode_lower(e.description@), q)
            ||| exists|i: int| 0 <= i < e.tags@.len() && contains(unicode_lower(#[trigger] e.tags@[i]@), q)
        }),
        contains(unicode_lower(e.description@), q) ==> entry_score(e, q) > 0,
{
    let tags = lower_tags(e);
    law_search_score_matches_occurrence(unicode_lower(e.name@), unicode_lower(e.description@), tags, q);
    assert forall|i: int| 0 <= i < e.tags@.len() implies #[trigger] tags[i] == unicode_lower(e.tags@[i]@) by {}
    if exists|i: int| 0 <= i < tags.len() && contains(#[trigger] tags[i], q) {
        let i = choose|i: int| 0 <= i < tags.len() && contains(#[trigger] tags[i], q);
        assert(tags[i] == unicode_lower(e.tags@[i]@));
    }
    if exists|i: int| 0 <= i < e.tags@.len() && contains(unicode_lower(#[trigger] e.tags@[i]@), q) {
        let i = choose|i: int| 0 <= i < e.tags@.len() && contains(unicode_lower(#[trigger] e.tags@[i]@), q);
        assert(tags[i] == unicode_lower(e.tags@[i]@));
    }
}

/// The score of an entry depends on its fields only as lower-cased: two
/// entries whose names, descriptions and tags are alike once lower-cased
/// score alike for every query.
pub proof fn law_entry_score_ignores_case(e1: ApiEntry, e2: ApiEntry, q: Seq<char>)
    requires
        unicode_lower(e1.name@) == unicode_lower(e2.name@),
        unicode_lower(e1.description@) == unicode_lower(e2.description@),
        e1.tags@.len() == e2.tags@.len(),
        forall|i: int| 0 <= i < e1.tags@.len() ==> unicode_lower(#[trigger] e1.tags@[i]@) == unicode_lower(e2.tags@[i]@),
    ensures
        entry_score(e1, q) == entry_score(e2, q),
{
    assert(lower_tags(e1) =~= lower_tags(e2)) by {
        assert forall|i: int| 0 <= i < e1.tags@.len() implies #[trigger] lower_tags(e1)[i] == lower_tags(e2)[i] by {
            assert(unicode_lower(e1.tags@[i]@) == unicode_lower(e2.tags@[i]@));
        }
    }
}

/// A source's search lists, with its score, every entry whose
/// lower-cased description contains the query.
pub proof fn law_description_match_is_listed(
    source: Seq<char>,
    keys: Seq<Seq<char>>,
    apis: Map<Seq<char>, ApiEntry>,
    q: Seq<char>,
    j: int,
)
    requires
        0 <= j < keys.len(),
        contains(unicode_lower(apis[keys[j]].description@), q),
    ensures
        exists|h: int|
            0 <= h < source_hits(source, keys, apis, q).len() && #[trigger] source_hits(source, keys, apis, q)[h]
                == (
                source,
                apis[keys[j]].name@,
                apis[keys[j]].description@,
                strs(apis[keys[j]].versions@),
                strs(apis[keys[j]].tags@),
                entry_score(apis[keys[j]], q) as int,
            ),
    decreases keys.len(),
{
    let hits = source_hits(source, keys, apis, q);
    let e = apis[keys[j]];
    law_entry_matches_lowercased_fields(e, q);
    if j == keys.len() - 1 {
        assert(keys.last() == keys[j]);
        let prev = source_hits(source, keys.drop_last(), apis, q);
        assert(hits[prev.len() as int] == (
            source,
            e.name@,
            e.description@,
            strs(e.versions@),
            strs(e.tags@),
            entry_score(e, q) as int,
        ));
    } else {
        let init = keys.drop_last();
        assert(init[j] == keys[j]);
        law_description_match_is_listed(source, init, apis, q, j);
        let prev = source_hits(source, init, apis, q);
        let h = choose|h: int| 0 <= h < prev.len() && #[trigger] prev[h] == (
            source,
            e.name@,
            e.description@,
            strs(e.versions@),
            strs(e.tags@),
            entry_score(e, q) as int,
        );
        assert(hits[h] == prev[h]);
    }
}

/// The entries of a registry that match a lower-cased query, scored.
pub fn search_source(source: &str, registry: &Registry, q: &str) -> (r: Vec<SearchHit>)
    ensures
        hit_views(r@) == source_hits(source@, registry.apis.names(), registry.apis.apis(), q@),
{
    let entries = registry.apis.entries();
    let ghost keys = registry.apis.names();
    let mut out: Vec<SearchHit> = Vec::new();
    let mut i: usize = 0;
    while i < entries.len()
        invariant
            i <= entries@.len(),
            api_keys_of(entries@) == keys,
            keys == registry.apis.names(),
            forall|j: int|
                0 <= j < entries@.len() ==> registry.apis.apis()[#[trigger] entries@[j].0@]
                    == entries@[j].1,
            hit_views(out@) == source_hits(source@, keys.take(i as int), registry.apis.apis(), q@),
        decreases entries@.len() - i,
    {
        let e = &entries[i].1;
        assert(keys.take(i + 1).drop_last() =~= keys.take(i as int));
        assert(keys.take(i + 1).last() == entries@[i as int].0@);
        assert(registry.apis.apis()[entries@[i as int].0@] == *e);
        let name_lc = to_lowercase(e.name.as_str());
        let desc_lc = to_lowercase(e.description.as_str());
        let mut tags_lc: Vec<String> = Vec::new();
        let mut k: usize = 0;
        while k < e.tags.len()
            invariant
                k <= e.tags@.len(),
                strs(tags_lc@) == strs(e.tags@).take(k as int).map_values(
                    |t: Seq<char>| unicode_lower(t),
                ),
            decreases e.tags@.len() - k,
        {
            let t = to_lowercase(e.tags[k].as_str());
            let ghost prev = tags_lc@;
            tags_lc.push(t);
            assert(strs(tags_lc@) =~= strs(prev).push(t@));
            assert(strs(e.tags@).take(k + 1).map_values(|t: Seq<char>| unicode_lower(t))
                =~= strs(e.tags@).take(k as int).map_values(|t: Seq<char>| unicode_lower(t)).push(
                unicode_lower(e.tags@[k as int]@),
            ));
            k = k + 1;
        }
        assert(strs(e.tags@).take(e.tags@.len() as int) =~= strs(e.tags@));
        let score = score_search_match(
            name_lc.as_str(),
            desc_lc.as_str(),
            tags_lc.as_slice(),
            q,
        );
        if score != 0 {
            let h = SearchHit {
                source: owned(source),
                name: owned(e.name.as_str()),
                description: owned(e.description.as_str()),
                versions: crate::text::clone_strings(e.versions.as_slice()),
                tags: crate::text::clone_strings(e.tags.as_slice()),
                score,
            };
            let ghost prev = out@;
            let ghost hv = hit_view(h);
            out.push(h);
            assert(hit_views(out@) =~= hit_views(prev).push(hv));
        }
        i = i + 1;
    }
    assert(keys.take(entries@.len() as int) =~= keys);
    out
}

/// One API as found across sources.
#[derive(Debug, Clone)]
pub struct MergedHit {
    pub name: String,
    pub description: String,
    pub sources: Vec<String>,
    pub versions: Vec<String>,
    pub tags: Vec<String>,
    pub best_score: i32,
    pub first_source_rank: usize,
}

/// A merged hit as ((key, name, description), (sources, versions, tags),
/// (best score, first source rank)), the key being the lower-cased name.
pub open spec fn merged_view(m: MergedHit) -> (
    (Seq<char>, Seq<char>, Seq<char>),
    (Seq<Seq<char>>, Seq<Seq<char>>, Seq<Seq<char>>),
    (int, int),
) {
    (
        (unicode_lower(m.name@), m.name@, m.description@),
        (strs(m.sources@), strs(m.versions@), strs(m.tags@)),
        (m.best_score as int, m.first_source_rank as int),
    )
}

/// The merged hits as views.
pub open spec fn merged_views(v: Seq<MergedHit>) -> Seq<
    (
        (Seq<char>, Seq<char>, Seq<char>),
        (Seq<Seq<char>>, Seq<Seq<char>>, Seq<Seq<char>>),
        (int, int),
    ),
> {
    v.map_values(|m: MergedHit| merged_view(m))
}

/// The rank of a source in the search order: its last position there, or
/// `usize::MAX` when it is not there.
pub open spec fn source_rank(order: Seq<Seq<char>>, s: Seq<char>) -> int
    decreases order.len(),
{
    if order.len() == 0 {
        usize::MAX as int
    } else if order.last() == s {
        order.len() - 1
    } else {
        source_rank(order.drop_last(), s)
    }
}

/// The position of the merged hit with a key.
pub open spec fn find_key(
    ms: Seq<
        (
            (Seq<char>, Seq<char>, Seq<char>),
            (Seq<Seq<char>>, Seq<Seq<char>>, Seq<Seq<char>>),
            (int, int),
        ),
    >,
    k: Seq<char>,
) -> Option<int>
    decreases ms.len(),
{
    if ms.len() == 0 {
        None
    } else if ms[0].0.0 == k {
        Some(0)
    } else {
        match find_key(ms.drop_first(), k) {
            Some(i) => Some(i + 1),
            None => None,
        }
    }
}

/// A merged hit with one more hit folded in: its source, versions and tags
/// join the sets, the best score is kept, and a hit from a better-ranked
/// source brings its description and rank.
pub open spec fn fold_hit(
    m: (
        (Seq<char>, Seq<char>, Seq<char>),
        (Seq<Seq<char>>, Seq<Seq<char>>, Seq<Seq<char>>),
        (int, int),
    ),
    h: (Seq<char>, Seq<char>, Seq<char>, Seq<Seq<char>>, Seq<Seq<char>>, int),
    rank: int,
) -> (
    (Seq<char>, Seq<char>, Seq<char>),
    (Seq<Seq<char>>, Seq<Seq<char>>, Seq<Seq<char>>),
    (int, int),
) {
    (
        (m.0.0, m.0.1, if rank < m.2.1 {
            h.2
        } else {
            m.0.2
        }),
        (set_add(m.1.0, h.0), set_add_all(m.1.1, h.3), set_add_all(m.1.2, h.4)),
        (if h.5 > m.2.0 {
            h.5
        } else {
            m.2.0
        }, if rank < m.2.1 {
            rank
        } else {
            m.2.1
        }),
    )
}

/// The hits merged by lower-cased name, in order of first appearance.
pub open spec fn merge_all(
    hits: Seq<(Seq<char>, Seq<char>, Seq<char>, Seq<Seq<char>>, Seq<Seq<char>>, int)>,
    order: Seq<Seq<char>>,
) -> Seq<
    (
        (Seq<char>, Seq<char>, Seq<char>),
        (Seq<Seq<char>>, Seq<Seq<char>>, Seq<Seq<char>>),
        (int, int),
    ),
>
    decreases hits.len(),
{
    if hits.len() == 0 {
        Seq::empty()
    } else {
        let ms = merge_all(hits.drop_last(), order);
        let h = hits.last();
        let k = unicode_lower(h.1);
        let rank = source_rank(order, h.0);
        match find_key(ms, k) {
            Some(i) => ms.update(i, fold_hit(ms[i], h, rank)),
            None => ms.push(
                fold_hit(
                    ((k, h.1, h.2), (Seq::empty(), Seq::empty(), Seq::empty()), (h.5, rank)),
                    h,
                    rank,
                ),
            ),
        }
    }
}

/// Whether merged hit `a` is listed before `b`: by source rank, then by
/// higher score, then by lower-cased name.
pub open spec fn merged_before(
    a: (
        (Seq<char>, Seq<char>, Seq<char>),
        (Seq<Seq<char>>, Seq<Seq<char>>, Seq<Seq<char>>),
        (int, int),
    ),
    b: (
        (Seq<char>, Seq<char>, Seq<char>),
        (Seq<Seq<char>>, Seq<Seq<char>>, Seq<Seq<char>>),
        (int, int),
    ),
) -> bool {
    a.2.1 < b.2.1 || (a.2.1 == b.2.1 && (a.2.0 > b.2.0 || (a.2.0 == b.2.0 && lex_lt(
        a.0.0,
        b.0.0,
    ))))
}

/// `s` with `x` placed before the first element it is listed before.
pub open spec fn insert_merged(
    s: Seq<
        (
            (Seq<char>, Seq<char>, Seq<char>),
            (Seq<Seq<char>>, Seq<Seq<char>>, Seq<Seq<char>>),
            (int, int),
        ),
    >,
    x: (
        (Seq<char>, Seq<char>, Seq<char>),
        (Seq<Seq<char>>, Seq<Seq<char>>, Seq<Seq<char>>),
        (int, int),
    ),
) -> Seq<
    (
        (Seq<char>, Seq<char>, Seq<char>),
        (Seq<Seq<char>>, Seq<Seq<char>>, Seq<Seq<char>>),
        (int, int),
    ),
>
    decreases s.len(),
{
    if s.len() == 0 {
        seq![x]
    } else if merged_before(x, s[0]) {
        seq![x] + s
    } else {
        seq![s[0]] + insert_merged(s.drop_first(), x)
    }
}

/// The merged hits in listing order.
pub open spec fn sort_merged(
    s: Seq<
        (
            (Seq<char>, Seq<char>, Seq<char>),
            (Seq<Seq<char>>, Seq<Seq<char>>, Seq<Seq<char>>),
            (int, int),
        ),
    >,
) -> Seq<
    (
        (Seq<char>, Seq<char>, Seq<char>),
        (Seq<Seq<char>>, Seq<Seq<char>>, Seq<Seq<char>>),
        (int, int),
    ),
>
    decreases s.len(),
{
    if s.len() == 0 {
        s
    } else {
        insert_merged(sort_merged(s.drop_last()), s.last())
    }
}

proof fn lemma_find_key_skip(
    ms: Seq<
        (
            (Seq<char>, Seq<char>, Seq<char>),
            (Seq<Seq<char>>, Seq<Seq<char>>, Seq<Seq<char>>),
            (int, int),
        ),
    >,
    k: Seq<char>,
    j: int,
)
    requires
        0 <= j <= ms.len(),
        forall|i: int| 0 <= i < j ==> (#[trigger] ms[i]).0.0 != k,
    ensures
        find_key(ms, k) == match find_key(ms.skip(j), k) {
            Some(i) => Some(i + j),
            None => None::<int>,
        },
    decreases j,
{
    if j == 0 {
        assert(ms.skip(0) =~= ms);
        match find_key(ms, k) {
            Some(i) => {},
            None => {},
        }
    } else {
        assert forall|i: int| 0 <= i < j - 1 implies (#[trigger] ms.drop_first()[i]).0.0 != k by {
            assert(ms.drop_first()[i] == ms[i + 1]);
        }
        lemma_find_key_skip(ms.drop_first(), k, j - 1);
        assert(ms.drop_first().skip(j - 1) =~= ms.skip(j));
    }
}

proof fn lemma_insert_merged_at(
    s: Seq<
        (
            (Seq<char>, Seq<char>, Seq<char>),
            (Seq<Seq<char>>, Seq<Seq<char>>, Seq<Seq<char>>),
            (int, int),
        ),
    >,
    x: (
        (Seq<char>, Seq<char>, Seq<char>),
        (Seq<Seq<char>>, Seq<Seq<char>>, Seq<Seq<char>>),
        (int, int),
    ),
    j: int,
)
    requires
        0 <= j <= s.len(),
        forall|i: int| 0 <= i < j ==> !merged_before(x, #[trigger] s[i]),
        j < s.len() ==> merged_before(x, s[j]),
    ensures
        insert_merged(s, x) == s.insert(j, x),
    decreases j,
{
    if j == 0 {
        if s.len() == 0 {
            assert(seq![x] =~= s.insert(0, x));
        } else {
            assert(seq![x] + s =~= s.insert(0, x));
        }
    } else {
        assert forall|i: int| 0 <= i < j - 1 implies !merged_before(x, #[trigger] s.drop_first()[i]) by {
            assert(s.drop_first()[i] == s[i + 1]);
        }
        lemma_insert_merged_at(s.drop_first(), x, j - 1);
        assert(seq![s[0]] + s.drop_first().insert(j - 1, x) =~= s.insert(j, x));
    }
}

/// A merged row as `merge_all` builds it.
pub type MergedRow = (
    (Seq<char>, Seq<char>, Seq<char>),
    (Seq<Seq<char>>, Seq<Seq<char>>, Seq<Seq<char>>),
    (int, int),
);

/// A search hit as `merge_all` reads it.
pub type HitRow = (Seq<char>, Seq<char>, Seq<char>, Seq<Seq<char>>, Seq<Seq<char>>, int);

/// No two rows share a key.
pub open spec fn distinct_keys(ms: Seq<MergedRow>) -> bool {
    forall|i: int, j: int| 0 <= i < j < ms.len() ==> (#[trigger] ms[i]).0.0 != (#[trigger] ms[j]).0.0
}

/// No row is listed before one that precedes it.
pub open spec fn in_listing_order(ms: Seq<MergedRow>) -> bool {
    forall|i: int, j: int| 0 <= i < j < ms.len() ==> !merged_before(#[trigger] ms[j], #[trigger] ms[i])
}

/// Some row has the key.
pub open spec fn has_key(ms: Seq<MergedRow>, k: Seq<char>) -> bool {
    exists|j: int| 0 <= j < ms.len() && (#[trigger] ms[j]).0.0 == k
}

proof fn lemma_find_key(ms: Seq<MergedRow>, k: Seq<char>)
    ensures
        match find_key(ms, k) {
            Some(i) => 0 <= i < ms.len() && ms[i].0.0 == k,
            None => forall|j: int| 0 <= j < ms.len() ==> (#[trigger] ms[j]).0.0 != k,
        },
    decreases ms.len(),
{
    if ms.len() > 0 && ms[0].0.0 != k {
        lemma_find_key(ms.drop_first(), k);
        assert forall|j: int| 1 <= j < ms.len() implies (#[trigger] ms[j]).0.0 == ms.drop_first()[j
            - 1].0.0 by {}
    }
}

proof fn lemma_merge_all(hits: Seq<HitRow>, order: Seq<Seq<char>>)
    ensures
        distinct_keys(merge_all(hits, order)),
        forall|i: int| 0 <= i < hits.len() ==> has_key(merge_all(hits, order), unicode_lower(#[trigger] hits[i].1)),
        forall|j: int| 0 <= j < merge_all(hits, order).len() ==> exists|i: int| 0 <= i < hits.len() && (#[trigger] merge_all(hits, order)[j]).0.0 == unicode_lower(hits[i].1),
    decreases hits.len(),
{
    if hits.len() > 0 {
        let prev = hits.drop_last();
        lemma_merge_all(prev, order);
        let ms = merge_all(prev, order);
        let h = hits.last();
        let k = unicode_lower(h.1);
        let rank = source_rank(order, h.0);
        let r = merge_all(hits, order);
        lemma_find_key(ms, k);
        assert forall|i: int| 0 <= i < prev.len() implies hits[i] == #[trigger] prev[i] by {}
        match find_key(ms, k) {
            Some(i) => {
                assert(r == ms.update(i, fold_hit(ms[i], h, rank)));
                assert forall|j: int| 0 <= j < r.len() implies (#[trigger] r[j]).0.0 == ms[j].0.0 by {}
                assert forall|t: int| 0 <= t < hits.len() implies has_key(r, unicode_lower(#[trigger] hits[t].1)) by {
                    if t < prev.len() {
                        assert(has_key(ms, unicode_lower(prev[t].1)));
                        let j = choose|j: int| 0 <= j < ms.len() && (#[trigger] ms[j]).0.0 == unicode_lower(prev[t].1);
                        assert(r[j].0.0 == ms[j].0.0);
                    } else {
                        assert(r[i].0.0 == k);
                    }
                }
                assert forall|j: int| 0 <= j < r.len() implies exists|t: int| 0 <= t < hits.len() && (#[trigger] r[j]).0.0 == unicode_lower(hits[t].1) by {
                    assert(r[j].0.0 == ms[j].0.0);
                    let t = choose|t: int| 0 <= t < prev.len() && (#[trigger] ms[j]).0.0 == unicode_lower(prev[t].1);
                    assert(prev[t] == hits[t]);
                }
            },
            None => {
                let nm = fold_hit(((k, h.1, h.2), (Seq::empty(), Seq::empty(), Seq::empty()), (h.5, rank)), h, rank);
                assert(r == ms.push(nm));
                assert(nm.0.0 == k);
                assert forall|t: int| 0 <= t < hits.len() implies has_key(r, unicode_lower(#[trigger] hits[t].1)) by {
                    if t < prev.len() {
                        assert(has_key(ms, unicode_lower(prev[t].1)));
                        let j = choose|j: int| 0 <= j < ms.len() && (#[trigger] ms[j]).0.0 == unicode_lower(prev[t].1);
                        assert(r[j] == ms[j]);
                    } else {
                        assert(r[ms.len() as int].0.0 == k);
                    }
                }
                assert forall|j: int| 0 <= j < r.len() implies exists|t: int| 0 <= t < hits.len() && (#[trigger] r[j]).0.0 == unicode_lower(hits[t].1) by {
                    if j < ms.len() {
                        assert(r[j] == ms[j]);
                        let t = choose|t: int| 0 <= t < prev.len() && (#[trigger] ms[j]).0.0 == unicode_lower(prev[t].1);
                        assert(prev[t] == hits[t]);
                    } else {
                        assert(r[j].0.0 == unicode_lower(hits[hits.len() - 1].1));
                    }
                }
            },
        }
    }
}

proof fn lemma_merged_before_asym(a: MergedRow, b: MergedRow)
    ensures
        merged_before(a, b) ==> !merged_before(b, a),
{
    crate::text::lemma_lex_asym(a.0.0, b.0.0);
}

proof fn lemma_merged_before_trans(a: MergedRow, b: MergedRow, c: MergedRow)
    requires
        merged_before(a, b),
        merged_before(b, c),
    ensures
        merged_before(a, c),
{
    if a.2.1 == b.2.1 && b.2.1 == c.2.1 && a.2.0 == b.2.0 && b.2.0 == c.2.0 {
        crate::text::lemma_lex_trans(a.0.0, b.0.0, c.0.0);
    }
}

proof fn lemma_insert_merged_is_insert(s: Seq<MergedRow>, x: MergedRow) -> (j: int)
    ensures
        0 <= j <= s.len(),
        insert_merged(s, x) == s.insert(j, x),
        forall|i: int| 0 <= i < j ==> !merged_before(x, #[trigger] s[i]),
        j < s.len() ==> merged_before(x, s[j]),
    decreases s.len(),
{
    if s.len() == 0 {
        assert(seq![x] =~= s.insert(0, x));
        0
    } else if merged_before(x, s[0]) {
        assert(seq![x] + s =~= s.insert(0, x));
        0
    } else {
        let t = s.drop_first();
        let j = lemma_insert_merged_is_insert(t, x);
        assert(seq![s[0]] + t.insert(j, x) =~= s.insert(j + 1, x));
        assert forall|i: int| 0 <= i < j + 1 implies !merged_before(x, #[trigger] s[i]) by {
            if i > 0 {
                assert(s[i] == t[i - 1]);
            }
        }
        j + 1
    }
}

proof fn lemma_sort_merged(s: Seq<MergedRow>)
    ensures
        sort_merged(s).len() == s.len(),
        forall|y: MergedRow| sort_merged(s).contains(y) <==> s.contains(y),
        in_listing_order(sort_merged(s)),
        distinct_keys(s) ==> distinct_keys(sort_merged(s)),
    decreases s.len(),
{
    if s.len() > 0 {
        let p = s.drop_last();
        let x = s.last();
        lemma_sort_merged(p);
        let t = sort_merged(p);
        let j = lemma_insert_merged_is_insert(t, x);
        let r = sort_merged(s);
        assert(r == t.insert(j, x));
        assert forall|y: MergedRow| r.contains(y) <==> s.contains(y) by {
            if r.contains(y) {
                let i = choose|i: int| 0 <= i < r.len() && r[i] == y;
                if i == j {
                    assert(s[s.len() - 1] == y);
                } else if i < j {
                    assert(t[i] == y);
                    assert(t.contains(y));
                    assert(p.contains(y));
                    let m = choose|m: int| 0 <= m < p.len() && p[m] == y;
                    assert(p[m] == s[m]);
                } else {
                    assert(t[i - 1] == y);
                    assert(t.contains(y));
                    assert(p.contains(y));
                    let m = choose|m: int| 0 <= m < p.len() && p[m] == y;
                    assert(p[m] == s[m]);
                }
            }
            if s.contains(y) {
                let i = choose|i: int| 0 <= i < s.len() && s[i] == y;
                if i == s.len() - 1 {
                    assert(r[j] == y);
                } else {
                    assert(p[i] == y);
                    assert(p.contains(y));
                    let m = choose|m: int| 0 <= m < t.len() && t[m] == y;
                    if m < j {
                        assert(r[m] == y);
                    } else {
                        assert(r[m + 1] == y);
                    }
                }
            }
        }
        assert forall|a: int, b: int| 0 <= a < b < r.len() implies !merged_before(#[trigger] r[b], #[trigger] r[a]) by {
            if a == j {
                assert(r[b] == t[b - 1]);
                if merged_before(t[b - 1], x) {
                    if b - 1 == j {
                        lemma_merged_before_asym(x, t[j]);
                    } else {
                        lemma_merged_before_trans(t[b - 1], x, t[j]);
                    }
                }
            } else if b == j {
                assert(r[a] == t[a]);
            } else {
                let ia = if a < j { a } else { a - 1 };
                let ib = if b < j { b } else { b - 1 };
                assert(r[a] == t[ia]);
                assert(r[b] == t[ib]);
            }
        }
        if distinct_keys(s) {
            assert forall|i: int, k: int| 0 <= i < k < p.len() implies (#[trigger] p[i]).0.0 != (#[trigger] p[k]).0.0 by {
                assert(p[i] == s[i]);
                assert(p[k] == s[k]);
            }
            assert forall|i: int| 0 <= i < t.len() implies (#[trigger] t[i]).0.0 != x.0.0 by {
                assert(t.contains(t[i]));
                assert(p.contains(t[i]));
                let m = choose|m: int| 0 <= m < p.len() && p[m] == t[i];
                assert(p[m] == s[m]);
                assert(s[s.len() - 1] == x);
                assert(s[m].0.0 != s[s.len() - 1].0.0);
            }
            assert forall|a: int, b: int| 0 <= a < b < r.len() implies (#[trigger] r[a]).0.0 != (#[trigger] r[b]).0.0 by {
                if a == j {
                    assert(r[b] == t[b - 1]);
                } else if b == j {
                    assert(r[a] == t[a]);
                } else {
                    let ia = if a < j { a } else { a - 1 };
                    let ib = if b < j { b } else { b - 1 };
                    assert(r[a] == t[ia]);
                    assert(r[b] == t[ib]);
                }
            }
        }
    }
}

/// Merging lists each API once and in listing order: no two merged rows
/// share a lower-cased name, every hit's API has a row, every row comes
/// from some hit, and no row is listed before one that precedes it.
pub proof fn law_merge_lists_each_api_once(hits: Seq<HitRow>, order: Seq<Seq<char>>)
    ensures
        distinct_keys(sort_merged(merge_all(hits, order))),
        in_listing_order(sort_merged(merge_all(hits, order))),
        forall|i: int| 0 <= i < hits.len() ==> has_key(sort_merged(merge_all(hits, order)), unicode_lower(#[trigger] hits[i].1)),
        forall|j: int| 0 <= j < sort_merged(merge_all(hits, order)).len() ==> exists|i: int| 0 <= i < hits.len() && (#[trigger] sort_merged(merge_all(hits, order))[j]).0.0 == unicode_lower(hits[i].1),
{
    let ms = merge_all(hits, order);
    lemma_merge_all(hits, order);
    lemma_sort_merged(ms);
    let r = sort_merged(ms);
    assert forall|i: int| 0 <= i < hits.len() implies has_key(r, unicode_lower(#[trigger] hits[i].1)) by {
        assert(has_key(ms, unicode_lower(hits[i].1)));
        let j = choose|j: int| 0 <= j < ms.len() && (#[trigger] ms[j]).0.0 == unicode_lower(hits[i].1);
        assert(ms.contains(ms[j]));
        assert(r.contains(ms[j]));
        let m = choose|m: int| 0 <= m < r.len() && r[m] == ms[j];
        assert(r[m].0.0 == unicode_lower(hits[i].1));
    }
    assert forall|j: int| 0 <= j < r.len() implies exists|i: int| 0 <= i < hits.len() && (#[trigger] r[j]).0.0 == unicode_lower(hits[i].1) by {
        assert(r.contains(r[j]));
        assert(ms.contains(r[j]));
        let m = choose|m: int| 0 <= m < ms.len() && ms[m] == r[j];
        let t = choose|t: int| 0 <= t < hits.len() && (#[trigger] ms[m]).0.0 == unicode_lower(hits[t].1);
    }
}

/// The key a hit is merged under: its lower-cased name.
pub open spec fn hit_key(h: HitRow) -> Seq<char> {
    unicode_lower(h.1)
}

/// Every hit merged into the row is accounted for: its score is at most
/// the best score, its source's rank at least the first source rank, and
/// its source, versions and tags are among the row's.
pub open spec fn row_covers(row: MergedRow, hits: Seq<HitRow>, order: Seq<Seq<char>>) -> bool {
    forall|i: int|
        0 <= i < hits.len() && hit_key(#[trigger] hits[i]) == row.0.0 ==> {
            &&& hits[i].5 <= row.2.0
            &&& row.2.1 <= source_rank(order, hits[i].0)
            &&& row.1.0.contains(hits[i].0)
            &&& forall|v: Seq<char>| hits[i].3.contains(v) ==> #[trigger] row.1.1.contains(v)
            &&& forall|t: Seq<char>| hits[i].4.contains(t) ==> #[trigger] row.1.2.contains(t)
        }
}

/// Everything in the row comes from the hits merged into it: each source,
/// version and tag is one of theirs, the best score is the score of one of
/// them, and the description is that of the first of them whose source
/// has the row's first source rank.
pub open spec fn row_from_hits(row: MergedRow, hits: Seq<HitRow>, order: Seq<Seq<char>>) -> bool {
    &&& forall|x: Seq<char>|
        #[trigger] row.1.0.contains(x) ==> exists|i: int|
            0 <= i < hits.len() && hit_key(#[trigger] hits[i]) == row.0.0 && hits[i].0 == x
    &&& forall|x: Seq<char>|
        #[trigger] row.1.1.contains(x) ==> exists|i: int|
            0 <= i < hits.len() && hit_key(#[trigger] hits[i]) == row.0.0 && hits[i].3.contains(x)
    &&& forall|x: Seq<char>|
        #[trigger] row.1.2.contains(x) ==> exists|i: int|
            0 <= i < hits.len() && hit_key(#[trigger] hits[i]) == row.0.0 && hits[i].4.contains(x)
    &&& exists|i: int|
        0 <= i < hits.len() && hit_key(#[trigger] hits[i]) == row.0.0 && hits[i].5 == row.2.0
    &&& exists|i: int|
        0 <= i < hits.len() && hit_key(#[trigger] hits[i]) == row.0.0 && source_rank(order, hits[i].0)
            == row.2.1 && row.0.2 == hits[i].2 && forall|t: int|
            0 <= t < i && hit_key(#[trigger] hits[t]) == row.0.0 ==> source_rank(order, hits[t].0)
                > row.2.1
}

/// A row summarises the hits merged into it (see [`row_covers`] and
/// [`row_from_hits`]).
pub open spec fn row_summarises(row: MergedRow, hits: Seq<HitRow>, order: Seq<Seq<char>>) -> bool {
    row_covers(row, hits, order) && row_from_hits(row, hits, order)
}

/// Extending the hits with one of another key leaves a row's summary true.
proof fn lemma_summary_other_key(row: MergedRow, prev: Seq<HitRow>, h: HitRow, order: Seq<Seq<char>>)
    requires
        row_summarises(row, prev, order),
        hit_key(h) != row.0.0,
    ensures
        row_summarises(row, prev.push(h), order),
{
    let hits = prev.push(h);
    assert forall|i: int| 0 <= i < prev.len() implies #[trigger] hits[i] == prev[i] by {}
    assert(hits[prev.len() as int] == h);
    assert(row_covers(row, hits, order)) by {
        assert forall|i: int| 0 <= i < hits.len() && hit_key(#[trigger] hits[i]) == row.0.0 implies {
            &&& hits[i].5 <= row.2.0
            &&& row.2.1 <= source_rank(order, hits[i].0)
            &&& row.1.0.contains(hits[i].0)
            &&& forall|v: Seq<char>| hits[i].3.contains(v) ==> #[trigger] row.1.1.contains(v)
            &&& forall|t: Seq<char>| hits[i].4.contains(t) ==> #[trigger] row.1.2.contains(t)
        } by {
            assert(i < prev.len());
            assert(hit_key(prev[i]) == row.0.0);
        }
    }
    assert forall|x: Seq<char>| #[trigger] row.1.0.contains(x) implies exists|i: int|
        0 <= i < hits.len() && hit_key(#[trigger] hits[i]) == row.0.0 && hits[i].0 == x by {
        let i = choose|i: int| 0 <= i < prev.len() && hit_key(#[trigger] prev[i]) == row.0.0 && prev[i].0 == x;
        assert(hits[i] == prev[i]);
    }
    assert forall|x: Seq<char>| #[trigger] row.1.1.contains(x) implies exists|i: int|
        0 <= i < hits.len() && hit_key(#[trigger] hits[i]) == row.0.0 && hits[i].3.contains(x) by {
        let i = choose|i: int| 0 <= i < prev.len() && hit_key(#[trigger] prev[i]) == row.0.0 && prev[i].3.contains(x);
        assert(hits[i] == prev[i]);
    }
    assert forall|x: Seq<char>| #[trigger] row.1.2.contains(x) implies exists|i: int|
        0 <= i < hits.len() && hit_key(#[trigger] hits[i]) == row.0.0 && hits[i].4.contains(x) by {
        let i = choose|i: int| 0 <= i < prev.len() && hit_key(#[trigger] prev[i]) == row.0.0 && prev[i].4.contains(x);
        assert(hits[i] == prev[i]);
    }
    let a = choose|i: int| 0 <= i < prev.len() && hit_key(#[trigger] prev[i]) == row.0.0 && prev[i].5 == row.2.0;
    assert(hits[a] == prev[a]);
    let b = choose|i: int|
        0 <= i < prev.len() && hit_key(#[trigger] prev[i]) == row.0.0 && source_rank(order, prev[i].0)
            == row.2.1 && row.0.2 == prev[i].2 && forall|t: int|
            0 <= t < i && hit_key(#[trigger] prev[t]) == row.0.0 ==> source_rank(order, prev[t].0)
                > row.2.1;
    assert(hits[b] == prev[b]);
    assert forall|t: int| 0 <= t < b && hit_key(#[trigger] hits[t]) == row.0.0 implies source_rank(order, hits[t].0) > row.2.1 by {
        assert(hits[t] == prev[t]);
    }
}

/// Folding a hit of the row's key into a row that summarises the earlier
/// hits gives a row that summarises them all.
proof fn lemma_summary_fold(row: MergedRow, prev: Seq<HitRow>, h: HitRow, order: Seq<Seq<char>>)
    requires
        row_summarises(row, prev, order),
        hit_key(h) == row.0.0,
    ensures
        row_summarises(fold_hit(row, h, source_rank(order, h.0)), prev.push(h), order),
{
    let hits = prev.push(h);
    let n = prev.len() as int;
    let rank = source_rank(order, h.0);
    let r = fold_hit(row, h, rank);
    assert forall|i: int| 0 <= i < prev.len() implies #[trigger] hits[i] == prev[i] by {}
    assert(hits[n] == h);
    assert forall|x: Seq<char>| r.1.0.contains(x) <==> row.1.0.contains(x) || x == h.0 by {
        crate::text::lemma_set_add_contains(row.1.0, h.0, x);
    }
    assert forall|x: Seq<char>| r.1.1.contains(x) <==> row.1.1.contains(x) || h.3.contains(x) by {
        crate::text::lemma_set_add_all_contains(row.1.1, h.3, x);
    }
    assert forall|x: Seq<char>| r.1.2.contains(x) <==> row.1.2.contains(x) || h.4.contains(x) by {
        crate::text::lemma_set_add_all_contains(row.1.2, h.4, x);
    }
    assert(row_covers(r, hits, order)) by {
        assert forall|i: int| 0 <= i < hits.len() && hit_key(#[trigger] hits[i]) == r.0.0 implies {
            &&& hits[i].5 <= r.2.0
            &&& r.2.1 <= source_rank(order, hits[i].0)
            &&& r.1.0.contains(hits[i].0)
            &&& forall|v: Seq<char>| hits[i].3.contains(v) ==> #[trigger] r.1.1.contains(v)
            &&& forall|t: Seq<char>| hits[i].4.contains(t) ==> #[trigger] r.1.2.contains(t)
        } by {
            if i < n {
                assert(hits[i] == prev[i]);
                assert(hit_key(prev[i]) == row.0.0);
                assert(prev[i].5 <= row.2.0);
                assert(row.2.1 <= source_rank(order, prev[i].0));
                assert(row.1.0.contains(prev[i].0));
                assert forall|v: Seq<char>| hits[i].3.contains(v) implies #[trigger] r.1.1.contains(v) by {
                    assert(prev[i].3.contains(v));
                    assert(row.1.1.contains(v));
                    crate::text::lemma_set_add_all_contains(row.1.1, h.3, v);
                }
                assert forall|t: Seq<char>| hits[i].4.contains(t) implies #[trigger] r.1.2.contains(t) by {
                    assert(prev[i].4.contains(t));
                    assert(row.1.2.contains(t));
                    crate::text::lemma_set_add_all_contains(row.1.2, h.4, t);
                }
            } else {
                assert(i == n);
                assert forall|v: Seq<char>| hits[i].3.contains(v) implies #[trigger] r.1.1.contains(v) by {}
                assert forall|t: Seq<char>| hits[i].4.contains(t) implies #[trigger] r.1.2.contains(t) by {}
            }
        }
    }
    assert forall|x: Seq<char>| #[trigger] r.1.0.contains(x) implies exists|i: int|
        0 <= i < hits.len() && hit_key(#[trigger] hits[i]) == r.0.0 && hits[i].0 == x by {
        if row.1.0.contains(x) {
            let i = choose|i: int| 0 <= i < prev.len() && hit_key(#[trigger] prev[i]) == row.0.0 && prev[i].0 == x;
            assert(hits[i] == prev[i]);
        } else {
            assert(hits[n].0 == x);
        }
    }
    assert forall|x: Seq<char>| #[trigger] r.1.1.contains(x) implies exists|i: int|
        0 <= i < hits.len() && hit_key(#[trigger] hits[i]) == r.0.0 && hits[i].3.contains(x) by {
        if row.1.1.contains(x) {
            let i = choose|i: int| 0 <= i < prev.len() && hit_key(#[trigger] prev[i]) == row.0.0 && prev[i].3.contains(x);
            assert(hits[i] == prev[i]);
        } else {
            assert(hits[n].3.contains(x));
        }
    }
    assert forall|x: Seq<char>| #[trigger] r.1.2.contains(x) implies exists|i: int|
        0 <= i < hits.len() && hit_key(#[trigger] hits[i]) == r.0.0 && hits[i].4.contains(x) by {
        if row.1.2.contains(x) {
            let i = choose|i: int| 0 <= i < prev.len() && hit_key(#[trigger] prev[i]) == row.0.0 && prev[i].4.contains(x);
            assert(hits[i] == prev[i]);
        } else {
            assert(hits[n].4.contains(x));
        }
    }
    let a = choose|i: int| 0 <= i < prev.len() && hit_key(#[trigger] prev[i]) == row.0.0 && prev[i].5 == row.2.0;
    assert(hits[a] == prev[a]);
    if h.5 > row.2.0 {
        assert(hits[n].5 == r.2.0);
    } else {
        assert(hits[a].5 == r.2.0);
    }
    let b = choose|i: int|
        0 <= i < prev.len() && hit_key(#[trigger] prev[i]) == row.0.0 && source_rank(order, prev[i].0)
            == row.2.1 && row.0.2 == prev[i].2 && forall|t: int|
            0 <= t < i && hit_key(#[trigger] prev[t]) == row.0.0 ==> source_rank(order, prev[t].0)
                > row.2.1;
    assert(hits[b] == prev[b]);
    if rank < row.2.1 {
        assert forall|t: int| 0 <= t < n && hit_key(#[trigger] hits[t]) == r.0.0 implies source_rank(order, hits[t].0) > r.2.1 by {
            assert(hit_key(prev[t]) == row.0.0);
        }
        assert(source_rank(order, hits[n].0) == r.2.1 && r.0.2 == hits[n].2);
    } else {
        assert forall|t: int| 0 <= t < b && hit_key(#[trigger] hits[t]) == r.0.0 implies source_rank(order, hits[t].0) > r.2.1 by {
            assert(hits[t] == prev[t]);
        }
    }
}

/// Every row of the merge summarises the hits of its key.
proof fn lemma_merge_summaries(hits: Seq<HitRow>, order: Seq<Seq<char>>)
    ensures
        forall|j: int|
            0 <= j < merge_all(hits, order).len() ==> row_summarises(
                #[trigger] merge_all(hits, order)[j],
                hits,
                order,
            ),
    decreases hits.len(),
{
    if hits.len() > 0 {
        let prev = hits.drop_last();
        lemma_merge_summaries(prev, order);
        lemma_merge_all(prev, order);
        let ms = merge_all(prev, order);
        let h = hits.last();
        let k = unicode_lower(h.1);
        let rank = source_rank(order, h.0);
        let r = merge_all(hits, order);
        lemma_find_key(ms, k);
        assert(prev.push(h) =~= hits);
        match find_key(ms, k) {
            Some(i) => {
                assert forall|j: int| 0 <= j < r.len() implies row_summarises(#[trigger] r[j], hits, order) by {
                    if j == i {
                        lemma_summary_fold(ms[i], prev, h, order);
                    } else {
                        assert(ms[j].0.0 != ms[i].0.0);
                        lemma_summary_other_key(ms[j], prev, h, order);
                    }
                }
            },
            None => {
                assert forall|t: int| 0 <= t < prev.len() implies hit_key(#[trigger] prev[t]) != k by {
                    assert(has_key(ms, unicode_lower(prev[t].1)));
                }
                assert forall|j: int| 0 <= j < r.len() implies row_summarises(#[trigger] r[j], hits, order) by {
                    if j < ms.len() {
                        lemma_summary_other_key(ms[j], prev, h, order);
                    } else {
                        lemma_summary_new_row(prev, h, order);
                    }
                }
            },
        }
    }
}

/// A new row for a key no earlier hit has summarises the hits.
proof fn lemma_summary_new_row(prev: Seq<HitRow>, h: HitRow, order: Seq<Seq<char>>)
    requires
        forall|t: int| 0 <= t < prev.len() ==> hit_key(#[trigger] prev[t]) != hit_key(h),
    ensures
        row_summarises(
            fold_hit(
                (
                    (hit_key(h), h.1, h.2),
                    (Seq::empty(), Seq::empty(), Seq::empty()),
                    (h.5, source_rank(order, h.0)),
                ),
                h,
                source_rank(order, h.0),
            ),
            prev.push(h),
            order,
        ),
{
    let hits = prev.push(h);
    let n = prev.len() as int;
    let rank = source_rank(order, h.0);
    let init: MergedRow = ((hit_key(h), h.1, h.2), (Seq::empty(), Seq::empty(), Seq::empty()), (h.5, rank));
    let r = fold_hit(init, h, rank);
    assert forall|i: int| 0 <= i < prev.len() implies #[trigger] hits[i] == prev[i] by {}
    assert(hits[n] == h);
    assert forall|x: Seq<char>| r.1.0.contains(x) <==> x == h.0 by {
        crate::text::lemma_set_add_contains(Seq::empty(), h.0, x);
    }
    assert forall|x: Seq<char>| r.1.1.contains(x) <==> h.3.contains(x) by {
        crate::text::lemma_set_add_all_contains(Seq::empty(), h.3, x);
    }
    assert forall|x: Seq<char>| r.1.2.contains(x) <==> h.4.contains(x) by {
        crate::text::lemma_set_add_all_contains(Seq::empty(), h.4, x);
    }
    assert(r.2.0 == h.5 && r.2.1 == rank && r.0.2 == h.2 && r.0.0 == hit_key(h));
    assert forall|i: int| 0 <= i < hits.len() && hit_key(#[trigger] hits[i]) == r.0.0 implies i == n by {
        if i < n {
            assert(hits[i] == prev[i]);
        }
    }
    assert(row_covers(r, hits, order));
    assert forall|x: Seq<char>| #[trigger] r.1.0.contains(x) implies exists|i: int|
        0 <= i < hits.len() && hit_key(#[trigger] hits[i]) == r.0.0 && hits[i].0 == x by {
        assert(hits[n].0 == x);
    }
    assert forall|x: Seq<char>| #[trigger] r.1.1.contains(x) implies exists|i: int|
        0 <= i < hits.len() && hit_key(#[trigger] hits[i]) == r.0.0 && hits[i].3.contains(x) by {
        assert(hits[n].3.contains(x));
    }
    assert forall|x: Seq<char>| #[trigger] r.1.2.contains(x) implies exists|i: int|
        0 <= i < hits.len() && hit_key(#[trigger] hits[i]) == r.0.0 && hits[i].4.contains(x) by {
        assert(hits[n].4.contains(x));
    }
    assert(hits[n].5 == r.2.0);
    assert forall|t: int| 0 <= t < n && hit_key(#[trigger] hits[t]) == r.0.0 implies source_rank(order, hits[t].0) > r.2.1 by {
        assert(hits[t] == prev[t]);
    }
    assert(source_rank(order, hits[n].0) == r.2.1 && r.0.2 == hits[n].2);
}

/// Merging gives one row per API that sums up all its hits: the sources,
/// versions and tags of the row are the unions of those of the API's hits,
/// its best score is their highest score, its first source rank their
/// lowest source rank, and its description that of the first of them from
/// a source of that rank.
pub proof fn law_merge_sums_up_hits(hits: Seq<HitRow>, order: Seq<Seq<char>>)
    ensures
        forall|j: int|
            0 <= j < sort_merged(merge_all(hits, order)).len() ==> row_summarises(
                #[trigger] sort_merged(merge_all(hits, order))[j],
                hits,
                order,
            ),
{
    let ms = merge_all(hits, order);
    lemma_merge_summaries(hits, order);
    lemma_sort_merged(ms);
    let r = sort_merged(ms);
    assert forall|j: int| 0 <= j < r.len() implies row_summarises(#[trigger] r[j], hits, order) by {
        assert(r.contains(r[j]));
        assert(ms.contains(r[j]));
        let m = choose|m: int| 0 <= m < ms.len() && ms[m] == r[j];
        assert(row_summarises(ms[m], hits, order));
    }
}

/// The rank of a source in the search order.
fn rank_of(order: &[String], source: &str) -> (r: usize)
    ensures
        r == source_rank(strs(order@), source@),
{
    let mut j: usize = order.len();
    assert(strs(order@).take(j as int) =~= strs(order@));
    while j > 0
        invariant
            j <= order@.len(),
            source_rank(strs(order@), source@) == source_rank(strs(order@).take(j as int), source@),
        decreases j,
    {
        assert(strs(order@).take(j as int).last() == order@[j - 1]@);
        assert(strs(order@).take(j as int).drop_last() =~= strs(order@).take(j - 1));
        if str_eq(order[j - 1].as_str(), source) {
            return j - 1;
        }
        j = j - 1;
    }
    usize::MAX
}

/// Folds a hit into a merged hit.
fn fold_hit_exec(m: &mut MergedHit, h: &SearchHit, rank: usize)
    ensures
        merged_view(*final(m)) == fold_hit(merged_view(*old(m)), hit_view(*h), rank as int),
{
    set_insert(&mut m.sources, h.source.as_str());
    set_insert_all(&mut m.versions, h.versions.as_slice());
    set_insert_all(&mut m.tags, h.tags.as_slice());
    if h.score > m.best_score {
        m.best_score = h.score;
    }
    if rank < m.first_source_rank {
        m.first_source_rank = rank;
        m.description = owned(h.description.as_str());
    }
}

/// Merges the hits of all sources into one row per API (by lower-cased
/// name), listed by best source rank, then higher score, then name; `order`
/// is the search order of the sources.
pub fn merge_hits(hits: Vec<SearchHit>, order: &[String]) -> (r: Vec<MergedHit>)
    ensures
        merged_views(r@) == sort_merged(merge_all(hit_views(hits@), strs(order@))),
{
    let ghost all = hit_views(hits@);
    let mut merged: Vec<MergedHit> = Vec::new();
    let mut i: usize = 0;
    while i < hits.len()
        invariant
            i <= hits@.len(),
            all == hit_views(hits@),
            merged_views(merged@) == merge_all(all.take(i as int), strs(order@)),
        decreases hits@.len() - i,
    {
        let h = &hits[i];
        assert(all.take(i + 1).drop_last() =~= all.take(i as int));
        assert(all.take(i + 1).last() == hit_view(*h));
        let ghost ms = merged_views(merged@);
        let key = to_lowercase(h.name.as_str());
        let kc = chars_of(key.as_str());
        let rank = rank_of(order, h.source.as_str());
        let mut j: usize = 0;
        let mut found = false;
        while !found && j < merged.len()
            invariant
                j <= merged@.len(),
                ms == merged_views(merged@),
                kc@ == unicode_lower(h.name@),
                forall|t: int| 0 <= t < j ==> (#[trigger] ms[t]).0.0 != kc@,
                found ==> j < merged@.len() && ms[j as int].0.0 == kc@,
            decreases merged@.len() - j, if found { 0int } else { 1int },
        {
            let other = to_lowercase(merged[j].name.as_str());
            let oc = chars_of(other.as_str());
            assert(ms[j as int].0.0 == oc@);
            if crate::text::chars_eq(oc.as_slice(), kc.as_slice()) {
                found = true;
            } else {
                j = j + 1;
            }
        }
        proof {
            lemma_find_key_skip(ms, kc@, j as int);
        }
        if found {
            assert(ms.skip(j as int)[0] == ms[j as int]);
            let mut m = merged.remove(j);
            fold_hit_exec(&mut m, h, rank);
            let ghost mv = merged_view(m);
            merged.insert(j, m);
            assert(merged_views(merged@) =~= ms.update(j as int, mv));
        } else {
            assert(ms.skip(j as int).len() == 0);
            let mut m = MergedHit {
                name: owned(h.name.as_str()),
                description: owned(h.description.as_str()),
                sources: Vec::new(),
                versions: Vec::new(),
                tags: Vec::new(),
                best_score: h.score,
                first_source_rank: rank,
            };
            assert(strs(m.sources@) =~= Seq::<Seq<char>>::empty());
            assert(strs(m.versions@) =~= Seq::<Seq<char>>::empty());
            assert(strs(m.tags@) =~= Seq::<Seq<char>>::empty());
            fold_hit_exec(&mut m, h, rank);
            let ghost mv = merged_view(m);
            merged.push(m);
            assert(merged_views(merged@) =~= ms.push(mv));
        }
        i = i + 1;
    }
    assert(all.take(hits@.len() as int) =~= all);
    let ghost unsorted = merged_views(merged@);
    let mut out: Vec<MergedHit> = Vec::new();
    let n = merged.len();
    let mut k: usize = 0;
    while k < n
        invariant
            n == unsorted.len(),
            k <= n,
            merged_views(merged@) == unsorted.skip(k as int),
            merged_views(out@) == sort_merged(unsorted.take(k as int)),
        decreases n - k,
    {
        assert(unsorted.take(k + 1).drop_last() =~= unsorted.take(k as int));
        assert(merged_views(merged@).len() == merged@.len());
        let ghost before = merged@;
        let x = merged.remove(0);
        assert(merged@ =~= before.drop_first());
        assert(x == before[0]);
        assert(merged_views(merged@) =~= merged_views(before).drop_first());
        assert(unsorted.skip(k as int).drop_first() =~= unsorted.skip(k + 1));
        assert(merged_views(merged@) =~= unsorted.skip(k + 1));
        assert(merged_views(before)[0] == merged_view(x));
        assert(unsorted.skip(k as int)[0] == unsorted[k as int]);
        assert(unsorted.take(k + 1).last() == merged_view(x));
        let ghost cur = merged_views(out@);
        let ghost xv = merged_view(x);
        let xk = to_lowercase(x.name.as_str());
        let xkc = chars_of(xk.as_str());
        let mut j: usize = 0;
        let mut stop = false;
        while !stop && j < out.len()
            invariant
                j <= out@.len(),
                cur == merged_views(out@),
                xv == merged_view(x),
                xkc@ == xv.0.0,
                forall|t: int| 0 <= t < j ==> !merged_before(xv, #[trigger] cur[t]),
                stop ==> j < out@.len() && merged_before(xv, cur[j as int]),
            decreases out@.len() - j, if stop { 0int } else { 1int },
        {
            let ok = to_lowercase(out[j].name.as_str());
            let okc = chars_of(ok.as_str());
            assert(cur[j as int] == merged_view(out@[j as int]));
            let before = x.first_source_rank < out[j].first_source_rank || (x.first_source_rank
                == out[j].first_source_rank && (x.best_score > out[j].best_score || (x.best_score
                == out[j].best_score && lex_lt_chars(xkc.as_slice(), okc.as_slice()))));
            if before {
                stop = true;
            } else {
                j = j + 1;
            }
        }
        proof {
            lemma_insert_merged_at(cur, xv, j as int);
        }
        out.insert(j, x);
        assert(merged_views(out@) =~= cur.insert(j as int, xv));
        k = k + 1;
    }
    assert(unsorted.take(n as int) =~= unsorted);
    out
}

/// The sources searched: the one given, else every known source when all
/// are asked for, else the priority order.
pub fn pick_search_sources(
    cfg: &crate::config::Config,
    env: &crate::config::EnvOverrides,
    source: Option<&str>,
    all_sources: bool,
) -> (r: Vec<String>)
    ensures
        strs(r@) == match source {
            Some(s) => seq![s@],
            None => if all_sources {
                crate::vault::resolver::known_of(cfg, env)
            } else {
                crate::vault::resolver::prio_of(cfg, env)
            },
        },
{
    if let Some(s) = source {
        let mut v: Vec<String> = Vec::new();
        v.push(owned(s));
        assert(strs(v@) =~= seq![s@]);
        return v;
    }
    if all_sources {
        return cfg.known_sources(env);
    }
    cfg.source_priority(env)
}

// ---------------------------------------------------------------------------
// Rebuilding a registry from a vault tree
// ---------------------------------------------------------------------------

/// Directories at a vault root that are never namespaces: hidden ones.
pub open spec fn ignored_root_dir(name: Seq<char>) -> bool {
    name.len() > 0 && name[0] == '.'
}

/// Whether a directory at a vault root is skipped.
pub fn is_ignored_root_dir(name: &str) -> (r: bool)
    ensures
        r == ignored_root_dir(name@),
{
    let cs = chars_of(name);
    cs.len() > 0 && cs[0] == '.'
}

/// The tags of a `tags: [a, b]` value: the comma-separated items, trimmed,
/// without brackets and empty items.
pub open spec fn tag_list(v: Seq<char>) -> Seq<Seq<char>> {
    let b = trim(v);
    let b1 = if b.len() > 0 && b[0] == '[' {
        b.drop_first()
    } else {
        b
    };
    let inner = if b1.len() > 0 && b1.last() == ']' {
        b1.drop_last()
    } else {
        b1
    };
    drop_empty(split_char(inner, ',').map_values(|x: Seq<char>| trim(x)))
}

/// What is read from `_metadata.md` so far: title, description and tags.
pub open spec fn meta_step(
    st: (Seq<char>, Seq<char>, Option<Seq<Seq<char>>>),
    line: Seq<char>,
) -> (Seq<char>, Seq<char>, Option<Seq<Seq<char>>>) {
    let t = trim(line);
    if st.0.len() == 0 && "# "@.is_prefix_of(t) {
        (trim(strip_prefixes(t, "# "@)), st.1, st.2)
    } else if st.0.len() == 0 && st.2 is None && "tags:"@.is_prefix_of(t) {
        (st.0, st.1, Some(tag_list(t.skip(5))))
    } else if st.0.len() > 0 && st.1.len() == 0 && !(t.len() == 0 || "**"@.is_prefix_of(t)
        || "---"@.is_prefix_of(t)) {
        (st.0, t, st.2)
    } else {
        st
    }
}

/// The title (first `# ` heading), description (first line after it that
/// is not blank, bold or a rule) and tags (the `tags:` line before the
/// title) of a version's metadata document, line by line.
pub open spec fn meta_scan(ls: Seq<Seq<char>>) -> (Seq<char>, Seq<char>, Option<Seq<Seq<char>>>)
    decreases ls.len(),
{
    if ls.len() == 0 {
        (Seq::empty(), Seq::empty(), None)
    } else {
        meta_step(meta_scan(ls.drop_last()), ls.last())
    }
}

/// The tags of a `tags:` value.
fn parse_tag_list(v: &[char]) -> (r: Vec<String>)
    ensures
        strs(r@) == tag_list(v@),
{
    let b = trim_chars(v);
    let b1 = if b.len() > 0 && b[0] == '[' {
        sub_chars(b.as_slice(), 1, b.len())
    } else {
        sub_chars(b.as_slice(), 0, b.len())
    };
    assert(b@.subrange(0, b@.len() as int) =~= b@);
    assert(b@.len() > 0 ==> b@.subrange(1, b@.len() as int) =~= b@.drop_first());
    let inner = if b1.len() > 0 && b1[b1.len() - 1] == ']' {
        sub_chars(b1.as_slice(), 0, b1.len() - 1)
    } else {
        sub_chars(b1.as_slice(), 0, b1.len())
    };
    assert(b1@.subrange(0, b1@.len() as int) =~= b1@);
    assert(b1@.len() > 0 ==> b1@.subrange(0, b1@.len() - 1) =~= b1@.drop_last());
    let parts = crate::text::split_chars(inner.as_slice(), ',');
    let mut trimmed: Vec<Vec<char>> = Vec::new();
    let mut i: usize = 0;
    while i < parts.len()
        invariant
            i <= parts@.len(),
            views(trimmed@) == views(parts@).take(i as int).map_values(|x: Seq<char>| trim(x)),
        decreases parts@.len() - i,
    {
        let t = trim_chars(parts[i].as_slice());
        let ghost prev = views(trimmed@);
        trimmed.push(t);
        assert(views(trimmed@) =~= prev.push(t@));
        assert(views(parts@).take(i + 1).map_values(|x: Seq<char>| trim(x)) =~= views(
            parts@,
        ).take(i as int).map_values(|x: Seq<char>| trim(x)).push(trim(parts@[i as int]@)));
        i = i + 1;
    }
    assert(views(parts@).take(parts@.len() as int) =~= views(parts@));
    let kept = crate::text::drop_empty_vecs(trimmed.as_slice());
    strings_of(kept.as_slice())
}

/// Reads title, description and tags from a version's `_metadata.md`.
pub fn parse_metadata_markdown(raw: &str) -> (r: (String, String, Option<Vec<String>>))
    ensures
        ({
            let m = meta_scan(lines(raw@));
            &&& r.0@ == m.0
            &&& r.1@ == m.1
            &&& match m.2 {
                Some(t) => r.2 matches Some(v) && strs(v@) == t,
                None => r.2 is None,
            }
        }),
{
    let ls = lines_of_str(raw);
    let ghost all = views(ls@);
    let mut title: Vec<char> = Vec::new();
    let mut desc: Vec<char> = Vec::new();
    let mut tags: Option<Vec<String>> = None;
    let mut i: usize = 0;
    while i < ls.len()
        invariant
            i <= ls@.len(),
            all == views(ls@),
            ({
                let m = meta_scan(all.take(i as int));
                &&& title@ == m.0
                &&& desc@ == m.1
                &&& match m.2 {
                    Some(t) => tags matches Some(v) && strs(v@) == t,
                    None => tags is None,
                }
            }),
        decreases ls@.len() - i,
    {
        assert(all.take(i + 1).drop_last() =~= all.take(i as int));
        assert(all.take(i + 1).last() == ls@[i as int]@);
        let t = trim_chars(ls[i].as_slice());
        if title.len() == 0 && starts_with_str(t.as_slice(), "# ") {
            let mut p: Vec<char> = Vec::new();
            extend_str(&mut p, "# ");
            let stripped = strip_prefixes_chars(t.as_slice(), p.as_slice());
            title = trim_chars(stripped.as_slice());
        } else if title.len() == 0 && tags.is_none() && starts_with_str(t.as_slice(), "tags:") {
            proof {
                reveal_strlit("tags:");
            }
            assert(t@.len() >= 5);
            assert(t.len() as int == t@.len());
            let rest = sub_chars(t.as_slice(), 5, t.len());
            assert(rest@ =~= t@.skip(5));
            tags = Some(parse_tag_list(rest.as_slice()));
        } else if title.len() > 0 && desc.len() == 0 && !(t.len() == 0 || starts_with_str(
            t.as_slice(),
            "**",
        ) || starts_with_str(t.as_slice(), "---")) {
            desc = t;
        }
        i = i + 1;
    }
    assert(all.take(ls@.len() as int) =~= all);
    (string_of(title.as_slice()), string_of(desc.as_slice()), tags)
}

/// A version directory at a vault root: its name, whether `_metadata.md`
/// is there, and the document when it could be read.
#[derive(Debug, Clone)]
pub struct VersionDir {
    pub name: String,
    pub has_metadata: bool,
    pub metadata: Option<String>,
}

/// A directory at a vault root with its version directories.
#[derive(Debug, Clone)]
pub struct NamespaceDir {
    pub name: String,
    pub versions: Vec<VersionDir>,
}

/// An entry as (name, description, versions, tags).
pub open spec fn api_view(e: ApiEntry) -> (Seq<char>, Seq<char>, Seq<Seq<char>>, Seq<Seq<char>>) {
    (e.name@, e.description@, strs(e.versions@), strs(e.tags@))
}

/// What the versions of a namespace give: (versions as a sorted set, title,
/// description, tags in order of first appearance).
pub open spec fn scan_versions(ns: Seq<char>, vs: Seq<VersionDir>) -> (
    Seq<Seq<char>>,
    Seq<char>,
    Seq<char>,
    Seq<Seq<char>>,
)
    decreases vs.len(),
{
    if vs.len() == 0 {
        (Seq::empty(), ns, Seq::empty(), Seq::empty())
    } else {
        let st = scan_versions(ns, vs.drop_last());
        let v = vs.last();
        if !v.has_metadata {
            st
        } else {
            let versions = set_add(st.0, v.name@);
            match v.metadata {
                Some(c) => {
                    let m = meta_scan(lines(c@));
                    let title = if st.1 == ns && m.0.len() > 0 {
                        m.0
                    } else {
                        st.1
                    };
                    let desc = if st.2.len() == 0 && m.1.len() > 0 {
                        m.1
                    } else {
                        st.2
                    };
                    let tags = match m.2 {
                        Some(t) => append_unique(st.3, t),
                        None => st.3,
                    };
                    (versions, title, desc, tags)
                },
                None => (versions, st.1, st.2, st.3),
            }
        }
    }
}

/// The registry entry of a namespace directory, if it has a version: its
/// description is the first metadata description, else the title (the
/// first metadata title, else the namespace name); tags from the metadata,
/// and `local` for the local source.
pub open spec fn namespace_entry(d: NamespaceDir, local_tags: bool) -> Option<
    (Seq<char>, Seq<char>, Seq<Seq<char>>, Seq<Seq<char>>),
> {
    let st = scan_versions(d.name@, d.versions@);
    if ignored_root_dir(d.name@) || st.0.len() == 0 {
        None
    } else {
        Some(
            (
                d.name@,
                if st.2.len() == 0 {
                    st.1
                } else {
                    st.2
                },
                st.0,
                if local_tags {
                    append_unique(st.3, seq!["local"@])
                } else {
                    st.3
                },
            ),
        )
    }
}

/// The registry of a vault tree, by namespace name.
pub open spec fn built_registry(nss: Seq<NamespaceDir>, local_tags: bool) -> Map<
    Seq<char>,
    (Seq<char>, Seq<char>, Seq<Seq<char>>, Seq<Seq<char>>),
>
    decreases nss.len(),
{
    if nss.len() == 0 {
        Map::empty()
    } else {
        let m = built_registry(nss.drop_last(), local_tags);
        match namespace_entry(nss.last(), local_tags) {
            Some(e) => m.insert(nss.last().name@, e),
            None => m,
        }
    }
}

/// Whether some version directory has `_metadata.md` and the name.
pub open spec fn has_indexed_version(vs: Seq<VersionDir>, name: Seq<char>) -> bool {
    exists|i: int| 0 <= i < vs.len() && (#[trigger] vs[i]).has_metadata && vs[i].name@ == name
}

proof fn lemma_scan_versions(ns: Seq<char>, vs: Seq<VersionDir>)
    ensures
        forall|x: Seq<char>| scan_versions(ns, vs).0.contains(x) <==> has_indexed_version(vs, x),
    decreases vs.len(),
{
    if vs.len() > 0 {
        let p = vs.drop_last();
        lemma_scan_versions(ns, p);
        let st = scan_versions(ns, p);
        let v = vs.last();
        assert forall|x: Seq<char>| scan_versions(ns, vs).0.contains(x) <==> has_indexed_version(vs, x) by {
            if v.has_metadata {
                crate::text::lemma_set_add_contains(st.0, v.name@, x);
                assert(scan_versions(ns, vs).0 == set_add(st.0, v.name@));
            }
            if has_indexed_version(vs, x) {
                let i = choose|i: int| 0 <= i < vs.len() && (#[trigger] vs[i]).has_metadata && vs[i].name@ == x;
                if i < p.len() {
                    assert(p[i] == vs[i]);
                    assert(has_indexed_version(p, x));
                }
            }
            if has_indexed_version(p, x) {
                let i = choose|i: int| 0 <= i < p.len() && (#[trigger] p[i]).has_metadata && p[i].name@ == x;
                assert(vs[i] == p[i]);
            }
        }
    }
}

/// Which directories a registry indexes: each entry is named after a
/// namespace directory that is not dot-prefixed, and its versions are the
/// names of version directories with `_metadata.md` under a namespace
/// directory of that name; a namespace directory with no such version is
/// not indexed.
pub proof fn law_registry_indexes_valid_namespaces(nss: Seq<NamespaceDir>, local_tags: bool)
    ensures
        forall|k: Seq<char>| #[trigger] built_registry(nss, local_tags).dom().contains(k) ==> {
            &&& !ignored_root_dir(k)
            &&& exists|i: int| 0 <= i < nss.len() && (#[trigger] nss[i]).name@ == k && {
                let vs = nss[i].versions@;
                &&& forall|x: Seq<char>| built_registry(nss, local_tags)[k].2.contains(x) <==> has_indexed_version(vs, x)
                &&& exists|x: Seq<char>| has_indexed_version(vs, x)
            }
        },
    decreases nss.len(),
{
    if nss.len() > 0 {
        let p = nss.drop_last();
        law_registry_indexes_valid_namespaces(p, local_tags);
        let m = built_registry(p, local_tags);
        let d = nss.last();
        let r = built_registry(nss, local_tags);
        assert forall|k: Seq<char>| #[trigger] r.dom().contains(k) implies {
            &&& !ignored_root_dir(k)
            &&& exists|i: int| 0 <= i < nss.len() && (#[trigger] nss[i]).name@ == k && {
                let vs = nss[i].versions@;
                &&& forall|x: Seq<char>| r[k].2.contains(x) <==> has_indexed_version(vs, x)
                &&& exists|x: Seq<char>| has_indexed_version(vs, x)
            }
        } by {
            let last = nss.len() - 1;
            assert(nss[last] == d);
            match namespace_entry(d, local_tags) {
                Some(e) => {
                    if k == d.name@ {
                        let st = scan_versions(d.name@, d.versions@);
                        lemma_scan_versions(d.name@, d.versions@);
                        assert(r[k] == e);
                        assert(e.2 == st.0);
                        assert(st.0.len() > 0);
                        assert(st.0.contains(st.0[0]));
                        assert(has_indexed_version(d.versions@, st.0[0]));
                    } else {
                        assert(m.dom().contains(k));
                        assert(r[k] == m[k]);
                        let i = choose|i: int| 0 <= i < p.len() && (#[trigger] p[i]).name@ == k && {
                            let vs = p[i].versions@;
                            &&& forall|x: Seq<char>| m[k].2.contains(x) <==> has_indexed_version(vs, x)
                            &&& exists|x: Seq<char>| has_indexed_version(vs, x)
                        };
                        assert(nss[i] == p[i]);
                    }
                },
                None => {
                    assert(m.dom().contains(k));
                    let i = choose|i: int| 0 <= i < p.len() && (#[trigger] p[i]).name@ == k && {
                        let vs = p[i].versions@;
                        &&& forall|x: Seq<char>| m[k].2.contains(x) <==> has_indexed_version(vs, x)
                        &&& exists|x: Seq<char>| has_indexed_version(vs, x)
                    };
                    assert(nss[i] == p[i]);
                },
            }
        }
    }
}

/// The registry entry of one namespace directory.
fn namespace_entry_exec(d: &NamespaceDir, local_tags: bool) -> (r: Option<ApiEntry>)
    ensures
        match namespace_entry(*d, local_tags) {
            Some(e) => r matches Some(x) && api_view(x) == e,
            None => r is None,
        },
{
    if is_ignored_root_dir(d.name.as_str()) {
        return None;
    }
    let ghost ns = d.name@;
    let mut versions: Vec<String> = Vec::new();
    let mut title = owned(d.name.as_str());
    let mut desc: String = String::new();
    let mut tags: Vec<String> = Vec::new();
    assert(strs(versions@) =~= Seq::<Seq<char>>::empty());
    assert(strs(tags@) =~= Seq::<Seq<char>>::empty());
    let mut i: usize = 0;
    while i < d.versions.len()
        invariant
            i <= d.versions@.len(),
            ns == d.name@,
            ({
                let st = scan_versions(ns, d.versions@.take(i as int));
                &&& strs(versions@) == st.0
                &&& title@ == st.1
                &&& desc@ == st.2
                &&& strs(tags@) == st.3
            }),
        decreases d.versions@.len() - i,
    {
        let v = &d.versions[i];
        assert(d.versions@.take(i + 1).drop_last() =~= d.versions@.take(i as int));
        assert(d.versions@.take(i + 1).last() == *v);
        if v.has_metadata {
            set_insert(&mut versions, v.name.as_str());
            if let Some(c) = &v.metadata {
                let (t, ds, tg) = parse_metadata_markdown(c.as_str());
                if str_eq(title.as_str(), d.name.as_str()) && !t.as_str().is_empty() {
                    title = t;
                }
                if desc.as_str().is_empty() && !ds.as_str().is_empty() {
                    desc = ds;
                }
                if let Some(tv) = tg {
                    push_unique_all(&mut tags, tv.as_slice());
                }
            }
        }
        i = i + 1;
    }
    assert(d.versions@.take(d.versions@.len() as int) =~= d.versions@);
    if versions.len() == 0 {
        return None;
    }
    if local_tags {
        let mut local: Vec<String> = Vec::new();
        local.push(owned("local"));
        assert(strs(local@) =~= seq!["local"@]);
        push_unique_all(&mut tags, local.as_slice());
    }
    let description = if desc.as_str().is_empty() {
        title
    } else {
        desc
    };
    Some(ApiEntry { name: owned(d.name.as_str()), description, versions, tags })
}

/// Builds the registry of a vault tree from its root directories; the
/// local source's entries are tagged `local`.
pub fn build_registry_from_root(namespaces: &[NamespaceDir], local_tags: bool) -> (r: Registry)
    ensures
        r.apis.apis().map_values(|e: ApiEntry| api_view(e)) == built_registry(
            namespaces@,
            local_tags,
        ),
{
    let mut apis = ApiTable::new();
    assert(apis.apis().map_values(|e: ApiEntry| api_view(e)) =~= Map::empty());
    let mut i: usize = 0;
    while i < namespaces.len()
        invariant
            i <= namespaces@.len(),
            apis.apis().map_values(|e: ApiEntry| api_view(e)) == built_registry(
                namespaces@.take(i as int),
                local_tags,
            ),
        decreases namespaces@.len() - i,
    {
        assert(namespaces@.take(i + 1).drop_last() =~= namespaces@.take(i as int));
        assert(namespaces@.take(i + 1).last() == namespaces@[i as int]);
        if let Some(e) = namespace_entry_exec(&namespaces[i], local_tags) {
            let ghost before = apis.apis();
            let ghost ev = api_view(e);
            apis.insert(owned(namespaces[i].name.as_str()), e);
            assert(apis.apis().map_values(|e: ApiEntry| api_view(e)) =~= before.map_values(
                |e: ApiEntry| api_view(e),
            ).insert(namespaces@[i as int].name@, ev));
        }
        i = i + 1;
    }
    assert(namespaces@.take(namespaces@.len() as int) =~= namespaces@);
    Registry { apis }
}

// ---------------------------------------------------------------------------
// Files of a source and keeping it fresh
// ---------------------------------------------------------------------------

/// How old a lock of an automatic update may get before it is taken over.
pub const AUTO_UPDATE_LOCK_STALE_SECONDS: u64 = 300;

/// A file directly in a source's directory.
pub open spec fn source_file(home: Seq<char>, source: Seq<char>, file: Seq<char>) -> Seq<char> {
    crate::paths::join(crate::vault::resolver::source_root_spec(home, source), file)
}

/// `<home>/vaults/<source>/registry.json`.
pub fn registry_path(home: &str, source: &str) -> (r: String)
    ensures
        r@ == source_file(home@, source@, "registry.json"@),
{
    let root = crate::vault::resolver::source_root(home, source);
    crate::paths::join_str(root.as_str(), "registry.json")
}

/// `<home>/vaults/<source>/.auto-update.lock`.
pub fn lock_path(home: &str, source: &str) -> (r: String)
    ensures
        r@ == source_file(home@, source@, ".auto-update.lock"@),
{
    let root = crate::vault::resolver::source_root(home, source);
    crate::paths::join_str(root.as_str(), ".auto-update.lock")
}

/// `<home>/vaults/<source>/.last-updated`.
pub fn last_updated_path(home: &str, source: &str) -> (r: String)
    ensures
        r@ == source_file(home@, source@, ".last-updated"@),
{
    let root = crate::vault::resolver::source_root(home, source);
    crate::paths::join_str(root.as_str(), ".last-updated")
}

/// The time stamp of a `.last-updated` file: its trimmed text as an
/// unsigned number, if it is one.
pub fn parse_last_updated(raw: &str) -> (r: Option<u64>)
    ensures
        r == crate::text::parse_u64(trim(raw@)),
{
    let t = crate::text::trim_str(raw);
    crate::text::parse_u64_chars(t.as_slice())
}

/// Whether a source's registry is older than the time to live: never for
/// the local source or a zero time to live; always when no valid time stamp
/// was recorded; else when more than `ttl_seconds` have passed since it.
pub open spec fn stale(source: Seq<char>, ttl_seconds: u64, now: u64, last: Option<u64>) -> bool {
    if source == ".local"@ || ttl_seconds == 0 {
        false
    } else {
        match last {
            None => true,
            Some(t) => (if now >= t {
                now - t
            } else {
                0
            }) > ttl_seconds,
        }
    }
}

/// Whether a source's registry is due for refresh (see [`stale`]);
/// `last_updated` is the recorded time stamp, if one could be read.
pub fn is_source_stale(source: &str, ttl_seconds: u64, now: u64, last_updated: Option<u64>) -> (r:
    bool)
    ensures
        r == stale(source@, ttl_seconds, now, last_updated),
{
    if str_eq(source, ".local") {
        return false;
    }
    if ttl_seconds == 0 {
        return false;
    }
    match last_updated {
        None => true,
        Some(last) => now.saturating_sub(last) > ttl_seconds,
    }
}

/// Whether a lock of an automatic update is stale: when its creation time
/// could not be read (`None`), or it is more than
/// [`AUTO_UPDATE_LOCK_STALE_SECONDS`] old.
pub fn is_lock_stale(now: u64, created_at: Option<u64>) -> (r: bool)
    ensures
        r == match created_at {
            None => true,
            Some(c) => (if now >= c {
                now - c
            } else {
                0
            }) > AUTO_UPDATE_LOCK_STALE_SECONDS,
        },
{
    match created_at {
        None => true,
        Some(c) => now.saturating_sub(c) > AUTO_UPDATE_LOCK_STALE_SECONDS,
    }
}

/// A time stamp written as its decimal digits reads back as the same
/// number, and a source stamped at `now` is not stale at `now`.
pub proof fn law_last_updated_round_trip(now: u64, source: Seq<char>, ttl_seconds: u64)
    ensures
        crate::text::parse_u64(trim(crate::text::decimal(now as nat))) == Some(now),
        !stale(source, ttl_seconds, now, Some(now)),
{
    let d = crate::text::decimal(now as nat);
    crate::text::lemma_decimal_digits(now as nat);
    assert(crate::text::is_digit(d[0]));
    assert(crate::text::is_digit(d.last()));
    crate::text::lemma_trim_unchanged(d);
    assert(crate::text::unsigned_digits(d) == d);
}

/// A time to live of zero turns time-based refreshes off for every source.
pub proof fn law_zero_ttl_never_stale(source: Seq<char>, now: u64, last: Option<u64>)
    ensures
        !stale(source, 0, now, last),
{
}

/// Whether a source has a remote: `core` always does; another source when
/// the configuration names one.
pub open spec fn has_remote(
    cfg: &crate::config::Config,
    source: Seq<char>,
) -> bool {
    source == "core"@ || cfg.source.remotes().contains_key(source)
}

/// The sources that can be refreshed: not the local source, and with a
/// remote, in the given order.
pub open spec fn remote_sources(cfg: &crate::config::Config, sources: Seq<Seq<char>>) -> Seq<
    Seq<char>,
> {
    sources.filter(|s: Seq<char>| s != ".local"@ && has_remote(cfg, s))
}

/// The sources refreshed (by `apix update --all-sources` over the known
/// sources, and by the search's auto-update over the sources searched) are
/// exactly those of the given ones that are not the local source and have
/// a remote.
pub proof fn law_refreshed_sources(
    cfg: &crate::config::Config,
    sources: Seq<Seq<char>>,
    s: Seq<char>,
)
    ensures
        remote_sources(cfg, sources).contains(s) <==> (sources.contains(s) && s != ".local"@
            && has_remote(cfg, s)),
{
    let pred = |x: Seq<char>| x != ".local"@ && has_remote(cfg, x);
    broadcast use vstd::seq_lib::group_filter_ensures;
    let f = sources.filter(pred);
    if f.contains(s) {
        let i = choose|i: int| 0 <= i < f.len() && f[i] == s;
        assert(pred(f[i]));
        sources.lemma_filter_contains_rev(pred, s);
    }
    if sources.contains(s) && pred(s) {
        let i = choose|i: int| 0 <= i < sources.len() && sources[i] == s;
        assert(pred(sources[i]));
        assert(f.contains(sources[i]));
    }
}

/// The local source is never refreshed: it is never among the sources that
/// can be refreshed, whatever the configuration, and it is never stale.
pub proof fn law_local_source_never_refreshed(
    cfg: &crate::config::Config,
    sources: Seq<Seq<char>>,
    ttl_seconds: u64,
    now: u64,
    last: Option<u64>,
)
    ensures
        !remote_sources(cfg, sources).contains(".local"@),
        !stale(".local"@, ttl_seconds, now, last),
{
    let pred = |s: Seq<char>| s != ".local"@ && has_remote(cfg, s);
    broadcast use vstd::seq_lib::group_filter_ensures;
    if remote_sources(cfg, sources).contains(".local"@) {
        let i = choose|i: int|
            0 <= i < remote_sources(cfg, sources).len() && remote_sources(cfg, sources)[i]
                == ".local"@;
        assert(pred(sources.filter(pred)[i]));
    }
}

/// Keeps the sources that can be refreshed.
fn remote_sources_exec(
    cfg: &crate::config::Config,
    env: &crate::config::EnvOverrides,
    sources: &[String],
) -> (r: Vec<String>)
    ensures
        strs(r@) == remote_sources(cfg, strs(sources@)),
{
    let mut out: Vec<String> = Vec::new();
    let mut i: usize = 0;
    while i < sources.len()
        invariant
            i <= sources@.len(),
            strs(out@) == remote_sources(cfg, strs(sources@).take(i as int)),
        decreases sources@.len() - i,
    {
        proof {
            reveal(Seq::filter);
        }
        assert(strs(sources@).take(i + 1).drop_last() =~= strs(sources@).take(i as int));
        assert(strs(sources@).take(i + 1).last() == sources@[i as int]@);
        let s = sources[i].as_str();
        if !str_eq(s, ".local") && cfg.source_remote(s, env).is_some() {
            let ghost prev = strs(out@);
            out.push(owned(s));
            assert(strs(out@) =~= prev.push(s@));
        }
        i = i + 1;
    }
    assert(strs(sources@).take(sources@.len() as int) =~= strs(sources@));
    out
}

/// The sources a search may refresh first: none when automatic updates are
/// off (by flag or configuration), else those searched that can be
/// refreshed. Each is refreshed when its registry is missing or stale (see
/// [`should_auto_update`]).
pub fn maybe_auto_update_for_search(
    cfg: &crate::config::Config,
    env: &crate::config::EnvOverrides,
    sources: &[String],
    no_auto_update: bool,
) -> (r: Vec<String>)
    ensures
        strs(r@) == if no_auto_update || !crate::config::auto_update_on(cfg, env) {
            Seq::<Seq<char>>::empty()
        } else {
            remote_sources(cfg, strs(sources@))
        },
{
    if no_auto_update || !cfg.auto_update_enabled(env) {
        let v: Vec<String> = Vec::new();
        assert(strs(v@) =~= Seq::<Seq<char>>::empty());
        return v;
    }
    remote_sources_exec(cfg, env, sources)
}

/// Whether a source picked for refresh is refreshed: its registry file is
/// missing, or it is stale.
pub fn should_auto_update(
    source: &str,
    ttl_seconds: u64,
    now: u64,
    missing_registry: bool,
    last_updated: Option<u64>,
) -> (r: bool)
    ensures
        r == (missing_registry || stale(source@, ttl_seconds, now, last_updated)),
{
    missing_registry || is_source_stale(source, ttl_seconds, now, last_updated)
}

/// The sources `apix update` refreshes: every known source that can be
/// refreshed with `--all-sources`, else the one given, `core` by default.
pub fn update(
    source: Option<&str>,
    all_sources: bool,
    cfg: &crate::config::Config,
    env: &crate::config::EnvOverrides,
) -> (r: Vec<String>)
    ensures
        strs(r@) == if all_sources {
            remote_sources(cfg, crate::vault::resolver::known_of(cfg, env))
        } else {
            seq![
                match source {
                    Some(s) => s@,
                    None => "core"@,
                },
            ]
        },
{
    if all_sources {
        let known = cfg.known_sources(env);
        return remote_sources_exec(cfg, env, known.as_slice());
    }
    let mut v: Vec<String> = Vec::new();
    match source {
        Some(s) => v.push(owned(s)),
        None => v.push(owned("core")),
    }
    assert(strs(v@) =~= seq![
        match source {
            Some(s) => s@,
            None => "core"@,
        },
    ]);
    v
}

/// The source `apix pull` fetches from: the one given, `core` by default.
pub fn pull(source: Option<&str>) -> (r: String)
    ensures
        r@ == match source {
            Some(s) => s@,
            None => "core"@,
        },
{
    match source {
        Some(s) => owned(s),
        None => owned("core"),
    }
}

/// The error when a source has no registry index after an update.
pub fn ensure_registry_exists(source: &str, path: &str, exists: bool) -> (r: Result<(), ApixError>)
    ensures
        exists ==> r is Ok,
        !exists ==> (r matches Err(ApixError::VaultNotFound(m)) && m@ == "Source `"@ + source@
            + "` is missing registry index at "@ + path@),
{
    if exists {
        Ok(())
    } else {
        let mut m: Vec<char> = Vec::new();
        extend_str(&mut m, "Source `");
        extend_str(&mut m, source);
        extend_str(&mut m, "` is missing registry index at ");
        extend_str(&mut m, path);
        Err(ApixError::VaultNotFound(string_of(m.as_slice())))
    }
}

/// Where `apix registry rebuild` writes.
#[derive(Debug, Clone, PartialEq, Eq)]
pub enum RebuildTarget {
    /// The registry of a source under the apix home.
    Source(String),
    /// `registry.json` at the root of a vault tree.
    Path(String),
}

/// The message when both a source and a path are given.
pub open spec fn rebuild_conflict() -> Seq<char> {
    "Use either `--source` or `--path` for `registry rebuild`, not both"@
}

/// What `apix registry rebuild` rebuilds: the path when one is given, else
/// the source given, else the local source; both at once is an error.
pub fn rebuild(source: Option<&str>, path: Option<&str>) -> (r: Result<RebuildTarget, ApixError>)
    ensures
        match (source, path) {
            (Some(_), Some(_)) => r matches Err(ApixError::Parse(m)) && m@ == rebuild_conflict(),
            (_, Some(p)) => r matches Ok(RebuildTarget::Path(x)) && x@ == p@,
            (Some(s), None) => r matches Ok(RebuildTarget::Source(x)) && x@ == s@,
            (None, None) => r matches Ok(RebuildTarget::Source(x)) && x@ == ".local"@,
        },
{
    match (source, path) {
        (Some(_), Some(_)) => Err(
            ApixError::Parse(
                owned("Use either `--source` or `--path` for `registry rebuild`, not both"),
            ),
        ),
        (_, Some(p)) => Ok(RebuildTarget::Path(owned(p))),
        (Some(s), None) => Ok(RebuildTarget::Source(owned(s))),
        (None, None) => Ok(RebuildTarget::Source(owned(".local"))),
    }
}

// ---------------------------------------------------------------------------
// Search output
// ---------------------------------------------------------------------------

/// `s` padded with spaces to at least `width` characters (`{:<width}`).
pub open spec fn pad_right(s: Seq<char>, width: nat) -> Seq<char> {
    if s.len() >= width {
        s
    } else {
        s + Seq::new((width - s.len()) as nat, |i: int| ' ')
    }
}

/// Pads text to a width.
pub fn pad_to(out: &mut Vec<char>, s: &str, width: usize)
    ensures
        final(out)@ == old(out)@ + pad_right(s@, width as nat),
{
    let ghost start = out@;
    extend_str(out, s);
    let sc = chars_of(s);
    assert(sc.len() as int == s@.len());
    if sc.len() >= width {
        return;
    }
    let mut n = sc.len();
    assert(out@ =~= start + s@ + Seq::new((n - s@.len()) as nat, |i: int| ' '));
    while n < width
        invariant
            n >= s@.len(),
            n <= width,
            out@ == start + s@ + Seq::new((n - s@.len()) as nat, |i: int| ' '),
        decreases width - n,
    {
        out.push(' ');
        assert(out@ =~= start + s@ + Seq::new((n + 1 - s@.len()) as nat, |i: int| ' '));
        n = n + 1;
    }
}

/// One line of search output: sources, name, description and versions in
/// padded columns, then the tags in brackets; lists are comma-joined.
pub open spec fn search_row(m: MergedHit) -> Seq<char> {
    pad_right(crate::text::join(strs(m.sources@), ","@), 16) + " "@ + pad_right(m.name@, 20) + " "@
        + pad_right(m.description@, 32) + " "@ + pad_right(
        crate::text::join(strs(m.versions@), ","@),
        12,
    ) + " ["@ + crate::text::join(strs(m.tags@), ","@) + "]"@
}

/// Formats one line of search output.
pub fn format_search_row(m: &MergedHit) -> (r: String)
    ensures
        r@ == search_row(*m),
{
    let sources = crate::text::join_strings(m.sources.as_slice(), ",");
    let versions = crate::text::join_strings(m.versions.as_slice(), ",");
    let tags = crate::text::join_strings(m.tags.as_slice(), ",");
    let mut out: Vec<char> = Vec::new();
    pad_to(&mut out, sources.as_str(), 16);
    extend_str(&mut out, " ");
    pad_to(&mut out, m.name.as_str(), 20);
    extend_str(&mut out, " ");
    pad_to(&mut out, m.description.as_str(), 32);
    extend_str(&mut out, " ");
    pad_to(&mut out, versions.as_str(), 12);
    extend_str(&mut out, " [");
    extend_str(&mut out, tags.as_str());
    extend_str(&mut out, "]");
    assert(out@ =~= search_row(*m));
    string_of(out.as_slice())
}

} // verus!
