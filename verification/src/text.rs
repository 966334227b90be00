//! Character-level text utilities with specifications over `Seq<char>`.
//!
//! Executable functions work on character vectors; the spec functions
//! describe the std string operations the rest of the library relies on.

use vstd::prelude::*;

verus! {

// ---------------------------------------------------------------------------
// Conversions between strings and character vectors
// ---------------------------------------------------------------------------

/// Appends one character to a `String` (std `String::push`).
#[verifier::external_body]
pub(crate) fn push_char(s: &mut String, c: char)
    ensures
        final(s)@ == old(s)@.push(c),
{
    s.push(c);
}

/// The characters of a string slice, in order.
pub fn chars_of(s: &str) -> (v: Vec<char>)
    ensures
        v@ == s@,
{
    let mut v: Vec<char> = Vec::new();
    for c in it: s.chars()
        invariant
            v@ == it.seq().take(it.index() as int),
    {
        v.push(c);
    }
    v
}

/// A `String` holding exactly the given characters.
pub fn string_of(v: &[char]) -> (s: String)
    ensures
        s@ == v@,
{
    let mut s = String::new();
    let mut i: usize = 0;
    while i < v.len()
        invariant
            i <= v@.len(),
            s@ == v@.take(i as int),
        decreases v@.len() - i,
    {
        push_char(&mut s, v[i]);
        assert(v@.take(i + 1) =~= v@.take(i as int).push(v@[i as int]));
        i = i + 1;
    }
    assert(v@.take(v@.len() as int) =~= v@);
    s
}

/// Appends all characters of `src` to `dst`.
pub fn extend_chars(dst: &mut Vec<char>, src: &[char])
    ensures
        final(dst)@ == old(dst)@ + src@,
{
    let ghost orig = dst@;
    let mut i: usize = 0;
    while i < src.len()
        invariant
            i <= src@.len(),
            dst@ == orig + src@.take(i as int),
        decreases src@.len() - i,
    {
        dst.push(src[i]);
        assert(src@.take(i + 1) =~= src@.take(i as int).push(src@[i as int]));
        assert(orig + src@.take(i + 1) =~= (orig + src@.take(i as int)).push(src@[i as int]));
        i = i + 1;
    }
    assert(src@.take(src@.len() as int) =~= src@);
}

/// Appends the characters of a string slice to `dst`.
pub fn extend_str(dst: &mut Vec<char>, src: &str)
    ensures
        final(dst)@ == old(dst)@ + src@,
{
    let cs = chars_of(src);
    extend_chars(dst, cs.as_slice());
}

/// A copy of the characters in `v[from..to]`.
pub fn sub_chars(v: &[char], from: usize, to: usize) -> (r: Vec<char>)
    requires
        from <= to <= v@.len(),
    ensures
        r@ == v@.subrange(from as int, to as int),
{
    let mut r: Vec<char> = Vec::new();
    let mut i: usize = from;
    while i < to
        invariant
            from <= i <= to <= v@.len(),
            r@ == v@.subrange(from as int, i as int),
        decreases to - i,
    {
        r.push(v[i]);
        assert(v@.subrange(from as int, i + 1) =~= v@.subrange(from as int, i as int).push(
            v@[i as int],
        ));
        i = i + 1;
    }
    r
}

/// Whether two character slices are equal.
pub fn chars_eq(a: &[char], b: &[char]) -> (r: bool)
    ensures
        r == (a@ == b@),
{
    if a.len() != b.len() {
        return false;
    }
    let mut i: usize = 0;
    while i < a.len()
        invariant
            a@.len() == b@.len(),
            i <= a@.len(),
            forall|j: int| 0 <= j < i ==> a@[j] == b@[j],
        decreases a@.len() - i,
    {
        if a[i] != b[i] {
            return false;
        }
        i = i + 1;
    }
    assert(a@ =~= b@);
    true
}

/// Whether the characters equal the given string slice.
pub fn chars_eq_str(a: &[char], b: &str) -> (r: bool)
    ensures
        r == (a@ == b@),
{
    let bs = chars_of(b);
    chars_eq(a, bs.as_slice())
}

// ---------------------------------------------------------------------------
// Whitespace and trimming
// ---------------------------------------------------------------------------

/// Unicode `White_Space`, as decided by `char::is_whitespace`.
pub open spec fn is_ws(c: char) -> bool {
    let u = c as u32;
    ||| 0x9 <= u <= 0xd
    ||| u == 0x20
    ||| u == 0x85
    ||| u == 0xa0
    ||| u == 0x1680
    ||| 0x2000 <= u <= 0x200a
    ||| u == 0x2028
    ||| u == 0x2029
    ||| u == 0x202f
    ||| u == 0x205f
    ||| u == 0x3000
}

pub fn is_ws_exec(c: char) -> (r: bool)
    ensures
        r == is_ws(c),
{
    let u = c as u32;
    (0x9 <= u && u <= 0xd) || u == 0x20 || u == 0x85 || u == 0xa0 || u == 0x1680 || (0x2000 <= u
        && u <= 0x200a) || u == 0x2028 || u == 0x2029 || u == 0x202f || u == 0x205f || u == 0x3000
}

/// `s` without its leading whitespace (`str::trim_start`).
pub open spec fn trim_start(s: Seq<char>) -> Seq<char>
    decreases s.len(),
{
    if s.len() > 0 && is_ws(s[0]) {
        trim_start(s.drop_first())
    } else {
        s
    }
}

/// `s` without its trailing whitespace (`str::trim_end`).
pub open spec fn trim_end(s: Seq<char>) -> Seq<char>
    decreases s.len(),
{
    if s.len() > 0 && is_ws(s.last()) {
        trim_end(s.drop_last())
    } else {
        s
    }
}

/// `s` without leading and trailing whitespace (`str::trim`).
pub open spec fn trim(s: Seq<char>) -> Seq<char> {
    trim_end(trim_start(s))
}

/// Index of the first non-whitespace character at or after `i`.
fn skip_ws(s: &[char], i: usize) -> (k: usize)
    requires
        i <= s@.len(),
    ensures
        i <= k <= s@.len(),
        trim_start(s@.skip(i as int)) == trim_start(s@.skip(k as int)),
        k == s@.len() || !is_ws(s@[k as int]),
{
    let mut k = i;
    while k < s.len() && is_ws_exec(s[k])
        invariant
            i <= k <= s@.len(),
            trim_start(s@.skip(i as int)) == trim_start(s@.skip(k as int)),
        decreases s@.len() - k,
    {
        assert(s@.skip(k as int).drop_first() =~= s@.skip(k + 1));
        k = k + 1;
    }
    k
}

/// `trim_start` of a character slice.
pub fn trim_start_chars(s: &[char]) -> (r: Vec<char>)
    ensures
        r@ == trim_start(s@),
{
    assert(s@.skip(0) =~= s@);
    let k = skip_ws(s, 0);
    sub_chars(s, k, s.len())
}

/// `trim_end` of a character slice.
pub fn trim_end_chars(s: &[char]) -> (r: Vec<char>)
    ensures
        r@ == trim_end(s@),
{
    let mut j = s.len();
    assert(s@.take(j as int) =~= s@);
    while j > 0 && is_ws_exec(s[j - 1])
        invariant
            j <= s@.len(),
            trim_end(s@) == trim_end(s@.take(j as int)),
        decreases j,
    {
        assert(s@.take(j as int).drop_last() =~= s@.take(j - 1));
        j = j - 1;
    }
    assert(s@.subrange(0, j as int) =~= s@.take(j as int));
    sub_chars(s, 0, j)
}

/// `trim` of a character slice.
pub fn trim_chars(s: &[char]) -> (r: Vec<char>)
    ensures
        r@ == trim(s@),
{
    let a = trim_start_chars(s);
    trim_end_chars(a.as_slice())
}

/// `trim` of a string slice.
pub fn trim_str(s: &str) -> (r: Vec<char>)
    ensures
        r@ == trim(s@),
{
    let cs = chars_of(s);
    trim_chars(cs.as_slice())
}


// ---------------------------------------------------------------------------
// Splitting and joining
// ---------------------------------------------------------------------------

/// The pieces of `s` between occurrences of `sep` (`str::split` with a char).
pub open spec fn split_char(s: Seq<char>, sep: char) -> Seq<Seq<char>>
    decreases s.len(),
{
    if s.len() == 0 {
        seq![Seq::<char>::empty()]
    } else {
        let r = split_char(s.drop_last(), sep);
        if s.last() == sep {
            r.push(Seq::<char>::empty())
        } else {
            r.update(r.len() - 1, r.last().push(s.last()))
        }
    }
}

pub proof fn lemma_split_char_nonempty(s: Seq<char>, sep: char)
    ensures
        split_char(s, sep).len() >= 1,
    decreases s.len(),
{
    if s.len() > 0 {
        lemma_split_char_nonempty(s.drop_last(), sep);
    }
}

/// The pieces with the empty ones removed.
pub open spec fn drop_empty(p: Seq<Seq<char>>) -> Seq<Seq<char>>
    decreases p.len(),
{
    if p.len() == 0 {
        p
    } else {
        let r = drop_empty(p.drop_last());
        if p.last().len() == 0 {
            r
        } else {
            r.push(p.last())
        }
    }
}

/// The non-empty pieces of `s` between occurrences of `sep`
/// (`s.split(sep).filter(|x| !x.is_empty())`).
pub open spec fn segments(s: Seq<char>, sep: char) -> Seq<Seq<char>> {
    drop_empty(split_char(s, sep))
}

/// Splitting text joined at a separator splits each side.
pub proof fn lemma_split_concat(a: Seq<char>, b: Seq<char>, sep: char)
    ensures
        split_char(a + seq![sep] + b, sep) == split_char(a, sep) + split_char(b, sep),
    decreases b.len(),
{
    let s = a + seq![sep] + b;
    if b.len() == 0 {
        assert(s =~= a.push(sep));
        assert(s.drop_last() =~= a);
        assert(split_char(b, sep) == seq![Seq::<char>::empty()]);
        assert(split_char(a, sep).push(Seq::<char>::empty()) =~= split_char(a, sep) + seq![Seq::<char>::empty()]);
    } else {
        let b1 = b.drop_last();
        lemma_split_concat(a, b1, sep);
        lemma_split_char_nonempty(b1, sep);
        assert(s.drop_last() =~= a + seq![sep] + b1);
        assert(s.last() == b.last());
        let x = split_char(a, sep);
        let y = split_char(b1, sep);
        if b.last() == sep {
            assert((x + y).push(Seq::<char>::empty()) =~= x + y.push(Seq::<char>::empty()));
        } else {
            assert((x + y).update((x + y).len() - 1, (x + y).last().push(b.last())) =~= x + y.update(
                y.len() - 1,
                y.last().push(b.last()),
            ));
        }
    }
}

/// Dropping empty pieces of a concatenation drops them on each side.
pub proof fn lemma_drop_empty_concat(x: Seq<Seq<char>>, y: Seq<Seq<char>>)
    ensures
        drop_empty(x + y) == drop_empty(x) + drop_empty(y),
    decreases y.len(),
{
    if y.len() == 0 {
        assert(x + y =~= x);
    } else {
        lemma_drop_empty_concat(x, y.drop_last());
        assert((x + y).drop_last() =~= x + y.drop_last());
        assert((x + y).last() == y.last());
        if y.last().len() > 0 {
            assert((drop_empty(x) + drop_empty(y.drop_last())).push(y.last()) =~= drop_empty(x)
                + drop_empty(y.drop_last()).push(y.last()));
        }
    }
}

/// The segments of text joined at the separator are those of each side.
pub proof fn lemma_segments_concat(a: Seq<char>, b: Seq<char>, sep: char)
    ensures
        segments(a + seq![sep] + b, sep) == segments(a, sep) + segments(b, sep),
{
    lemma_split_concat(a, b, sep);
    lemma_drop_empty_concat(split_char(a, sep), split_char(b, sep));
}

/// Text without the separator is one piece.
pub proof fn lemma_split_word(w: Seq<char>, sep: char)
    requires
        !w.contains(sep),
    ensures
        split_char(w, sep) == seq![w],
    decreases w.len(),
{
    if w.len() > 0 {
        let w1 = w.drop_last();
        assert(!w1.contains(sep)) by {
            if w1.contains(sep) {
                let i = choose|i: int| 0 <= i < w1.len() && w1[i] == sep;
                assert(w[i] == sep);
            }
        }
        lemma_split_word(w1, sep);
        assert(w[w.len() - 1] != sep);
        assert(w1.push(w.last()) =~= w);
        assert(seq![w1].update(0, w1.push(w.last())) =~= seq![w]);
    } else {
        assert(w =~= Seq::<char>::empty());
    }
}

/// Non-empty text without the separator is one segment.
pub proof fn lemma_segments_word(w: Seq<char>, sep: char)
    requires
        w.len() > 0,
        !w.contains(sep),
    ensures
        segments(w, sep) == seq![w],
{
    lemma_split_word(w, sep);
    let p = seq![w];
    assert(p.drop_last() =~= Seq::<Seq<char>>::empty());
    assert(drop_empty(Seq::<Seq<char>>::empty()) == Seq::<Seq<char>>::empty());
    assert(Seq::<Seq<char>>::empty().push(w) =~= p);
}

/// No piece of a split holds the separator.
pub proof fn lemma_split_pieces(s: Seq<char>, sep: char)
    ensures
        forall|i: int| 0 <= i < split_char(s, sep).len() ==> !(#[trigger] split_char(s, sep)[i]).contains(sep),
    decreases s.len(),
{
    if s.len() > 0 {
        let r = split_char(s.drop_last(), sep);
        lemma_split_pieces(s.drop_last(), sep);
        lemma_split_char_nonempty(s.drop_last(), sep);
        if s.last() != sep {
            let l = r.last().push(s.last());
            assert(!l.contains(sep)) by {
                if l.contains(sep) {
                    let i = choose|i: int| 0 <= i < l.len() && l[i] == sep;
                    if i < r.last().len() {
                        assert(r.last()[i] == sep);
                        assert(r[r.len() - 1].contains(sep));
                    }
                }
            }
        } else {
            assert(!Seq::<char>::empty().contains(sep));
        }
    }
}

/// The pieces kept are non-empty pieces of the original.
pub proof fn lemma_drop_empty_elems(p: Seq<Seq<char>>)
    ensures
        forall|i: int| 0 <= i < drop_empty(p).len() ==> (#[trigger] drop_empty(p)[i]).len() > 0
            && p.contains(drop_empty(p)[i]),
    decreases p.len(),
{
    if p.len() > 0 {
        lemma_drop_empty_elems(p.drop_last());
        let r = drop_empty(p.drop_last());
        assert forall|i: int| 0 <= i < drop_empty(p).len() implies (#[trigger] drop_empty(p)[i]).len() > 0
            && p.contains(drop_empty(p)[i]) by {
            if i < r.len() {
                assert(drop_empty(p)[i] == r[i]);
                let j = choose|j: int| 0 <= j < p.drop_last().len() && p.drop_last()[j] == r[i];
                assert(p[j] == r[i]);
            } else {
                assert(drop_empty(p)[i] == p.last());
                assert(p[p.len() - 1] == p.last());
            }
        }
    }
}

/// Each segment is non-empty and holds no separator.
pub proof fn lemma_segments_plain(s: Seq<char>, sep: char)
    ensures
        forall|i: int| 0 <= i < segments(s, sep).len() ==> (#[trigger] segments(s, sep)[i]).len() > 0
            && !segments(s, sep)[i].contains(sep),
{
    lemma_split_pieces(s, sep);
    lemma_drop_empty_elems(split_char(s, sep));
    assert forall|i: int| 0 <= i < segments(s, sep).len() implies (#[trigger] segments(s, sep)[i]).len() > 0
        && !segments(s, sep)[i].contains(sep) by {
        let x = segments(s, sep)[i];
        assert(drop_empty(split_char(s, sep))[i] == x);
        let j = choose|j: int| 0 <= j < split_char(s, sep).len() && split_char(s, sep)[j] == x;
        assert(!split_char(s, sep)[j].contains(sep));
    }
}

/// A join of non-empty pieces starts with the first piece's first
/// character and ends with the last piece's last character.
pub proof fn lemma_join_ends(p: Seq<Seq<char>>, sep: Seq<char>)
    requires
        p.len() > 0,
        p[0].len() > 0,
        p.last().len() > 0,
    ensures
        join(p, sep).len() > 0,
        join(p, sep)[0] == p[0][0],
        join(p, sep).last() == p.last().last(),
    decreases p.len(),
{
    if p.len() > 1 {
        let q = p.drop_last();
        assert(q[0] == p[0]);
        if q.last().len() > 0 {
            lemma_join_ends(q, sep);
        } else {
            lemma_join_first(q, sep);
        }
    }
}

/// A join of pieces whose first is non-empty starts with its first character.
pub proof fn lemma_join_first(p: Seq<Seq<char>>, sep: Seq<char>)
    requires
        p.len() > 0,
        p[0].len() > 0,
    ensures
        join(p, sep).len() > 0,
        join(p, sep)[0] == p[0][0],
    decreases p.len(),
{
    if p.len() > 1 {
        let q = p.drop_last();
        assert(q[0] == p[0]);
        lemma_join_first(q, sep);
    }
}

/// The character vectors of a vector of vectors.
pub open spec fn views(v: Seq<Vec<char>>) -> Seq<Seq<char>> {
    v.map_values(|x: Vec<char>| x@)
}

/// `str::split` with a character separator.
pub fn split_chars(s: &[char], sep: char) -> (r: Vec<Vec<char>>)
    ensures
        views(r@) == split_char(s@, sep),
{
    let mut r: Vec<Vec<char>> = Vec::new();
    let mut cur: Vec<char> = Vec::new();
    let mut i: usize = 0;
    assert(s@.take(0) =~= Seq::<char>::empty());
    while i < s.len()
        invariant
            i <= s@.len(),
            views(r@).push(cur@) == split_char(s@.take(i as int), sep),
        decreases s@.len() - i,
    {
        let c = s[i];
        let ghost prev = split_char(s@.take(i as int), sep);
        assert(s@.take(i + 1).drop_last() =~= s@.take(i as int));
        assert(s@.take(i + 1).last() == c);
        proof {
            lemma_split_char_nonempty(s@.take(i as int), sep);
        }
        if c == sep {
            let done = cur;
            r.push(done);
            cur = Vec::new();
            assert(views(r@) =~= prev);
            assert(views(r@).push(cur@) =~= prev.push(Seq::<char>::empty()));
        } else {
            cur.push(c);
            assert(views(r@).push(cur@) =~= prev.update(prev.len() - 1, prev.last().push(c)));
        }
        i = i + 1;
    }
    assert(s@.take(s@.len() as int) =~= s@);
    r.push(cur);
    assert(views(r@) =~= split_char(s@, sep));
    r
}

/// Removes the empty pieces.
pub fn drop_empty_vecs(p: &[Vec<char>]) -> (r: Vec<Vec<char>>)
    ensures
        views(r@) == drop_empty(views(p@)),
{
    let mut r: Vec<Vec<char>> = Vec::new();
    let mut i: usize = 0;
    while i < p.len()
        invariant
            i <= p@.len(),
            views(r@) == drop_empty(views(p@.take(i as int))),
        decreases p@.len() - i,
    {
        assert(views(p@.take(i + 1)).drop_last() =~= views(p@.take(i as int)));
        assert(views(p@.take(i + 1)).last() == p@[i as int]@);
        if p[i].len() > 0 {
            let x = sub_chars(p[i].as_slice(), 0, p[i].len());
            assert(x@ =~= p@[i as int]@);
            r.push(x);
            assert(views(r@) =~= drop_empty(views(p@.take(i as int))).push(p@[i as int]@));
        }
        i = i + 1;
    }
    assert(p@.take(p@.len() as int) =~= p@);
    r
}

/// `s.split(sep).filter(|x| !x.is_empty())`.
pub fn segments_of(s: &[char], sep: char) -> (r: Vec<Vec<char>>)
    ensures
        views(r@) == segments(s@, sep),
{
    let p = split_chars(s, sep);
    drop_empty_vecs(p.as_slice())
}

/// The pieces joined with `sep` between consecutive ones (`join`).
pub open spec fn join(p: Seq<Seq<char>>, sep: Seq<char>) -> Seq<char>
    decreases p.len(),
{
    if p.len() == 0 {
        Seq::empty()
    } else if p.len() == 1 {
        p[0]
    } else {
        join(p.drop_last(), sep) + sep + p.last()
    }
}

/// `join` of a vector of character vectors.
pub fn join_chars(p: &[Vec<char>], sep: &[char]) -> (r: Vec<char>)
    ensures
        r@ == join(views(p@), sep@),
{
    let mut r: Vec<char> = Vec::new();
    let mut i: usize = 0;
    while i < p.len()
        invariant
            i <= p@.len(),
            r@ == join(views(p@.take(i as int)), sep@),
        decreases p@.len() - i,
    {
        let ghost before = r@;
        assert(views(p@.take(i + 1)).drop_last() =~= views(p@.take(i as int)));
        assert(views(p@.take(i + 1)).last() == p@[i as int]@);
        if i > 0 {
            extend_chars(&mut r, sep);
        }
        extend_chars(&mut r, p[i].as_slice());
        if i == 0 {
            assert(views(p@.take(1)) =~= seq![p@[0]@]);
            assert(r@ =~= p@[0]@);
        }
        i = i + 1;
    }
    assert(p@.take(p@.len() as int) =~= p@);
    r
}

/// `join` of a vector of strings.
pub fn join_strings(p: &[String], sep: &str) -> (r: String)
    ensures
        r@ == join(p@.map_values(|x: String| x@), sep@),
{
    let mut v: Vec<Vec<char>> = Vec::new();
    let mut i: usize = 0;
    while i < p.len()
        invariant
            i <= p@.len(),
            views(v@) == p@.take(i as int).map_values(|x: String| x@),
        decreases p@.len() - i,
    {
        let c = chars_of(p[i].as_str());
        let ghost prev = v@;
        v.push(c);
        assert(views(v@) =~= views(prev).push(p@[i as int]@));
        assert(p@.take(i + 1).map_values(|x: String| x@) =~= p@.take(i as int).map_values(
            |x: String| x@,
        ).push(p@[i as int]@));
        i = i + 1;
    }
    assert(p@.take(p@.len() as int) =~= p@);
    let sepc = chars_of(sep);
    let r = join_chars(v.as_slice(), sepc.as_slice());
    string_of(r.as_slice())
}

// ---------------------------------------------------------------------------
// Searching
// ---------------------------------------------------------------------------

/// Whether `p` occurs in `s` starting at index `i`.
pub open spec fn occurs_at(s: Seq<char>, p: Seq<char>, i: int) -> bool {
    0 <= i && i + p.len() <= s.len() && s.subrange(i, i + p.len()) == p
}

/// The first index at or after `i` where `p` occurs in `s`.
pub open spec fn find_from(s: Seq<char>, p: Seq<char>, i: int) -> Option<int>
    decreases s.len() - i,
    when 0 <= i <= s.len()
{
    if i + p.len() > s.len() {
        None
    } else if s.subrange(i, i + p.len()) == p {
        Some(i)
    } else {
        proof {
            if p.len() == 0 {
                assert(s.subrange(i, i) =~= p);
            }
        }
        find_from(s, p, i + 1)
    }
}

/// The first index where `p` occurs in `s` (`str::find`).
pub open spec fn find(s: Seq<char>, p: Seq<char>) -> Option<int> {
    find_from(s, p, 0)
}

/// Whether `p` occurs in `s` (`str::contains`).
pub open spec fn contains(s: Seq<char>, p: Seq<char>) -> bool {
    find(s, p) is Some
}

pub proof fn lemma_find_from(s: Seq<char>, p: Seq<char>, i: int)
    requires
        0 <= i <= s.len(),
    ensures
        match find_from(s, p, i) {
            Some(k) => i <= k && occurs_at(s, p, k) && forall|j: int|
                i <= j < k ==> !occurs_at(s, p, j),
            None => forall|j: int| i <= j ==> !occurs_at(s, p, j),
        },
    decreases s.len() - i,
{
    if i + p.len() > s.len() {
    } else if s.subrange(i, i + p.len()) == p {
    } else {
        if p.len() == 0 {
            assert(s.subrange(i, i) =~= p);
        }
        lemma_find_from(s, p, i + 1);
    }
}

/// `find` characterised by occurrences.
pub proof fn lemma_find(s: Seq<char>, p: Seq<char>)
    ensures
        match find(s, p) {
            Some(k) => occurs_at(s, p, k) && forall|j: int| 0 <= j < k ==> !occurs_at(s, p, j),
            None => forall|j: int| !occurs_at(s, p, j),
        },
{
    lemma_find_from(s, p, 0);
}

/// The first occurrence is where `find` points.
pub proof fn lemma_find_first(s: Seq<char>, p: Seq<char>, k: int)
    requires
        occurs_at(s, p, k),
        forall|j: int| 0 <= j < k ==> !occurs_at(s, p, j),
    ensures
        find(s, p) == Some(k),
{
    lemma_find(s, p);
    match find(s, p) {
        Some(i) => {
            if i < k {
            } else if i > k {
                assert(!occurs_at(s, p, k));
            }
        },
        None => {
            assert(!occurs_at(s, p, k));
        },
    }
}

/// An occurrence anywhere makes `contains` hold.
pub proof fn lemma_occurs_contains(s: Seq<char>, p: Seq<char>, i: int)
    requires
        occurs_at(s, p, i),
    ensures
        contains(s, p),
{
    lemma_find(s, p);
}

/// A prefix occurs at the start.
pub proof fn lemma_prefix_contains(s: Seq<char>, p: Seq<char>)
    requires
        p.is_prefix_of(s),
    ensures
        contains(s, p),
{
    assert(s.subrange(0, p.len() as int) =~= p);
    lemma_occurs_contains(s, p, 0);
}

/// Whether `p` occurs in `s` at index `i`.
pub fn matches_at(s: &[char], p: &[char], i: usize) -> (r: bool)
    ensures
        r == occurs_at(s@, p@, i as int),
{
    if i > s.len() || p.len() > s.len() - i {
        return false;
    }
    let mut j: usize = 0;
    while j < p.len()
        invariant
            i + p.len() <= s.len(),
            j <= p@.len(),
            forall|k: int| 0 <= k < j ==> s@[i + k] == p@[k],
        decreases p@.len() - j,
    {
        assert(i + j < s@.len());
        if s[i + j] != p[j] {
            assert(s@.subrange(i as int, i + p@.len())[j as int] != p@[j as int]);
            return false;
        }
        j = j + 1;
    }
    assert(s@.subrange(i as int, i + p@.len()) =~= p@);
    true
}

/// `str::find`.
pub fn find_chars(s: &[char], p: &[char]) -> (r: Option<usize>)
    ensures
        match r {
            Some(k) => find(s@, p@) == Some(k as int),
            None => find(s@, p@) is None,
        },
{
    let mut i: usize = 0;
    while i <= s.len()
        invariant
            i <= s@.len() + 1,
            i <= s@.len() ==> find(s@, p@) == find_from(s@, p@, i as int),
            i == s@.len() + 1 ==> find(s@, p@) is None,
        decreases s@.len() + 1 - i,
    {
        if p.len() > s.len() - i {
            assert(find_from(s@, p@, i as int) is None);
            return None;
        }
        if matches_at(s, p, i) {
            return Some(i);
        }
        if i == s.len() {
            assert(s@.subrange(i as int, i as int) =~= p@);
            return None;
        }
        i = i + 1;
    }
    None
}

/// `str::contains`.
pub fn contains_chars(s: &[char], p: &[char]) -> (r: bool)
    ensures
        r == contains(s@, p@),
{
    find_chars(s, p).is_some()
}

/// `str::contains` with a string slice pattern.
pub fn contains_str(s: &[char], p: &str) -> (r: bool)
    ensures
        r == contains(s@, p@),
{
    let pc = chars_of(p);
    contains_chars(s, pc.as_slice())
}

/// Whether the character occurs in `s`.
pub fn has_char(s: &[char], c: char) -> (r: bool)
    ensures
        r == s@.contains(c),
{
    let mut i: usize = 0;
    while i < s.len()
        invariant
            i <= s@.len(),
            forall|j: int| 0 <= j < i ==> s@[j] != c,
        decreases s@.len() - i,
    {
        if s[i] == c {
            return true;
        }
        i = i + 1;
    }
    false
}

/// `str::starts_with`.
pub fn starts_with_chars(s: &[char], p: &[char]) -> (r: bool)
    ensures
        r == p@.is_prefix_of(s@),
{
    let r = matches_at(s, p, 0);
    assert(r ==> s@.subrange(0, p@.len() as int) == p@);
    r
}

/// `str::starts_with` with a string slice pattern.
pub fn starts_with_str(s: &[char], p: &str) -> (r: bool)
    ensures
        r == p@.is_prefix_of(s@),
{
    let pc = chars_of(p);
    starts_with_chars(s, pc.as_slice())
}

/// `str::ends_with`.
pub fn ends_with_chars(s: &[char], p: &[char]) -> (r: bool)
    ensures
        r == p@.is_suffix_of(s@),
{
    if p.len() > s.len() {
        return false;
    }
    let r = matches_at(s, p, s.len() - p.len());
    r
}


// ---------------------------------------------------------------------------
// Lines
// ---------------------------------------------------------------------------

/// A line without one trailing carriage return.
pub open spec fn strip_cr(l: Seq<char>) -> Seq<char> {
    if l.len() > 0 && l.last() == '\r' {
        l.drop_last()
    } else {
        l
    }
}

/// The lines of `s` (`str::lines`): split at `\n`, a `\r` before the `\n`
/// removed, and no empty last line after a final line ending.
pub open spec fn lines(s: Seq<char>) -> Seq<Seq<char>> {
    let p = split_char(s, '\n');
    let k = p.len() - 1;
    let body = p.take(k).map_values(|l: Seq<char>| strip_cr(l));
    if p[k].len() == 0 {
        body
    } else {
        body.push(p[k])
    }
}

/// `str::lines`.
pub fn lines_of(s: &[char]) -> (r: Vec<Vec<char>>)
    ensures
        views(r@) == lines(s@),
{
    let p = split_chars(s, '\n');
    proof {
        lemma_split_char_nonempty(s@, '\n');
    }
    let k = p.len() - 1;
    let mut r: Vec<Vec<char>> = Vec::new();
    let mut i: usize = 0;
    while i < k
        invariant
            k + 1 == p@.len(),
            i <= k,
            views(r@) == views(p@).take(i as int).map_values(|l: Seq<char>| strip_cr(l)),
        decreases k - i,
    {
        let l = p[i].as_slice();
        let x = if l.len() > 0 && l[l.len() - 1] == '\r' {
            sub_chars(l, 0, l.len() - 1)
        } else {
            sub_chars(l, 0, l.len())
        };
        assert(x@ =~= strip_cr(p@[i as int]@));
        let ghost prev = views(r@);
        r.push(x);
        assert(views(r@) =~= prev.push(x@));
        assert(views(p@).take(i + 1).map_values(|l: Seq<char>| strip_cr(l)) =~= views(p@).take(
            i as int,
        ).map_values(|l: Seq<char>| strip_cr(l)).push(strip_cr(p@[i as int]@)));
        i = i + 1;
    }
    if p[k].len() > 0 {
        let x = sub_chars(p[k].as_slice(), 0, p[k].len());
        let ghost prev = views(r@);
        r.push(x);
        assert(views(r@) =~= prev.push(x@));
        assert(x@ =~= views(p@)[k as int]);
    }
    r
}

/// The lines of a string slice.
pub fn lines_of_str(s: &str) -> (r: Vec<Vec<char>>)
    ensures
        views(r@) == lines(s@),
{
    let cs = chars_of(s);
    lines_of(cs.as_slice())
}

// ---------------------------------------------------------------------------
// Replacing and stripping
// ---------------------------------------------------------------------------

/// `str::replace` for a non-empty pattern: every non-overlapping occurrence
/// of `from`, scanned left to right, becomes `to`.
pub open spec fn replace_all(s: Seq<char>, from: Seq<char>, to: Seq<char>) -> Seq<char>
    decreases s.len(),
{
    if from.len() == 0 || s.len() == 0 {
        s
    } else if from.is_prefix_of(s) {
        to + replace_all(s.skip(from.len() as int), from, to)
    } else {
        seq![s[0]] + replace_all(s.drop_first(), from, to)
    }
}

/// A character in neither of two sequences is not in their concatenation.
pub proof fn lemma_concat_lacks(a: Seq<char>, b: Seq<char>, c: char)
    requires
        !a.contains(c),
        !b.contains(c),
    ensures
        !(a + b).contains(c),
{
    if (a + b).contains(c) {
        let i = choose|i: int| 0 <= i < (a + b).len() && (a + b)[i] == c;
        if i < a.len() {
            assert(a[i] == c);
        } else {
            assert(b[i - a.len()] == c);
        }
    }
}

/// Replacing every `c` by a text without `c` leaves no `c`, and replacing
/// anything by a text without `c` in a sequence without `c` adds none.
pub proof fn lemma_replace_lacks(s: Seq<char>, from: Seq<char>, to: Seq<char>, c: char)
    requires
        !to.contains(c),
        from == seq![c] || !s.contains(c),
    ensures
        !replace_all(s, from, to).contains(c),
    decreases s.len(),
{
    if from.len() == 0 || s.len() == 0 {
        if s.len() > 0 && from == seq![c] {
            assert(from.len() == 1);
        }
    } else if from.is_prefix_of(s) {
        let rest = s.skip(from.len() as int);
        if !s.contains(c) && rest.contains(c) {
            let i = choose|i: int| 0 <= i < rest.len() && rest[i] == c;
            assert(s[i + from.len()] == c);
        }
        lemma_replace_lacks(rest, from, to, c);
        lemma_concat_lacks(to, replace_all(rest, from, to), c);
    } else {
        let rest = s.drop_first();
        if !s.contains(c) && rest.contains(c) {
            let i = choose|i: int| 0 <= i < rest.len() && rest[i] == c;
            assert(s[i + 1] == c);
        }
        if from == seq![c] && s[0] == c {
            assert(from =~= s.take(1));
        }
        if !s.contains(c) {
            assert(s[0] != c);
        }
        lemma_replace_lacks(rest, from, to, c);
        assert(!seq![s[0]].contains(c));
        lemma_concat_lacks(seq![s[0]], replace_all(rest, from, to), c);
    }
}

/// `str::replace` for a non-empty pattern.
pub fn replace_chars(s: &[char], from: &[char], to: &[char]) -> (r: Vec<char>)
    requires
        from@.len() > 0,
    ensures
        r@ == replace_all(s@, from@, to@),
{
    let mut r: Vec<char> = Vec::new();
    let mut i: usize = 0;
    assert(s@.skip(0) =~= s@);
    while i < s.len()
        invariant
            from@.len() > 0,
            i <= s@.len(),
            r@ + replace_all(s@.skip(i as int), from@, to@) == replace_all(s@, from@, to@),
        decreases s@.len() - i,
    {
        let ghost rest = s@.skip(i as int);
        if matches_at(s, from, i) {
            assert(rest.subrange(0, from@.len() as int) =~= s@.subrange(
                i as int,
                i + from@.len(),
            ));
            assert(from@.is_prefix_of(rest));
            assert(rest.skip(from@.len() as int) =~= s@.skip(i + from@.len()));
            let ghost before = r@;
            extend_chars(&mut r, to);
            assert(r@ + replace_all(s@.skip(i + from@.len()), from@, to@) =~= before + (to@
                + replace_all(rest.skip(from@.len() as int), from@, to@)));
            i = i + from.len();
        } else {
            proof {
                if from@.len() <= rest.len() {
                    assert(rest.subrange(0, from@.len() as int) =~= s@.subrange(
                        i as int,
                        i + from@.len(),
                    ));
                }
            }
            assert(!from@.is_prefix_of(rest));
            assert(rest.drop_first() =~= s@.skip(i + 1));
            let ghost before = r@;
            r.push(s[i]);
            assert(r@ + replace_all(s@.skip(i + 1), from@, to@) =~= before + (seq![s@[i as int]]
                + replace_all(rest.drop_first(), from@, to@)));
            i = i + 1;
        }
    }
    assert(s@.skip(i as int) =~= Seq::<char>::empty());
    assert(r@ =~= r@ + Seq::<char>::empty());
    r
}

/// `str::replace` with string slice patterns.
pub fn replace_str(s: &[char], from: &str, to: &str) -> (r: Vec<char>)
    requires
        from@.len() > 0,
    ensures
        r@ == replace_all(s@, from@, to@),
{
    let f = chars_of(from);
    let t = chars_of(to);
    replace_chars(s, f.as_slice(), t.as_slice())
}

/// `s` with every leading repetition of `p` removed (`str::trim_start_matches`).
pub open spec fn strip_prefixes(s: Seq<char>, p: Seq<char>) -> Seq<char>
    decreases s.len(),
{
    if p.len() > 0 && p.is_prefix_of(s) {
        strip_prefixes(s.skip(p.len() as int), p)
    } else {
        s
    }
}

/// `str::trim_start_matches`.
pub fn strip_prefixes_chars(s: &[char], p: &[char]) -> (r: Vec<char>)
    ensures
        r@ == strip_prefixes(s@, p@),
{
    let mut i: usize = 0;
    assert(s@.skip(0) =~= s@);
    while p.len() > 0 && matches_at(s, p, i)
        invariant
            i <= s@.len(),
            strip_prefixes(s@, p@) == strip_prefixes(s@.skip(i as int), p@),
        decreases s@.len() - i,
    {
        let ghost rest = s@.skip(i as int);
        assert(i + p@.len() <= s@.len());
        assert(s.len() as int == s@.len());
        assert(rest.subrange(0, p@.len() as int) =~= s@.subrange(i as int, i + p@.len()));
        assert(rest.skip(p@.len() as int) =~= s@.skip(i + p@.len()));
        i = i + p.len();
    }
    proof {
        let rest = s@.skip(i as int);
        if p@.len() > 0 && p@.is_prefix_of(rest) {
            assert(rest.subrange(0, p@.len() as int) =~= s@.subrange(i as int, i + p@.len()));
        }
    }
    sub_chars(s, i, s.len())
}

/// Splits at the first occurrence of `c` (`str::split_once` with a char).
pub open spec fn split_once(s: Seq<char>, c: char) -> Option<(Seq<char>, Seq<char>)> {
    match find(s, seq![c]) {
        Some(k) => Some((s.take(k), s.skip(k + 1))),
        None => None,
    }
}

/// Joining two parts with `c` and splitting at the first `c` gives them
/// back when the first holds no `c`.
pub proof fn lemma_split_once_join(k: Seq<char>, v: Seq<char>, c: char)
    requires
        !k.contains(c),
    ensures
        split_once(k + seq![c] + v, c) == Some((k, v)),
{
    let s = k + seq![c] + v;
    let n = k.len() as int;
    assert(s.subrange(n, n + 1) =~= seq![c]);
    assert forall|j: int| 0 <= j < n implies !occurs_at(s, seq![c], j) by {
        if occurs_at(s, seq![c], j) {
            assert(s.subrange(j, j + 1)[0] == s[j]);
            assert(k[j] == c);
        }
    }
    lemma_find_first(s, seq![c], n);
    assert(s.take(n) =~= k);
    assert(s.skip(n + 1) =~= v);
}

/// `str::split_once` with a char.
pub fn split_once_chars(s: &[char], c: char) -> (r: Option<(Vec<char>, Vec<char>)>)
    ensures
        match r {
            Some((a, b)) => split_once(s@, c) == Some((a@, b@)),
            None => split_once(s@, c) is None,
        },
{
    let pat: Vec<char> = vec![c];
    assert(pat@ =~= seq![c]);
    match find_chars(s, pat.as_slice()) {
        Some(k) => {
            proof {
                lemma_find(s@, pat@);
            }
            assert(k + 1 <= s@.len());
            assert(s.len() as int == s@.len());
            let a = sub_chars(s, 0, k);
            let b = sub_chars(s, k + 1, s.len());
            assert(a@ =~= s@.take(k as int));
            assert(b@ =~= s@.skip(k + 1));
            Some((a, b))
        },
        None => None,
    }
}

// ---------------------------------------------------------------------------
// ASCII case and classes
// ---------------------------------------------------------------------------

/// `char::to_ascii_lowercase`.
pub open spec fn lower_char(c: char) -> char {
    if 'A' <= c && c <= 'Z' {
        ((c as u32) + 32) as char
    } else {
        c
    }
}

/// `char::to_ascii_uppercase`.
pub open spec fn upper_char(c: char) -> char {
    if 'a' <= c && c <= 'z' {
        ((c as u32) - 32) as char
    } else {
        c
    }
}

/// `str::to_ascii_lowercase`.
pub open spec fn ascii_lower(s: Seq<char>) -> Seq<char> {
    s.map_values(|c: char| lower_char(c))
}

/// `str::to_ascii_uppercase`.
pub open spec fn ascii_upper(s: Seq<char>) -> Seq<char> {
    s.map_values(|c: char| upper_char(c))
}

pub fn lower_char_exec(c: char) -> (r: char)
    ensures
        r == lower_char(c),
{
    if 'A' <= c && c <= 'Z' {
        let u = (c as u8) + 32;
        u as char
    } else {
        c
    }
}

pub fn upper_char_exec(c: char) -> (r: char)
    ensures
        r == upper_char(c),
{
    if 'a' <= c && c <= 'z' {
        let u = (c as u8) - 32;
        u as char
    } else {
        c
    }
}

/// `str::to_ascii_lowercase`.
pub fn ascii_lower_chars(s: &[char]) -> (r: Vec<char>)
    ensures
        r@ == ascii_lower(s@),
{
    let mut r: Vec<char> = Vec::new();
    let mut i: usize = 0;
    while i < s.len()
        invariant
            i <= s@.len(),
            r@ == ascii_lower(s@.take(i as int)),
        decreases s@.len() - i,
    {
        r.push(lower_char_exec(s[i]));
        assert(ascii_lower(s@.take(i + 1)) =~= ascii_lower(s@.take(i as int)).push(
            lower_char(s@[i as int]),
        ));
        i = i + 1;
    }
    assert(s@.take(s@.len() as int) =~= s@);
    r
}

/// `str::to_ascii_uppercase`.
pub fn ascii_upper_chars(s: &[char]) -> (r: Vec<char>)
    ensures
        r@ == ascii_upper(s@),
{
    let mut r: Vec<char> = Vec::new();
    let mut i: usize = 0;
    while i < s.len()
        invariant
            i <= s@.len(),
            r@ == ascii_upper(s@.take(i as int)),
        decreases s@.len() - i,
    {
        r.push(upper_char_exec(s[i]));
        assert(ascii_upper(s@.take(i + 1)) =~= ascii_upper(s@.take(i as int)).push(
            upper_char(s@[i as int]),
        ));
        i = i + 1;
    }
    assert(s@.take(s@.len() as int) =~= s@);
    r
}

/// `char::is_ascii_alphanumeric`.
pub open spec fn is_alnum(c: char) -> bool {
    ('0' <= c && c <= '9') || ('a' <= c && c <= 'z') || ('A' <= c && c <= 'Z')
}

pub fn is_alnum_exec(c: char) -> (r: bool)
    ensures
        r == is_alnum(c),
{
    ('0' <= c && c <= '9') || ('a' <= c && c <= 'z') || ('A' <= c && c <= 'Z')
}

/// The Unicode lowercase mapping that std's `str::to_lowercase` applies.
pub uninterp spec fn unicode_lower(s: Seq<char>) -> Seq<char>;

/// Whether every character of a text is ASCII.
pub open spec fn all_ascii(s: Seq<char>) -> bool {
    forall|i: int| 0 <= i < s.len() ==> (#[trigger] s[i] as u32) < 128
}

/// std `str::to_lowercase`: the result is the lowercase mapping of the
/// argument, a function of its characters alone; on ASCII text that is
/// `A`–`Z` to `a`–`z`, every other character kept (Unicode's lowercase
/// mapping agrees with `to_ascii_lowercase` there). The mapping of other
/// characters (Unicode's tables) is left unstated.
#[verifier::external_body]
pub(crate) fn to_lowercase(s: &str) -> (r: String)
    ensures
        r@ == unicode_lower(s@),
        all_ascii(s@) ==> r@ == ascii_lower(s@),
{
    s.to_lowercase()
}

// ---------------------------------------------------------------------------
// Decimal numbers
// ---------------------------------------------------------------------------

/// The ASCII digit for `d < 10`.
pub open spec fn digit_char(d: nat) -> char {
    (('0' as u32) + d) as char
}

/// The decimal rendering of `n` (`to_string` of an unsigned integer).
pub open spec fn decimal(n: nat) -> Seq<char>
    decreases n,
{
    if n < 10 {
        seq![digit_char(n)]
    } else {
        decimal(n / 10).push(digit_char(n % 10))
    }
}

/// Appends the decimal rendering of `n`.
pub fn push_decimal(out: &mut Vec<char>, n: u64)
    ensures
        final(out)@ == old(out)@ + decimal(n as nat),
    decreases n,
{
    if n >= 10 {
        push_decimal(out, n / 10);
    }
    let d = (n % 10) as u8;
    let c = (48u8 + d) as char;
    assert(c == digit_char((n % 10) as nat));
    let ghost before = out@;
    out.push(c);
    if n >= 10 {
        assert(out@ =~= old(out)@ + decimal(n as nat));
    } else {
        assert(out@ =~= old(out)@ + decimal(n as nat));
    }
}

/// The rendering of `n` is a non-empty run of digits whose value is `n`.
pub proof fn lemma_decimal_digits(n: nat)
    ensures
        decimal(n).len() > 0,
        forall|i: int| 0 <= i < decimal(n).len() ==> is_digit(#[trigger] decimal(n)[i]),
        digits_value(decimal(n)) == n,
    decreases n,
{
    let k = n % 10;
    assert(('0' as u32) == 48);
    assert((digit_char(k) as u32) == 48 + k);
    if n < 10 {
        assert(decimal(n).drop_last() =~= Seq::<char>::empty());
        assert(digits_value(Seq::<char>::empty()) == 0);
        assert(digits_value(decimal(n)) == k);
    } else {
        lemma_decimal_digits(n / 10);
        let d = decimal(n / 10);
        assert(decimal(n).drop_last() =~= d);
        assert(digits_value(decimal(n)) == digits_value(d) * 10 + k);
        assert(n == (n / 10) * 10 + n % 10) by (nonlinear_arith);
        assert forall|i: int| 0 <= i < decimal(n).len() implies is_digit(
            #[trigger] decimal(n)[i],
        ) by {
            if i < d.len() {
                assert(decimal(n)[i] == d[i]);
            }
        }
    }
}

/// A sequence that neither starts nor ends with whitespace is its own trim.
pub proof fn lemma_trim_unchanged(s: Seq<char>)
    requires
        s.len() > 0 ==> !is_ws(s[0]) && !is_ws(s.last()),
    ensures
        trim_start(s) == s,
        trim_end(s) == s,
        trim(s) == s,
{
}

/// Whether `c` is an ASCII digit.
pub open spec fn is_digit(c: char) -> bool {
    '0' <= c && c <= '9'
}

/// The value of a string of decimal digits.
pub open spec fn digits_value(s: Seq<char>) -> nat
    decreases s.len(),
{
    if s.len() == 0 {
        0
    } else {
        digits_value(s.drop_last()) * 10 + ((s.last() as u32) - ('0' as u32)) as nat
    }
}

/// The digits after an optional leading `+`.
pub open spec fn unsigned_digits(s: Seq<char>) -> Seq<char> {
    if s.len() > 0 && s[0] == '+' {
        s.drop_first()
    } else {
        s
    }
}

/// `str::parse::<u64>`: an optional `+`, then one or more decimal digits
/// whose value fits in 64 bits.
pub open spec fn parse_u64(s: Seq<char>) -> Option<u64> {
    let d = unsigned_digits(s);
    if d.len() > 0 && (forall|i: int| 0 <= i < d.len() ==> is_digit(d[i])) && digits_value(d)
        <= u64::MAX {
        Some(digits_value(d) as u64)
    } else {
        None
    }
}

proof fn lemma_digits_value_mono(s: Seq<char>, i: int)
    requires
        0 <= i <= s.len(),
        forall|j: int| 0 <= j < s.len() ==> is_digit(s[j]),
    ensures
        digits_value(s.take(i)) <= digits_value(s),
    decreases s.len() - i,
{
    if i < s.len() {
        lemma_digits_value_mono(s, i + 1);
        assert(s.take(i + 1).drop_last() =~= s.take(i));
        assert(s.take(i + 1).last() == s[i]);
    } else {
        assert(s.take(i) =~= s);
    }
}

/// `str::parse::<u64>`.
pub fn parse_u64_chars(s: &[char]) -> (r: Option<u64>)
    ensures
        r == parse_u64(s@),
{
    let start: usize = if s.len() > 0 && s[0] == '+' {
        1
    } else {
        0
    };
    let ghost d = unsigned_digits(s@);
    assert(d =~= s@.skip(start as int));
    if start >= s.len() {
        return None;
    }
    let mut i = start;
    let mut acc: u64 = 0;
    while i < s.len()
        invariant
            start <= i <= s@.len(),
            d == unsigned_digits(s@),
            d == s@.skip(start as int),
            forall|j: int| 0 <= j < i - start ==> is_digit(d[j]),
            acc as nat == digits_value(d.take(i - start)),
        decreases s@.len() - i,
    {
        let c = s[i];
        if !('0' <= c && c <= '9') {
            assert(!is_digit(d[i - start]));
            return None;
        }
        let dv = (c as u32 - 48) as u64;
        assert(d.take(i + 1 - start).drop_last() =~= d.take(i - start));
        assert(d.take(i + 1 - start).last() == c);
        if acc > (u64::MAX - dv) / 10 {
            proof {
                assert(acc * 10 + dv > u64::MAX) by (nonlinear_arith)
                    requires
                        acc > (u64::MAX - dv) / 10,
                        dv <= 9,
                ;
                if forall|j: int| 0 <= j < d.len() ==> is_digit(d[j]) {
                    lemma_digits_value_mono(d, i + 1 - start);
                }
            }
            return None;
        }
        assert(acc * 10 + dv <= u64::MAX) by (nonlinear_arith)
            requires
                acc <= (u64::MAX - dv) / 10,
                dv <= 9,
        ;
        acc = acc * 10 + dv;
        i = i + 1;
    }
    assert(d.take(s@.len() - start) =~= d);
    Some(acc)
}


// ---------------------------------------------------------------------------
// Building strings
// ---------------------------------------------------------------------------

/// A new `String` equal to the slice.
pub fn owned(s: &str) -> (r: String)
    ensures
        r@ == s@,
{
    s.to_owned()
}

/// The concatenation of two string slices.
pub fn concat2(a: &str, b: &str) -> (r: String)
    ensures
        r@ == a@ + b@,
{
    let mut r = a.to_owned();
    r.append(b);
    r
}

/// The concatenation of three string slices.
pub fn concat3(a: &str, b: &str, c: &str) -> (r: String)
    ensures
        r@ == a@ + b@ + c@,
{
    let mut r = a.to_owned();
    r.append(b);
    r.append(c);
    r
}

/// The concatenation of five string slices.
pub fn concat5(a: &str, b: &str, c: &str, d: &str, e: &str) -> (r: String)
    ensures
        r@ == a@ + b@ + c@ + d@ + e@,
{
    let mut r = a.to_owned();
    r.append(b);
    r.append(c);
    r.append(d);
    r.append(e);
    r
}

/// Whether two string slices are equal.
pub fn str_eq(a: &str, b: &str) -> (r: bool)
    ensures
        r == (a@ == b@),
{
    let ac = chars_of(a);
    chars_eq_str(ac.as_slice(), b)
}

/// The decimal rendering of `n` as a `String`.
pub fn decimal_string(n: u64) -> (r: String)
    ensures
        r@ == decimal(n as nat),
{
    let mut v: Vec<char> = Vec::new();
    push_decimal(&mut v, n);
    assert(v@ =~= decimal(n as nat));
    string_of(v.as_slice())
}


// ---------------------------------------------------------------------------
// Vectors of strings
// ---------------------------------------------------------------------------

/// The character sequences of a vector of strings.
pub open spec fn strs(v: Seq<String>) -> Seq<Seq<char>> {
    v.map_values(|x: String| x@)
}

/// Strings holding the given character vectors.
pub fn strings_of(v: &[Vec<char>]) -> (r: Vec<String>)
    ensures
        strs(r@) == views(v@),
{
    let mut r: Vec<String> = Vec::new();
    let mut i: usize = 0;
    while i < v.len()
        invariant
            i <= v@.len(),
            strs(r@) == views(v@.take(i as int)),
        decreases v@.len() - i,
    {
        let x = string_of(v[i].as_slice());
        let ghost prev = r@;
        r.push(x);
        assert(strs(r@) =~= strs(prev).push(x@));
        assert(views(v@.take(i + 1)) =~= views(v@.take(i as int)).push(v@[i as int]@));
        i = i + 1;
    }
    assert(v@.take(v@.len() as int) =~= v@);
    r
}

/// A copy of a vector of strings.
pub fn clone_strings(v: &[String]) -> (r: Vec<String>)
    ensures
        strs(r@) == strs(v@),
{
    let mut r: Vec<String> = Vec::new();
    let mut i: usize = 0;
    while i < v.len()
        invariant
            i <= v@.len(),
            strs(r@) == strs(v@.take(i as int)),
        decreases v@.len() - i,
    {
        let x = owned(v[i].as_str());
        let ghost prev = r@;
        r.push(x);
        assert(strs(r@) =~= strs(prev).push(x@));
        assert(strs(v@.take(i + 1)) =~= strs(v@.take(i as int)).push(v@[i as int]@));
        i = i + 1;
    }
    assert(v@.take(v@.len() as int) =~= v@);
    r
}

/// Whether a vector of strings holds the given string.
pub fn contains_string(v: &[String], s: &str) -> (r: bool)
    ensures
        r == strs(v@).contains(s@),
{
    let mut i: usize = 0;
    while i < v.len()
        invariant
            i <= v@.len(),
            forall|j: int| 0 <= j < i ==> strs(v@)[j] != s@,
        decreases v@.len() - i,
    {
        if str_eq(v[i].as_str(), s) {
            assert(strs(v@)[i as int] == s@);
            return true;
        }
        i = i + 1;
    }
    false
}

/// `acc` followed by each of `items` that is not already present, in order.
pub open spec fn append_unique(acc: Seq<Seq<char>>, items: Seq<Seq<char>>) -> Seq<Seq<char>>
    decreases items.len(),
{
    if items.len() == 0 {
        acc
    } else {
        let r = append_unique(acc, items.drop_last());
        if r.contains(items.last()) {
            r
        } else {
            r.push(items.last())
        }
    }
}

/// Appending the items not yet present keeps the sequence free of
/// duplicates and adds exactly the items.
pub proof fn lemma_append_unique(acc: Seq<Seq<char>>, items: Seq<Seq<char>>)
    requires
        acc.no_duplicates(),
    ensures
        append_unique(acc, items).no_duplicates(),
        forall|x: Seq<char>| #[trigger] append_unique(acc, items).contains(x) <==> (acc.contains(x) || items.contains(x)),
    decreases items.len(),
{
    if items.len() > 0 {
        let p = items.drop_last();
        let y = items.last();
        lemma_append_unique(acc, p);
        let r = append_unique(acc, p);
        if !r.contains(y) {
            let t = r.push(y);
            assert forall|i: int, j: int| 0 <= i < t.len() && 0 <= j < t.len() && i != j implies t[i] != t[j] by {
                if i == r.len() as int {
                    assert(r.contains(t[j]));
                } else if j == r.len() as int {
                    assert(r.contains(t[i]));
                }
            }
        }
        assert forall|x: Seq<char>| #[trigger] append_unique(acc, items).contains(x) <==> (acc.contains(x) || items.contains(x)) by {
            if p.contains(x) {
                let i = choose|i: int| 0 <= i < p.len() && p[i] == x;
                assert(items[i] == x);
            }
            if items.contains(x) && x != y {
                let i = choose|i: int| 0 <= i < items.len() && items[i] == x;
                assert(i != items.len() - 1);
                assert(p[i] == x);
            }
            if append_unique(acc, items).contains(x) && !r.contains(y) && x == y {
                assert(items[items.len() - 1] == x);
            }
            if !r.contains(y) {
                let t = r.push(y);
                if t.contains(x) && x != y {
                    let i = choose|i: int| 0 <= i < t.len() && t[i] == x;
                    assert(r[i] == x);
                }
                if r.contains(x) {
                    let i = choose|i: int| 0 <= i < r.len() && r[i] == x;
                    assert(t[i] == x);
                }
                if x == y {
                    assert(t[r.len() as int] == x);
                }
            } else if x == y {
                assert(items[items.len() - 1] == x);
            }
        }
    }
}

/// Appends each item that is not yet present.
pub fn push_unique_all(out: &mut Vec<String>, items: &[String])
    ensures
        strs(final(out)@) == append_unique(strs(old(out)@), strs(items@)),
{
    let ghost start = strs(out@);
    let mut i: usize = 0;
    while i < items.len()
        invariant
            i <= items@.len(),
            strs(out@) == append_unique(start, strs(items@.take(i as int))),
        decreases items@.len() - i,
    {
        assert(strs(items@.take(i + 1)).drop_last() =~= strs(items@.take(i as int)));
        assert(strs(items@.take(i + 1)).last() == items@[i as int]@);
        if !contains_string(out.as_slice(), items[i].as_str()) {
            let x = owned(items[i].as_str());
            let ghost prev = out@;
            out.push(x);
            assert(strs(out@) =~= strs(prev).push(x@));
        }
        i = i + 1;
    }
    assert(items@.take(items@.len() as int) =~= items@);
}

// ---------------------------------------------------------------------------
// Lexicographic order
// ---------------------------------------------------------------------------

/// Lexicographic order of character sequences by code point, which is the
/// order of `str`'s `Ord` (byte order of UTF-8).
pub open spec fn lex_lt(a: Seq<char>, b: Seq<char>) -> bool
    decreases a.len(),
{
    if b.len() == 0 {
        false
    } else if a.len() == 0 {
        true
    } else if a[0] != b[0] {
        (a[0] as int) < (b[0] as int)
    } else {
        lex_lt(a.drop_first(), b.drop_first())
    }
}

/// The order is asymmetric.
pub proof fn lemma_lex_asym(a: Seq<char>, b: Seq<char>)
    ensures
        lex_lt(a, b) ==> !lex_lt(b, a),
    decreases a.len(),
{
    if a.len() > 0 && b.len() > 0 && a[0] == b[0] {
        lemma_lex_asym(a.drop_first(), b.drop_first());
    }
}

/// Two different sequences are ordered one way or the other.
pub proof fn lemma_lex_total(a: Seq<char>, b: Seq<char>)
    ensures
        a != b ==> lex_lt(a, b) || lex_lt(b, a),
    decreases a.len(),
{
    if a.len() == 0 && b.len() == 0 {
        assert(a =~= b);
    } else if a.len() > 0 && b.len() > 0 && a[0] == b[0] {
        lemma_lex_total(a.drop_first(), b.drop_first());
        if a.drop_first() == b.drop_first() {
            assert(a =~= seq![a[0]] + a.drop_first());
            assert(b =~= seq![b[0]] + b.drop_first());
        }
    } else if a.len() > 0 && b.len() > 0 {
        assert((a[0] as int) != (b[0] as int));
    }
}

/// The order is transitive.
pub proof fn lemma_lex_trans(a: Seq<char>, b: Seq<char>, c: Seq<char>)
    requires
        lex_lt(a, b),
        lex_lt(b, c),
    ensures
        lex_lt(a, c),
    decreases a.len(),
{
    if a.len() > 0 && b.len() > 0 && c.len() > 0 && a[0] == b[0] && b[0] == c[0] {
        lemma_lex_trans(a.drop_first(), b.drop_first(), c.drop_first());
    }
}

/// Whether `a` sorts strictly before `b`.
pub fn lex_lt_chars(a: &[char], b: &[char]) -> (r: bool)
    ensures
        r == lex_lt(a@, b@),
{
    let mut i: usize = 0;
    assert(a@.skip(0) =~= a@);
    assert(b@.skip(0) =~= b@);
    while i < a.len() && i < b.len()
        invariant
            i <= a@.len(),
            i <= b@.len(),
            lex_lt(a@, b@) == lex_lt(a@.skip(i as int), b@.skip(i as int)),
        decreases a@.len() - i,
    {
        let x = a[i];
        let y = b[i];
        assert(a@.skip(i as int)[0] == x);
        assert(b@.skip(i as int)[0] == y);
        if x != y {
            return x < y;
        }
        assert(a@.skip(i as int).drop_first() =~= a@.skip(i + 1));
        assert(b@.skip(i as int).drop_first() =~= b@.skip(i + 1));
        i = i + 1;
    }
    i < b.len()
}

/// Whether string `a` sorts strictly before string `b`.
pub fn str_lt(a: &str, b: &str) -> (r: bool)
    ensures
        r == lex_lt(a@, b@),
{
    let ac = chars_of(a);
    let bc = chars_of(b);
    lex_lt_chars(ac.as_slice(), bc.as_slice())
}


// ---------------------------------------------------------------------------
// Sorted vectors of names
// ---------------------------------------------------------------------------

/// `s` (sorted) with `x` placed before the first element it sorts before.
pub open spec fn insert_name(s: Seq<Seq<char>>, x: Seq<char>) -> Seq<Seq<char>>
    decreases s.len(),
{
    if s.len() == 0 {
        seq![x]
    } else if lex_lt(x, s[0]) {
        seq![x] + s
    } else {
        seq![s[0]] + insert_name(s.drop_first(), x)
    }
}

/// The names in increasing order (a stable insertion sort).
pub open spec fn sorted_names(s: Seq<Seq<char>>) -> Seq<Seq<char>>
    decreases s.len(),
{
    if s.len() == 0 {
        s
    } else {
        insert_name(sorted_names(s.drop_last()), s.last())
    }
}

pub proof fn lemma_insert_name_at(s: Seq<Seq<char>>, x: Seq<char>, j: int)
    requires
        0 <= j <= s.len(),
        forall|i: int| 0 <= i < j ==> !lex_lt(x, #[trigger] s[i]),
        j < s.len() ==> lex_lt(x, s[j]),
    ensures
        insert_name(s, x) == s.insert(j, x),
    decreases j,
{
    if j == 0 {
        if s.len() == 0 {
            assert(seq![x] =~= s.insert(0, x));
        } else {
            assert(seq![x] + s =~= s.insert(0, x));
        }
    } else {
        assert forall|i: int| 0 <= i < j - 1 implies !lex_lt(x, #[trigger] s.drop_first()[i]) by {
            assert(s.drop_first()[i] == s[i + 1]);
        }
        lemma_insert_name_at(s.drop_first(), x, j - 1);
        assert(seq![s[0]] + s.drop_first().insert(j - 1, x) =~= s.insert(j, x));
    }
}

/// Inserts a name at its sorted place.
pub fn insert_name_vec(v: &mut Vec<String>, x: String)
    ensures
        strs(final(v)@) == insert_name(strs(old(v)@), x@),
{
    let xc = chars_of(x.as_str());
    let mut j: usize = 0;
    let mut stop = false;
    while !stop && j < v.len()
        invariant
            j <= v@.len(),
            xc@ == x@,
            forall|i: int| 0 <= i < j ==> !lex_lt(x@, #[trigger] strs(v@)[i]),
            stop ==> j < v@.len() && lex_lt(x@, strs(v@)[j as int]),
        decreases v@.len() - j, if stop { 0int } else { 1int },
    {
        let vc = chars_of(v[j].as_str());
        if lex_lt_chars(xc.as_slice(), vc.as_slice()) {
            stop = true;
        } else {
            j = j + 1;
        }
    }
    proof {
        lemma_insert_name_at(strs(v@), x@, j as int);
    }
    let ghost before = v@;
    v.insert(j, x);
    assert(strs(v@) =~= strs(before).insert(j as int, x@));
}


/// `s` with `x` added when it is not there yet, at its sorted place: the
/// sorted, duplicate-free vectors hold sets of names.
pub open spec fn set_add(s: Seq<Seq<char>>, x: Seq<char>) -> Seq<Seq<char>> {
    if s.contains(x) {
        s
    } else {
        insert_name(s, x)
    }
}

/// `s` with each of `xs` added in turn.
pub open spec fn set_add_all(s: Seq<Seq<char>>, xs: Seq<Seq<char>>) -> Seq<Seq<char>>
    decreases xs.len(),
{
    if xs.len() == 0 {
        s
    } else {
        set_add(set_add_all(s, xs.drop_last()), xs.last())
    }
}

/// `insert_name` puts `x` at some place of `s`.
pub proof fn lemma_insert_name_is_insert(s: Seq<Seq<char>>, x: Seq<char>) -> (j: int)
    ensures
        0 <= j <= s.len(),
        insert_name(s, x) == s.insert(j, x),
        forall|i: int| 0 <= i < j ==> !lex_lt(x, #[trigger] s[i]),
        j < s.len() ==> lex_lt(x, s[j]),
    decreases s.len(),
{
    if s.len() == 0 {
        assert(seq![x] =~= s.insert(0, x));
        0
    } else if lex_lt(x, s[0]) {
        assert(seq![x] + s =~= s.insert(0, x));
        0
    } else {
        let t = s.drop_first();
        let j = lemma_insert_name_is_insert(t, x);
        assert(seq![s[0]] + t.insert(j, x) =~= s.insert(j + 1, x));
        assert forall|i: int| 0 <= i < j + 1 implies !lex_lt(x, #[trigger] s[i]) by {
            if i > 0 {
                assert(s[i] == t[i - 1]);
            }
        }
        j + 1
    }
}

/// Whether the names are in increasing order.
pub open spec fn names_sorted(s: Seq<Seq<char>>) -> bool {
    forall|i: int, j: int| 0 <= i < j < s.len() ==> !lex_lt(#[trigger] s[j], #[trigger] s[i])
}

/// Sorting names keeps them all, each as often, and puts them in
/// increasing order.
pub proof fn lemma_sorted_names(s: Seq<Seq<char>>)
    ensures
        sorted_names(s).len() == s.len(),
        sorted_names(s).to_multiset() == s.to_multiset(),
        forall|y: Seq<char>| sorted_names(s).contains(y) <==> s.contains(y),
        names_sorted(sorted_names(s)),
    decreases s.len(),
{
    broadcast use vstd::seq_lib::group_to_multiset_ensures;
    if s.len() > 0 {
        let p = s.drop_last();
        let x = s.last();
        lemma_sorted_names(p);
        let t = sorted_names(p);
        let j = lemma_insert_name_is_insert(t, x);
        let r = sorted_names(s);
        assert(r == t.insert(j, x));
        assert(s =~= p.push(x));
        t.to_multiset_ensures();
        vstd::seq_lib::lemma_multiset_commutative(t.take(j), seq![x] + t.skip(j));
        assert(t.insert(j, x) =~= t.take(j) + (seq![x] + t.skip(j)));
        vstd::seq_lib::lemma_multiset_commutative(seq![x], t.skip(j));
        vstd::seq_lib::lemma_multiset_commutative(t.take(j), t.skip(j));
        assert(t =~= t.take(j) + t.skip(j));
        assert(r.to_multiset() =~= t.to_multiset().insert(x));
        assert(s.to_multiset() =~= p.to_multiset().insert(x));
        assert forall|y: Seq<char>| r.contains(y) <==> s.contains(y) by {
            assert(r.contains(y) <==> r.to_multiset().count(y) > 0);
            assert(s.contains(y) <==> s.to_multiset().count(y) > 0);
        }
        assert forall|a: int, b: int| 0 <= a < b < r.len() implies !lex_lt(#[trigger] r[b], #[trigger] r[a]) by {
            if a == j {
                assert(r[b] == t[b - 1]);
                if lex_lt(t[b - 1], x) {
                    if b - 1 == j {
                        lemma_lex_asym(x, t[j]);
                    } else {
                        lemma_lex_trans(t[b - 1], x, t[j]);
                    }
                }
            } else if b == j {
                assert(r[a] == t[a]);
            } else {
                let ia = if a < j { a } else { a - 1 };
                let ib = if b < j { b } else { b - 1 };
                assert(r[a] == t[ia]);
                assert(r[b] == t[ib]);
            }
        }
    }
}

/// What a set of names holds after adding `x`.
/// Adding names in turn gives the names that were there or added.
pub proof fn lemma_set_add_all_contains(s: Seq<Seq<char>>, xs: Seq<Seq<char>>, y: Seq<char>)
    ensures
        set_add_all(s, xs).contains(y) <==> (s.contains(y) || xs.contains(y)),
    decreases xs.len(),
{
    if xs.len() > 0 {
        lemma_set_add_all_contains(s, xs.drop_last(), y);
        lemma_set_add_contains(set_add_all(s, xs.drop_last()), xs.last(), y);
        if xs.contains(y) && !xs.drop_last().contains(y) {
            let i = choose|i: int| 0 <= i < xs.len() && xs[i] == y;
            if i < xs.len() - 1 {
                assert(xs.drop_last()[i] == y);
            }
        }
        if xs.drop_last().contains(y) {
            let i = choose|i: int| 0 <= i < xs.drop_last().len() && xs.drop_last()[i] == y;
            assert(xs[i] == y);
        }
        if y == xs.last() {
            assert(xs[xs.len() - 1] == y);
        }
    }
}

pub proof fn lemma_set_add_contains(s: Seq<Seq<char>>, x: Seq<char>, y: Seq<char>)
    ensures
        set_add(s, x).contains(y) <==> (s.contains(y) || y == x),
{
    if !s.contains(x) {
        let j = lemma_insert_name_is_insert(s, x);
        let r = s.insert(j, x);
        if r.contains(y) {
            let i = choose|i: int| 0 <= i < r.len() && r[i] == y;
            if i < j {
                assert(s[i] == y);
            } else if i > j {
                assert(s[i - 1] == y);
            }
        }
        if s.contains(y) {
            let i = choose|i: int| 0 <= i < s.len() && s[i] == y;
            if i < j {
                assert(r[i] == y);
            } else {
                assert(r[i + 1] == y);
            }
        }
        if y == x {
            assert(r[j] == y);
        }
    }
}

/// Adds a name to a sorted set of names.
pub fn set_insert(v: &mut Vec<String>, x: &str)
    ensures
        strs(final(v)@) == set_add(strs(old(v)@), x@),
{
    if !contains_string(v.as_slice(), x) {
        insert_name_vec(v, owned(x));
    }
}

/// Adds each name in turn to a sorted set of names.
pub fn set_insert_all(v: &mut Vec<String>, xs: &[String])
    ensures
        strs(final(v)@) == set_add_all(strs(old(v)@), strs(xs@)),
{
    let ghost start = strs(v@);
    let mut i: usize = 0;
    while i < xs.len()
        invariant
            i <= xs@.len(),
            strs(v@) == set_add_all(start, strs(xs@.take(i as int))),
        decreases xs@.len() - i,
    {
        assert(strs(xs@.take(i + 1)).drop_last() =~= strs(xs@.take(i as int)));
        assert(strs(xs@.take(i + 1)).last() == xs@[i as int]@);
        set_insert(v, xs[i].as_str());
        i = i + 1;
    }
    assert(xs@.take(xs@.len() as int) =~= xs@);
}

} // verus!
