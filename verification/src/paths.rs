//! Filesystem paths as text: joining as `PathBuf::join` does on Unix.

use vstd::prelude::*;
use crate::text::{chars_eq_str, chars_of, extend_chars, extend_str, string_of, sub_chars};

verus! {

/// `base.join(seg)`: a segment starting with `/` replaces the base; an empty
/// base gives the segment; otherwise one `/` separates them.
pub open spec fn join(base: Seq<char>, seg: Seq<char>) -> Seq<char> {
    if seg.len() > 0 && seg[0] == '/' {
        seg
    } else if base.len() == 0 {
        seg
    } else if base.last() == '/' {
        base + seg
    } else {
        base + seq!['/'] + seg
    }
}

/// `Path::join` of two string slices.
pub fn join_str(base: &str, seg: &str) -> (r: String)
    ensures
        r@ == join(base@, seg@),
{
    let b = chars_of(base);
    let s = chars_of(seg);
    let mut out: Vec<char> = Vec::new();
    if s.len() > 0 && s[0] == '/' {
        extend_chars(&mut out, s.as_slice());
    } else if b.len() == 0 {
        extend_chars(&mut out, s.as_slice());
    } else if b[b.len() - 1] == '/' {
        extend_chars(&mut out, b.as_slice());
        extend_chars(&mut out, s.as_slice());
    } else {
        extend_chars(&mut out, b.as_slice());
        out.push('/');
        extend_chars(&mut out, s.as_slice());
    }
    assert(out@ =~= join(base@, seg@));
    string_of(out.as_slice())
}

/// Joins each segment in turn.
pub open spec fn join_all(base: Seq<char>, segs: Seq<Seq<char>>) -> Seq<char>
    decreases segs.len(),
{
    if segs.len() == 0 {
        base
    } else {
        join(join_all(base, segs.drop_last()), segs.last())
    }
}

/// Joining plain names (non-empty, without `/`) onto nothing puts one `/`
/// between them.
pub proof fn lemma_join_all_plain(segs: Seq<Seq<char>>)
    requires
        forall|i: int| 0 <= i < segs.len() ==> (#[trigger] segs[i]).len() > 0 && !segs[i].contains('/'),
    ensures
        join_all(Seq::empty(), segs) == crate::text::join(segs, seq!['/']),
    decreases segs.len(),
{
    if segs.len() > 0 {
        let p = segs.drop_last();
        let x = segs.last();
        assert forall|i: int| 0 <= i < p.len() implies (#[trigger] p[i]).len() > 0 && !p[i].contains('/') by {
            assert(p[i] == segs[i]);
        }
        lemma_join_all_plain(p);
        assert(segs[segs.len() - 1] == x);
        assert(x[0] != '/') by {
            assert(x.contains(x[0]));
        }
        if p.len() > 0 {
            assert(p[p.len() - 1] == p.last());
            assert(p[0].len() > 0);
            crate::text::lemma_join_ends(p, seq!['/']);
            let l = p.last();
            assert(l.last() != '/') by {
                assert(l.contains(l[l.len() - 1]));
            }
        }
    }
}

/// The last `c` of text that ends with `c` and then text without `c`.
pub proof fn lemma_last_index_after(q: Seq<char>, m: Seq<char>, c: char)
    requires
        !m.contains(c),
    ensures
        last_index(q + seq![c] + m, c) == Some(q.len() as int),
    decreases m.len(),
{
    let s = q + seq![c] + m;
    if m.len() == 0 {
        assert(s.last() == c);
    } else {
        let m1 = m.drop_last();
        assert(!m1.contains(c)) by {
            if m1.contains(c) {
                let i = choose|i: int| 0 <= i < m1.len() && m1[i] == c;
                assert(m[i] == c);
            }
        }
        assert(m[m.len() - 1] != c);
        assert(s.drop_last() =~= q + seq![c] + m1);
        lemma_last_index_after(q, m1, c);
    }
}

/// Setting the `md` extension of a path whose file name has no `.`
/// appends `.md`.
pub proof fn lemma_set_md_plain(q: Seq<char>, m: Seq<char>)
    requires
        m.len() > 0,
        !m.contains('/'),
        !m.contains('.'),
    ensures
        set_md(q + seq!['/'] + m) == q + seq!['/'] + m + ".md"@,
{
    let p = q + seq!['/'] + m;
    lemma_last_index_after(q, m, '/');
    let start: int = q.len() as int + 1;
    assert(p.skip(start) =~= m);
    assert(p.take(start) =~= q + seq!['/']);
    reveal_strlit(".");
    reveal_strlit("..");
    assert(m != "."@) by {
        if m == "."@ {
            assert(m[0] == '.');
            assert(m.contains('.'));
        }
    }
    assert(m != ".."@) by {
        if m == ".."@ {
            assert(m[0] == '.');
            assert(m.contains('.'));
        }
    }
    lemma_last_index(m, '.');
    if last_index(m, '.') is Some {
        let k = last_index(m, '.')->Some_0;
        assert(m.contains(m[k]));
    }
    assert(file_stem(m) == m);
}

/// Joins each string in turn.
pub fn join_all_str(base: &str, segs: &[String]) -> (r: String)
    ensures
        r@ == join_all(base@, segs@.map_values(|x: String| x@)),
{
    let mut cur = crate::text::owned(base);
    let mut i: usize = 0;
    while i < segs.len()
        invariant
            i <= segs@.len(),
            cur@ == join_all(base@, segs@.take(i as int).map_values(|x: String| x@)),
        decreases segs@.len() - i,
    {
        assert(segs@.take(i + 1).map_values(|x: String| x@).drop_last() =~= segs@.take(
            i as int,
        ).map_values(|x: String| x@));
        cur = join_str(cur.as_str(), segs[i].as_str());
        i = i + 1;
    }
    assert(segs@.take(segs@.len() as int) =~= segs@);
    cur
}


/// The last index at which `c` occurs in `s`.
pub open spec fn last_index(s: Seq<char>, c: char) -> Option<int>
    decreases s.len(),
{
    if s.len() == 0 {
        None
    } else if s.last() == c {
        Some(s.len() - 1)
    } else {
        last_index(s.drop_last(), c)
    }
}

pub proof fn lemma_last_index(s: Seq<char>, c: char)
    ensures
        match last_index(s, c) {
            Some(k) => 0 <= k < s.len() && s[k] == c && forall|j: int| k < j < s.len() ==> s[j]
                != c,
            None => forall|j: int| 0 <= j < s.len() ==> s[j] != c,
        },
    decreases s.len(),
{
    if s.len() > 0 && s.last() != c {
        lemma_last_index(s.drop_last(), c);
        assert forall|j: int| 0 <= j < s.len() - 1 implies s.drop_last()[j] == s[j] by {}
    }
}

/// The last index of `c` in `s`.
pub fn last_index_of(s: &[char], c: char) -> (r: Option<usize>)
    ensures
        match r {
            Some(k) => last_index(s@, c) == Some(k as int),
            None => last_index(s@, c) is None,
        },
{
    let mut j = s.len();
    assert(s@.take(j as int) =~= s@);
    while j > 0
        invariant
            j <= s@.len(),
            last_index(s@, c) == last_index(s@.take(j as int), c),
        decreases j,
    {
        assert(s@.take(j as int).last() == s@[j - 1]);
        if s[j - 1] == c {
            return Some(j - 1);
        }
        assert(s@.take(j as int).drop_last() =~= s@.take(j - 1));
        j = j - 1;
    }
    None
}

/// `Path::file_stem` of a file name: the name up to its last `.`, unless
/// that `.` starts the name or the name is `..`.
pub open spec fn file_stem(name: Seq<char>) -> Seq<char> {
    if name == ".."@ {
        name
    } else {
        match last_index(name, '.') {
            Some(k) => if k > 0 {
                name.take(k)
            } else {
                name
            },
            None => name,
        }
    }
}

/// `PathBuf::set_extension("md")` on a path with no trailing separator: a
/// trailing `.` component is skipped, a path ending in `..` (or with no
/// file name) is left as is, and otherwise the file name's extension, if
/// any, is replaced by `md`.
pub open spec fn set_md(p: Seq<char>) -> Seq<char>
    decreases p.len(),
{
    let k = last_index(p, '/');
    let start = match k {
        Some(i) => i + 1,
        None => 0,
    };
    let name = p.skip(start);
    if name == "."@ && start > 1 {
        proof {
            lemma_last_index(p, '/');
        }
        set_md(p.take(start - 1))
    } else if name.len() == 0 || name == "."@ || name == ".."@ {
        p
    } else {
        p.take(start) + file_stem(name) + ".md"@
    }
}

/// `PathBuf::set_extension("md")`.
pub fn set_md_ext(p: &[char]) -> (r: Vec<char>)
    ensures
        r@ == set_md(p@),
    decreases p@.len(),
{
    let k = last_index_of(p, '/');
    proof {
        lemma_last_index(p@, '/');
    }
    assert(p.len() as int == p@.len());
    let start: usize = match k {
        Some(i) => i + 1,
        None => 0,
    };
    let name = sub_chars(p, start, p.len());
    assert(name@ =~= p@.skip(start as int));
    if chars_eq_str(name.as_slice(), ".") && start > 1 {
        let head = sub_chars(p, 0, start - 1);
        assert(head@ =~= p@.take(start - 1));
        return set_md_ext(head.as_slice());
    }
    if name.len() == 0 || chars_eq_str(name.as_slice(), ".") || chars_eq_str(name.as_slice(), "..") {
        return sub_chars(p, 0, p.len());
    }
    let mut out = sub_chars(p, 0, start);
    assert(out@ =~= p@.take(start as int));
    let stem_end: usize = match last_index_of(name.as_slice(), '.') {
        Some(d) => if d > 0 {
            d
        } else {
            name.len()
        },
        None => name.len(),
    };
    proof {
        lemma_last_index(name@, '.');
    }
    let stem = sub_chars(name.as_slice(), 0, stem_end);
    assert(stem@ =~= file_stem(name@));
    extend_chars(&mut out, stem.as_slice());
    extend_str(&mut out, ".md");
    out
}


/// The file name of a path: what follows its last `/`.
pub open spec fn file_name(p: Seq<char>) -> Seq<char> {
    match last_index(p, '/') {
        Some(i) => p.skip(i + 1),
        None => p,
    }
}

/// The extension of a file name, per `Path::extension`.
pub open spec fn extension(name: Seq<char>) -> Option<Seq<char>> {
    if name == ".."@ {
        None
    } else {
        match last_index(name, '.') {
            Some(k) => if k > 0 {
                Some(name.skip(k + 1))
            } else {
                None
            },
            None => None,
        }
    }
}

/// A path with its file name's extension removed (`set_extension("")`).
pub open spec fn without_ext(p: Seq<char>) -> Seq<char> {
    let start = match last_index(p, '/') {
        Some(i) => i + 1,
        None => 0,
    };
    p.take(start) + file_stem(p.skip(start))
}

/// The extension of the path's file name.
pub fn extension_of(p: &[char]) -> (r: Option<Vec<char>>)
    ensures
        match extension(file_name(p@)) {
            Some(e) => r matches Some(x) && x@ == e,
            None => r is None,
        },
{
    proof {
        lemma_last_index(p@, '/');
    }
    assert(p.len() as int == p@.len());
    let start: usize = match last_index_of(p, '/') {
        Some(i) => i + 1,
        None => 0,
    };
    let name = sub_chars(p, start, p.len());
    assert(name@ =~= file_name(p@));
    if chars_eq_str(name.as_slice(), "..") {
        return None;
    }
    proof {
        lemma_last_index(name@, '.');
    }
    assert(name.len() as int == name@.len());
    match last_index_of(name.as_slice(), '.') {
        Some(k) => if k > 0 {
            Some(sub_chars(name.as_slice(), k + 1, name.len()))
        } else {
            None
        },
        None => None,
    }
}

/// `set_extension("")`.
pub fn without_ext_chars(p: &[char]) -> (r: Vec<char>)
    ensures
        r@ == without_ext(p@),
{
    proof {
        lemma_last_index(p@, '/');
    }
    assert(p.len() as int == p@.len());
    let start: usize = match last_index_of(p, '/') {
        Some(i) => i + 1,
        None => 0,
    };
    let name = sub_chars(p, start, p.len());
    let mut out = sub_chars(p, 0, start);
    assert(out@ =~= p@.take(start as int));
    proof {
        lemma_last_index(name@, '.');
    }
    assert(name.len() as int == name@.len());
    let stem_end: usize = if chars_eq_str(name.as_slice(), "..") {
        name.len()
    } else {
        match last_index_of(name.as_slice(), '.') {
            Some(d) => if d > 0 {
                d
            } else {
                name.len()
            },
            None => name.len(),
        }
    };
    let stem = sub_chars(name.as_slice(), 0, stem_end);
    assert(stem@ =~= file_stem(name@));
    extend_chars(&mut out, stem.as_slice());
    out
}

/// The directory part of a relative path: what precedes its last `/`, or
/// nothing (`Path::parent` on a path with no redundant separators).
pub open spec fn parent_dir(p: Seq<char>) -> Seq<char> {
    match last_index(p, '/') {
        Some(i) => p.take(i),
        None => Seq::empty(),
    }
}

/// The directory part of a relative path.
pub fn parent_dir_chars(p: &[char]) -> (r: Vec<char>)
    ensures
        r@ == parent_dir(p@),
{
    proof {
        lemma_last_index(p@, '/');
    }
    match last_index_of(p, '/') {
        Some(i) => crate::text::sub_chars(p, 0, i),
        None => Vec::new(),
    }
}

/// The file name of a path.
pub fn file_name_chars(p: &[char]) -> (r: Vec<char>)
    ensures
        r@ == file_name(p@),
{
    proof {
        lemma_last_index(p@, '/');
    }
    match last_index_of(p, '/') {
        Some(i) => {
            assert(p.len() as int == p@.len());
            crate::text::sub_chars(p, i + 1, p.len())
        },
        None => {
            assert(p@.subrange(0, p@.len() as int) =~= p@);
            crate::text::sub_chars(p, 0, p.len())
        },
    }
}

/// The stem of a file name.
pub fn file_stem_chars(name: &[char]) -> (r: Vec<char>)
    ensures
        r@ == file_stem(name@),
{
    proof {
        lemma_last_index(name@, '.');
    }
    assert(name@.subrange(0, name@.len() as int) =~= name@);
    if crate::text::chars_eq_str(name, "..") {
        return crate::text::sub_chars(name, 0, name.len());
    }
    match last_index_of(name, '.') {
        Some(k) => if k > 0 {
            crate::text::sub_chars(name, 0, k)
        } else {
            crate::text::sub_chars(name, 0, name.len())
        },
        None => crate::text::sub_chars(name, 0, name.len()),
    }
}

} // verus!
