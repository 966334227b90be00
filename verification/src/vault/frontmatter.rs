//! Markdown frontmatter: the YAML block between the first two `---` markers.

use vstd::prelude::*;
use crate::error::ApixError;
use crate::text::{chars_of, contains, find, find_chars, is_ws, occurs_at, owned, string_of, sub_chars, trim, trim_chars, trim_end, trim_start, trim_start_chars};

verus! {

/// The frontmatter of a route file.
#[derive(Debug, Clone)]
pub struct Frontmatter {
    pub method: String,
    pub url: String,
    pub auth: Option<String>,
    pub content_type: Option<String>,
}

/// The frontmatter of a type file (its YAML key is `type`).
#[derive(Debug, Clone)]
pub struct TypeFrontmatter {
    pub schema_type: String,
}

/// The frontmatter marker.
pub open spec fn marker() -> Seq<char> {
    seq!['-', '-', '-']
}

/// The YAML text (trimmed) and the body (leading whitespace removed) of a
/// document, or which marker is missing.
pub open spec fn split_frontmatter(s: Seq<char>) -> Result<(Seq<char>, Seq<char>), Seq<char>> {
    match find(s, marker()) {
        None => Err("Missing frontmatter start delimiter"@),
        Some(a) => {
            let rest = s.skip(a + 3);
            match find(rest, marker()) {
                None => Err("Missing frontmatter end delimiter"@),
                Some(b) => Ok((trim(rest.take(b)), trim_start(rest.skip(b + 3)))),
            }
        },
    }
}

/// A text without `-` holds no marker.
pub proof fn lemma_no_dash_no_marker(s: Seq<char>)
    requires
        forall|i: int| 0 <= i < s.len() ==> s[i] != '-',
    ensures
        !contains(s, marker()),
{
    crate::text::lemma_find(s, marker());
    if contains(s, marker()) {
        let k = find(s, marker())->Some_0;
        assert(s.subrange(k, k + 3)[0] == s[k]);
    }
}

/// Two texts without a marker, joined where at least one of the two
/// touching characters is not `-`, hold no marker.
pub proof fn lemma_join_no_marker(a: Seq<char>, b: Seq<char>)
    requires
        !contains(a, marker()),
        !contains(b, marker()),
        a.len() == 0 || b.len() == 0 || a.last() != '-' || b[0] != '-',
    ensures
        !contains(a + b, marker()),
{
    let s = a + b;
    crate::text::lemma_find(a, marker());
    crate::text::lemma_find(b, marker());
    crate::text::lemma_find(s, marker());
    if contains(s, marker()) {
        let k = find(s, marker())->Some_0;
        let w = s.subrange(k, k + 3);
        assert(w[0] == s[k] && w[1] == s[k + 1] && w[2] == s[k + 2]);
        let n = a.len() as int;
        if k + 3 <= n {
            assert(a.subrange(k, k + 3) =~= w);
            assert(occurs_at(a, marker(), k));
        } else if k >= n {
            assert(b.subrange(k - n, k - n + 3) =~= w);
            assert(occurs_at(b, marker(), k - n));
        } else {
            assert(s[n - 1] == a.last());
            assert(s[n] == b[0]);
        }
    }
}

/// What a document written as a marker line, the YAML, a marker line and
/// the body gives back: the same YAML, and the body without its leading
/// whitespace (so the body itself when it starts with none), when the YAML
/// holds no marker and has no whitespace at its ends.
pub proof fn law_frontmatter_round_trip(yaml: Seq<char>, body: Seq<char>)
    requires
        !contains(yaml, marker()),
        yaml.len() > 0 ==> !is_ws(yaml[0]) && !is_ws(yaml.last()),
    ensures
        split_frontmatter(marker() + seq!['\n'] + yaml + seq!['\n'] + marker() + seq!['\n'] + body)
            == Ok::<(Seq<char>, Seq<char>), Seq<char>>((yaml, trim_start(body))),
        body.len() > 0 && !is_ws(body[0]) ==> trim_start(body) == body,
{
    let nl = seq!['\n'];
    let s = marker() + nl + yaml + nl + marker() + nl + body;
    assert(is_ws('\n'));
    assert(s.subrange(0, 3) =~= marker());
    crate::text::lemma_find_first(s, marker(), 0);
    let rest = s.skip(3);
    assert(rest =~= nl + yaml + nl + marker() + nl + body);
    let n = yaml.len() as int;
    let k = n + 2;
    assert(rest.subrange(k, k + 3) =~= marker());
    crate::text::lemma_find(yaml, marker());
    assert forall|j: int| 0 <= j < k implies !occurs_at(rest, marker(), j) by {
        if occurs_at(rest, marker(), j) {
            let w = rest.subrange(j, j + 3);
            assert(w[0] == rest[j]);
            assert(w[1] == rest[j + 1]);
            assert(w[2] == rest[j + 2]);
            if j == 0 {
                assert(rest[0] == '\n');
            } else if j + 2 >= n + 1 {
                let q = n + 1 - j;
                assert(rest[n + 1] == '\n');
                assert(w[q] == rest[n + 1]);
            } else {
                assert(yaml.subrange(j - 1, j + 2) =~= w);
                assert(occurs_at(yaml, marker(), j - 1));
            }
        }
    }
    crate::text::lemma_find_first(rest, marker(), k);
    assert(rest.take(k) =~= nl + yaml + nl);
    assert(rest.skip(k + 3) =~= nl + body);
    let head = nl + yaml + nl;
    assert(head.drop_first() =~= yaml + nl);
    assert(trim_start(head) == trim_start(yaml + nl));
    if yaml.len() == 0 {
        assert(yaml + nl =~= nl);
        assert(nl.drop_first() =~= Seq::<char>::empty());
        assert(trim_start(Seq::<char>::empty()) == Seq::<char>::empty());
        assert(nl[0] == '\n');
        assert(trim_start(nl) == trim_start(nl.drop_first()));
        assert(trim_start(nl) == Seq::<char>::empty());
        assert(trim(head) =~= yaml);
    } else {
        assert((yaml + nl)[0] == yaml[0]);
        assert(trim_start(yaml + nl) == yaml + nl);
        assert((yaml + nl).drop_last() =~= yaml);
        crate::text::lemma_trim_unchanged(yaml);
        assert(trim_end(yaml + nl) == trim_end(yaml));
        assert(trim(head) == yaml);
    }
    assert((nl + body).drop_first() =~= body);
    assert(trim_start(nl + body) == trim_start(body));
}

/// Splits a document into its frontmatter YAML and its body; a missing
/// marker is a parse error naming it.
pub fn extract_frontmatter(input: &str) -> (r: Result<(String, String), ApixError>)
    ensures
        match split_frontmatter(input@) {
            Ok((y, b)) => r matches Ok((ry, rb)) && ry@ == y && rb@ == b,
            Err(m) => r matches Err(e) && e == ApixError::Parse(e->Parse_0) && e->Parse_0@ == m,
        },
{
    let s = chars_of(input);
    let mk: Vec<char> = vec!['-', '-', '-'];
    assert(mk@ =~= marker());
    match find_chars(s.as_slice(), mk.as_slice()) {
        None => Err(ApixError::Parse(owned("Missing frontmatter start delimiter"))),
        Some(a) => {
            proof {
                crate::text::lemma_find(s@, mk@);
            }
            assert(s.len() as int == s@.len());
            let rest = sub_chars(s.as_slice(), a + 3, s.len());
            assert(rest@ =~= s@.skip(a + 3));
            match find_chars(rest.as_slice(), mk.as_slice()) {
                None => Err(ApixError::Parse(owned("Missing frontmatter end delimiter"))),
                Some(b) => {
                    proof {
                        crate::text::lemma_find(rest@, mk@);
                    }
                    assert(rest.len() as int == rest@.len());
                    let y = sub_chars(rest.as_slice(), 0, b);
                    assert(y@ =~= rest@.take(b as int));
                    let body = sub_chars(rest.as_slice(), b + 3, rest.len());
                    assert(body@ =~= rest@.skip(b + 3));
                    let yt = trim_chars(y.as_slice());
                    let bt = trim_start_chars(body.as_slice());
                    Ok((string_of(yt.as_slice()), string_of(bt.as_slice())))
                },
            }
        },
    }
}

} // verus!
