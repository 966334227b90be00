//! `apix grep`: matching lines of a namespace's markdown files.

use vstd::prelude::*;
use crate::error::ApixError;
use crate::text::{chars_of, decimal, extend_str, owned, push_decimal, string_of, trim_end, trim_end_chars};
use grep_regex::RegexMatcherBuilder;
use grep_searcher::SearcherBuilder;
use grep_searcher::sinks::UTF8;

verus! {

/// What a grep search of a document's bytes for a query gives when it
/// keeps at most `room` matches: the matching lines kept, with their line
/// numbers (counted from 1) and their text, line end included, and whether
/// the search stopped at a further match; or the error's message. The
/// query is matched literally and without regard to case, by grep_regex
/// and grep_searcher, which stop at the first match past `room`.
pub uninterp spec fn grep_matches_upto(content: Seq<u8>, query: Seq<char>, room: nat) -> Result<
    (Seq<(u64, Seq<char>)>, bool),
    Seq<char>,
>;

/// The matches a search keeps, at most `room`, and whether it stopped at a
/// match past them.
pub struct MatchSink {
    pub items: Vec<(u64, String)>,
    pub room: usize,
    pub stopped: bool,
}

impl MatchSink {
    /// Takes one matching line: keeps it while there is room, else notes
    /// the stop; says whether the search goes on.
    pub fn take(&mut self, line_number: u64, line: &str) -> (go_on: bool)
        ensures
            final(self).room == old(self).room,
            old(self).items@.len() < old(self).room ==> go_on && !final(self).stopped
                == !old(self).stopped && final(self).items@.len() == old(self).items@.len() + 1
                && final(self).items@.drop_last() == old(self).items@ && final(self).items@.last().0
                == line_number && final(self).items@.last().1@ == line@,
            old(self).items@.len() >= old(self).room ==> !go_on && final(self).stopped
                && final(self).items@ == old(self).items@,
    {
        if self.items.len() >= self.room {
            self.stopped = true;
            false
        } else {
            let ghost before = self.items@;
            self.items.push((line_number, owned(line)));
            assert(self.items@.drop_last() =~= before);
            true
        }
    }
}

/// The matches as (line number, text) pairs.
pub open spec fn match_views(v: Seq<(u64, String)>) -> Seq<(u64, Seq<char>)> {
    v.map_values(|m: (u64, String)| (m.0, m.1@))
}

/// Searches a document's bytes for a query with grep_searcher, matching the
/// escaped query case-insensitively with grep_regex, line numbers on,
/// keeping at most `room` matches and stopping at the first one past them.
/// The contract names the outcome; which lines match is the grep crates'.
#[verifier::external_body]
fn search_bytes(content: &[u8], query: &str, room: usize) -> (r: Result<(Vec<(u64, String)>, bool), String>)
    ensures
        match grep_matches_upto(content@, query@, room as nat) {
            Ok((ms, stopped)) => r matches Ok((v, s)) && match_views(v@) == ms && s == stopped,
            Err(e) => r matches Err(m) && m@ == e,
        },
{
    let matcher = match RegexMatcherBuilder::new().case_insensitive(true).build(&regex::escape(query)) {
        Ok(m) => m,
        Err(e) => return Err(format!("{e}")),
    };
    let mut sink = MatchSink { items: Vec::new(), room, stopped: false };
    let mut searcher = SearcherBuilder::new().line_number(true).build();
    match searcher.search_slice(&matcher, content, UTF8(|ln, line| Ok(sink.take(ln, line)))) {
        Ok(()) => Ok((sink.items, sink.stopped)),
        Err(e) => Err(format!("{e}")),
    }
}

/// What grep_regex's `RegexMatcherBuilder` (case-insensitive) says of the
/// escaped query: the error's message when it refuses to build a matcher,
/// else none.
pub uninterp spec fn grep_query_error(query: Seq<char>) -> Option<Seq<char>>;

/// Builds the case-insensitive matcher of the escaped query with
/// grep_regex, giving its error's message when it cannot be built. The
/// contract names the outcome.
#[verifier::external_body]
fn check_query(query: &str) -> (r: Option<String>)
    ensures
        match grep_query_error(query@) {
            Some(e) => r matches Some(m) && m@ == e,
            None => r is None,
        },
{
    match RegexMatcherBuilder::new().case_insensitive(true).build(&regex::escape(query)) {
        Ok(_) => None,
        Err(e) => Some(format!("{e}")),
    }
}

/// One output line of a match: `<file>:<line number>: <text>`, the text
/// without trailing whitespace.
pub open spec fn match_line(rel: Seq<char>, ln: u64, text: Seq<char>) -> Seq<char> {
    rel + ":"@ + decimal(ln as nat) + ": "@ + trim_end(text)
}

/// The output lines for the files searched in order, as (label, path,
/// bytes) triples: each file's matches in turn, each search keeping what
/// room is left of `limit` lines; a file's search error ends the search
/// with that error, naming the file's path; a search that stopped at a
/// match past the limit ends the search.
pub open spec fn grep_scan(
    files: Seq<(Seq<char>, Seq<char>, Seq<u8>)>,
    query: Seq<char>,
    limit: nat,
    acc: Seq<Seq<char>>,
) -> Result<Seq<Seq<char>>, Seq<char>>
    decreases files.len(),
{
    if files.len() == 0 {
        Ok(acc)
    } else {
        let f = files[0];
        let room: nat = if acc.len() >= limit {
            0
        } else {
            (limit - acc.len()) as nat
        };
        match grep_matches_upto(f.2, query, room) {
            Err(e) => Err("Search failed for "@ + f.1 + ": "@ + e),
            Ok((ms, stopped)) => {
                let kept = if ms.len() > room {
                    ms.take(room as int)
                } else {
                    ms
                };
                let next = acc + kept.map_values(|m: (u64, Seq<char>)| match_line(f.0, m.0, m.1));
                if stopped || ms.len() > room {
                    Ok(next)
                } else {
                    grep_scan(files.drop_first(), query, limit, next)
                }
            },
        }
    }
}

/// The output lines of one file's matches, at most `room` of them, in
/// order: `<label>:<line number>: <text>` (see [`match_line`]).
pub fn match_lines(label: &str, matches: &[(u64, String)], room: usize) -> (r: Vec<String>)
    ensures
        r@.map_values(|s: String| s@) == match_views(matches@).take(
            if matches@.len() <= room { matches@.len() as int } else { room as int },
        ).map_values(|m: (u64, Seq<char>)| match_line(label@, m.0, m.1)),
{
    let ghost mv = match_views(matches@);
    let n: usize = if matches.len() <= room {
        matches.len()
    } else {
        room
    };
    let mut out: Vec<String> = Vec::new();
    let mut k: usize = 0;
    assert(out@.map_values(|s: String| s@) =~= mv.take(0).map_values(
        |m: (u64, Seq<char>)| match_line(label@, m.0, m.1),
    ));
    while k < n
        invariant
            k <= n,
            n <= matches@.len(),
            mv == match_views(matches@),
            out@.map_values(|s: String| s@) == mv.take(k as int).map_values(
                |m: (u64, Seq<char>)| match_line(label@, m.0, m.1),
            ),
        decreases n - k,
    {
        let mut line: Vec<char> = Vec::new();
        extend_str(&mut line, label);
        line.push(':');
        proof {
            reveal_strlit(":");
            reveal_strlit(": ");
        }
        push_decimal(&mut line, matches[k].0);
        extend_str(&mut line, ": ");
        let text = chars_of(matches[k].1.as_str());
        let t = trim_end_chars(text.as_slice());
        crate::text::extend_chars(&mut line, t.as_slice());
        assert(mv[k as int] == (matches@[k as int].0, matches@[k as int].1@));
        assert(line@ =~= match_line(label@, matches@[k as int].0, matches@[k as int].1@));
        let ghost prev = out@;
        out.push(string_of(line.as_slice()));
        assert(out@.map_values(|s: String| s@) =~= prev.map_values(|s: String| s@).push(line@));
        assert(mv.take(k + 1).map_values(|m: (u64, Seq<char>)| match_line(label@, m.0, m.1))
            =~= mv.take(k as int).map_values(|m: (u64, Seq<char>)| match_line(label@, m.0, m.1)).push(
            match_line(label@, mv[k as int].0, mv[k as int].1),
        ));
        k = k + 1;
    }
    out
}

/// The files as (label, path, bytes) triples.
pub open spec fn file_bytes(v: Seq<(String, String, Vec<u8>)>) -> Seq<(Seq<char>, Seq<char>, Seq<u8>)> {
    v.map_values(|f: (String, String, Vec<u8>)| (f.0@, f.1@, f.2@))
}

/// Searches markdown files, given as (path relative to the namespace, full
/// path, contents), for a query; at most `limit` lines come back, the
/// search stopping at the first match past them. A query the matcher
/// cannot be built from is refused before any file is searched.
pub fn search_markdown_files(files: &[(String, String, Vec<u8>)], query: &str, limit: usize) -> (r: Result<
    Vec<String>,
    ApixError,
>)
    ensures
        match grep_query_error(query@) {
            Some(e) => r matches Err(ApixError::Parse(x)) && x@ == "Invalid search query: "@ + e,
            None => match grep_scan(file_bytes(files@), query@, limit as nat, Seq::empty()) {
                Ok(ls) => r matches Ok(v) && v@.map_values(|s: String| s@) == ls,
                Err(m) => r matches Err(ApixError::Parse(x)) && x@ == m,
            },
        },
{
    if let Some(e) = check_query(query) {
        let mut m: Vec<char> = Vec::new();
        extend_str(&mut m, "Invalid search query: ");
        extend_str(&mut m, e.as_str());
        return Err(ApixError::Parse(string_of(m.as_slice())));
    }
    let ghost all = file_bytes(files@);
    let mut out: Vec<String> = Vec::new();
    let mut i: usize = 0;
    assert(all.skip(0) =~= all);
    assert(out@.map_values(|s: String| s@) =~= Seq::<Seq<char>>::empty());
    while i < files.len()
        invariant
            i <= files@.len(),
            all == file_bytes(files@),
            grep_query_error(query@) is None,
            out@.len() <= limit,
            grep_scan(all, query@, limit as nat, Seq::empty()) == grep_scan(
                all.skip(i as int),
                query@,
                limit as nat,
                out@.map_values(|s: String| s@),
            ),
        decreases files@.len() - i,
    {
        let ghost acc = out@.map_values(|s: String| s@);
        assert(all.skip(i as int)[0] == (files@[i as int].0@, files@[i as int].1@, files@[i as int].2@));
        assert(all.skip(i as int).drop_first() =~= all.skip(i + 1));
        let label = files[i].0.as_str();
        let room = limit - out.len();
        match search_bytes(files[i].2.as_slice(), query, room) {
            Err(e) => {
                let mut m: Vec<char> = Vec::new();
                extend_str(&mut m, "Search failed for ");
                extend_str(&mut m, files[i].1.as_str());
                extend_str(&mut m, ": ");
                extend_str(&mut m, e.as_str());
                return Err(ApixError::Parse(string_of(m.as_slice())));
            },
            Ok((ms, stopped)) => {
                let lines = match_lines(label, ms.as_slice(), room);
                let ghost lv = lines@.map_values(|s: String| s@);
                let mut k: usize = 0;
                while k < lines.len()
                    invariant
                        k <= lines@.len(),
                        lv == lines@.map_values(|s: String| s@),
                        out@.map_values(|s: String| s@) == acc + lv.take(k as int),
                    decreases lines@.len() - k,
                {
                    let ghost prev = out@;
                    out.push(owned(lines[k].as_str()));
                    assert(out@.map_values(|s: String| s@) =~= prev.map_values(|s: String| s@).push(lines@[k as int]@));
                    assert(lv.take(k + 1) =~= lv.take(k as int).push(lv[k as int]));
                    k = k + 1;
                }
                assert(lv.take(lines@.len() as int) =~= lv);
                if stopped || ms.len() > room {
                    return Ok(out);
                }
                assert(match_views(ms@).take(ms@.len() as int) =~= match_views(ms@));
            },
        }
        i = i + 1;
    }
    Ok(out)
}

/// What `apix grep` prints: each match line prefixed with the source.
pub fn grep_output(source: &str, lines: &[String]) -> (r: Vec<String>)
    ensures
        r@.len() == lines@.len(),
        forall|i: int| 0 <= i < r@.len() ==> #[trigger] r@[i]@ == source@ + ":"@ + lines@[i]@,
{
    let mut out: Vec<String> = Vec::new();
    let mut i: usize = 0;
    while i < lines.len()
        invariant
            i <= lines@.len(),
            out@.len() == i,
            forall|j: int| 0 <= j < i ==> #[trigger] out@[j]@ == source@ + ":"@ + lines@[j]@,
        decreases lines@.len() - i,
    {
        let mut l = chars_of(source);
        l.push(':');
        proof {
            reveal_strlit(":");
        }
        extend_str(&mut l, lines[i].as_str());
        let ghost prev = out@;
        out.push(string_of(l.as_slice()));
        assert(forall|j: int| 0 <= j < i ==> out@[j] == prev[j]);
        assert(out@[i as int]@ =~= source@ + ":"@ + lines@[i as int]@);
        i = i + 1;
    }
    out
}

} // verus!
