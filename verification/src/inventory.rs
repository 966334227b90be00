//! The local inventory shown by `apix ls`: which namespaces and versions
//! each source holds, and the routes of one namespace version.
//!
//! Directory listings and file contents are read by the caller; this module
//! decides what they mean.

use vstd::prelude::*;
use crate::error::ApixError;
use crate::output::{
    bold_code, green_underline_code, lemma_append_piece, lemma_plain_unstyled, lemma_styled_as, plain,
    styled_as, styled_form, unstyled,
};
use crate::text::{
    ascii_upper, ascii_upper_chars, chars_eq_str, insert_name_vec, sorted_names, chars_of, decimal, extend_chars, extend_str, join,
    join_chars, lex_lt, lex_lt_chars, lines, lines_of_str, owned, push_decimal, segments,
    segments_of, starts_with_str, str_eq, string_of, strip_prefixes, strip_prefixes_chars, strs,
    sub_chars, trim, trim_chars, views,
};

verus! {

// ---------------------------------------------------------------------------
// What `apix ls` was asked for
// ---------------------------------------------------------------------------

/// The three forms of the `ls` argument.
#[derive(Debug, Clone, PartialEq, Eq)]
pub enum LsTarget {
    /// No argument: every namespace of every source.
    All,
    /// A bare namespace name.
    Namespace(String),
    /// `<namespace>/<version>[/<path prefix>]`.
    NamespaceVersion { namespace: String, version: String, path_prefix: Option<String> },
}

/// The message of a route-detail argument with fewer than two parts.
pub open spec fn ls_target_error() -> Seq<char> {
    "`apix ls` route-detail mode expects at least `<namespace>/<version>`"@
}

/// Reads the `ls` argument: without a `/` it names a namespace; with one,
/// its non-empty `/`-separated parts are namespace, version and an optional
/// path prefix (the remaining parts joined by `/`).
pub fn parse_ls_target(value: Option<&str>) -> (r: Result<LsTarget, ApixError>)
    ensures
        match value {
            None => r matches Ok(LsTarget::All),
            Some(raw) => if raw@.contains('/') {
                let parts = segments(raw@, '/');
                if parts.len() < 2 {
                    r matches Err(ApixError::Parse(m)) && m@ == ls_target_error()
                } else {
                    &&& r matches Ok(LsTarget::NamespaceVersion { namespace, version, path_prefix })
                    &&& r->Ok_0->namespace@ == parts[0]
                    &&& r->Ok_0->version@ == parts[1]
                    &&& parts.len() > 2 ==> (r->Ok_0->path_prefix matches Some(p) && p@ == join(
                        parts.skip(2),
                        "/"@,
                    ))
                    &&& parts.len() <= 2 ==> r->Ok_0->path_prefix is None
                }
            } else {
                r matches Ok(LsTarget::Namespace(n)) && n@ == raw@
            },
        },
{
    if value.is_none() {
        return Ok(LsTarget::All);
    }
    let raw = value.unwrap();
    let cs = chars_of(raw);
    if !crate::text::has_char(cs.as_slice(), '/') {
        return Ok(LsTarget::Namespace(owned(raw)));
    }
    let mut parts = segments_of(cs.as_slice(), '/');
    if parts.len() < 2 {
        return Err(
            ApixError::Parse(
                owned("`apix ls` route-detail mode expects at least `<namespace>/<version>`"),
            ),
        );
    }
    assert(views(parts@)[0] == parts@[0]@);
    assert(views(parts@)[1] == parts@[1]@);
    let namespace = string_of(parts[0].as_slice());
    let version = string_of(parts[1].as_slice());
    let path_prefix = if parts.len() > 2 {
        let ghost all = parts@;
        let rest = parts.split_off(2);
        assert(views(rest@) =~= views(all).skip(2));
        let sep: Vec<char> = vec!['/'];
        proof {
            reveal_strlit("/");
        }
        assert(sep@ =~= "/"@);
        let j = join_chars(rest.as_slice(), sep.as_slice());
        Some(string_of(j.as_slice()))
    } else {
        None
    };
    Ok(LsTarget::NamespaceVersion { namespace, version, path_prefix })
}

// ---------------------------------------------------------------------------
// Route summaries
// ---------------------------------------------------------------------------

/// At most 120 characters: a longer text keeps its first 117 followed by
/// `...`.
pub open spec fn truncated(s: Seq<char>) -> Seq<char> {
    if s.len() <= 120 {
        s
    } else {
        s.take(117) + "..."@
    }
}

/// The first summary line among `ls`, scanning with `fence` telling whether
/// a fenced code block is open: blank lines, fence lines, lines inside a
/// fence, table rows and headings with no text are skipped; a heading gives
/// its text, any other line gives itself (trimmed).
pub open spec fn summary_scan(ls: Seq<Seq<char>>, fence: bool) -> Option<Seq<char>>
    decreases ls.len(),
{
    if ls.len() == 0 {
        None
    } else {
        let t = trim(ls[0]);
        let rest = ls.drop_first();
        if t.len() == 0 {
            summary_scan(rest, fence)
        } else if "```"@.is_prefix_of(t) {
            summary_scan(rest, !fence)
        } else if fence {
            summary_scan(rest, fence)
        } else if t[0] == '#' {
            let title = trim(strip_prefixes(t, "#"@));
            if title.len() > 0 {
                Some(title)
            } else {
                summary_scan(rest, fence)
            }
        } else if t[0] == '|' {
            summary_scan(rest, fence)
        } else {
            Some(t)
        }
    }
}

/// The one-line summary of a route document body.
pub open spec fn body_summary(body: Seq<char>) -> Seq<char> {
    match summary_scan(lines(body), false) {
        Some(t) => truncated(t),
        None => "(no description)"@,
    }
}

/// Shortens a summary to at most 120 characters.
pub fn truncate_summary(input: &[char]) -> (r: String)
    ensures
        r@ == truncated(input@),
{
    if input.len() <= 120 {
        return string_of(input);
    }
    let mut out = sub_chars(input, 0, 117);
    extend_str(&mut out, "...");
    string_of(out.as_slice())
}

/// The summary of a route document body: its first heading text or first
/// plain line outside code fences and tables, else `(no description)`.
pub fn extract_summary_from_body(body: &str) -> (r: String)
    ensures
        r@ == body_summary(body@),
{
    let ls = lines_of_str(body);
    let ghost all = views(ls@);
    let mut fence = false;
    let mut i: usize = 0;
    assert(all.skip(0) =~= all);
    while i < ls.len()
        invariant
            i <= ls@.len(),
            all == views(ls@),
            all == lines(body@),
            summary_scan(all, false) == summary_scan(all.skip(i as int), fence),
        decreases ls@.len() - i,
    {
        let ghost cur = all.skip(i as int);
        assert(cur[0] == ls@[i as int]@);
        assert(cur.drop_first() =~= all.skip(i + 1));
        let t = trim_chars(ls[i].as_slice());
        if t.len() == 0 {
            i = i + 1;
            continue;
        }
        if starts_with_str(t.as_slice(), "```") {
            fence = !fence;
            i = i + 1;
            continue;
        }
        if fence {
            i = i + 1;
            continue;
        }
        if t[0] == '#' {
            let hashes: Vec<char> = vec!['#'];
            proof {
                reveal_strlit("#");
            }
            assert(hashes@ =~= "#"@);
            let stripped = strip_prefixes_chars(t.as_slice(), hashes.as_slice());
            let title = trim_chars(stripped.as_slice());
            if title.len() > 0 {
                return truncate_summary(title.as_slice());
            }
            i = i + 1;
            continue;
        }
        if t[0] == '|' {
            i = i + 1;
            continue;
        }
        return truncate_summary(t.as_slice());
    }
    owned("(no description)")
}

/// The summary of a route file: that of its body when its frontmatter is
/// well formed (`frontmatter_ok`: the markers are there and the YAML between
/// them is route frontmatter), else that of the whole file.
pub fn extract_route_summary(content: &str, frontmatter_ok: bool) -> (r: String)
    ensures
        r@ == if frontmatter_ok {
            match crate::vault::frontmatter::split_frontmatter(content@) {
                Ok((_y, b)) => body_summary(b),
                Err(_) => body_summary(content@),
            }
        } else {
            body_summary(content@)
        },
{
    if frontmatter_ok {
        if let Ok((_y, body)) = crate::vault::frontmatter::extract_frontmatter(content) {
            return extract_summary_from_body(body.as_str());
        }
    }
    extract_summary_from_body(content)
}

// ---------------------------------------------------------------------------
// Method order
// ---------------------------------------------------------------------------

/// The listing rank of an HTTP method: GET, POST, PUT, PATCH, DELETE,
/// OPTIONS, HEAD, then everything else.
pub open spec fn method_rank(m: Seq<char>) -> nat {
    if m == "GET"@ {
        0
    } else if m == "POST"@ {
        1
    } else if m == "PUT"@ {
        2
    } else if m == "PATCH"@ {
        3
    } else if m == "DELETE"@ {
        4
    } else if m == "OPTIONS"@ {
        5
    } else if m == "HEAD"@ {
        6
    } else {
        99
    }
}

/// The listing rank of a method.
pub fn method_order_key(method: &str) -> (r: usize)
    ensures
        r == method_rank(method@),
{
    if str_eq(method, "GET") {
        0
    } else if str_eq(method, "POST") {
        1
    } else if str_eq(method, "PUT") {
        2
    } else if str_eq(method, "PATCH") {
        3
    } else if str_eq(method, "DELETE") {
        4
    } else if str_eq(method, "OPTIONS") {
        5
    } else if str_eq(method, "HEAD") {
        6
    } else {
        99
    }
}

// ---------------------------------------------------------------------------
// Namespaces and versions
// ---------------------------------------------------------------------------

/// A version directory of a namespace and how many routes it documents.
#[derive(Debug, Clone)]
pub struct VersionRecord {
    pub version: String,
    pub route_count: usize,
}

/// A namespace found in a source, with its versions.
#[derive(Debug, Clone)]
pub struct NamespaceRecord {
    pub source: String,
    pub namespace: String,
    pub versions: Vec<VersionRecord>,
}

/// How a version is shown in the namespace detail view.
pub open spec fn version_label(v: VersionRecord) -> Seq<char> {
    v.version@ + " (routes: "@ + decimal(v.route_count as nat) + ")"@
}

/// The versions joined by commas.
pub fn format_versions(versions: &[VersionRecord]) -> (r: String)
    ensures
        r@ == join(versions@.map_values(|v: VersionRecord| v.version@), ","@),
{
    let mut parts: Vec<Vec<char>> = Vec::new();
    let mut i: usize = 0;
    while i < versions.len()
        invariant
            i <= versions@.len(),
            views(parts@) == versions@.take(i as int).map_values(|v: VersionRecord| v.version@),
        decreases versions@.len() - i,
    {
        let x = chars_of(versions[i].version.as_str());
        let ghost prev = views(parts@);
        parts.push(x);
        assert(views(parts@) =~= prev.push(x@));
        assert(versions@.take(i + 1).map_values(|v: VersionRecord| v.version@) =~= versions@.take(
            i as int,
        ).map_values(|v: VersionRecord| v.version@).push(versions@[i as int].version@));
        i = i + 1;
    }
    assert(versions@.take(versions@.len() as int) =~= versions@);
    let sep: Vec<char> = vec![','];
    proof {
        reveal_strlit(",");
    }
    assert(sep@ =~= ","@);
    let j = join_chars(parts.as_slice(), sep.as_slice());
    string_of(j.as_slice())
}

/// The versions with their route counts, joined by `, `.
pub fn format_versions_detailed(versions: &[VersionRecord]) -> (r: String)
    ensures
        r@ == join(versions@.map_values(|v: VersionRecord| version_label(v)), ", "@),
{
    let mut parts: Vec<Vec<char>> = Vec::new();
    let mut i: usize = 0;
    while i < versions.len()
        invariant
            i <= versions@.len(),
            views(parts@) == versions@.take(i as int).map_values(
                |v: VersionRecord| version_label(v),
            ),
        decreases versions@.len() - i,
    {
        let mut x = chars_of(versions[i].version.as_str());
        extend_str(&mut x, " (routes: ");
        push_decimal(&mut x, versions[i].route_count as u64);
        extend_str(&mut x, ")");
        assert(x@ =~= version_label(versions@[i as int]));
        let ghost prev = views(parts@);
        parts.push(x);
        assert(views(parts@) =~= prev.push(x@));
        assert(versions@.take(i + 1).map_values(|v: VersionRecord| version_label(v))
            =~= versions@.take(i as int).map_values(|v: VersionRecord| version_label(v)).push(
            version_label(versions@[i as int]),
        ));
        i = i + 1;
    }
    assert(versions@.take(versions@.len() as int) =~= versions@);
    let mut sep: Vec<char> = Vec::new();
    extend_str(&mut sep, ", ");
    let j = join_chars(parts.as_slice(), sep.as_slice());
    string_of(j.as_slice())
}

/// The versions of a record joined by commas.
pub open spec fn versions_text(r: NamespaceRecord) -> Seq<char> {
    join(r.versions@.map_values(|v: VersionRecord| v.version@), ","@)
}

/// The lines of `apix ls` with colours off: the source's name before its
/// first namespace and whenever it changes, then `  <namespace>
/// (<versions>)` for each record.
pub open spec fn grouped_lines(records: Seq<NamespaceRecord>) -> Seq<Seq<char>>
    decreases records.len(),
{
    if records.len() == 0 {
        Seq::empty()
    } else {
        let n = records.len() - 1;
        let r = records[n];
        let head = if n == 0 || records[n - 1].source@ != r.source@ {
            seq![r.source@]
        } else {
            Seq::empty()
        };
        grouped_lines(records.drop_last()) + head + seq!["  "@ + r.namespace@ + " ("@ + versions_text(r) + ")"@]
    }
}

/// Whether a record's source, namespace and versions hold no escape
/// character.
pub open spec fn plain_record(r: NamespaceRecord) -> bool {
    plain(r.source@) && plain(r.namespace@) && plain(versions_text(r))
}

/// The lines listing namespaces grouped by source; with colours off they
/// are exactly [`grouped_lines`], and with colours on (for records without
/// escape characters) each is its line of [`grouped_lines`] once colored's
/// styles of the source and namespace names are removed.
pub fn inventory_lines(records: &[NamespaceRecord], colors_disabled: bool) -> (r: Vec<String>)
    ensures
        r@.len() == grouped_lines(records@).len(),
        colors_disabled ==> strs(r@) == grouped_lines(records@),
        (forall|j: int| 0 <= j < records@.len() ==> plain_record(#[trigger] records@[j])) ==> forall|
            k: int,
        |
            0 <= k < r@.len() ==> styled_form(#[trigger] r@[k]@) && unstyled(r@[k]@)
                == grouped_lines(records@)[k],
{
    let ghost guard = forall|j: int| 0 <= j < records@.len() ==> plain_record(#[trigger] records@[j]);
    proof {
        reveal_strlit("  ");
        reveal_strlit(" (");
        reveal_strlit(")");
    }
    let mut out: Vec<String> = Vec::new();
    let mut i: usize = 0;
    assert(records@.take(0) =~= Seq::<NamespaceRecord>::empty());
    while i < records.len()
        invariant
            i <= records@.len(),
            out@.len() == grouped_lines(records@.take(i as int)).len(),
            colors_disabled ==> strs(out@) == grouped_lines(records@.take(i as int)),
            guard == forall|j: int| 0 <= j < records@.len() ==> plain_record(#[trigger] records@[j]),
            guard ==> forall|k: int|
                0 <= k < out@.len() ==> styled_form(#[trigger] out@[k]@) && unstyled(out@[k]@)
                    == grouped_lines(records@.take(i as int))[k],
            "  "@ == seq![' ', ' '],
            " ("@ == seq![' ', '('],
            ")"@ == seq![')'],
        decreases records@.len() - i,
    {
        let r = &records[i];
        let ghost t = records@.take(i + 1);
        assert(t.drop_last() =~= records@.take(i as int));
        assert(t[i as int] == *r);
        assert(i > 0 ==> t[i - 1] == records@[i - 1]);
        let ghost prev = strs(out@);
        let ghost prev_out = out@;
        let ghost g0 = grouped_lines(records@.take(i as int));
        let new_source = i == 0 || !str_eq(records[i - 1].source.as_str(), r.source.as_str());
        if new_source {
            let sl = crate::output::fmt_source(r.source.as_str(), colors_disabled);
            proof {
                if guard {
                    assert(plain_record(records@[i as int]));
                    lemma_styled_as(sl@, r.source@, green_underline_code());
                }
            }
            out.push(sl);
        }
        let ghost mid = strs(out@);
        let ghost mid_out = out@;
        let mut line: Vec<char> = Vec::new();
        extend_str(&mut line, "  ");
        let ns = crate::output::fmt_namespace(r.namespace.as_str(), colors_disabled);
        extend_str(&mut line, ns.as_str());
        extend_str(&mut line, " (");
        let vs = format_versions(r.versions.as_slice());
        extend_str(&mut line, vs.as_str());
        extend_str(&mut line, ")");
        let l = string_of(line.as_slice());
        proof {
            if guard {
                assert(plain_record(records@[i as int]));
                let e = Seq::<char>::empty();
                assert(styled_form(e) && unstyled(e) == e) by {
                    lemma_plain_unstyled(e);
                }
                lemma_push_plain(e, "  "@);
                lemma_push_styled(e + "  "@, ns@, r.namespace@, bold_code());
                lemma_push_plain(e + "  "@ + ns@, " ("@);
                lemma_push_plain(e + "  "@ + ns@ + " ("@, vs@);
                lemma_push_plain(e + "  "@ + ns@ + " ("@ + vs@, ")"@);
                assert(l@ =~= e + "  "@ + ns@ + " ("@ + vs@ + ")"@);
                assert(unstyled(l@) =~= "  "@ + r.namespace@ + " ("@ + versions_text(*r) + ")"@);
            }
        }
        out.push(l);
        proof {
            if colors_disabled {
                if new_source {
                    assert(mid =~= prev.push(r.source@));
                } else {
                    assert(mid =~= prev);
                }
                assert(l@ =~= "  "@ + r.namespace@ + " ("@ + versions_text(*r) + ")"@);
                assert(strs(out@) =~= mid.push(l@));
                assert(strs(out@) =~= grouped_lines(t));
            }
            if guard {
                let g1 = grouped_lines(t);
                let head = if i == 0 || records@[i - 1].source@ != r.source@ {
                    seq![r.source@]
                } else {
                    Seq::empty()
                };
                assert(g1 == g0 + head + seq!["  "@ + r.namespace@ + " ("@ + versions_text(*r) + ")"@]);
                assert(new_source == (i == 0 || records@[i - 1].source@ != r.source@));
                assert forall|k: int| 0 <= k < out@.len() implies styled_form(#[trigger] out@[k]@)
                    && unstyled(out@[k]@) == g1[k] by {
                    if k < prev_out.len() {
                        assert(out@[k] == prev_out[k]);
                        assert(g1[k] == g0[k]);
                    } else if k < mid_out.len() {
                        assert(out@[k] == mid_out[k]);
                        assert(g1[k] == r.source@);
                    } else {
                        assert(k == mid_out.len());
                        assert(out@[k] == l);
                    }
                }
            }
        }
        i = i + 1;
    }
    assert(records@.take(records@.len() as int) =~= records@);
    out
}

/// How a source is shown in the namespace detail view: its name padded to
/// ten characters, then its versions with their route counts.
pub open spec fn detail_line(r: NamespaceRecord) -> Seq<char> {
    detail_line_with(r, r.source@)
}

/// A [`detail_line`] with the source shown as `shown`.
pub open spec fn detail_line_with(r: NamespaceRecord, shown: Seq<char>) -> Seq<char> {
    "  "@ + crate::registry::pad_right(shown, 10) + " versions: "@ + join(
        r.versions@.map_values(|v: VersionRecord| version_label(v)),
        ", "@,
    )
}

/// `l` is the detail line of a record with its source as colored shows it:
/// plain or underlined bright green.
pub open spec fn detail_line_shown(l: Seq<char>, r: NamespaceRecord) -> bool {
    l == detail_line(r) || l == detail_line_with(
        r,
        crate::output::colored_text(r.source@, green_underline_code()),
    )
}

/// The lines of `apix ls <namespace>` with colours off: the namespace of
/// the first record, then one [`detail_line`] per record; none when there
/// is no record.
pub open spec fn namespace_detail(records: Seq<NamespaceRecord>) -> Seq<Seq<char>> {
    if records.len() == 0 {
        Seq::empty()
    } else {
        seq![records[0].namespace@] + records.map_values(|r: NamespaceRecord| detail_line(r))
    }
}

/// The lines showing one namespace across sources; with colours off they
/// are exactly [`namespace_detail`].
pub fn namespace_detail_lines(records: &[NamespaceRecord], colors_disabled: bool) -> (r: Vec<String>)
    ensures
        r@.len() == namespace_detail(records@).len(),
        colors_disabled ==> strs(r@) == namespace_detail(records@),
        records@.len() > 0 ==> styled_as(
            r@[0]@,
            records@[0].namespace@,
            bold_code(),
        ),
        forall|i: int|
            0 <= i < records@.len() ==> detail_line_shown(#[trigger] r@[i + 1]@, records@[i]),
{
    let mut out: Vec<String> = Vec::new();
    if records.len() == 0 {
        assert(strs(out@) =~= Seq::<Seq<char>>::empty());
        return out;
    }
    out.push(crate::output::fmt_namespace(records[0].namespace.as_str(), colors_disabled));
    let mut i: usize = 0;
    while i < records.len()
        invariant
            i <= records@.len(),
            records@.len() > 0,
            out@.len() == i + 1,
            colors_disabled ==> strs(out@) == seq![records@[0].namespace@] + records@.take(
                i as int,
            ).map_values(|r: NamespaceRecord| detail_line(r)),
            styled_as(out@[0]@, records@[0].namespace@, bold_code()),
            forall|k: int| 0 <= k < i ==> detail_line_shown(#[trigger] out@[k + 1]@, records@[k]),
        decreases records@.len() - i,
    {
        let r = &records[i];
        let mut line: Vec<char> = Vec::new();
        extend_str(&mut line, "  ");
        let src = crate::output::fmt_source(r.source.as_str(), colors_disabled);
        crate::registry::pad_to(&mut line, src.as_str(), 10);
        extend_str(&mut line, " versions: ");
        let vs = format_versions_detailed(r.versions.as_slice());
        extend_str(&mut line, vs.as_str());
        let l = string_of(line.as_slice());
        assert(l@ =~= detail_line_with(*r, src@));
        let ghost prev = strs(out@);
        let ghost prev_out = out@;
        out.push(l);
        assert(forall|k: int| 0 <= k <= i ==> out@[k] == prev_out[k]);
        assert(detail_line_shown(out@[i + 1]@, records@[i as int]));
        proof {
            if colors_disabled {
                assert(l@ =~= detail_line(*r));
                assert(strs(out@) =~= prev.push(l@));
                assert(records@.take(i + 1).map_values(|r: NamespaceRecord| detail_line(r))
                    =~= records@.take(i as int).map_values(|r: NamespaceRecord| detail_line(r)).push(
                    detail_line(records@[i as int]),
                ));
            }
        }
        i = i + 1;
    }
    assert(records@.take(records@.len() as int) =~= records@);
    out
}

/// Directories of a source that are not namespaces: hidden ones and the
/// registry index.
pub open spec fn ignored_namespace(name: Seq<char>) -> bool {
    (name.len() > 0 && name[0] == '.') || name == "registry.json"@
}

/// Whether a directory of a source is skipped when listing namespaces.
pub fn is_ignored_namespace_dir(name: &str) -> (r: bool)
    ensures
        r == ignored_namespace(name@),
{
    let cs = chars_of(name);
    (cs.len() > 0 && cs[0] == '.') || str_eq(name, "registry.json")
}

// ---------------------------------------------------------------------------
// Sorting by name
// ---------------------------------------------------------------------------

// ---------------------------------------------------------------------------
// Listing a source
// ---------------------------------------------------------------------------

/// The namespace directories of a source, in increasing order: its
/// directories that are not hidden and not the registry index.
pub open spec fn namespace_names(dirs: Seq<Seq<char>>) -> Seq<Seq<char>> {
    sorted_names(dirs.filter(|d: Seq<char>| !ignored_namespace(d)))
}

/// A source's namespaces are listed in increasing order, each directory
/// that is neither hidden nor the registry index as often as it is there,
/// and nothing else.
pub proof fn law_namespaces_sorted_and_complete(dirs: Seq<Seq<char>>)
    ensures
        crate::text::names_sorted(namespace_names(dirs)),
        forall|d: Seq<char>| #[trigger] namespace_names(dirs).contains(d) <==> (dirs.contains(d) && !ignored_namespace(d)),
{
    let pred = |d: Seq<char>| !ignored_namespace(d);
    let kept = dirs.filter(pred);
    assert(namespace_names(dirs) == crate::text::sorted_names(kept));
    crate::text::lemma_sorted_names(kept);
    broadcast use vstd::seq_lib::group_filter_ensures;
    assert forall|d: Seq<char>| #[trigger] namespace_names(dirs).contains(d) <==> (dirs.contains(d) && !ignored_namespace(d)) by {
        if kept.contains(d) {
            let i = choose|i: int| 0 <= i < kept.len() && kept[i] == d;
            assert(pred(kept[i]));
            dirs.lemma_filter_contains_rev(pred, d);
        }
        if dirs.contains(d) && !ignored_namespace(d) {
            let i = choose|i: int| 0 <= i < dirs.len() && dirs[i] == d;
            assert(pred(dirs[i]));
        }
    }
}

/// The namespaces among the directory names of a source, sorted.
pub fn source_namespaces(dirs: &[String]) -> (r: Vec<String>)
    ensures
        strs(r@) == namespace_names(strs(dirs@)),
{
    let ghost all = strs(dirs@);
    let mut kept: Vec<String> = Vec::new();
    let mut out: Vec<String> = Vec::new();
    let mut i: usize = 0;
    while i < dirs.len()
        invariant
            i <= dirs@.len(),
            all == strs(dirs@),
            strs(kept@) == all.take(i as int).filter(|d: Seq<char>| !ignored_namespace(d)),
            strs(out@) == sorted_names(strs(kept@)),
        decreases dirs@.len() - i,
    {
        assert(all.take(i + 1).drop_last() =~= all.take(i as int));
        assert(all.take(i + 1).last() == dirs@[i as int]@);
        proof {
            reveal(Seq::filter);
        }
        if !is_ignored_namespace_dir(dirs[i].as_str()) {
            let x = owned(dirs[i].as_str());
            let ghost prev = strs(kept@);
            kept.push(owned(dirs[i].as_str()));
            assert(strs(kept@) =~= prev.push(x@));
            assert(strs(kept@).drop_last() =~= prev);
            insert_name_vec(&mut out, x);
        }
        i = i + 1;
    }
    assert(all.take(dirs@.len() as int) =~= all);
    out
}

/// The HTTP methods a route file may be named after.
pub open spec fn is_http_method(m: Seq<char>) -> bool {
    m == "GET"@ || m == "POST"@ || m == "PUT"@ || m == "PATCH"@ || m == "DELETE"@ || m
        == "HEAD"@ || m == "OPTIONS"@ || m == "TRACE"@
}

/// Whether a path (relative to a version directory) lies under a `_types`
/// directory, where type documents live.
pub open spec fn in_types_dir(rel: Seq<char>) -> bool {
    "_types/"@.is_prefix_of(rel) || crate::text::contains(rel, "/_types/"@)
}

/// The method a file is named after: its upper-cased file stem.
pub open spec fn route_method(rel: Seq<char>) -> Seq<char> {
    ascii_upper(crate::paths::file_stem(crate::paths::file_name(rel)))
}

/// Whether a markdown file under a version directory documents a route: a
/// `<METHOD>.md` file outside the shared components and the type documents
/// (so never the version metadata).
pub open spec fn is_route_file(rel: Seq<char>) -> bool {
    &&& !"_components/"@.is_prefix_of(rel)
    &&& !in_types_dir(rel)
    &&& crate::paths::extension(crate::paths::file_name(rel)) == Some("md"@)
    &&& is_http_method(route_method(rel))
}

/// Whether a method name is one of the HTTP methods.
fn is_http_method_exec(m: &[char]) -> (r: bool)
    ensures
        r == is_http_method(m@),
{
    chars_eq_str(m, "GET") || chars_eq_str(m, "POST") || chars_eq_str(m, "PUT") || chars_eq_str(
        m,
        "PATCH",
    ) || chars_eq_str(m, "DELETE") || chars_eq_str(m, "HEAD") || chars_eq_str(m, "OPTIONS")
        || chars_eq_str(m, "TRACE")
}

/// The method of a route file, none for a file that documents no route.
fn route_file_method(rel: &[char]) -> (r: Option<Vec<char>>)
    ensures
        r is Some == is_route_file(rel@),
        r is Some ==> r.unwrap()@ == route_method(rel@),
{
    if starts_with_str(rel, "_components/") || starts_with_str(rel, "_types/")
        || crate::text::contains_str(rel, "/_types/") {
        return None;
    }
    let name = crate::paths::file_name_chars(rel);
    let is_md = match crate::paths::extension_of(rel) {
        Some(e) => chars_eq_str(e.as_slice(), "md"),
        None => false,
    };
    if !is_md {
        return None;
    }
    let stem = crate::paths::file_stem_chars(name.as_slice());
    let method = ascii_upper_chars(stem.as_slice());
    if is_http_method_exec(method.as_slice()) {
        Some(method)
    } else {
        None
    }
}

/// How many of the markdown files (paths relative to a version directory)
/// document routes.
pub open spec fn route_file_count(rels: Seq<Seq<char>>) -> nat
    decreases rels.len(),
{
    if rels.len() == 0 {
        0
    } else {
        route_file_count(rels.drop_last()) + if is_route_file(rels.last()) {
            1nat
        } else {
            0nat
        }
    }
}

/// Counts the route files among markdown files of a version directory.
pub fn count_routes(rels: &[String]) -> (r: usize)
    ensures
        r == route_file_count(strs(rels@)),
{
    let mut n: usize = 0;
    let mut i: usize = 0;
    while i < rels.len()
        invariant
            i <= rels@.len(),
            n == route_file_count(strs(rels@).take(i as int)),
            n <= i,
        decreases rels@.len() - i,
    {
        assert(strs(rels@).take(i + 1).drop_last() =~= strs(rels@).take(i as int));
        assert(strs(rels@).take(i + 1).last() == rels@[i as int]@);
        let rc = chars_of(rels[i].as_str());
        if route_file_method(rc.as_slice()).is_some() {
            n = n + 1;
        }
        i = i + 1;
    }
    assert(strs(rels@).take(rels@.len() as int) =~= strs(rels@));
    n
}

/// A version directory as listed: its name, whether it holds
/// `_metadata.md`, and its markdown files relative to it.
#[derive(Debug, Clone)]
pub struct VersionListing {
    pub name: String,
    pub has_metadata: bool,
    pub markdown_files: Vec<String>,
}

/// A version record as a pair of name and route count.
pub open spec fn version_view(v: VersionRecord) -> (Seq<char>, nat) {
    (v.version@, v.route_count as nat)
}

/// `s` (sorted by name) with `x` placed before the first element whose name
/// it sorts before.
pub open spec fn insert_version(s: Seq<(Seq<char>, nat)>, x: (Seq<char>, nat)) -> Seq<
    (Seq<char>, nat),
>
    decreases s.len(),
{
    if s.len() == 0 {
        seq![x]
    } else if lex_lt(x.0, s[0].0) {
        seq![x] + s
    } else {
        seq![s[0]] + insert_version(s.drop_first(), x)
    }
}

/// The versions of a namespace: its version directories that hold
/// `_metadata.md`, with their route counts, in increasing order of name.
pub open spec fn version_rows(vs: Seq<VersionListing>) -> Seq<(Seq<char>, nat)>
    decreases vs.len(),
{
    if vs.len() == 0 {
        Seq::empty()
    } else {
        let r = version_rows(vs.drop_last());
        let v = vs.last();
        if v.has_metadata {
            insert_version(r, (v.name@, route_file_count(strs(v.markdown_files@))))
        } else {
            r
        }
    }
}

proof fn lemma_insert_version_at(s: Seq<(Seq<char>, nat)>, x: (Seq<char>, nat), j: int)
    requires
        0 <= j <= s.len(),
        forall|i: int| 0 <= i < j ==> !lex_lt(x.0, #[trigger] s[i].0),
        j < s.len() ==> lex_lt(x.0, s[j].0),
    ensures
        insert_version(s, x) == s.insert(j, x),
    decreases j,
{
    if j == 0 {
        if s.len() == 0 {
            assert(seq![x] =~= s.insert(0, x));
        } else {
            assert(seq![x] + s =~= s.insert(0, x));
        }
    } else {
        assert forall|i: int| 0 <= i < j - 1 implies !lex_lt(x.0, #[trigger] s.drop_first()[i].0) by {
            assert(s.drop_first()[i] == s[i + 1]);
        }
        lemma_insert_version_at(s.drop_first(), x, j - 1);
        assert(seq![s[0]] + s.drop_first().insert(j - 1, x) =~= s.insert(j, x));
    }
}

proof fn lemma_insert_version_is_insert(s: Seq<(Seq<char>, nat)>, x: (Seq<char>, nat)) -> (j: int)
    ensures
        0 <= j <= s.len(),
        insert_version(s, x) == s.insert(j, x),
        forall|i: int| 0 <= i < j ==> !lex_lt(x.0, #[trigger] s[i].0),
        j < s.len() ==> lex_lt(x.0, s[j].0),
    decreases s.len(),
{
    if s.len() == 0 {
        assert(seq![x] =~= s.insert(0, x));
        0
    } else if lex_lt(x.0, s[0].0) {
        assert(seq![x] + s =~= s.insert(0, x));
        0
    } else {
        let t = s.drop_first();
        let j = lemma_insert_version_is_insert(t, x);
        assert(seq![s[0]] + t.insert(j, x) =~= s.insert(j + 1, x));
        assert forall|i: int| 0 <= i < j + 1 implies !lex_lt(x.0, #[trigger] s[i].0) by {
            if i > 0 {
                assert(s[i] == t[i - 1]);
            }
        }
        j + 1
    }
}

/// Whether some version directory with `_metadata.md` has the name.
pub open spec fn has_listed_version(vs: Seq<VersionListing>, name: Seq<char>) -> bool {
    exists|i: int| 0 <= i < vs.len() && (#[trigger] vs[i]).has_metadata && vs[i].name@ == name
}

/// A namespace's versions are listed in increasing order of name, each
/// version directory with `_metadata.md` once, and no other.
pub proof fn law_versions_sorted_and_complete(vs: Seq<VersionListing>)
    ensures
        forall|a: int, b: int| 0 <= a < b < version_rows(vs).len() ==> !lex_lt(#[trigger] version_rows(vs)[b].0, #[trigger] version_rows(vs)[a].0),
        version_rows(vs).len() == vs.filter(|v: VersionListing| v.has_metadata).len(),
        forall|x: Seq<char>| (exists|i: int| 0 <= i < version_rows(vs).len() && (#[trigger] version_rows(vs)[i]).0 == x) <==> has_listed_version(vs, x),
    decreases vs.len(),
{
    reveal(Seq::filter);
    if vs.len() > 0 {
        let p = vs.drop_last();
        let v = vs.last();
        law_versions_sorted_and_complete(p);
        let t = version_rows(p);
        let r = version_rows(vs);
        assert(vs.drop_last() == p);
        assert forall|x: Seq<char>| has_listed_version(vs, x) <==> (has_listed_version(p, x) || (v.has_metadata && v.name@ == x)) by {
            if has_listed_version(vs, x) {
                let i = choose|i: int| 0 <= i < vs.len() && (#[trigger] vs[i]).has_metadata && vs[i].name@ == x;
                if i < p.len() {
                    assert(p[i] == vs[i]);
                } else {
                    assert(vs[i] == v);
                }
            }
            if has_listed_version(p, x) {
                let i = choose|i: int| 0 <= i < p.len() && (#[trigger] p[i]).has_metadata && p[i].name@ == x;
                assert(vs[i] == p[i]);
            }
            if v.has_metadata && v.name@ == x {
                assert(vs[vs.len() - 1] == v);
            }
        }
        if v.has_metadata {
            let x = (v.name@, route_file_count(strs(v.markdown_files@)));
            let j = lemma_insert_version_is_insert(t, x);
            assert(r == t.insert(j, x));
            assert forall|a: int, b: int| 0 <= a < b < r.len() implies !lex_lt(#[trigger] r[b].0, #[trigger] r[a].0) by {
                if a == j {
                    assert(r[b] == t[b - 1]);
                    if lex_lt(t[b - 1].0, x.0) {
                        if b - 1 == j {
                            crate::text::lemma_lex_asym(x.0, t[j].0);
                        } else {
                            crate::text::lemma_lex_trans(t[b - 1].0, x.0, t[j].0);
                        }
                    }
                } else if b == j {
                    assert(r[a] == t[a]);
                } else {
                    let ia = if a < j { a } else { a - 1 };
                    let ib = if b < j { b } else { b - 1 };
                    assert(r[a] == t[ia]);
                    assert(r[b] == t[ib]);
                }
            }
            assert forall|y: Seq<char>| (exists|i: int| 0 <= i < r.len() && (#[trigger] r[i]).0 == y) <==> has_listed_version(vs, y) by {
                if exists|i: int| 0 <= i < r.len() && (#[trigger] r[i]).0 == y {
                    let i = choose|i: int| 0 <= i < r.len() && (#[trigger] r[i]).0 == y;
                    if i < j {
                        assert(r[i] == t[i]);
                    } else if i > j {
                        assert(r[i] == t[i - 1]);
                    }
                }
                if exists|i: int| 0 <= i < t.len() && (#[trigger] t[i]).0 == y {
                    let i = choose|i: int| 0 <= i < t.len() && (#[trigger] t[i]).0 == y;
                    if i < j {
                        assert(r[i] == t[i]);
                    } else {
                        assert(r[i + 1] == t[i]);
                    }
                }
                if y == v.name@ {
                    assert(r[j].0 == y);
                }
            }
        }
    }
}

/// The versions of a namespace with their route counts, sorted by name.
pub fn namespace_versions(versions: &[VersionListing]) -> (r: Vec<VersionRecord>)
    ensures
        r@.map_values(|v: VersionRecord| version_view(v)) == version_rows(versions@),
{
    let mut out: Vec<VersionRecord> = Vec::new();
    let mut i: usize = 0;
    while i < versions.len()
        invariant
            i <= versions@.len(),
            out@.map_values(|v: VersionRecord| version_view(v)) == version_rows(
                versions@.take(i as int),
            ),
        decreases versions@.len() - i,
    {
        assert(versions@.take(i + 1).drop_last() =~= versions@.take(i as int));
        assert(versions@.take(i + 1).last() == versions@[i as int]);
        if versions[i].has_metadata {
            let rec = VersionRecord {
                version: owned(versions[i].name.as_str()),
                route_count: count_routes(versions[i].markdown_files.as_slice()),
            };
            let ghost cur = out@.map_values(|v: VersionRecord| version_view(v));
            let xc = chars_of(rec.version.as_str());
            let mut j: usize = 0;
            let mut stop = false;
            while !stop && j < out.len()
                invariant
                    j <= out@.len(),
                    xc@ == rec.version@,
                    cur == out@.map_values(|v: VersionRecord| version_view(v)),
                    forall|k: int| 0 <= k < j ==> !lex_lt(rec.version@, #[trigger] cur[k].0),
                    stop ==> j < out@.len() && lex_lt(rec.version@, cur[j as int].0),
                decreases out@.len() - j, if stop { 0int } else { 1int },
            {
                let vc = chars_of(out[j].version.as_str());
                assert(cur[j as int].0 == out@[j as int].version@);
                if lex_lt_chars(xc.as_slice(), vc.as_slice()) {
                    stop = true;
                } else {
                    j = j + 1;
                }
            }
            proof {
                lemma_insert_version_at(cur, version_view(rec), j as int);
            }
            let ghost before = out@;
            out.insert(j, rec);
            assert(out@.map_values(|v: VersionRecord| version_view(v)) =~= cur.insert(
                j as int,
                version_view(rec),
            ));
        }
        i = i + 1;
    }
    assert(versions@.take(versions@.len() as int) =~= versions@);
    out
}

/// A namespace found in a source, with its versions as listed.
#[derive(Debug, Clone)]
pub struct NamespaceFound {
    pub source: String,
    pub namespace: String,
    pub versions: Vec<VersionRecord>,
}

/// Whether a namespace found is listed: it passes the name filter and has
/// a version.
pub open spec fn listed(f: NamespaceFound, filter: Option<Seq<char>>) -> bool {
    &&& f.versions@.len() > 0
    &&& match filter {
        Some(n) => f.namespace@ == n,
        None => true,
    }
}

/// The inventory records from what was found, in the order found (sources
/// in priority order, namespaces sorted within each): the namespaces that
/// pass the name filter and have a version.
pub fn scan_local_inventory(namespace_filter: Option<&str>, found: Vec<NamespaceFound>) -> (r: Vec<
    NamespaceRecord,
>)
    ensures
        r@.len() == found@.filter(
            |f: NamespaceFound| listed(f, crate::vault::resolver::opt_str(namespace_filter)),
        ).len(),
        forall|k: int|
            0 <= k < r@.len() ==> {
                let f = found@.filter(
                    |f: NamespaceFound| listed(f, crate::vault::resolver::opt_str(namespace_filter)),
                )[k];
                &&& #[trigger] r@[k].source == f.source
                &&& r@[k].namespace == f.namespace
                &&& r@[k].versions == f.versions
            },
{
    let ghost flt = crate::vault::resolver::opt_str(namespace_filter);
    let ghost all = found@;
    let mut rest = found;
    let mut out: Vec<NamespaceRecord> = Vec::new();
    let ghost mut kept: Seq<NamespaceFound> = Seq::empty();
    let n = rest.len();
    let mut i: usize = 0;
    while i < n
        invariant
            n == all.len(),
            i <= n,
            flt == crate::vault::resolver::opt_str(namespace_filter),
            rest@ == all.skip(i as int),
            kept == all.take(i as int).filter(|f: NamespaceFound| listed(f, flt)),
            out@.len() == kept.len(),
            forall|k: int|
                0 <= k < out@.len() ==> {
                    &&& #[trigger] out@[k].source == kept[k].source
                    &&& out@[k].namespace == kept[k].namespace
                    &&& out@[k].versions == kept[k].versions
                },
        decreases n - i,
    {
        assert(all.take(i + 1).drop_last() =~= all.take(i as int));
        let f = rest.remove(0);
        assert(f == all[i as int]);
        assert(rest@ =~= all.skip(i + 1));
        proof {
            reveal(Seq::filter);
        }
        let mut pass = f.versions.len() > 0;
        if let Some(name) = namespace_filter {
            if !str_eq(f.namespace.as_str(), name) {
                pass = false;
            }
        }
        assert(pass == listed(f, flt));
        if pass {
            let ghost fv = f;
            let ghost prev_kept = kept;
            proof {
                kept = kept.push(f);
            }
            let ghost prev = out@;
            out.push(NamespaceRecord { source: f.source, namespace: f.namespace, versions: f.versions });
            assert forall|k: int| 0 <= k < out@.len() implies {
                &&& #[trigger] out@[k].source == kept[k].source
                &&& out@[k].namespace == kept[k].namespace
                &&& out@[k].versions == kept[k].versions
            } by {
                assert(prev.len() == prev_kept.len());
                if k < prev.len() {
                    assert(out@[k] == prev[k]);
                    assert(kept[k] == prev_kept[k]);
                    assert(prev[k].source == prev_kept[k].source);
                } else {
                    assert(k == prev.len());
                    assert(kept[k] == fv);
                    assert(out@[k].source == fv.source);
                    assert(out@[k].namespace == fv.namespace);
                    assert(out@[k].versions == fv.versions);
                }
            }
        }
        i = i + 1;
    }
    assert(all.take(n as int) =~= all);
    out
}

// ---------------------------------------------------------------------------
// Routes of a namespace version
// ---------------------------------------------------------------------------

/// One method of a route path with its summary.
#[derive(Debug, Clone)]
pub struct RouteEntry {
    pub method: String,
    pub summary: String,
}

/// The methods documented under one route path.
#[derive(Debug, Clone)]
pub struct RouteGroup {
    pub path: String,
    pub routes: Vec<RouteEntry>,
}

/// An entry as (method, summary).
pub open spec fn entry_view(e: RouteEntry) -> (Seq<char>, Seq<char>) {
    (e.method@, e.summary@)
}

/// The entries of a group as (method, summary) pairs.
pub open spec fn entry_views(v: Seq<RouteEntry>) -> Seq<(Seq<char>, Seq<char>)> {
    v.map_values(|e: RouteEntry| entry_view(e))
}

/// A group as its path and its entries.
pub open spec fn group_view(g: RouteGroup) -> (Seq<char>, Seq<(Seq<char>, Seq<char>)>) {
    (g.path@, entry_views(g.routes@))
}

/// The groups as paths and entries.
pub open spec fn group_views(v: Seq<RouteGroup>) -> Seq<(Seq<char>, Seq<(Seq<char>, Seq<char>)>)> {
    v.map_values(|g: RouteGroup| group_view(g))
}

/// Whether entry `a` is listed before `b`: by method rank, then by method
/// name.
pub open spec fn entry_before(a: (Seq<char>, Seq<char>), b: (Seq<char>, Seq<char>)) -> bool {
    method_rank(a.0) < method_rank(b.0) || (method_rank(a.0) == method_rank(b.0) && lex_lt(
        a.0,
        b.0,
    ))
}

/// `es` with `e` placed before the first entry it is listed before.
pub open spec fn insert_entry(es: Seq<(Seq<char>, Seq<char>)>, e: (Seq<char>, Seq<char>)) -> Seq<
    (Seq<char>, Seq<char>),
>
    decreases es.len(),
{
    if es.len() == 0 {
        seq![e]
    } else if entry_before(e, es[0]) {
        seq![e] + es
    } else {
        seq![es[0]] + insert_entry(es.drop_first(), e)
    }
}

/// `gs` with entry `e` added under path `p`: into the group of `p` when it
/// comes before any group whose path `p` sorts before, else as a new group
/// at that place.
pub open spec fn add_route(
    gs: Seq<(Seq<char>, Seq<(Seq<char>, Seq<char>)>)>,
    p: Seq<char>,
    e: (Seq<char>, Seq<char>),
) -> Seq<(Seq<char>, Seq<(Seq<char>, Seq<char>)>)>
    decreases gs.len(),
{
    if gs.len() == 0 {
        seq![(p, seq![e])]
    } else if gs[0].0 == p {
        seq![(p, insert_entry(gs[0].1, e))] + gs.drop_first()
    } else if lex_lt(p, gs[0].0) {
        seq![(p, seq![e])] + gs
    } else {
        seq![gs[0]] + add_route(gs.drop_first(), p, e)
    }
}

/// The route a markdown file documents, from its path relative to the
/// version directory: its directory and its method (the upper-cased file
/// stem); none for a file that is not a route file (see [`is_route_file`]).
pub open spec fn route_of(rel: Seq<char>) -> Option<(Seq<char>, Seq<char>)> {
    if !is_route_file(rel) {
        None
    } else {
        Some((crate::paths::parent_dir(rel), route_method(rel)))
    }
}

/// The routes documented by the files, as (relative path, summary) pairs,
/// grouped by path in increasing order, each group's methods in listing
/// order.
pub open spec fn route_groups(files: Seq<(Seq<char>, Seq<char>)>) -> Seq<
    (Seq<char>, Seq<(Seq<char>, Seq<char>)>),
>
    decreases files.len(),
{
    if files.len() == 0 {
        Seq::empty()
    } else {
        let gs = route_groups(files.drop_last());
        let f = files.last();
        match route_of(f.0) {
            Some((p, m)) => add_route(gs, p, (m, f.1)),
            None => gs,
        }
    }
}

/// The files as (relative path, summary) pairs.
pub open spec fn file_views(v: Seq<(String, String)>) -> Seq<(Seq<char>, Seq<char>)> {
    v.map_values(|f: (String, String)| (f.0@, f.1@))
}

proof fn lemma_insert_entry_at(es: Seq<(Seq<char>, Seq<char>)>, e: (Seq<char>, Seq<char>), j: int)
    requires
        0 <= j <= es.len(),
        forall|i: int| 0 <= i < j ==> !entry_before(e, #[trigger] es[i]),
        j < es.len() ==> entry_before(e, es[j]),
    ensures
        insert_entry(es, e) == es.insert(j, e),
    decreases j,
{
    if j == 0 {
        if es.len() == 0 {
            assert(seq![e] =~= es.insert(0, e));
        } else {
            assert(seq![e] + es =~= es.insert(0, e));
        }
    } else {
        assert forall|i: int| 0 <= i < j - 1 implies !entry_before(e, #[trigger] es.drop_first()[i]) by {
            assert(es.drop_first()[i] == es[i + 1]);
        }
        lemma_insert_entry_at(es.drop_first(), e, j - 1);
        assert(seq![es[0]] + es.drop_first().insert(j - 1, e) =~= es.insert(j, e));
    }
}

proof fn lemma_add_route_skip(
    gs: Seq<(Seq<char>, Seq<(Seq<char>, Seq<char>)>)>,
    p: Seq<char>,
    e: (Seq<char>, Seq<char>),
    j: int,
)
    requires
        0 <= j <= gs.len(),
        forall|i: int| 0 <= i < j ==> #[trigger] gs[i].0 != p && !lex_lt(p, gs[i].0),
    ensures
        add_route(gs, p, e) == gs.take(j) + add_route(gs.skip(j), p, e),
    decreases j,
{
    if j == 0 {
        assert(gs.skip(0) =~= gs);
        assert(gs.take(0) + add_route(gs.skip(0), p, e) =~= add_route(gs, p, e));
    } else {
        assert forall|i: int| 0 <= i < j - 1 implies #[trigger] gs.drop_first()[i].0 != p
            && !lex_lt(p, gs.drop_first()[i].0) by {
            assert(gs.drop_first()[i] == gs[i + 1]);
        }
        lemma_add_route_skip(gs.drop_first(), p, e, j - 1);
        assert(gs.drop_first().skip(j - 1) =~= gs.skip(j));
        assert(seq![gs[0]] + gs.drop_first().take(j - 1) =~= gs.take(j));
    }
}

/// A group as (path, entries as (method, summary)).
pub type GroupRow = (Seq<char>, Seq<(Seq<char>, Seq<char>)>);

/// No entry is listed before one that precedes it.
pub open spec fn entries_in_order(es: Seq<(Seq<char>, Seq<char>)>) -> bool {
    forall|a: int, b: int| 0 <= a < b < es.len() ==> !entry_before(#[trigger] es[b], #[trigger] es[a])
}

/// Paths strictly increase, and each group is non-empty with its entries
/// in listing order.
pub open spec fn groups_in_order(gs: Seq<GroupRow>) -> bool {
    &&& forall|a: int, b: int| 0 <= a < b < gs.len() ==> lex_lt(#[trigger] gs[a].0, #[trigger] gs[b].0)
    &&& forall|i: int| 0 <= i < gs.len() ==> (#[trigger] gs[i]).1.len() > 0 && entries_in_order(gs[i].1)
}

proof fn lemma_entry_before_asym(a: (Seq<char>, Seq<char>), b: (Seq<char>, Seq<char>))
    ensures
        entry_before(a, b) ==> !entry_before(b, a),
{
    crate::text::lemma_lex_asym(a.0, b.0);
}

proof fn lemma_entry_before_trans(
    a: (Seq<char>, Seq<char>),
    b: (Seq<char>, Seq<char>),
    c: (Seq<char>, Seq<char>),
)
    requires
        entry_before(a, b),
        entry_before(b, c),
    ensures
        entry_before(a, c),
{
    if method_rank(a.0) == method_rank(b.0) && method_rank(b.0) == method_rank(c.0) {
        crate::text::lemma_lex_trans(a.0, b.0, c.0);
    }
}

proof fn lemma_insert_entry_is_insert(es: Seq<(Seq<char>, Seq<char>)>, e: (Seq<char>, Seq<char>)) -> (j: int)
    ensures
        0 <= j <= es.len(),
        insert_entry(es, e) == es.insert(j, e),
        forall|i: int| 0 <= i < j ==> !entry_before(e, #[trigger] es[i]),
        j < es.len() ==> entry_before(e, es[j]),
    decreases es.len(),
{
    if es.len() == 0 {
        assert(seq![e] =~= es.insert(0, e));
        0
    } else if entry_before(e, es[0]) {
        assert(seq![e] + es =~= es.insert(0, e));
        0
    } else {
        let t = es.drop_first();
        let j = lemma_insert_entry_is_insert(t, e);
        assert(seq![es[0]] + t.insert(j, e) =~= es.insert(j + 1, e));
        assert forall|i: int| 0 <= i < j + 1 implies !entry_before(e, #[trigger] es[i]) by {
            if i > 0 {
                assert(es[i] == t[i - 1]);
            }
        }
        j + 1
    }
}

proof fn lemma_insert_entry_in_order(es: Seq<(Seq<char>, Seq<char>)>, e: (Seq<char>, Seq<char>))
    requires
        entries_in_order(es),
    ensures
        entries_in_order(insert_entry(es, e)),
        insert_entry(es, e).len() > 0,
{
    let j = lemma_insert_entry_is_insert(es, e);
    let r = es.insert(j, e);
    assert forall|a: int, b: int| 0 <= a < b < r.len() implies !entry_before(#[trigger] r[b], #[trigger] r[a]) by {
        if a == j {
            assert(r[b] == es[b - 1]);
            if entry_before(es[b - 1], e) {
                if b - 1 == j {
                    lemma_entry_before_asym(e, es[j]);
                } else {
                    lemma_entry_before_trans(es[b - 1], e, es[j]);
                }
            }
        } else if b == j {
            assert(r[a] == es[a]);
        } else {
            let ia = if a < j { a } else { a - 1 };
            let ib = if b < j { b } else { b - 1 };
            assert(r[a] == es[ia]);
            assert(r[b] == es[ib]);
        }
    }
}

proof fn lemma_add_route_in_order(gs: Seq<GroupRow>, p: Seq<char>, e: (Seq<char>, Seq<char>))
    requires
        groups_in_order(gs),
    ensures
        groups_in_order(add_route(gs, p, e)),
        forall|x: Seq<char>|
            (forall|i: int| 0 <= i < gs.len() ==> lex_lt(x, #[trigger] gs[i].0)) && lex_lt(x, p) ==> (
            forall|i: int| 0 <= i < add_route(gs, p, e).len() ==> lex_lt(x, #[trigger] add_route(gs, p, e)[i].0)),
    decreases gs.len(),
{
    let r = add_route(gs, p, e);
    if gs.len() == 0 {
        assert(seq![e].len() == 1);
        assert(entries_in_order(seq![e]));
    } else if gs[0].0 == p {
        lemma_insert_entry_in_order(gs[0].1, e);
        assert forall|i: int| 0 <= i < r.len() implies (#[trigger] r[i]).0 == gs[i].0 && (i > 0 ==> r[i] == gs[i]) by {}
        assert forall|x: Seq<char>|
            (forall|i: int| 0 <= i < gs.len() ==> lex_lt(x, #[trigger] gs[i].0)) && lex_lt(x, p) implies (
            forall|i: int| 0 <= i < r.len() ==> lex_lt(x, #[trigger] r[i].0)) by {
            assert forall|i: int| 0 <= i < r.len() implies lex_lt(x, #[trigger] r[i].0) by {
                assert(r[i].0 == gs[i].0);
            }
        }
    } else if lex_lt(p, gs[0].0) {
        assert(entries_in_order(seq![e]));
        assert forall|a: int, b: int| 0 <= a < b < r.len() implies lex_lt(#[trigger] r[a].0, #[trigger] r[b].0) by {
            if a == 0 {
                assert(r[b] == gs[b - 1]);
                if b - 1 > 0 {
                    crate::text::lemma_lex_trans(p, gs[0].0, gs[b - 1].0);
                }
            } else {
                assert(r[a] == gs[a - 1]);
                assert(r[b] == gs[b - 1]);
            }
        }
        assert forall|i: int| 0 <= i < r.len() implies (#[trigger] r[i]).1.len() > 0 && entries_in_order(r[i].1) by {
            if i > 0 {
                assert(r[i] == gs[i - 1]);
            }
        }
        assert forall|x: Seq<char>|
            (forall|i: int| 0 <= i < gs.len() ==> lex_lt(x, #[trigger] gs[i].0)) && lex_lt(x, p) implies (
            forall|i: int| 0 <= i < r.len() ==> lex_lt(x, #[trigger] r[i].0)) by {
            assert forall|i: int| 0 <= i < r.len() implies lex_lt(x, #[trigger] r[i].0) by {
                if i > 0 {
                    assert(r[i] == gs[i - 1]);
                }
            }
        }
    } else {
        let t = gs.drop_first();
        let g0 = gs[0];
        assert forall|a: int, b: int| 0 <= a < b < t.len() implies lex_lt(#[trigger] t[a].0, #[trigger] t[b].0) by {
            assert(t[a] == gs[a + 1]);
            assert(t[b] == gs[b + 1]);
        }
        assert forall|i: int| 0 <= i < t.len() implies (#[trigger] t[i]).1.len() > 0 && entries_in_order(t[i].1) by {
            assert(t[i] == gs[i + 1]);
        }
        lemma_add_route_in_order(t, p, e);
        let rt = add_route(t, p, e);
        assert(r == seq![g0] + rt);
        crate::text::lemma_lex_total(p, g0.0);
        assert(lex_lt(g0.0, p));
        assert forall|i: int| 0 <= i < t.len() implies lex_lt(g0.0, #[trigger] t[i].0) by {
            assert(t[i] == gs[i + 1]);
        }
        assert forall|a: int, b: int| 0 <= a < b < r.len() implies lex_lt(#[trigger] r[a].0, #[trigger] r[b].0) by {
            if a == 0 {
                assert(r[b] == rt[b - 1]);
                assert(lex_lt(g0.0, rt[b - 1].0));
            } else {
                assert(r[a] == rt[a - 1]);
                assert(r[b] == rt[b - 1]);
            }
        }
        assert forall|i: int| 0 <= i < r.len() implies (#[trigger] r[i]).1.len() > 0 && entries_in_order(r[i].1) by {
            if i > 0 {
                assert(r[i] == rt[i - 1]);
            }
        }
        assert forall|x: Seq<char>|
            (forall|i: int| 0 <= i < gs.len() ==> lex_lt(x, #[trigger] gs[i].0)) && lex_lt(x, p) implies (
            forall|i: int| 0 <= i < r.len() ==> lex_lt(x, #[trigger] r[i].0)) by {
            assert forall|i: int| 0 <= i < t.len() implies lex_lt(x, #[trigger] t[i].0) by {
                assert(t[i] == gs[i + 1]);
            }
            assert(lex_lt(x, gs[0].0));
            assert forall|i: int| 0 <= i < r.len() implies lex_lt(x, #[trigger] r[i].0) by {
                if i > 0 {
                    assert(r[i] == rt[i - 1]);
                }
            }
        }
    }
}

/// `ls <namespace>/<version>` lists each route path once, paths in
/// increasing order, every path with at least one method and its methods
/// in listing order (by rank, then by name).
pub proof fn law_route_groups_in_order(files: Seq<(Seq<char>, Seq<char>)>)
    ensures
        groups_in_order(route_groups(files)),
    decreases files.len(),
{
    if files.len() > 0 {
        law_route_groups_in_order(files.drop_last());
        match route_of(files.last().0) {
            Some((p, m)) => {
                lemma_add_route_in_order(route_groups(files.drop_last()), p, (m, files.last().1));
            },
            None => {},
        }
    }
}

/// An entry inserted among others is there afterwards.
proof fn lemma_insert_entry_has(es: Seq<(Seq<char>, Seq<char>)>, e: (Seq<char>, Seq<char>))
    ensures
        insert_entry(es, e).contains(e),
    decreases es.len(),
{
    if es.len() == 0 {
        assert(seq![e][0] == e);
    } else if entry_before(e, es[0]) {
        assert((seq![e] + es)[0] == e);
    } else {
        lemma_insert_entry_has(es.drop_first(), e);
        let rest = insert_entry(es.drop_first(), e);
        let k = choose|k: int| 0 <= k < rest.len() && rest[k] == e;
        assert((seq![es[0]] + rest)[k + 1] == e);
    }
}

/// A route added to the groups is listed in the group of its path.
proof fn lemma_add_route_has(
    gs: Seq<(Seq<char>, Seq<(Seq<char>, Seq<char>)>)>,
    p: Seq<char>,
    e: (Seq<char>, Seq<char>),
)
    ensures
        exists|j: int|
            0 <= j < add_route(gs, p, e).len() && (#[trigger] add_route(gs, p, e)[j]).0 == p
                && add_route(gs, p, e)[j].1.contains(e),
    decreases gs.len(),
{
    let r = add_route(gs, p, e);
    if gs.len() == 0 {
        assert(r[0] == (p, seq![e]));
        assert(seq![e][0] == e);
    } else if gs[0].0 == p {
        lemma_insert_entry_has(gs[0].1, e);
        assert(r[0] == (p, insert_entry(gs[0].1, e)));
    } else if lex_lt(p, gs[0].0) {
        assert(r[0] == (p, seq![e]));
        assert(seq![e][0] == e);
    } else {
        lemma_add_route_has(gs.drop_first(), p, e);
        let rest = add_route(gs.drop_first(), p, e);
        let j = choose|j: int| 0 <= j < rest.len() && (#[trigger] rest[j]).0 == p && rest[j].1.contains(e);
        assert(r[j + 1] == rest[j]);
    }
}

/// A file `<dir>/<METHOD>.md`, for each of the methods GET, POST, PUT,
/// PATCH, DELETE, HEAD, OPTIONS and TRACE, outside `_components/` and the
/// `_types` directories, documents the route `<dir>` with that method: it
/// is counted among the routes, and listed in the group of `<dir>` with its
/// summary.
pub proof fn law_method_files_are_routes(
    dir: Seq<char>,
    m: Seq<char>,
    rels: Seq<Seq<char>>,
    files: Seq<(Seq<char>, Seq<char>)>,
    summary: Seq<char>,
)
    requires
        m == "GET"@
            || m == "POST"@
            || m == "PUT"@
            || m == "PATCH"@
            || m == "DELETE"@
            || m == "HEAD"@
            || m == "OPTIONS"@
            || m == "TRACE"@,
        !"_components/"@.is_prefix_of(dir + "/"@ + m + ".md"@),
        !in_types_dir(dir + "/"@ + m + ".md"@),
    ensures
        is_route_file(dir + "/"@ + m + ".md"@),
        route_of(dir + "/"@ + m + ".md"@) == Some((dir, m)),
        route_file_count(rels.push(dir + "/"@ + m + ".md"@)) == route_file_count(rels) + 1,
        exists|j: int|
            0 <= j < route_groups(files.push((dir + "/"@ + m + ".md"@, summary))).len()
                && (#[trigger] route_groups(files.push((dir + "/"@ + m + ".md"@, summary)))[j]).0
                == dir && route_groups(files.push((dir + "/"@ + m + ".md"@, summary)))[j].1.contains(
                (m, summary),
            ),
{
    reveal_strlit("/");
    reveal_strlit(".md");
    reveal_strlit("md");
    reveal_strlit("..");
    reveal_strlit("GET");
    reveal_strlit("POST");
    reveal_strlit("PUT");
    reveal_strlit("PATCH");
    reveal_strlit("DELETE");
    reveal_strlit("HEAD");
    reveal_strlit("OPTIONS");
    reveal_strlit("TRACE");
    let rel = dir + "/"@ + m + ".md"@;
    let name = m + ".md"@;
    assert(forall|i: int| 0 <= i < m.len() ==> 'A' <= #[trigger] m[i] && m[i] <= 'Z');
    assert(!name.contains('/')) by {
        if name.contains('/') {
            let i = choose|i: int| 0 <= i < name.len() && name[i] == '/';
            if i < m.len() {
                assert(m[i] == '/');
            }
        }
    }
    assert(rel =~= dir + seq!['/'] + name);
    crate::paths::lemma_last_index_after(dir, name, '/');
    assert(rel.skip(dir.len() as int + 1) =~= name);
    assert(rel.take(dir.len() as int) =~= dir);
    assert(crate::paths::file_name(rel) == name);
    assert(crate::paths::parent_dir(rel) == dir);
    assert(name =~= m + seq!['.'] + "md"@);
    assert(!"md"@.contains('.')) by {
        if "md"@.contains('.') {
            let i = choose|i: int| 0 <= i < "md"@.len() && "md"@[i] == '.';
        }
    }
    crate::paths::lemma_last_index_after(m, "md"@, '.');
    assert(name != ".."@) by {
        assert(name.len() != ".."@.len());
    }
    assert(name.skip(m.len() as int + 1) =~= "md"@);
    assert(name.take(m.len() as int) =~= m);
    assert(crate::paths::file_stem(name) == m);
    assert(crate::paths::extension(name) == Some("md"@));
    assert(ascii_upper(m) =~= m);
    assert(route_method(rel) == m);
    assert(rels.push(rel).drop_last() =~= rels);
    assert(files.push((rel, summary)).drop_last() =~= files);
    let gs = route_groups(files.push((rel, summary)));
    assert(files.push((rel, summary)).last() == (rel, summary));
    assert(gs == add_route(route_groups(files), dir, (m, summary)));
    lemma_add_route_has(route_groups(files), dir, (m, summary));
    let j = choose|j: int| 0 <= j < gs.len() && (#[trigger] gs[j]).0 == dir && gs[j].1.contains((m, summary));
    assert(gs[j].0 == dir);
}

/// Inserts an entry at its listing place.
fn insert_entry_vec(routes: &mut Vec<RouteEntry>, e: RouteEntry)
    ensures
        entry_views(final(routes)@) == insert_entry(entry_views(old(routes)@), entry_view(e)),
{
    let ghost cur = entry_views(routes@);
    let rank = method_order_key(e.method.as_str());
    let mc = chars_of(e.method.as_str());
    let mut j: usize = 0;
    let mut stop = false;
    while !stop && j < routes.len()
        invariant
            j <= routes@.len(),
            cur == entry_views(routes@),
            mc@ == e.method@,
            rank == method_rank(e.method@),
            forall|k: int| 0 <= k < j ==> !entry_before(entry_view(e), #[trigger] cur[k]),
            stop ==> j < routes@.len() && entry_before(entry_view(e), cur[j as int]),
        decreases routes@.len() - j, if stop { 0int } else { 1int },
    {
        let other = method_order_key(routes[j].method.as_str());
        let oc = chars_of(routes[j].method.as_str());
        assert(cur[j as int] == entry_view(routes@[j as int]));
        if rank < other || (rank == other && lex_lt_chars(mc.as_slice(), oc.as_slice())) {
            stop = true;
        } else {
            j = j + 1;
        }
    }
    proof {
        lemma_insert_entry_at(cur, entry_view(e), j as int);
    }
    let ghost ev = entry_view(e);
    routes.insert(j, e);
    assert(entry_views(routes@) =~= cur.insert(j as int, ev));
}

/// Adds an entry under a path.
fn add_route_vec(groups: &mut Vec<RouteGroup>, path: String, e: RouteEntry)
    ensures
        group_views(final(groups)@) == add_route(group_views(old(groups)@), path@, entry_view(e)),
{
    let ghost gs = group_views(groups@);
    let pc = chars_of(path.as_str());
    let mut j: usize = 0;
    while j < groups.len()
        invariant
            j <= groups@.len(),
            gs == group_views(groups@),
            gs == group_views(old(groups)@),
            pc@ == path@,
            forall|i: int| 0 <= i < j ==> #[trigger] gs[i].0 != path@ && !lex_lt(path@, gs[i].0),
        decreases groups@.len() - j,
    {
        assert(gs[j as int] == group_view(groups@[j as int]));
        let gc = chars_of(groups[j].path.as_str());
        proof {
            lemma_add_route_skip(gs, path@, entry_view(e), j as int);
            assert(gs.skip(j as int)[0] == gs[j as int]);
            assert(gs.skip(j as int).drop_first() =~= gs.skip(j + 1));
        }
        if crate::text::chars_eq(gc.as_slice(), pc.as_slice()) {
            let mut g = groups.remove(j);
            let ghost ev = entry_view(e);
            let ghost old_routes = entry_views(g.routes@);
            insert_entry_vec(&mut g.routes, e);
            let ghost gv = group_view(g);
            groups.insert(j, g);
            assert(gv == (path@, insert_entry(old_routes, ev)));
            assert(group_views(groups@) =~= gs.take(j as int) + add_route(gs.skip(j as int), path@, ev));
            return;
        }
        if lex_lt_chars(pc.as_slice(), gc.as_slice()) {
            let ghost ev = entry_view(e);
            let mut routes: Vec<RouteEntry> = Vec::new();
            routes.push(e);
            let g = RouteGroup { path, routes };
            assert(entry_views(g.routes@) =~= seq![ev]);
            groups.insert(j, g);
            assert(group_views(groups@) =~= gs.take(j as int) + add_route(gs.skip(j as int), g.path@, ev));
            return;
        }
        j = j + 1;
    }
    proof {
        lemma_add_route_skip(gs, path@, entry_view(e), j as int);
    }
    let ghost ev = entry_view(e);
    let mut routes: Vec<RouteEntry> = Vec::new();
    routes.push(e);
    let g = RouteGroup { path, routes };
    assert(entry_views(g.routes@) =~= seq![ev]);
    groups.push(g);
    assert(group_views(groups@) =~= gs.take(j as int) + add_route(gs.skip(j as int), g.path@, ev));
}

/// Groups the routes of a version directory from its markdown files, given
/// as (path relative to the version directory, summary) pairs.
pub fn collect_route_groups(files: &[(String, String)]) -> (r: Vec<RouteGroup>)
    ensures
        group_views(r@) == route_groups(file_views(files@)),
{
    let mut groups: Vec<RouteGroup> = Vec::new();
    let mut i: usize = 0;
    while i < files.len()
        invariant
            i <= files@.len(),
            group_views(groups@) == route_groups(file_views(files@.take(i as int))),
        decreases files@.len() - i,
    {
        assert(file_views(files@.take(i + 1)).drop_last() =~= file_views(files@.take(i as int)));
        assert(file_views(files@.take(i + 1)).last() == (files@[i as int].0@, files@[i as int].1@));
        let rel = chars_of(files[i].0.as_str());
        if let Some(method) = route_file_method(rel.as_slice()) {
            let dir = crate::paths::parent_dir_chars(rel.as_slice());
            let e = RouteEntry {
                method: string_of(method.as_slice()),
                summary: owned(files[i].1.as_str()),
            };
            add_route_vec(&mut groups, string_of(dir.as_slice()), e);
        }
        i = i + 1;
    }
    assert(files@.take(files@.len() as int) =~= files@);
    groups
}

/// The routes of one namespace version in one source.
#[derive(Debug, Clone)]
pub struct NamespaceVersionDetail {
    pub source: String,
    pub namespace: String,
    pub version: String,
    pub routes: Vec<RouteGroup>,
}

/// Whether a route path lies under a path prefix: it is the prefix or
/// starts with the prefix and a `/`.
pub open spec fn under_prefix(path: Seq<char>, prefix: Seq<char>) -> bool {
    path == prefix || (prefix + "/"@).is_prefix_of(path)
}

/// The route groups shown for an optional path prefix.
pub open spec fn shown_groups(
    gs: Seq<(Seq<char>, Seq<(Seq<char>, Seq<char>)>)>,
    prefix: Option<Seq<char>>,
) -> Seq<(Seq<char>, Seq<(Seq<char>, Seq<char>)>)> {
    match prefix {
        Some(p) => gs.filter(|g: (Seq<char>, Seq<(Seq<char>, Seq<char>)>)| under_prefix(g.0, p)),
        None => gs,
    }
}

/// The message when a namespace version shows no route.
pub open spec fn no_routes_message(
    namespace: Seq<char>,
    version: Seq<char>,
    prefix: Option<Seq<char>>,
    source: Seq<char>,
) -> Seq<char> {
    match prefix {
        Some(p) => "No route markdown files found for `"@ + namespace + "/"@ + version + "/"@ + p
            + "` in source `"@ + source + "`"@,
        None => "No route markdown files found for `"@ + namespace + "/"@ + version
            + "` in source `"@ + source + "`"@,
    }
}

/// Keeps the groups under a path prefix.
fn retain_under_prefix(groups: Vec<RouteGroup>, prefix: &str) -> (r: Vec<RouteGroup>)
    ensures
        group_views(r@) == group_views(groups@).filter(
            |g: (Seq<char>, Seq<(Seq<char>, Seq<char>)>)| under_prefix(g.0, prefix@),
        ),
{
    let ghost all = group_views(groups@);
    let ghost n0 = groups@.len();
    let mut rest = groups;
    let mut out: Vec<RouteGroup> = Vec::new();
    let mut with_slash = chars_of(prefix);
    with_slash.push('/');
    proof {
        reveal_strlit("/");
    }
    assert(with_slash@ =~= prefix@ + "/"@);
    let pc = chars_of(prefix);
    let mut i: usize = 0;
    let n = rest.len();
    while i < n
        invariant
            n == n0,
            all.len() == n0,
            i <= n,
            group_views(rest@) == all.skip(i as int),
            with_slash@ == prefix@ + "/"@,
            pc@ == prefix@,
            group_views(out@) == all.take(i as int).filter(
                |g: (Seq<char>, Seq<(Seq<char>, Seq<char>)>)| under_prefix(g.0, prefix@),
            ),
        decreases n - i,
    {
        proof {
            reveal(Seq::filter);
        }
        assert(all.take(i + 1).drop_last() =~= all.take(i as int));
        assert(group_views(rest@).len() == rest@.len());
        assert(group_views(rest@)[0] == all[i as int]);
        let ghost before = rest@;
        let g = rest.remove(0);
        assert(rest@ =~= before.drop_first());
        assert(group_views(rest@) =~= group_views(before).drop_first());
        assert(group_views(rest@) =~= all.skip(i + 1));
        let gc = chars_of(g.path.as_str());
        if crate::text::chars_eq(gc.as_slice(), pc.as_slice()) || crate::text::starts_with_chars(
            gc.as_slice(),
            with_slash.as_slice(),
        ) {
            let ghost prev = group_views(out@);
            let ghost gv = group_view(g);
            out.push(g);
            assert(group_views(out@) =~= prev.push(gv));
        }
        i = i + 1;
    }
    assert(all.take(n as int) =~= all);
    out
}

/// The routes of a namespace version found in `source`, from its markdown
/// files as (relative path, summary) pairs, limited to a path prefix when
/// one is given; a route-not-found error when none is left.
pub fn namespace_version_detail(
    namespace: &str,
    version: &str,
    path_prefix: Option<&str>,
    source: &str,
    files: &[(String, String)],
) -> (r: Result<NamespaceVersionDetail, ApixError>)
    ensures
        ({
            let shown = shown_groups(
                route_groups(file_views(files@)),
                crate::vault::resolver::opt_str(path_prefix),
            );
            if shown.len() == 0 {
                r matches Err(ApixError::RouteNotFound(m)) && m@ == no_routes_message(
                    namespace@,
                    version@,
                    crate::vault::resolver::opt_str(path_prefix),
                    source@,
                )
            } else {
                r matches Ok(d) && d.source@ == source@ && d.namespace@ == namespace@ && d.version@
                    == version@ && group_views(d.routes@) == shown
            }
        }),
{
    let all = collect_route_groups(files);
    let groups = match path_prefix {
        Some(p) => retain_under_prefix(all, p),
        None => all,
    };
    if groups.len() == 0 {
        let mut m: Vec<char> = Vec::new();
        extend_str(&mut m, "No route markdown files found for `");
        extend_str(&mut m, namespace);
        extend_str(&mut m, "/");
        extend_str(&mut m, version);
        if let Some(p) = path_prefix {
            extend_str(&mut m, "/");
            extend_str(&mut m, p);
        }
        extend_str(&mut m, "` in source `");
        extend_str(&mut m, source);
        extend_str(&mut m, "`");
        assert(m@ =~= no_routes_message(
            namespace@,
            version@,
            crate::vault::resolver::opt_str(path_prefix),
            source@,
        ));
        return Err(ApixError::RouteNotFound(string_of(m.as_slice())));
    }
    Ok(
        NamespaceVersionDetail {
            source: owned(source),
            namespace: owned(namespace),
            version: owned(version),
            routes: groups,
        },
    )
}

/// The route listing text of a namespace version: a heading line naming the
/// source, then each path and its methods with their summaries.
pub open spec fn detail_text(
    namespace: Seq<char>,
    version: Seq<char>,
    source: Seq<char>,
    gs: Seq<(Seq<char>, Seq<(Seq<char>, Seq<char>)>)>,
) -> Seq<char> {
    namespace + "/"@ + version + " (source: "@ + source + ")\n\n"@ + groups_text(gs)
}

/// The lines of the route groups.
pub open spec fn groups_text(gs: Seq<(Seq<char>, Seq<(Seq<char>, Seq<char>)>)>) -> Seq<char>
    decreases gs.len(),
{
    if gs.len() == 0 {
        Seq::empty()
    } else {
        let g = gs.last();
        groups_text(gs.drop_last()) + g.0 + "\n"@ + entries_text(g.1)
    }
}

/// The lines of the entries of one group.
pub open spec fn entries_text(es: Seq<(Seq<char>, Seq<char>)>) -> Seq<char>
    decreases es.len(),
{
    if es.len() == 0 {
        Seq::empty()
    } else {
        let e = es.last();
        entries_text(es.drop_last()) + "  "@ + e.0 + ": "@ + e.1 + "\n"@
    }
}

/// Whether no path, method or summary of the groups holds an escape
/// character.
pub open spec fn plain_groups(gs: Seq<(Seq<char>, Seq<(Seq<char>, Seq<char>)>)>) -> bool {
    forall|i: int|
        0 <= i < gs.len() ==> {
            &&& plain(#[trigger] gs[i].0)
            &&& plain_entries(gs[i].1)
        }
}

/// Whether no method or summary of the entries holds an escape character.
pub open spec fn plain_entries(es: Seq<(Seq<char>, Seq<char>)>) -> bool {
    forall|k: int| 0 <= k < es.len() ==> plain(#[trigger] es[k].0) && plain(es[k].1)
}

/// Appends a plain piece to a styled text.
proof fn lemma_push_plain(out: Seq<char>, p: Seq<char>)
    requires
        styled_form(out),
        plain(p),
    ensures
        styled_form(out + p),
        unstyled(out + p) == unstyled(out) + p,
{
    lemma_plain_unstyled(p);
    lemma_append_piece(out, p, p);
}

/// Appends a piece colored showed to a styled text.
proof fn lemma_push_styled(out: Seq<char>, r: Seq<char>, s: Seq<char>, code: Seq<char>)
    requires
        styled_form(out),
        plain(s),
        styled_as(r, s, code),
        code == bold_code() || code == green_underline_code(),
    ensures
        styled_form(out + r),
        unstyled(out + r) == unstyled(out) + s,
{
    lemma_styled_as(r, s, code);
    lemma_append_piece(out, r, s);
}

/// Renders the routes of a namespace version (see
/// [`namespace_version_detail`]); with colours off the text is exactly
/// [`detail_text`], and with colours on (for texts without escape
/// characters) it is [`detail_text`] once colored's styles of the
/// namespace, source, paths and methods are removed.
pub fn render_namespace_version_detail(
    namespace: &str,
    version: &str,
    path_prefix: Option<&str>,
    source: &str,
    files: &[(String, String)],
    colors_disabled: bool,
) -> (r: Result<String, ApixError>)
    ensures
        match namespace_version_detail_result(namespace@, version@, path_prefix, source@, files@) {
            Err(m) => r matches Err(ApixError::RouteNotFound(x)) && x@ == m,
            Ok(gs) => r is Ok && (colors_disabled ==> r->Ok_0@ == detail_text(
                namespace@,
                version@,
                source@,
                gs,
            )) && (plain(namespace@) && plain(version@) && plain(source@) && plain_groups(gs)
                ==> styled_form(r->Ok_0@) && unstyled(r->Ok_0@) == detail_text(
                namespace@,
                version@,
                source@,
                gs,
            )),
        },
{
    let detail = match namespace_version_detail(namespace, version, path_prefix, source, files) {
        Ok(d) => d,
        Err(e) => return Err(e),
    };
    let ghost gs = group_views(detail.routes@);
    let ghost guard = plain(namespace@) && plain(version@) && plain(source@) && plain_groups(gs);
    proof {
        reveal_strlit("/");
        reveal_strlit(" (source: ");
        reveal_strlit(")\n\n");
        reveal_strlit("\n");
        reveal_strlit("  ");
        reveal_strlit(": ");
    }
    let mut out: Vec<char> = Vec::new();
    let ns = crate::output::fmt_namespace(namespace, colors_disabled);
    let src = crate::output::fmt_source(detail.source.as_str(), colors_disabled);
    proof {
        if guard {
            assert(styled_form(out@) && unstyled(out@) == Seq::<char>::empty()) by {
                assert(out@ =~= Seq::<char>::empty());
            }
            lemma_push_styled(out@, ns@, namespace@, bold_code());
        }
    }
    extend_str(&mut out, ns.as_str());
    proof {
        if guard {
            lemma_push_plain(out@, "/"@);
        }
    }
    extend_str(&mut out, "/");
    proof {
        if guard {
            lemma_push_plain(out@, version@);
        }
    }
    extend_str(&mut out, version);
    proof {
        if guard {
            lemma_push_plain(out@, " (source: "@);
        }
    }
    extend_str(&mut out, " (source: ");
    proof {
        if guard {
            lemma_push_styled(out@, src@, source@, green_underline_code());
        }
    }
    extend_str(&mut out, src.as_str());
    proof {
        if guard {
            lemma_push_plain(out@, ")\n\n"@);
        }
    }
    extend_str(&mut out, ")\n\n");
    let ghost head = out@;
    let ghost uhead = namespace@ + "/"@ + version@ + " (source: "@ + source@ + ")\n\n"@;
    assert(guard ==> styled_form(out@) && unstyled(out@) == uhead);
    let mut i: usize = 0;
    while i < detail.routes.len()
        invariant
            i <= detail.routes@.len(),
            gs == group_views(detail.routes@),
            colors_disabled ==> out@ == head + groups_text(gs.take(i as int)),
            guard ==> plain_groups(gs),
            guard ==> styled_form(out@) && unstyled(out@) == uhead + groups_text(gs.take(i as int)),
            "\n"@ == seq!['\n'],
            "  "@ == seq![' ', ' '],
            ": "@ == seq![':', ' '],
        decreases detail.routes@.len() - i,
    {
        let g = &detail.routes[i];
        assert(gs.take(i + 1).drop_last() =~= gs.take(i as int));
        assert(gs.take(i + 1).last() == group_view(*g));
        let p = crate::output::fmt_path(g.path.as_str(), colors_disabled);
        let ghost before = out@;
        proof {
            if guard {
                assert(plain(gs[i as int].0));
                lemma_push_styled(out@, p@, g.path@, green_underline_code());
            }
        }
        extend_str(&mut out, p.as_str());
        proof {
            if guard {
                lemma_push_plain(out@, "\n"@);
            }
        }
        extend_str(&mut out, "\n");
        let ghost mid = out@;
        let ghost es = entry_views(g.routes@);
        assert(es == gs[i as int].1);
        assert(guard ==> unstyled(mid) == uhead + groups_text(gs.take(i as int)) + g.path@ + "\n"@);
        let mut k: usize = 0;
        while k < g.routes.len()
            invariant
                k <= g.routes@.len(),
                es == entry_views(g.routes@),
                colors_disabled ==> out@ == mid + entries_text(es.take(k as int)),
                guard ==> plain_entries(es),
                guard ==> styled_form(out@) && unstyled(out@) == unstyled(mid) + entries_text(es.take(k as int)),
                "\n"@ == seq!['\n'],
                "  "@ == seq![' ', ' '],
                ": "@ == seq![':', ' '],
            decreases g.routes@.len() - k,
        {
            let e = &g.routes[k];
            assert(es.take(k + 1).drop_last() =~= es.take(k as int));
            assert(es.take(k + 1).last() == entry_view(*e));
            let m = crate::output::fmt_method(e.method.as_str(), colors_disabled);
            let ghost o0 = out@;
            proof {
                if guard {
                    assert(es.len() == g.routes@.len());
                    assert(plain_entries(es));
                    assert(plain(es[k as int].0) && plain(es[k as int].1));
                    lemma_push_plain(out@, "  "@);
                    lemma_push_styled(out@ + "  "@, m@, e.method@, bold_code());
                    lemma_push_plain(out@ + "  "@ + m@, ": "@);
                    lemma_push_plain(out@ + "  "@ + m@ + ": "@, e.summary@);
                    lemma_push_plain(out@ + "  "@ + m@ + ": "@ + e.summary@, "\n"@);
                }
            }
            extend_str(&mut out, "  ");
            extend_str(&mut out, m.as_str());
            extend_str(&mut out, ": ");
            extend_str(&mut out, e.summary.as_str());
            extend_str(&mut out, "\n");
            assert(out@ =~= o0 + "  "@ + m@ + ": "@ + e.summary@ + "\n"@);
            assert(colors_disabled ==> out@ =~= mid + entries_text(es.take(k + 1)));
            assert(guard ==> unstyled(out@) =~= unstyled(mid) + entries_text(es.take(k + 1)));
            k = k + 1;
        }
        assert(es.take(g.routes@.len() as int) =~= es);
        assert(colors_disabled ==> out@ =~= head + groups_text(gs.take(i + 1)));
        assert(guard ==> unstyled(out@) =~= uhead + groups_text(gs.take(i + 1)));
        i = i + 1;
    }
    assert(gs.take(detail.routes@.len() as int) =~= gs);
    Ok(string_of(out.as_slice()))
}

/// What [`namespace_version_detail`] gives, as shown groups or the error
/// message.
pub open spec fn namespace_version_detail_result(
    namespace: Seq<char>,
    version: Seq<char>,
    path_prefix: Option<&str>,
    source: Seq<char>,
    files: Seq<(String, String)>,
) -> Result<Seq<(Seq<char>, Seq<(Seq<char>, Seq<char>)>)>, Seq<char>> {
    let shown = shown_groups(
        route_groups(file_views(files)),
        crate::vault::resolver::opt_str(path_prefix),
    );
    if shown.len() == 0 {
        Err(no_routes_message(namespace, version, crate::vault::resolver::opt_str(path_prefix), source))
    } else {
        Ok(shown)
    }
}

// ---------------------------------------------------------------------------
// Which source holds a namespace version
// ---------------------------------------------------------------------------

/// A namespace version directory in a source.
#[derive(Debug, Clone)]
pub struct ResolvedVersion {
    pub source: String,
    pub version_root: String,
}

/// The version directories to look at, one per source searched (the
/// override alone, else the priority order):
/// `<home>/vaults/<source>/<namespace>/<version>`. A directory counts when
/// it holds `_metadata.md`.
pub fn version_root_candidates(
    namespace: &str,
    version: &str,
    source_override: Option<&str>,
    cfg: &crate::config::Config,
    env: &crate::config::EnvOverrides,
    home: &str,
) -> (r: Vec<ResolvedVersion>)
    ensures
        ({
            let srcs = crate::vault::resolver::candidates_spec(
                crate::vault::resolver::prio_of(cfg, env),
                crate::vault::resolver::opt_str(source_override),
            );
            r@.len() == srcs.len() && forall|i: int|
                0 <= i < r@.len() ==> #[trigger] r@[i].source@ == srcs[i] && r@[i].version_root@
                    == crate::paths::join(
                    crate::paths::join(
                        crate::vault::resolver::source_root_spec(home@, srcs[i]),
                        namespace@,
                    ),
                    version@,
                )
        }),
{
    let sources = crate::vault::resolver::candidate_sources(cfg, env, source_override);
    let ghost srcs = strs(sources@);
    let mut out: Vec<ResolvedVersion> = Vec::new();
    let mut j: usize = 0;
    while j < sources.len()
        invariant
            j <= sources@.len(),
            srcs == strs(sources@),
            out@.len() == j,
            forall|k: int|
                0 <= k < j ==> #[trigger] out@[k].source@ == srcs[k] && out@[k].version_root@
                    == crate::paths::join(
                    crate::paths::join(
                        crate::vault::resolver::source_root_spec(home@, srcs[k]),
                        namespace@,
                    ),
                    version@,
                ),
        decreases sources@.len() - j,
    {
        let root = crate::vault::resolver::source_root(home, sources[j].as_str());
        let nroot = crate::paths::join_str(root.as_str(), namespace);
        let vroot = crate::paths::join_str(nroot.as_str(), version);
        assert(srcs[j as int] == sources@[j as int]@);
        out.push(ResolvedVersion { source: owned(sources[j].as_str()), version_root: vroot });
        j = j + 1;
    }
    out
}

/// The index of the first candidate whose directory holds `_metadata.md`.
pub open spec fn first_present(present: Seq<bool>) -> Option<int>
    decreases present.len(),
{
    if present.len() == 0 {
        None
    } else if present[0] {
        Some(0)
    } else {
        match first_present(present.drop_first()) {
            Some(k) => Some(k + 1),
            None => None,
        }
    }
}

/// The first candidate whose directory holds `_metadata.md`; when there is
/// none, a vault-not-found error naming the version, and the source when it
/// was given.
pub fn resolve_version_root(
    namespace: &str,
    version: &str,
    source_override: Option<&str>,
    candidates: Vec<ResolvedVersion>,
    present: &[bool],
) -> (r: Result<ResolvedVersion, ApixError>)
    requires
        present@.len() == candidates@.len(),
    ensures
        match first_present(present@) {
            Some(k) => r == Ok::<ResolvedVersion, ApixError>(candidates@[k]),
            None => r matches Err(ApixError::VaultNotFound(m)) && m@ == match source_override {
                Some(s) => namespace@ + "/"@ + version@ + " not found in source `"@ + s@ + "`"@,
                None => namespace@ + "/"@ + version@,
            },
        },
{
    let ghost all = candidates@;
    let mut rest = candidates;
    let mut i: usize = 0;
    let n = rest.len();
    assert(present@.skip(0) =~= present@);
    while i < n
        invariant
            n == all.len(),
            all == candidates@,
            present@.len() == n,
            i <= n,
            rest@ == all.skip(i as int),
            first_present(present@) == match first_present(present@.skip(i as int)) {
                Some(k) => Some(k + i),
                None => None::<int>,
            },
        decreases n - i,
    {
        assert(present@.skip(i as int)[0] == present@[i as int]);
        assert(present@.skip(i as int).drop_first() =~= present@.skip(i + 1));
        let x = rest.remove(0);
        assert(x == all[i as int]);
        assert(rest@ =~= all.skip(i + 1));
        if present[i] {
            return Ok(x);
        }
        i = i + 1;
    }
    let mut m: Vec<char> = Vec::new();
    extend_str(&mut m, namespace);
    extend_str(&mut m, "/");
    extend_str(&mut m, version);
    if let Some(s) = source_override {
        extend_str(&mut m, " not found in source `");
        extend_str(&mut m, s);
        extend_str(&mut m, "`");
    }
    Err(ApixError::VaultNotFound(string_of(m.as_slice())))
}

} // verus!
