//! Reading vault content: routes, namespaces, their frontmatter, and the
//! condensed and full views of a route.

pub mod frontmatter;
pub mod resolver;

use vstd::prelude::*;
use crate::text::{
    chars_eq_str, chars_of, contains, contains_str, extend_chars, extend_str, find, find_chars,
    lines, lines_of, owned, string_of, strs, sub_chars, trim, trim_chars, views,
};
use frontmatter::{Frontmatter, TypeFrontmatter};
use crate::config::opt_view;

verus! {

/// The text after `heading` up to the next `\n## ` (or the end), trimmed;
/// none when the heading does not occur.
pub open spec fn section(body: Seq<char>, heading: Seq<char>) -> Option<Seq<char>> {
    match find(body, heading) {
        None => None,
        Some(start) => {
            let rest = body.skip(start + heading.len());
            let end = match find(rest, "\n## "@) {
                Some(k) => k,
                None => rest.len() as int,
            };
            Some(trim(rest.take(end)))
        },
    }
}

/// The section under a heading.
pub fn extract_section(body: &str, heading: &str) -> (r: Option<String>)
    ensures
        match section(body@, heading@) {
            Some(t) => r matches Some(x) && x@ == t,
            None => r is None,
        },
{
    let b = chars_of(body);
    let h = chars_of(heading);
    match find_chars(b.as_slice(), h.as_slice()) {
        None => None,
        Some(start) => {
            proof {
                crate::text::lemma_find(b@, h@);
            }
            assert(b.len() as int == b@.len());
            let rest = sub_chars(b.as_slice(), start + h.len(), b.len());
            assert(rest@ =~= b@.skip(start + h@.len()));
            let nh = chars_of("\n## ");
            let end = match find_chars(rest.as_slice(), nh.as_slice()) {
                Some(k) => {
                    proof {
                        crate::text::lemma_find(rest@, nh@);
                    }
                    k
                },
                None => rest.len(),
            };
            let piece = sub_chars(rest.as_slice(), 0, end);
            assert(piece@ =~= rest@.take(end as int));
            let t = trim_chars(piece.as_slice());
            Some(string_of(t.as_slice()))
        },
    }
}

/// The trimmed lines of the request body section that are table rows
/// marked required.
pub open spec fn required_rows(sec: Seq<char>) -> Seq<Seq<char>> {
    lines(sec).map_values(|l: Seq<char>| trim(l)).filter(
        |t: Seq<char>| t.len() > 0 && t[0] == '|' && contains(t, "| Yes |"@),
    )
}

/// The required rows of the `## Request Body` section, if there is one.
pub fn extract_required_body_rows(body: &str) -> (r: Option<Vec<String>>)
    ensures
        match section(body@, "## Request Body"@) {
            Some(sec) => r matches Some(rows) && strs(rows@) == required_rows(sec),
            None => r is None,
        },
{
    let sec = match extract_section(body, "## Request Body") {
        Some(s) => s,
        None => return None,
    };
    let ls = lines_of(chars_of(sec.as_str()).as_slice());
    let ghost tl = views(ls@).map_values(|l: Seq<char>| trim(l));
    let ghost pred = |t: Seq<char>| t.len() > 0 && t[0] == '|' && contains(t, "| Yes |"@);
    let mut rows: Vec<String> = Vec::new();
    let mut i: usize = 0;
    while i < ls.len()
        invariant
            i <= ls@.len(),
            tl == views(ls@).map_values(|l: Seq<char>| trim(l)),
            pred == (|t: Seq<char>| t.len() > 0 && t[0] == '|' && contains(t, "| Yes |"@)),
            strs(rows@) == tl.take(i as int).filter(pred),
        decreases ls@.len() - i,
    {
        let t = trim_chars(ls[i].as_slice());
        assert(tl.take(i + 1).drop_last() =~= tl.take(i as int));
        assert(tl.take(i + 1).last() == t@);
        reveal_with_fuel(Seq::<Seq<char>>::filter, 1);
        if t.len() > 0 && t[0] == '|' && contains_str(t.as_slice(), "| Yes |") {
            let ghost prev = strs(rows@);
            rows.push(string_of(t.as_slice()));
            assert(strs(rows@) =~= prev.push(t@));
        }
        i = i + 1;
    }
    assert(tl.take(ls@.len() as int) =~= tl);
    Some(rows)
}

/// The markdown table of frontmatter entries: empty for no entries, else a
/// header and one row per entry with a value, then a blank line.
pub open spec fn frontmatter_table(entries: Seq<(Seq<char>, Option<Seq<char>>)>) -> Seq<char> {
    if entries.len() == 0 {
        Seq::empty()
    } else {
        "| Metadata | Value |\n| :--- | :--- |\n"@ + table_rows(entries) + seq!['\n']
    }
}

/// One `| key | `value` |` row per entry with a value.
pub open spec fn table_rows(entries: Seq<(Seq<char>, Option<Seq<char>>)>) -> Seq<char>
    decreases entries.len(),
{
    if entries.len() == 0 {
        Seq::empty()
    } else {
        let prev = table_rows(entries.drop_last());
        match entries.last().1 {
            Some(v) => prev + "| "@ + entries.last().0 + " | `"@ + v + "` |\n"@,
            None => prev,
        }
    }
}

/// The views of frontmatter entries.
pub open spec fn entry_views(e: Seq<(String, Option<String>)>) -> Seq<(Seq<char>, Option<Seq<char>>)> {
    e.map_values(
        |x: (String, Option<String>)|
            (
                x.0@,
                match x.1 {
                    Some(v) => Some(v@),
                    None => None,
                },
            ),
    )
}

/// Renders frontmatter entries (key and value text, `None` for null) as a
/// markdown table.
pub fn render_frontmatter_table(entries: &[(String, Option<String>)]) -> (r: String)
    ensures
        r@ == frontmatter_table(entry_views(entries@)),
{
    if entries.len() == 0 {
        return String::new();
    }
    let mut out: Vec<char> = Vec::new();
    extend_str(&mut out, "| Metadata | Value |\n| :--- | :--- |\n");
    let ghost head = out@;
    let ghost ev = entry_views(entries@);
    let mut i: usize = 0;
    while i < entries.len()
        invariant
            i <= entries@.len(),
            ev == entry_views(entries@),
            out@ == head + table_rows(ev.take(i as int)),
        decreases entries@.len() - i,
    {
        assert(ev.take(i + 1).drop_last() =~= ev.take(i as int));
        assert(ev.take(i + 1).last() == ev[i as int]);
        match &entries[i].1 {
            Some(v) => {
                extend_str(&mut out, "| ");
                extend_str(&mut out, entries[i].0.as_str());
                extend_str(&mut out, " | `");
                extend_str(&mut out, v.as_str());
                extend_str(&mut out, "` |\n");
            },
            None => {},
        }
        i = i + 1;
    }
    assert(ev.take(entries@.len() as int) =~= ev);
    out.push('\n');
    string_of(out.as_slice())
}

/// The entries of a route frontmatter, by key in sorted order.
pub fn route_frontmatter_entries(fm: &Frontmatter) -> (r: Vec<(String, Option<String>)>)
    ensures
        entry_views(r@) == seq![
            ("auth"@, opt_view(fm.auth)),
            ("content_type"@, opt_view(fm.content_type)),
            ("method"@, Some(fm.method@)),
            ("url"@, Some(fm.url@)),
        ],
{
    let mut r: Vec<(String, Option<String>)> = Vec::new();
    r.push((owned("auth"), match &fm.auth { Some(a) => Some(owned(a.as_str())), None => None }));
    r.push((owned("content_type"), match &fm.content_type { Some(a) => Some(owned(a.as_str())), None => None }));
    r.push((owned("method"), Some(owned(fm.method.as_str()))));
    r.push((owned("url"), Some(owned(fm.url.as_str()))));
    let ghost want = seq![
        ("auth"@, opt_view(fm.auth)),
        ("content_type"@, opt_view(fm.content_type)),
        ("method"@, Some(fm.method@)),
        ("url"@, Some(fm.url@)),
    ];
    assert(entry_views(r@) =~= want);
    r
}

/// The entries of a type frontmatter.
pub fn type_frontmatter_entries(fm: &TypeFrontmatter) -> (r: Vec<(String, Option<String>)>)
    ensures
        entry_views(r@) == seq![("type"@, Some(fm.schema_type@))],
{
    let mut r: Vec<(String, Option<String>)> = Vec::new();
    r.push((owned("type"), Some(owned(fm.schema_type.as_str()))));
    assert(entry_views(r@) =~= seq![("type"@, Some(fm.schema_type@))]);
    r
}

/// `> Source: `name`` and a blank line before content from any source but
/// `.local`.
pub open spec fn with_banner(source: Seq<char>, content: Seq<char>) -> Seq<char> {
    if source == ".local"@ {
        content
    } else {
        "> Source: `"@ + source + "`\n\n"@ + content
    }
}

/// Prefixes content from sources other than `.local` with its source.
pub fn source_banner(source: &str, content: &str) -> (r: String)
    ensures
        r@ == with_banner(source@, content@),
{
    if crate::text::str_eq(source, ".local") {
        owned(content)
    } else {
        let mut v: Vec<char> = Vec::new();
        extend_str(&mut v, "> Source: `");
        extend_str(&mut v, source);
        extend_str(&mut v, "`\n\n");
        extend_str(&mut v, content);
        string_of(v.as_slice())
    }
}

/// A document shown in full: its frontmatter table (when there is one)
/// above its body; the raw content when the frontmatter could not be read.
pub open spec fn document_view(
    content: Seq<char>,
    parsed: Option<(Seq<(Seq<char>, Option<Seq<char>>)>, Seq<char>)>,
) -> Seq<char> {
    match parsed {
        None => content,
        Some((entries, body)) => {
            let table = frontmatter_table(entries);
            if table.len() == 0 {
                body
            } else {
                table + "\n"@ + body
            }
        },
    }
}

/// The markdown of `show` and `info`: the document with its frontmatter as
/// a table, under a source banner.
pub fn render_document(
    source: &str,
    content: &str,
    parsed: Option<(Vec<(String, Option<String>)>, String)>,
) -> (r: String)
    ensures
        r@ == with_banner(
            source@,
            document_view(
                content@,
                match parsed {
                    Some((e, b)) => Some((entry_views(e@), b@)),
                    None => None,
                },
            ),
        ),
{
    let doc = match parsed {
        None => owned(content),
        Some((entries, body)) => {
            let table = render_frontmatter_table(entries.as_slice());
            if table.as_str().is_empty() {
                proof {
                    assert(table@.len() == 0);
                }
                body
            } else {
                proof {
                    assert(table@.len() != 0);
                }
                crate::text::concat3(table.as_str(), "\n", body.as_str())
            }
        },
    };
    source_banner(source, doc.as_str())
}


/// The row lines of a table, each followed by a newline.
pub open spec fn row_lines(rows: Seq<Seq<char>>) -> Seq<char>
    decreases rows.len(),
{
    if rows.len() == 0 {
        Seq::empty()
    } else {
        row_lines(rows.drop_last()) + rows.last() + "\n"@
    }
}

/// The `peek` view of a route: frontmatter table, path parameters, and the
/// required request body fields.
pub open spec fn peek_route(
    source: Seq<char>,
    entries: Seq<(Seq<char>, Option<Seq<char>>)>,
    body: Seq<char>,
) -> Seq<char> {
    let pp = match section(body, "## Path Parameters"@) {
        Some(sec) => sec + "\n"@,
        None => "*(None)*\n"@,
    };
    let rb = match section(body, "## Request Body"@) {
        Some(sec) => if required_rows(sec).len() > 0 {
            "| Property | Required | Type | Description |\n"@ + "| :--- | :---: | :--- | :--- |\n"@
                + row_lines(required_rows(sec))
        } else {
            "*(None)*\n"@
        },
        None => "*(None)*\n"@,
    };
    with_banner(
        source,
        frontmatter_table(entries) + "## Path Parameters\n"@ + pp + "\n"@
            + "## Required Request Body Fields\n"@ + rb,
    )
}

/// `peek` shows a route from its frontmatter table, its path parameters
/// section (or `*(None)*`) and the required body fields; a route from a
/// source other than `.local` is prefixed with its source. The required
/// fields are exactly the trimmed lines of the `## Request Body` section
/// that start with `|` and hold `| Yes |`, in order.
pub proof fn law_peek_shows_required_fields(
    source: Seq<char>,
    entries: Seq<(Seq<char>, Option<Seq<char>>)>,
    body: Seq<char>,
    sec: Seq<char>,
    t: Seq<char>,
)
    ensures
        source == ".local"@ ==> "## Path Parameters\n"@.is_prefix_of(
            peek_route(source, entries, body).skip(frontmatter_table(entries).len() as int),
        ),
        source != ".local"@ ==> ("> Source: `"@ + source + "`\n\n"@).is_prefix_of(
            peek_route(source, entries, body),
        ),
        required_rows(sec).contains(t) <==> (exists|i: int|
            0 <= i < lines(sec).len() && #[trigger] trim(lines(sec)[i]) == t) && t.len() > 0
            && t[0] == '|' && contains(t, "| Yes |"@),
{
    let pred = |u: Seq<char>| u.len() > 0 && u[0] == '|' && contains(u, "| Yes |"@);
    let tl = lines(sec).map_values(|l: Seq<char>| trim(l));
    broadcast use vstd::seq_lib::group_filter_ensures;
    if required_rows(sec).contains(t) {
        let i = choose|i: int| 0 <= i < tl.filter(pred).len() && tl.filter(pred)[i] == t;
        assert(pred(tl.filter(pred)[i]));
        tl.lemma_filter_contains_rev(pred, t);
        let j = choose|j: int| 0 <= j < tl.len() && tl[j] == t;
        assert(trim(lines(sec)[j]) == t);
    }
    if (exists|i: int| 0 <= i < lines(sec).len() && #[trigger] trim(lines(sec)[i]) == t) && pred(t) {
        let i = choose|i: int| 0 <= i < lines(sec).len() && #[trigger] trim(lines(sec)[i]) == t;
        assert(tl[i] == t);
        assert(tl.filter(pred).contains(tl[i]));
    }
    let content = frontmatter_table(entries) + "## Path Parameters\n"@ + (match section(
        body,
        "## Path Parameters"@,
    ) {
        Some(x) => x + "\n"@,
        None => "*(None)*\n"@,
    }) + "\n"@ + "## Required Request Body Fields\n"@ + (match section(body, "## Request Body"@) {
        Some(x) => if required_rows(x).len() > 0 {
            "| Property | Required | Type | Description |\n"@ + "| :--- | :---: | :--- | :--- |\n"@
                + row_lines(required_rows(x))
        } else {
            "*(None)*\n"@
        },
        None => "*(None)*\n"@,
    });
    assert(peek_route(source, entries, body) == with_banner(source, content));
    if source == ".local"@ {
        assert(content.skip(frontmatter_table(entries).len() as int).subrange(0, "## Path Parameters\n"@.len() as int) =~= "## Path Parameters\n"@);
    } else {
        let b = "> Source: `"@ + source + "`\n\n"@;
        assert((b + content).subrange(0, b.len() as int) =~= b);
    }
}

/// The `peek` view of a route file from its frontmatter and body.
pub fn peek_route_markdown(source: &str, fm: &Frontmatter, body: &str) -> (r: String)
    ensures
        ({
            let entries = seq![
                ("auth"@, opt_view(fm.auth)),
                ("content_type"@, opt_view(fm.content_type)),
                ("method"@, Some(fm.method@)),
                ("url"@, Some(fm.url@)),
            ];
            r@ == peek_route(source@, entries, body@)
        }),
{
    let entries = route_frontmatter_entries(fm);
    let table = render_frontmatter_table(entries.as_slice());
    let mut out = chars_of(table.as_str());
    extend_str(&mut out, "## Path Parameters\n");
    match extract_section(body, "## Path Parameters") {
        Some(sec) => {
            extend_str(&mut out, sec.as_str());
            extend_str(&mut out, "\n");
        },
        None => extend_str(&mut out, "*(None)*\n"),
    }
    extend_str(&mut out, "\n");
    extend_str(&mut out, "## Required Request Body Fields\n");
    let ghost before_rows = out@;
    match extract_required_body_rows(body) {
        Some(rows) => {
            if rows.len() > 0 {
                extend_str(&mut out, "| Property | Required | Type | Description |\n");
                extend_str(&mut out, "| :--- | :---: | :--- | :--- |\n");
                let ghost head = out@;
                let mut i: usize = 0;
                while i < rows.len()
                    invariant
                        i <= rows@.len(),
                        out@ == head + row_lines(strs(rows@).take(i as int)),
                    decreases rows@.len() - i,
                {
                    assert(strs(rows@).take(i + 1).drop_last() =~= strs(rows@).take(i as int));
                    assert(strs(rows@).take(i + 1).last() == rows@[i as int]@);
                    extend_str(&mut out, rows[i].as_str());
                    extend_str(&mut out, "\n");
                    i = i + 1;
                }
                assert(strs(rows@).take(rows@.len() as int) =~= strs(rows@));
            } else {
                extend_str(&mut out, "*(None)*\n");
            }
        },
        None => extend_str(&mut out, "*(None)*\n"),
    }
    let inner = string_of(out.as_slice());
    source_banner(source, inner.as_str())
}

/// The `peek` view of a type file.
pub open spec fn peek_type(source: Seq<char>, schema_type: Seq<char>) -> Seq<char> {
    with_banner(
        source,
        frontmatter_table(seq![("type"@, Some(schema_type))])
            + "## Path Parameters\n*(None)*\n\n"@ + "## Required Request Body Fields\n*(None)*\n"@,
    )
}

/// The `peek` view of a type file from its frontmatter.
pub fn peek_type_markdown(source: &str, fm: &TypeFrontmatter) -> (r: String)
    ensures
        r@ == peek_type(source@, fm.schema_type@),
{
    let entries = type_frontmatter_entries(fm);
    let table = render_frontmatter_table(entries.as_slice());
    let mut out = chars_of(table.as_str());
    extend_str(&mut out, "## Path Parameters\n*(None)*\n\n");
    extend_str(&mut out, "## Required Request Body Fields\n*(None)*\n");
    let inner = string_of(out.as_slice());
    source_banner(source, inner.as_str())
}

/// Whether a route's relative path lies under `_types`: its first part is
/// `_types`.
pub open spec fn is_type_route(relative: Seq<char>) -> bool {
    crate::text::split_char(relative, '/')[0] == "_types"@
}

/// Whether a route's relative path lies under `_types`.
pub fn is_type_relative(relative: &str) -> (r: bool)
    ensures
        r == is_type_route(relative@),
{
    let rc = chars_of(relative);
    let parts = crate::text::split_chars(rc.as_slice(), '/');
    proof {
        crate::text::lemma_split_char_nonempty(rc@, '/');
    }
    chars_eq_str(parts[0].as_slice(), "_types")
}

/// The route whose file holds a namespace version's metadata.
pub fn info_route(target: &str) -> (r: String)
    ensures
        r@ == target@ + "/_metadata"@,
{
    crate::text::concat2(target, "/_metadata")
}

/// The error `info` reports when the metadata cannot be resolved.
pub fn info_not_found(target: &str) -> (r: crate::error::ApixError)
    ensures
        r == crate::error::ApixError::VaultNotFound(r->VaultNotFound_0),
        r->VaultNotFound_0@ == "Metadata for `"@ + target@
            + "` not found. Ensure the namespace and version are correct (e.g., namespace/version)."@,
{
    crate::error::ApixError::VaultNotFound(
        crate::text::concat3(
            "Metadata for `",
            target,
            "` not found. Ensure the namespace and version are correct (e.g., namespace/version).",
        ),
    )
}

/// The route-not-found message of `show`, with suggestions when there are any.
pub open spec fn not_found_message(route: Seq<char>, suggestions: Seq<Seq<char>>) -> Seq<char> {
    if suggestions.len() == 0 {
        route
    } else {
        route + ". Did you mean one of: "@ + crate::text::join(suggestions, ", "@)
    }
}

/// The route-not-found error of `show`.
pub fn route_not_found_with_hint(route: &str, suggestions: &[String]) -> (r: crate::error::ApixError)
    ensures
        r == crate::error::ApixError::RouteNotFound(r->RouteNotFound_0),
        r->RouteNotFound_0@ == not_found_message(route@, strs(suggestions@)),
{
    if suggestions.len() == 0 {
        crate::error::ApixError::RouteNotFound(owned(route))
    } else {
        let j = crate::text::join_strings(suggestions, ", ");
        crate::error::ApixError::RouteNotFound(
            crate::text::concat3(route, ". Did you mean one of: ", j.as_str()),
        )
    }
}

/// How a route file is suggested: `<source>/<namespace>/<version>/<path
/// without extension>`.
pub open spec fn suggestion_label(
    source: Seq<char>,
    ns: Seq<char>,
    ver: Seq<char>,
    rel: Seq<char>,
) -> Seq<char> {
    source + seq!['/'] + ns + seq!['/'] + ver + seq!['/'] + crate::paths::without_ext(rel)
}

/// Whether a label is suggested for a route: it contains the route, or one
/// of the route's non-empty parts.
pub open spec fn suggests(label: Seq<char>, route: Seq<char>) -> bool {
    contains(label, route) || exists|j: int|
        0 <= j < crate::text::split_char(route, '/').len() && #[trigger] crate::text::split_char(
            route,
            '/',
        )[j].len() > 0 && contains(label, crate::text::split_char(route, '/')[j])
}

/// The suggested labels of the markdown files among `rels`, in order.
pub open spec fn suggestion_list(
    rels: Seq<Seq<char>>,
    source: Seq<char>,
    ns: Seq<char>,
    ver: Seq<char>,
    route: Seq<char>,
) -> Seq<Seq<char>>
    decreases rels.len(),
{
    if rels.len() == 0 {
        Seq::empty()
    } else {
        let prev = suggestion_list(rels.drop_last(), source, ns, ver, route);
        let rel = rels.last();
        let label = suggestion_label(source, ns, ver, rel);
        if crate::paths::extension(crate::paths::file_name(rel)) == Some("md"@) && suggests(
            label,
            route,
        ) {
            prev.push(label)
        } else {
            prev
        }
    }
}

proof fn lemma_suggestion_prefix(
    rels: Seq<Seq<char>>,
    i: int,
    source: Seq<char>,
    ns: Seq<char>,
    ver: Seq<char>,
    route: Seq<char>,
)
    requires
        0 <= i <= rels.len(),
    ensures
        suggestion_list(rels.take(i), source, ns, ver, route).is_prefix_of(
            suggestion_list(rels, source, ns, ver, route),
        ),
    decreases rels.len() - i,
{
    if i < rels.len() {
        lemma_suggestion_prefix(rels, i + 1, source, ns, ver, route);
        assert(rels.take(i + 1).drop_last() =~= rels.take(i));
    } else {
        assert(rels.take(i) =~= rels);
    }
}

fn suggests_exec(label: &[char], route: &[char]) -> (r: bool)
    ensures
        r == suggests(label@, route@),
{
    if crate::text::contains_chars(label, route) {
        return true;
    }
    let parts = crate::text::split_chars(route, '/');
    let mut j: usize = 0;
    while j < parts.len()
        invariant
            j <= parts@.len(),
            views(parts@) == crate::text::split_char(route@, '/'),
            forall|k: int|
                0 <= k < j ==> !(#[trigger] crate::text::split_char(route@, '/')[k].len() > 0
                    && contains(label@, crate::text::split_char(route@, '/')[k])),
        decreases parts@.len() - j,
    {
        assert(views(parts@)[j as int] == parts@[j as int]@);
        if parts[j].len() > 0 && crate::text::contains_chars(label, parts[j].as_slice()) {
            return true;
        }
        j = j + 1;
    }
    false
}

/// Up to five suggestions for a route that was not found, from the markdown
/// files (paths relative to the version directory) of the first source
/// looked in.
pub fn suggest_routes(
    route: &str,
    source: &str,
    namespace: &str,
    version: &str,
    rels: &[String],
) -> (r: Vec<String>)
    ensures
        ({
            let all = suggestion_list(strs(rels@), source@, namespace@, version@, route@);
            strs(r@) == if all.len() <= 5 {
                all
            } else {
                all.take(5)
            }
        }),
{
    let rc = chars_of(route);
    let ghost rs = strs(rels@);
    let mut out: Vec<String> = Vec::new();
    let mut i: usize = 0;
    while i < rels.len()
        invariant
            i <= rels@.len(),
            rs == strs(rels@),
            rc@ == route@,
            strs(out@) == suggestion_list(rs.take(i as int), source@, namespace@, version@, route@),
            out@.len() < 5,
        decreases rels@.len() - i,
    {
        assert(rs.take(i + 1).drop_last() =~= rs.take(i as int));
        assert(rs.take(i + 1).last() == rels@[i as int]@);
        let relc = chars_of(rels[i].as_str());
        let ext = crate::paths::extension_of(relc.as_slice());
        let is_md = match &ext {
            Some(e) => chars_eq_str(e.as_slice(), "md"),
            None => false,
        };
        let mut label: Vec<char> = Vec::new();
        extend_str(&mut label, source);
        label.push('/');
        extend_str(&mut label, namespace);
        label.push('/');
        extend_str(&mut label, version);
        label.push('/');
        let stem = crate::paths::without_ext_chars(relc.as_slice());
        extend_chars(&mut label, stem.as_slice());
        assert(label@ =~= suggestion_label(source@, namespace@, version@, rels@[i as int]@));
        assert(is_md == (crate::paths::extension(crate::paths::file_name(relc@)) == Some("md"@)));
        let sug = suggests_exec(label.as_slice(), rc.as_slice());
        proof {
            let prev = suggestion_list(rs.take(i as int), source@, namespace@, version@, route@);
            let x = rs.take(i + 1);
            assert(x.len() > 0);
            assert(x.drop_last() == rs.take(i as int));
            assert(x.last() == relc@);
            assert(suggestion_label(source@, namespace@, version@, x.last()) == label@);
            assert(sug == suggests(label@, route@));
            assert(suggestion_list(rs.take(i + 1), source@, namespace@, version@, route@) == if is_md
                && sug {
                prev.push(label@)
            } else {
                prev
            });
        }
        if is_md && sug {
            let ghost prev = strs(out@);
            out.push(string_of(label.as_slice()));
            assert(strs(out@) =~= prev.push(label@));
            if out.len() >= 5 {
                proof {
                    lemma_suggestion_prefix(rs, i + 1, source@, namespace@, version@, route@);
                    let all = suggestion_list(rs, source@, namespace@, version@, route@);
                    assert(all.take(5) =~= strs(out@));
                }
                return out;
            }
        }
        i = i + 1;
    }
    assert(rs.take(rels@.len() as int) =~= rs);
    out
}

} // verus!
