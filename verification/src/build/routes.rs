//! The route documents of a vault: one markdown file per operation, under
//! the directories of its path.

use vstd::prelude::*;
use crate::build::components::{opt_text, ref_name, ref_name_of, type_text, schema_type_to_string};
use crate::build::model::{
    BodyRef, Example, Header, HeaderRef, MediaType, Operation, ParamLocation, ParamRef, Parameter,
    PathItem, ResponseRef, Schema, SchemaRef, Spec,
};
use crate::build::parser::ParsedSpec;
use crate::error::ApixError;
use crate::vault::frontmatter::{lemma_join_no_marker, marker};
use crate::text::{
    chars_of, contains, decimal, extend_chars, extend_str, join, join_chars, owned, segments, segments_of,
    split_char, string_of, strs, trim_end, trim_end_chars, trim_start, trim_start_chars, views,
};

verus! {

// ---------------------------------------------------------------------------
// Paths and links
// ---------------------------------------------------------------------------

/// The directory of a route path under a root: one directory per non-empty
/// `/`-separated part.
pub fn route_dir(root: &str, path: &str) -> (r: String)
    ensures
        r@ == crate::paths::join_all(root@, segments(path@, '/')),
{
    let pc = chars_of(path);
    let segs = segments_of(pc.as_slice(), '/');
    let ss = crate::text::strings_of(segs.as_slice());
    assert(ss@.map_values(|x: String| x@) =~= strs(ss@));
    crate::paths::join_all_str(root, ss.as_slice())
}

/// `../` repeated.
pub open spec fn ups(n: nat) -> Seq<char>
    decreases n,
{
    if n == 0 {
        Seq::empty()
    } else {
        ups((n - 1) as nat) + "../"@
    }
}

/// Where the components directory is, relative to a route's directory.
pub open spec fn components_rel(path: Seq<char>) -> Seq<char> {
    ups(segments(path, '/').len()) + "_components"@
}

/// The relative location of the components directory for a route path.
pub fn base_components_rel(path: &str) -> (r: String)
    ensures
        r@ == components_rel(path@),
{
    let pc = chars_of(path);
    let segs = segments_of(pc.as_slice(), '/');
    assert(views(segs@).len() == segs@.len());
    let mut out: Vec<char> = Vec::new();
    let mut i: usize = 0;
    while i < segs.len()
        invariant
            i <= segs@.len(),
            out@ == ups(i as nat),
        decreases segs@.len() - i,
    {
        extend_str(&mut out, "../");
        i = i + 1;
    }
    extend_str(&mut out, "_components");
    string_of(out.as_slice())
}

/// The link a reference becomes: to its component document when it names
/// a component (`#/components/<kind>/<name>`), else to the schema of its
/// last part.
pub open spec fn ref_link(reference: Seq<char>, base: Seq<char>) -> Seq<char> {
    let parts = split_char(reference, '/');
    if parts.len() >= 4 && parts[0] == "#"@ && parts[1] == "components"@ {
        "["@ + parts[3] + "]("@ + base + "/"@ + parts[2] + "/"@ + parts[3] + ".md)"@
    } else {
        "["@ + ref_name(reference) + "]("@ + base + "/schemas/"@ + ref_name(reference) + ".md)"@
    }
}

/// Turns a reference into a markdown link relative to the components
/// directory.
pub fn ref_to_link(reference: &str, base_components_rel: &str) -> (r: String)
    ensures
        r@ == ref_link(reference@, base_components_rel@),
{
    let rc = chars_of(reference);
    let parts = crate::text::split_chars(rc.as_slice(), '/');
    let mut out: Vec<char> = Vec::new();
    if parts.len() >= 4 && crate::text::chars_eq_str(parts[0].as_slice(), "#")
        && crate::text::chars_eq_str(parts[1].as_slice(), "components") {
        assert(views(parts@)[0] == parts@[0]@);
        assert(views(parts@)[1] == parts@[1]@);
        assert(views(parts@)[2] == parts@[2]@);
        assert(views(parts@)[3] == parts@[3]@);
        extend_str(&mut out, "[");
        extend_chars(&mut out, parts[3].as_slice());
        extend_str(&mut out, "](");
        extend_str(&mut out, base_components_rel);
        extend_str(&mut out, "/");
        extend_chars(&mut out, parts[2].as_slice());
        extend_str(&mut out, "/");
        extend_chars(&mut out, parts[3].as_slice());
        extend_str(&mut out, ".md)");
    } else {
        proof {
            if views(parts@).len() >= 4 {
                assert(views(parts@)[0] == parts@[0]@);
                assert(views(parts@)[1] == parts@[1]@);
            }
        }
        let name = ref_name_of(reference);
        extend_str(&mut out, "[");
        extend_chars(&mut out, name.as_slice());
        extend_str(&mut out, "](");
        extend_str(&mut out, base_components_rel);
        extend_str(&mut out, "/schemas/");
        extend_chars(&mut out, name.as_slice());
        extend_str(&mut out, ".md)");
    }
    string_of(out.as_slice())
}

// ---------------------------------------------------------------------------
// Parameter and header rows
// ---------------------------------------------------------------------------

/// One row of a parameter or header table.
#[derive(Debug)]
pub struct ParamRow {
    pub name: String,
    pub required: String,
    pub param_type: String,
    pub description: String,
}

/// A row as (name, required, type, description).
pub open spec fn prow(r: ParamRow) -> (Seq<char>, Seq<char>, Seq<char>, Seq<char>) {
    (r.name@, r.required@, r.param_type@, r.description@)
}

/// The rows as views.
pub open spec fn prows(v: Seq<ParamRow>) -> Seq<(Seq<char>, Seq<char>, Seq<char>, Seq<char>)> {
    v.map_values(|r: ParamRow| prow(r))
}

/// `Yes` or `No` for an optional `required`.
pub open spec fn yes_no(b: Option<bool>) -> Seq<char> {
    if b == Some(true) {
        "Yes"@
    } else {
        "No"@
    }
}

/// The type shown for a parameter or header: its schema's (a link for a
/// reference), else the first media type of its content, else `any`.
pub open spec fn value_type_text(
    schema: Option<SchemaRef>,
    content: Option<Vec<String>>,
    base: Seq<char>,
) -> Seq<char> {
    match schema {
        Some(SchemaRef::Ref(r)) => ref_link(r@, base),
        Some(SchemaRef::Inline(s)) => type_text(*s, base + "/schemas"@),
        None => match content {
            Some(cs) => if cs@.len() > 0 {
                "content `"@ + cs@[0]@ + "`"@
            } else {
                "content"@
            },
            None => "any"@,
        },
    }
}

/// The serialization hints of a parameter.
pub open spec fn hints(p: Parameter) -> Seq<Seq<char>> {
    (match p.style {
        Some(s) => seq!["style="@ + s@],
        None => Seq::empty(),
    }) + (match p.explode {
        Some(b) => seq![
            "explode="@ + if b {
                "true"@
            } else {
                "false"@
            },
        ],
        None => Seq::empty(),
    }) + (if p.allow_reserved == Some(true) {
        seq!["allowReserved=true"@]
    } else {
        Seq::empty()
    })
}

/// A parameter's description followed by its serialization hints.
pub open spec fn param_description(p: Parameter) -> Seq<char> {
    let d = opt_text(p.description);
    let hs = hints(p);
    if hs.len() == 0 {
        d
    } else {
        let h = "*Serialization: "@ + join(hs, ", "@) + "*"@;
        if d.len() == 0 {
            h
        } else {
            d + "<br/>"@ + h
        }
    }
}

/// The row of a parameter.
pub open spec fn param_row(p: Parameter, base: Seq<char>) -> (Seq<char>, Seq<char>, Seq<char>, Seq<char>) {
    (p.name@, yes_no(p.required), value_type_text(p.schema, p.content, base), param_description(p))
}

/// The row of a header.
pub open spec fn header_row(name: Seq<char>, h: Header, base: Seq<char>) -> (
    Seq<char>,
    Seq<char>,
    Seq<char>,
    Seq<char>,
) {
    (name, yes_no(h.required), value_type_text(h.schema, h.content, base), opt_text(h.description))
}

/// Describes the type of a parameter or header.
fn value_type(schema: &Option<SchemaRef>, content: &Option<Vec<String>>, base: &str) -> (r: String)
    ensures
        r@ == value_type_text(*schema, *content, base@),
{
    match schema {
        Some(SchemaRef::Ref(r)) => ref_to_link(r.as_str(), base),
        Some(SchemaRef::Inline(s)) => {
            let mut dir = chars_of(base);
            extend_str(&mut dir, "/schemas");
            let d = string_of(dir.as_slice());
            schema_type_to_string(&**s, d.as_str())
        },
        None => match content {
            Some(cs) => if cs.len() > 0 {
                let mut out: Vec<char> = Vec::new();
                extend_str(&mut out, "content `");
                extend_str(&mut out, cs[0].as_str());
                extend_str(&mut out, "`");
                string_of(out.as_slice())
            } else {
                owned("content")
            },
            None => owned("any"),
        },
    }
}

/// `Yes` or `No`.
fn yes_no_exec(b: Option<bool>) -> (r: String)
    ensures
        r@ == yes_no(b),
{
    if b == Some(true) {
        owned("Yes")
    } else {
        owned("No")
    }
}

/// The row of a parameter.
pub fn row_from_parameter(param: &Parameter, base_components_rel: &str) -> (r: ParamRow)
    ensures
        prow(r) == param_row(*param, base_components_rel@),
{
    let ty = value_type(&param.schema, &param.content, base_components_rel);
    let mut hs: Vec<Vec<char>> = Vec::new();
    if let Some(st) = &param.style {
        let mut h: Vec<char> = Vec::new();
        extend_str(&mut h, "style=");
        extend_str(&mut h, st.as_str());
        hs.push(h);
    }
    if let Some(e) = param.explode {
        let mut h: Vec<char> = Vec::new();
        extend_str(&mut h, "explode=");
        extend_str(&mut h, if e { "true" } else { "false" });
        hs.push(h);
    }
    if param.allow_reserved == Some(true) {
        let mut h: Vec<char> = Vec::new();
        extend_str(&mut h, "allowReserved=true");
        hs.push(h);
    }
    assert(views(hs@) =~= hints(*param));
    let mut desc: Vec<char> = match &param.description {
        Some(d) => chars_of(d.as_str()),
        None => Vec::new(),
    };
    if hs.len() > 0 {
        let mut h: Vec<char> = Vec::new();
        extend_str(&mut h, "*Serialization: ");
        let mut sep: Vec<char> = Vec::new();
        extend_str(&mut sep, ", ");
        let j = join_chars(hs.as_slice(), sep.as_slice());
        extend_chars(&mut h, j.as_slice());
        extend_str(&mut h, "*");
        if desc.len() == 0 {
            desc = h;
        } else {
            extend_str(&mut desc, "<br/>");
            extend_chars(&mut desc, h.as_slice());
        }
    }
    ParamRow {
        name: owned(param.name.as_str()),
        required: yes_no_exec(param.required),
        param_type: ty,
        description: string_of(desc.as_slice()),
    }
}

/// The row of a header.
pub fn row_from_header(name: &str, header: &Header, base_components_rel: &str) -> (r: ParamRow)
    ensures
        prow(r) == header_row(name@, *header, base_components_rel@),
{
    let ty = value_type(&header.schema, &header.content, base_components_rel);
    ParamRow {
        name: owned(name),
        required: yes_no_exec(header.required),
        param_type: ty,
        description: match &header.description {
            Some(d) => owned(d.as_str()),
            None => String::new(),
        },
    }
}

/// The rows of the parameters at one location, in order; referenced
/// parameters are listed with the query parameters, as links.
pub open spec fn bucket_rows(all: Seq<ParamRef>, loc: ParamLocation, base: Seq<char>) -> Seq<
    (Seq<char>, Seq<char>, Seq<char>, Seq<char>),
>
    decreases all.len(),
{
    if all.len() == 0 {
        Seq::empty()
    } else {
        let prev = bucket_rows(all.drop_last(), loc, base);
        match all.last() {
            ParamRef::Ref(r) => if loc == ParamLocation::Query {
                prev.push(("Reference"@, "N/A"@, ref_link(r@, base), Seq::empty()))
            } else {
                prev
            },
            ParamRef::Param(p) => if p.location == loc {
                prev.push(param_row(p, base))
            } else {
                prev
            },
        }
    }
}

/// Each row of the table of a location comes from a parameter declared at
/// that location (in the query table, also from a referenced parameter,
/// as its link), and every parameter declared at a location has its row
/// in the table of that location.
pub proof fn law_parameter_rows_by_location(all: Seq<ParamRef>, loc: ParamLocation, base: Seq<char>)
    ensures
        forall|j: int| #![trigger bucket_rows(all, loc, base)[j]]
            0 <= j < bucket_rows(all, loc, base).len() ==> exists|i: int| #![trigger all[i]]
                0 <= i < all.len() && {
                    ||| all[i] matches ParamRef::Param(q) && q.location == loc
                        && bucket_rows(all, loc, base)[j] == param_row(q, base)
                    ||| all[i] matches ParamRef::Ref(r) && loc == ParamLocation::Query
                        && bucket_rows(all, loc, base)[j] == (
                        "Reference"@,
                        "N/A"@,
                        ref_link(r@, base),
                        Seq::<char>::empty(),
                    )
                },
        forall|i: int| #![trigger all[i]]
            0 <= i < all.len() && all[i] is Param && all[i]->Param_0.location == loc
                ==> bucket_rows(all, loc, base).contains(param_row(all[i]->Param_0, base)),
    decreases all.len(),
{
    if all.len() > 0 {
        let init = all.drop_last();
        law_parameter_rows_by_location(init, loc, base);
        let prev = bucket_rows(init, loc, base);
        let n = all.len() - 1;
        assert(all[n] == all.last());
        assert forall|i: int| 0 <= i < n implies #[trigger] all[i] == init[i] by {}
        assert(prev.is_prefix_of(bucket_rows(all, loc, base)));
        assert forall|j: int| #![trigger bucket_rows(all, loc, base)[j]]
            0 <= j < bucket_rows(all, loc, base).len() implies exists|i: int| #![trigger all[i]]
            0 <= i < all.len() && {
                ||| all[i] matches ParamRef::Param(q) && q.location == loc
                    && bucket_rows(all, loc, base)[j] == param_row(q, base)
                ||| all[i] matches ParamRef::Ref(r) && loc == ParamLocation::Query
                    && bucket_rows(all, loc, base)[j] == (
                    "Reference"@,
                    "N/A"@,
                    ref_link(r@, base),
                    Seq::<char>::empty(),
                )
            } by {
            if j < prev.len() {
                assert(bucket_rows(all, loc, base)[j] == prev[j]);
                let i = choose|i: int| #![trigger init[i]]
                    0 <= i < init.len() && {
                        ||| init[i] matches ParamRef::Param(q) && q.location == loc && prev[j] == param_row(q, base)
                        ||| init[i] matches ParamRef::Ref(r) && loc == ParamLocation::Query && prev[j] == (
                            "Reference"@,
                            "N/A"@,
                            ref_link(r@, base),
                            Seq::<char>::empty(),
                        )
                    };
                assert(all[i] == init[i]);
            } else {
                assert(all[n] == all[n]);
            }
        }
        assert forall|i: int| #![trigger all[i]]
            0 <= i < all.len() && all[i] is Param && all[i]->Param_0.location == loc
                implies bucket_rows(all, loc, base).contains(param_row(all[i]->Param_0, base)) by {
            if i < n {
                assert(all[i] == init[i]);
                let k = choose|k: int| 0 <= k < prev.len() && prev[k] == param_row(init[i]->Param_0, base);
                assert(bucket_rows(all, loc, base)[k] == prev[k]);
            } else {
                let last = bucket_rows(all, loc, base).len() - 1;
                assert(bucket_rows(all, loc, base)[last] == param_row(all[i]->Param_0, base));
            }
        }
    } else {
        assert(bucket_rows(all, loc, base).len() == 0);
    }
}

/// The parameters of an operation (those of its path first), split by
/// location: path, query, header, cookie.
pub fn collect_parameters(path_item: &PathItem, op: &Operation, base_components_rel: &str) -> (r: (
    Vec<ParamRow>,
    Vec<ParamRow>,
    Vec<ParamRow>,
    Vec<ParamRow>,
))
    ensures
        ({
            let all = path_item.parameters@ + op.parameters@;
            let b = base_components_rel@;
            &&& prows(r.0@) == bucket_rows(all, ParamLocation::Path, b)
            &&& prows(r.1@) == bucket_rows(all, ParamLocation::Query, b)
            &&& prows(r.2@) == bucket_rows(all, ParamLocation::Header, b)
            &&& prows(r.3@) == bucket_rows(all, ParamLocation::Cookie, b)
        }),
{
    let ghost all = path_item.parameters@ + op.parameters@;
    let ghost b = base_components_rel@;
    let mut rows: (Vec<ParamRow>, Vec<ParamRow>, Vec<ParamRow>, Vec<ParamRow>) = (
        Vec::new(),
        Vec::new(),
        Vec::new(),
        Vec::new(),
    );
    assert(prows(rows.0@) =~= Seq::empty());
    assert(prows(rows.1@) =~= Seq::empty());
    assert(prows(rows.2@) =~= Seq::empty());
    assert(prows(rows.3@) =~= Seq::empty());
    assert(all.take(0).len() == 0);
    let n1 = path_item.parameters.len();
    let mut i: usize = 0;
    while i < n1
        invariant
            n1 == path_item.parameters@.len(),
            all == path_item.parameters@ + op.parameters@,
            b == base_components_rel@,
            i <= n1,
            buckets_are(rows, all.take(i as int), b),
        decreases n1 - i,
    {
        assert(path_item.parameters@[i as int] == all[i as int]);
        assert(all.take(i + 1).drop_last() =~= all.take(i as int));
        assert(all.take(i + 1).last() == all[i as int]);
        let ghost prev_all = all.take(i as int);
        add_param(&path_item.parameters[i], base_components_rel, &mut rows);
        assert(all.take(i + 1) =~= prev_all.push(path_item.parameters@[i as int]));
        i = i + 1;
    }
    let mut j: usize = 0;
    while j < op.parameters.len()
        invariant
            n1 == path_item.parameters@.len(),
            all == path_item.parameters@ + op.parameters@,
            b == base_components_rel@,
            j <= op.parameters@.len(),
            buckets_are(rows, all.take(n1 + j), b),
        decreases op.parameters@.len() - j,
    {
        assert(op.parameters@[j as int] == all[n1 + j]);
        assert(all.take(n1 + j + 1).drop_last() =~= all.take(n1 + j));
        assert(all.take(n1 + j + 1).last() == all[n1 + j]);
        let ghost prev_all = all.take(n1 + j);
        add_param(&op.parameters[j], base_components_rel, &mut rows);
        assert(all.take(n1 + j + 1) =~= prev_all.push(op.parameters@[j as int]));
        j = j + 1;
    }
    assert(all.take(n1 + j) =~= all);
    rows
}

/// The four row lists are the buckets of the parameters.
pub open spec fn buckets_are(
    rows: (Vec<ParamRow>, Vec<ParamRow>, Vec<ParamRow>, Vec<ParamRow>),
    all: Seq<ParamRef>,
    b: Seq<char>,
) -> bool {
    &&& prows(rows.0@) == bucket_rows(all, ParamLocation::Path, b)
    &&& prows(rows.1@) == bucket_rows(all, ParamLocation::Query, b)
    &&& prows(rows.2@) == bucket_rows(all, ParamLocation::Header, b)
    &&& prows(rows.3@) == bucket_rows(all, ParamLocation::Cookie, b)
}

/// Adds one parameter to its bucket.
fn add_param(
    pr: &ParamRef,
    base_components_rel: &str,
    rows: &mut (Vec<ParamRow>, Vec<ParamRow>, Vec<ParamRow>, Vec<ParamRow>),
)
    ensures
        forall|all: Seq<ParamRef>|
            #![trigger all.push(*pr)]
            buckets_are(*old(rows), all, base_components_rel@) ==> buckets_are(
                *final(rows),
                all.push(*pr),
                base_components_rel@,
            ),
{
    match pr {
        ParamRef::Ref(reference) => {
            let row = ParamRow {
                name: owned("Reference"),
                required: owned("N/A"),
                param_type: ref_to_link(reference.as_str(), base_components_rel),
                description: String::new(),
            };
            let ghost prev = prows(rows.1@);
            let ghost rv = prow(row);
            rows.1.push(row);
            assert(prows(rows.1@) =~= prev.push(rv));
            assert forall|all: Seq<ParamRef>| #![trigger all.push(*pr)]
                buckets_are(*old(rows), all, base_components_rel@) implies buckets_are(
                *rows,
                all.push(*pr),
                base_components_rel@,
            ) by {
                assert(all.push(*pr).drop_last() =~= all);
            }
        },
        ParamRef::Param(p) => {
            let row = row_from_parameter(p, base_components_rel);
            let ghost rv = prow(row);
            match p.location {
                ParamLocation::Path => {
                    let ghost prev = prows(rows.0@);
                    rows.0.push(row);
                    assert(prows(rows.0@) =~= prev.push(rv));
                },
                ParamLocation::Query => {
                    let ghost prev = prows(rows.1@);
                    rows.1.push(row);
                    assert(prows(rows.1@) =~= prev.push(rv));
                },
                ParamLocation::Header => {
                    let ghost prev = prows(rows.2@);
                    rows.2.push(row);
                    assert(prows(rows.2@) =~= prev.push(rv));
                },
                ParamLocation::Cookie => {
                    let ghost prev = prows(rows.3@);
                    rows.3.push(row);
                    assert(prows(rows.3@) =~= prev.push(rv));
                },
            }
            assert forall|all: Seq<ParamRef>| #![trigger all.push(*pr)]
                buckets_are(*old(rows), all, base_components_rel@) implies buckets_are(
                *rows,
                all.push(*pr),
                base_components_rel@,
            ) by {
                assert(all.push(*pr).drop_last() =~= all);
            }
        },
    }
}


// ---------------------------------------------------------------------------
// Bodies
// ---------------------------------------------------------------------------

/// The content type of an operation's request body: JSON for a referenced
/// body, else its first media type.
pub open spec fn content_type_of(op: Operation) -> Option<Seq<char>> {
    match op.request_body {
        None => None,
        Some(BodyRef::Ref(_)) => Some("application/json"@),
        Some(BodyRef::Body(b)) => if b.content@.len() > 0 {
            Some(b.content@[0].0@)
        } else {
            None
        },
    }
}

/// The content type of an operation's request body.
pub fn request_content_type(op: &Operation) -> (r: Option<String>)
    ensures
        match content_type_of(*op) {
            Some(c) => r matches Some(x) && x@ == c,
            None => r is None,
        },
{
    match &op.request_body {
        None => None,
        Some(BodyRef::Ref(_)) => Some(owned("application/json")),
        Some(BodyRef::Body(b)) => if b.content.len() > 0 {
            Some(owned(b.content[0].0.as_str()))
        } else {
            None
        },
    }
}

/// The property rows of an inline body schema: (name, required, type,
/// description), unescaped.
pub open spec fn inline_rows(s: Schema, base: Seq<char>) -> Seq<(Seq<char>, bool, Seq<char>, Seq<char>)> {
    s.properties@.map_values(
        |p: (String, SchemaRef)|
            (
                p.0@,
                strs(s.required@).contains(p.0@),
                match p.1 {
                    SchemaRef::Ref(r) => ref_link(r@, base),
                    SchemaRef::Inline(i) => type_text(*i, base + "/schemas"@),
                },
                match p.1 {
                    SchemaRef::Ref(_) => Seq::empty(),
                    SchemaRef::Inline(i) => opt_text(i.description),
                },
            ),
    )
}

/// The lines of an inline properties table.
pub open spec fn inline_rows_text(rows: Seq<(Seq<char>, bool, Seq<char>, Seq<char>)>) -> Seq<char>
    decreases rows.len(),
{
    if rows.len() == 0 {
        Seq::empty()
    } else {
        let r = rows.last();
        inline_rows_text(rows.drop_last()) + "| `"@ + r.0 + "` | "@ + (if r.1 {
            "Yes"@
        } else {
            "No"@
        }) + " | "@ + r.2 + " | "@ + r.3 + " |\n"@
    }
}

/// The property rows of an inline body schema.
pub fn schema_property_rows(schema: &Schema, base_components_rel: &str) -> (r: Vec<
    (String, bool, String, String),
>)
    ensures
        r@.map_values(|x: (String, bool, String, String)| (x.0@, x.1, x.2@, x.3@)) == inline_rows(
            *schema,
            base_components_rel@,
        ),
{
    let mut rows: Vec<(String, bool, String, String)> = Vec::new();
    let mut i: usize = 0;
    while i < schema.properties.len()
        invariant
            i <= schema.properties@.len(),
            rows@.map_values(|x: (String, bool, String, String)| (x.0@, x.1, x.2@, x.3@))
                == inline_rows(*schema, base_components_rel@).take(i as int),
        decreases schema.properties@.len() - i,
    {
        let name = &schema.properties[i].0;
        let (ty, desc) = match &schema.properties[i].1 {
            SchemaRef::Ref(r) => (ref_to_link(r.as_str(), base_components_rel), String::new()),
            SchemaRef::Inline(inner) => {
                let mut dir = chars_of(base_components_rel);
                extend_str(&mut dir, "/schemas");
                let d = string_of(dir.as_slice());
                (
                    schema_type_to_string(&**inner, d.as_str()),
                    match &inner.description {
                        Some(x) => owned(x.as_str()),
                        None => String::new(),
                    },
                )
            },
        };
        let req = crate::text::contains_string(schema.required.as_slice(), name.as_str());
        let ghost prev = rows@.map_values(|x: (String, bool, String, String)| (x.0@, x.1, x.2@, x.3@));
        let row = (owned(name.as_str()), req, ty, desc);
        let ghost rv = (row.0@, row.1, row.2@, row.3@);
        rows.push(row);
        assert(rows@.map_values(|x: (String, bool, String, String)| (x.0@, x.1, x.2@, x.3@)) =~= prev.push(
            rv,
        ));
        assert(inline_rows(*schema, base_components_rel@).take(i + 1) =~= inline_rows(
            *schema,
            base_components_rel@,
        ).take(i as int).push(inline_rows(*schema, base_components_rel@)[i as int]));
        i = i + 1;
    }
    assert(inline_rows(*schema, base_components_rel@).take(schema.properties@.len() as int)
        =~= inline_rows(*schema, base_components_rel@));
    rows
}

/// A form-encoded example: the object's members as `name=value` joined by
/// `&` (nothing for an example that is not an object).
pub open spec fn url_encoded(ex: Example) -> Seq<char> {
    match ex.fields {
        Some(fs) => join(fs@.map_values(|f: (String, String)| f.0@ + "="@ + f.1@), "&"@),
        None => Seq::empty(),
    }
}

/// The parts of a multipart example.
pub open spec fn multipart_parts(fs: Seq<(String, String)>) -> Seq<char>
    decreases fs.len(),
{
    if fs.len() == 0 {
        Seq::empty()
    } else {
        let f = fs.last();
        multipart_parts(fs.drop_last()) + "--boundary\nContent-Disposition: form-data; name=\""@ + f.0@
            + "\"\n\n"@ + f.1@ + "\n"@
    }
}

/// A multipart example: one part per member of the object, then the
/// closing boundary, trailing whitespace removed (nothing for an example
/// that is not an object).
pub open spec fn multipart(ex: Example) -> Seq<char> {
    match ex.fields {
        Some(fs) => trim_end(multipart_parts(fs@) + "--boundary--\n"@),
        None => Seq::empty(),
    }
}

/// Formats a form-encoded example.
pub fn url_encoded_example(ex: &Example) -> (r: String)
    ensures
        r@ == url_encoded(*ex),
{
    match &ex.fields {
        Some(fs) => {
            let mut parts: Vec<Vec<char>> = Vec::new();
            let mut i: usize = 0;
            while i < fs.len()
                invariant
                    i <= fs@.len(),
                    views(parts@) == fs@.take(i as int).map_values(
                        |f: (String, String)| f.0@ + "="@ + f.1@,
                    ),
                decreases fs@.len() - i,
            {
                let mut x = chars_of(fs[i].0.as_str());
                extend_str(&mut x, "=");
                extend_str(&mut x, fs[i].1.as_str());
                let ghost prev = views(parts@);
                parts.push(x);
                assert(views(parts@) =~= prev.push(x@));
                assert(fs@.take(i + 1).map_values(|f: (String, String)| f.0@ + "="@ + f.1@)
                    =~= fs@.take(i as int).map_values(|f: (String, String)| f.0@ + "="@ + f.1@).push(
                    fs@[i as int].0@ + "="@ + fs@[i as int].1@,
                ));
                i = i + 1;
            }
            assert(fs@.take(fs@.len() as int) =~= fs@);
            let mut sep: Vec<char> = Vec::new();
            extend_str(&mut sep, "&");
            let j = join_chars(parts.as_slice(), sep.as_slice());
            string_of(j.as_slice())
        },
        None => String::new(),
    }
}

/// Formats a multipart example.
pub fn multipart_example(ex: &Example) -> (r: String)
    ensures
        r@ == multipart(*ex),
{
    match &ex.fields {
        Some(fs) => {
            let mut out: Vec<char> = Vec::new();
            let mut i: usize = 0;
            while i < fs.len()
                invariant
                    i <= fs@.len(),
                    out@ == multipart_parts(fs@.take(i as int)),
                decreases fs@.len() - i,
            {
                assert(fs@.take(i + 1).drop_last() =~= fs@.take(i as int));
                assert(fs@.take(i + 1).last() == fs@[i as int]);
                extend_str(&mut out, "--boundary\nContent-Disposition: form-data; name=\"");
                extend_str(&mut out, fs[i].0.as_str());
                extend_str(&mut out, "\"\n\n");
                extend_str(&mut out, fs[i].1.as_str());
                extend_str(&mut out, "\n");
                assert(out@ =~= multipart_parts(fs@.take(i + 1)));
                i = i + 1;
            }
            assert(fs@.take(fs@.len() as int) =~= fs@);
            extend_str(&mut out, "--boundary--\n");
            let t = trim_end_chars(out.as_slice());
            string_of(t.as_slice())
        },
        None => String::new(),
    }
}

/// The example section of a body document, by content type.
pub open spec fn example_block(ctype: Seq<char>, ex: Example) -> Seq<char> {
    "\n#### Example Payload\n"@ + if ctype == "application/x-www-form-urlencoded"@ {
        "```text\n"@ + url_encoded(ex) + "\n```\n"@
    } else if ctype == "multipart/form-data"@ {
        "```text\n"@ + multipart(ex) + "\n```\n"@
    } else {
        "```json\n"@ + ex.pretty@ + "\n```\n"@
    }
}

/// The table head of an inline properties table.
pub open spec fn inline_head() -> Seq<char> {
    "| Property | Required | Type | Description |\n| :--- | :---: | :--- | :--- |\n"@
}

/// The document of a body of one media type: its schema as a link, a
/// properties table or its type, and its example.
pub open spec fn body_doc(title: Seq<char>, ctype: Seq<char>, mt: MediaType, base: Seq<char>) -> Seq<char> {
    match mt.schema {
        None => "No schema provided for `"@ + ctype + "`."@,
        Some(sr) => title + " (`"@ + ctype + "`)\n"@ + match sr {
            SchemaRef::Ref(r) => ref_link(r@, base) + "\n"@,
            SchemaRef::Inline(s) => inline_schema_text(*s, ctype, base),
        },
    }
}

/// The part of a body document for an inline schema: its properties table
/// (or, without properties, its array type or a note), then its example.
pub open spec fn inline_schema_text(s: Schema, ctype: Seq<char>, base: Seq<char>) -> Seq<char> {
    rows_or_kind(s, base) + match schema_example(s) {
        Some(ex) => example_block(ctype, ex),
        None => Seq::empty(),
    }
}

/// The properties table of an inline schema, or without properties its
/// array type or a note.
pub open spec fn rows_or_kind(s: Schema, base: Seq<char>) -> Seq<char> {
    let rows = inline_rows(s, base);
    let k = type_text(s, base + "/schemas"@);
    if rows.len() > 0 {
        inline_head() + inline_rows_text(rows)
    } else if "array<"@.is_prefix_of(k) {
        k + "\n"@
    } else {
        "*(No object properties found)*\n"@
    }
}

/// Appends the part of a body document for an inline schema.
fn push_rows_or_kind(out: &mut Vec<char>, s: &Schema, base_components_rel: &str)
    ensures
        final(out)@ == old(out)@ + rows_or_kind(*s, base_components_rel@),
{
    let ghost start0 = out@;
    let rows = schema_property_rows(s, base_components_rel);
    let ghost rv = inline_rows(*s, base_components_rel@);
    if rows.len() > 0 {
        extend_str(
            out,
            "| Property | Required | Type | Description |\n| :--- | :---: | :--- | :--- |\n",
        );
        let ghost start = out@;
        let mut i: usize = 0;
        while i < rows.len()
            invariant
                i <= rows@.len(),
                rows@.map_values(
                    |x: (String, bool, String, String)| (x.0@, x.1, x.2@, x.3@),
                ) == rv,
                out@ == start + inline_rows_text(rv.take(i as int)),
            decreases rows@.len() - i,
        {
            assert(rv.take(i + 1).drop_last() =~= rv.take(i as int));
            assert(rv.take(i + 1).last() == rv[i as int]);
            extend_str(out, "| `");
            extend_str(out, rows[i].0.as_str());
            extend_str(out, "` | ");
            extend_str(out, if rows[i].1 { "Yes" } else { "No" });
            extend_str(out, " | ");
            extend_str(out, rows[i].2.as_str());
            extend_str(out, " | ");
            extend_str(out, rows[i].3.as_str());
            extend_str(out, " |\n");
            assert(out@ =~= start + inline_rows_text(rv.take(i + 1)));
            i = i + 1;
        }
        assert(rv.take(rows@.len() as int) =~= rv);
    } else {
        let mut dir = chars_of(base_components_rel);
        extend_str(&mut dir, "/schemas");
        let d = string_of(dir.as_slice());
        let k = schema_type_to_string(s, d.as_str());
        let kc = chars_of(k.as_str());
        if crate::text::starts_with_str(kc.as_slice(), "array<") {
            extend_str(out, k.as_str());
            extend_str(out, "\n");
        } else {
            extend_str(out, "*(No object properties found)*\n");
        }
    }
    assert(out@ =~= start0 + rows_or_kind(*s, base_components_rel@));
}

/// The example a schema documents: its `example`, else its `default`.
pub open spec fn schema_example(s: Schema) -> Option<Example> {
    match s.example {
        Some(ex) => Some(ex),
        None => s.default,
    }
}

/// The example a schema documents (see [`schema_example`]).
pub fn schema_example_json(s: &Schema) -> (r: Option<&Example>)
    ensures
        r.is_some() == schema_example(*s).is_some(),
        r.is_some() ==> *r.unwrap() == schema_example(*s).unwrap(),
{
    match &s.example {
        Some(ex) => Some(ex),
        None => match &s.default {
            Some(d) => Some(d),
            None => None,
        },
    }
}

/// Appends the example section of an inline schema.
fn push_example(out: &mut Vec<char>, s: &Schema, ctype: &str)
    ensures
        final(out)@ == old(out)@ + match schema_example(*s) {
            Some(ex) => example_block(ctype@, ex),
            None => Seq::empty(),
        },
{
    let ghost start0 = out@;
    if let Some(ex) = schema_example_json(s) {
        extend_str(out, "\n#### Example Payload\n");
        if crate::text::str_eq(ctype, "application/x-www-form-urlencoded") {
            extend_str(out, "```text\n");
            let u = url_encoded_example(ex);
            extend_str(out, u.as_str());
            extend_str(out, "\n```\n");
        } else if crate::text::str_eq(ctype, "multipart/form-data") {
            extend_str(out, "```text\n");
            let m = multipart_example(ex);
            extend_str(out, m.as_str());
            extend_str(out, "\n```\n");
        } else {
            extend_str(out, "```json\n");
            extend_str(out, ex.pretty.as_str());
            extend_str(out, "\n```\n");
        }
    }
    assert(out@ =~= start0 + match schema_example(*s) {
        Some(ex) => example_block(ctype@, ex),
        None => Seq::empty(),
    });
}

/// Appends the part of a body document for an inline schema.
fn push_inline_schema(out: &mut Vec<char>, s: &Schema, ctype: &str, base_components_rel: &str)
    ensures
        final(out)@ == old(out)@ + inline_schema_text(*s, ctype@, base_components_rel@),
{
    let ghost start0 = out@;
    push_rows_or_kind(out, s, base_components_rel);
    push_example(out, s, ctype);
    assert(out@ =~= start0 + inline_schema_text(*s, ctype@, base_components_rel@));
}

/// Renders the document of a body of one media type.
pub fn inline_body_doc(title_prefix: &str, ctype: &str, media_type: &MediaType, base_components_rel: &str) -> (r:
    String)
    ensures
        r@ == body_doc(title_prefix@, ctype@, *media_type, base_components_rel@),
{
    let mut out: Vec<char> = Vec::new();
    match &media_type.schema {
        None => {
            extend_str(&mut out, "No schema provided for `");
            extend_str(&mut out, ctype);
            extend_str(&mut out, "`.");
        },
        Some(sr) => {
            extend_str(&mut out, title_prefix);
            extend_str(&mut out, " (`");
            extend_str(&mut out, ctype);
            extend_str(&mut out, "`)\n");
            match sr {
                SchemaRef::Ref(r) => {
                    let l = ref_to_link(r.as_str(), base_components_rel);
                    extend_str(&mut out, l.as_str());
                    extend_str(&mut out, "\n");
                },
                SchemaRef::Inline(sc) => {
                    push_inline_schema(&mut out, &**sc, ctype, base_components_rel);
                },
            }
        },
    }
    assert(out@ =~= body_doc(title_prefix@, ctype@, *media_type, base_components_rel@));
    string_of(out.as_slice())
}

/// The list of content types of a request body.
pub open spec fn ctype_list(cs: Seq<(String, MediaType)>) -> Seq<char>
    decreases cs.len(),
{
    if cs.len() == 0 {
        Seq::empty()
    } else {
        ctype_list(cs.drop_last()) + "- `"@ + cs.last().0@ + "`\n"@
    }
}

/// The documents of each media type, each after a blank line.
pub open spec fn body_docs(title: Seq<char>, cs: Seq<(String, MediaType)>, base: Seq<char>) -> Seq<char>
    decreases cs.len(),
{
    if cs.len() == 0 {
        Seq::empty()
    } else {
        body_docs(title, cs.drop_last(), base) + "\n"@ + body_doc(title, cs.last().0@, cs.last().1, base)
    }
}

/// Appends the documents of each media type.
fn push_body_docs(out: &mut Vec<char>, title: &str, cs: &[(String, MediaType)], base: &str)
    ensures
        final(out)@ == old(out)@ + body_docs(title@, cs@, base@),
{
    let ghost start = out@;
    let mut i: usize = 0;
    while i < cs.len()
        invariant
            i <= cs@.len(),
            out@ == start + body_docs(title@, cs@.take(i as int), base@),
        decreases cs@.len() - i,
    {
        assert(cs@.take(i + 1).drop_last() =~= cs@.take(i as int));
        assert(cs@.take(i + 1).last() == cs@[i as int]);
        extend_str(out, "\n");
        let d = inline_body_doc(title, cs[i].0.as_str(), &cs[i].1, base);
        extend_str(out, d.as_str());
        assert(out@ =~= start + body_docs(title@, cs@.take(i + 1), base@));
        i = i + 1;
    }
    assert(cs@.take(cs@.len() as int) =~= cs@);
}

/// The request body section of a route document: a link for a referenced
/// body; else its content types and the document of each, trailing
/// whitespace removed; nothing without a body.
pub open spec fn request_body_doc(op: Operation, base: Seq<char>) -> Seq<char> {
    match op.request_body {
        None => Seq::empty(),
        Some(BodyRef::Ref(r)) => ref_link(r@, base),
        Some(BodyRef::Body(b)) => if b.content@.len() == 0 {
            "Request body present but no media type entries"@
        } else {
            trim_end(
                "Supported content types:\n"@ + ctype_list(b.content@) + body_docs(
                    "### Inline Request Schema"@,
                    b.content@,
                    base,
                ),
            )
        },
    }
}

/// Renders the request body section of a route document.
pub fn request_body_text(op: &Operation, base_components_rel: &str) -> (r: String)
    ensures
        r@ == request_body_doc(*op, base_components_rel@),
{
    match &op.request_body {
        None => String::new(),
        Some(BodyRef::Ref(r)) => ref_to_link(r.as_str(), base_components_rel),
        Some(BodyRef::Body(b)) => {
            if b.content.len() == 0 {
                return owned("Request body present but no media type entries");
            }
            let mut out: Vec<char> = Vec::new();
            extend_str(&mut out, "Supported content types:\n");
            let ghost head = out@;
            let mut i: usize = 0;
            while i < b.content.len()
                invariant
                    i <= b.content@.len(),
                    out@ == head + ctype_list(b.content@.take(i as int)),
                decreases b.content@.len() - i,
            {
                assert(b.content@.take(i + 1).drop_last() =~= b.content@.take(i as int));
                assert(b.content@.take(i + 1).last() == b.content@[i as int]);
                extend_str(&mut out, "- `");
                extend_str(&mut out, b.content[i].0.as_str());
                extend_str(&mut out, "`\n");
                assert(out@ =~= head + ctype_list(b.content@.take(i + 1)));
                i = i + 1;
            }
            assert(b.content@.take(b.content@.len() as int) =~= b.content@);
            push_body_docs(&mut out, "### Inline Request Schema", b.content.as_slice(), base_components_rel);
            let t = trim_end_chars(out.as_slice());
            string_of(t.as_slice())
        },
    }
}

// ---------------------------------------------------------------------------
// Responses
// ---------------------------------------------------------------------------

/// One response of a route document.
#[derive(Debug)]
pub struct ResponseRow {
    pub status: String,
    pub description: String,
    pub headers: Vec<ParamRow>,
    pub content: String,
}

/// The header rows of a response.
pub open spec fn response_header_rows(hs: Seq<(String, HeaderRef)>, base: Seq<char>) -> Seq<
    (Seq<char>, Seq<char>, Seq<char>, Seq<char>),
> {
    hs.map_values(
        |h: (String, HeaderRef)|
            match h.1 {
                HeaderRef::Ref(r) => (h.0@ + " (ref)"@, "Unknown"@, ref_link(r@, base), Seq::empty()),
                HeaderRef::Header(x) => header_row(h.0@, x, base),
            },
    )
}

/// What a response shows: its description, its headers and the documents
/// of its content (leading whitespace removed); a referenced response is a
/// link.
pub open spec fn response_info(r: ResponseRef, base: Seq<char>) -> (
    Seq<char>,
    Seq<(Seq<char>, Seq<char>, Seq<char>, Seq<char>)>,
    Seq<char>,
) {
    match r {
        ResponseRef::Ref(x) => ("Reference: "@ + ref_link(x@, base), Seq::empty(), Seq::empty()),
        ResponseRef::Response(resp) => (
            opt_text(resp.description),
            response_header_rows(resp.headers@, base),
            trim_start(body_docs("#### Response Schema"@, resp.content@, base)),
        ),
    }
}

/// Reads one response.
pub fn extract_response_details(response_ref: &ResponseRef, base_components_rel: &str) -> (r: (
    String,
    Vec<ParamRow>,
    String,
))
    ensures
        r.0@ == response_info(*response_ref, base_components_rel@).0,
        prows(r.1@) == response_info(*response_ref, base_components_rel@).1,
        r.2@ == response_info(*response_ref, base_components_rel@).2,
{
    match response_ref {
        ResponseRef::Ref(reference) => {
            let mut d: Vec<char> = Vec::new();
            extend_str(&mut d, "Reference: ");
            let l = ref_to_link(reference.as_str(), base_components_rel);
            extend_str(&mut d, l.as_str());
            let hs: Vec<ParamRow> = Vec::new();
            assert(prows(hs@) =~= Seq::empty());
            (string_of(d.as_slice()), hs, String::new())
        },
        ResponseRef::Response(item) => {
            let mut headers: Vec<ParamRow> = Vec::new();
            let mut i: usize = 0;
            while i < item.headers.len()
                invariant
                    i <= item.headers@.len(),
                    prows(headers@) == response_header_rows(item.headers@, base_components_rel@).take(
                        i as int,
                    ),
                decreases item.headers@.len() - i,
            {
                let name = &item.headers[i].0;
                let row = match &item.headers[i].1 {
                    HeaderRef::Ref(reference) => {
                        let mut n = chars_of(name.as_str());
                        extend_str(&mut n, " (ref)");
                        ParamRow {
                            name: string_of(n.as_slice()),
                            required: owned("Unknown"),
                            param_type: ref_to_link(reference.as_str(), base_components_rel),
                            description: String::new(),
                        }
                    },
                    HeaderRef::Header(h) => row_from_header(name.as_str(), h, base_components_rel),
                };
                let ghost prev = prows(headers@);
                let ghost rv = prow(row);
                headers.push(row);
                assert(prows(headers@) =~= prev.push(rv));
                assert(response_header_rows(item.headers@, base_components_rel@).take(i + 1)
                    =~= response_header_rows(item.headers@, base_components_rel@).take(i as int).push(
                    response_header_rows(item.headers@, base_components_rel@)[i as int],
                ));
                i = i + 1;
            }
            assert(response_header_rows(item.headers@, base_components_rel@).take(
                item.headers@.len() as int,
            ) =~= response_header_rows(item.headers@, base_components_rel@));
            let mut out: Vec<char> = Vec::new();
            push_body_docs(&mut out, "#### Response Schema", item.content.as_slice(), base_components_rel);
            assert(out@ =~= body_docs("#### Response Schema"@, item.content@, base_components_rel@));
            let t = trim_start_chars(out.as_slice());
            let desc = match &item.description {
                Some(d) => owned(d.as_str()),
                None => String::new(),
            };
            (desc, headers, string_of(t.as_slice()))
        },
    }
}

/// The responses of an operation, by status in order.
pub open spec fn response_list(op: Operation, base: Seq<char>) -> Seq<
    (Seq<char>, Seq<char>, Seq<(Seq<char>, Seq<char>, Seq<char>, Seq<char>)>, Seq<char>),
> {
    match op.responses {
        None => Seq::empty(),
        Some(rs) => rs@.map_values(
            |x: (String, ResponseRef)|
                {
                    let info = response_info(x.1, base);
                    (x.0@, info.0, info.1, info.2)
                },
        ),
    }
}

/// A response row as (status, description, headers, content).
pub open spec fn rrow(r: ResponseRow) -> (
    Seq<char>,
    Seq<char>,
    Seq<(Seq<char>, Seq<char>, Seq<char>, Seq<char>)>,
    Seq<char>,
) {
    (r.status@, r.description@, prows(r.headers@), r.content@)
}

/// The responses of an operation.
pub fn response_rows(op: &Operation, base_components_rel: &str) -> (r: Vec<ResponseRow>)
    ensures
        r@.map_values(|x: ResponseRow| rrow(x)) == response_list(*op, base_components_rel@),
{
    let mut rows: Vec<ResponseRow> = Vec::new();
    match &op.responses {
        None => {
            assert(rows@.map_values(|x: ResponseRow| rrow(x)) =~= Seq::empty());
        },
        Some(rs) => {
            let mut i: usize = 0;
            while i < rs.len()
                invariant
                    i <= rs@.len(),
                    op.responses == Some(*rs),
                    rows@.map_values(|x: ResponseRow| rrow(x)) == response_list(
                        *op,
                        base_components_rel@,
                    ).take(i as int),
                decreases rs@.len() - i,
            {
                let (desc, headers, content) = extract_response_details(&rs[i].1, base_components_rel);
                let row = ResponseRow { status: owned(rs[i].0.as_str()), description: desc, headers, content };
                let ghost prev = rows@.map_values(|x: ResponseRow| rrow(x));
                let ghost rv = rrow(row);
                rows.push(row);
                assert(rows@.map_values(|x: ResponseRow| rrow(x)) =~= prev.push(rv));
                assert(response_list(*op, base_components_rel@).take(i + 1) =~= response_list(
                    *op,
                    base_components_rel@,
                ).take(i as int).push(response_list(*op, base_components_rel@)[i as int]));
                i = i + 1;
            }
            assert(response_list(*op, base_components_rel@).take(rs@.len() as int) =~= response_list(
                *op,
                base_components_rel@,
            ));
        },
    }
    rows
}

// ---------------------------------------------------------------------------
// Route documents
// ---------------------------------------------------------------------------

/// The head of a parameter table.
pub open spec fn table_head() -> Seq<char> {
    "| Name | Required | Type | Description |\n| :--- | :------: | :--- | :---------- |\n"@
}

/// The lines of a parameter table.
pub open spec fn param_rows_text(rows: Seq<(Seq<char>, Seq<char>, Seq<char>, Seq<char>)>) -> Seq<char>
    decreases rows.len(),
{
    if rows.len() == 0 {
        Seq::empty()
    } else {
        let r = rows.last();
        param_rows_text(rows.drop_last()) + "| `"@ + r.0 + "` | "@ + r.1 + " | "@ + r.2 + " | "@ + r.3
            + " |\n"@
    }
}

/// A parameter table, or `_(None)_` without rows.
pub open spec fn table_or_none(rows: Seq<(Seq<char>, Seq<char>, Seq<char>, Seq<char>)>) -> Seq<char> {
    if rows.len() == 0 {
        "_(None)_\n"@
    } else {
        table_head() + param_rows_text(rows)
    }
}

/// A titled parameter table, or nothing without rows.
pub open spec fn optional_table(title: Seq<char>, rows: Seq<(Seq<char>, Seq<char>, Seq<char>, Seq<char>)>) -> Seq<
    char,
> {
    if rows.len() == 0 {
        Seq::empty()
    } else {
        "## "@ + title + "\n\n"@ + table_head() + param_rows_text(rows)
    }
}

/// The section of one response.
pub open spec fn response_text(
    r: (Seq<char>, Seq<char>, Seq<(Seq<char>, Seq<char>, Seq<char>, Seq<char>)>, Seq<char>),
) -> Seq<char> {
    "### "@ + r.0 + "\n\n"@ + (if r.1.len() > 0 {
        r.1 + "\n\n"@
    } else {
        Seq::empty()
    }) + (if r.2.len() > 0 {
        "#### Headers\n\n"@ + table_head() + param_rows_text(r.2) + "\n\n"@
    } else {
        Seq::empty()
    }) + (if r.3.len() > 0 {
        r.3 + "\n\n"@
    } else {
        Seq::empty()
    })
}

/// The sections of the responses.
pub open spec fn responses_text(
    rs: Seq<(Seq<char>, Seq<char>, Seq<(Seq<char>, Seq<char>, Seq<char>, Seq<char>)>, Seq<char>)>,
) -> Seq<char>
    decreases rs.len(),
{
    if rs.len() == 0 {
        Seq::empty()
    } else {
        responses_text(rs.drop_last()) + response_text(rs.last())
    }
}

/// Appends the lines of a parameter table.
fn push_param_rows(out: &mut Vec<char>, rows: &[ParamRow])
    ensures
        final(out)@ == old(out)@ + param_rows_text(prows(rows@)),
{
    let ghost start = out@;
    let mut i: usize = 0;
    while i < rows.len()
        invariant
            i <= rows@.len(),
            out@ == start + param_rows_text(prows(rows@).take(i as int)),
        decreases rows@.len() - i,
    {
        assert(prows(rows@).take(i + 1).drop_last() =~= prows(rows@).take(i as int));
        assert(prows(rows@).take(i + 1).last() == prow(rows@[i as int]));
        extend_str(out, "| `");
        extend_str(out, rows[i].name.as_str());
        extend_str(out, "` | ");
        extend_str(out, rows[i].required.as_str());
        extend_str(out, " | ");
        extend_str(out, rows[i].param_type.as_str());
        extend_str(out, " | ");
        extend_str(out, rows[i].description.as_str());
        extend_str(out, " |\n");
        assert(out@ =~= start + param_rows_text(prows(rows@).take(i + 1)));
        i = i + 1;
    }
    assert(prows(rows@).take(rows@.len() as int) =~= prows(rows@));
}

/// Appends a parameter table or `_(None)_`.
fn push_table_or_none(out: &mut Vec<char>, rows: &[ParamRow])
    ensures
        final(out)@ == old(out)@ + table_or_none(prows(rows@)),
{
    let ghost start = out@;
    if rows.len() == 0 {
        extend_str(out, "_(None)_\n");
    } else {
        extend_str(out, "| Name | Required | Type | Description |\n| :--- | :------: | :--- | :---------- |\n");
        push_param_rows(out, rows);
    }
    assert(out@ =~= start + table_or_none(prows(rows@)));
}

/// Appends a titled parameter table, if there are rows.
fn push_optional_table(out: &mut Vec<char>, title: &str, rows: &[ParamRow])
    ensures
        final(out)@ == old(out)@ + optional_table(title@, prows(rows@)),
{
    let ghost start = out@;
    if rows.len() > 0 {
        extend_str(out, "## ");
        extend_str(out, title);
        extend_str(out, "\n\n");
        extend_str(out, "| Name | Required | Type | Description |\n| :--- | :------: | :--- | :---------- |\n");
        push_param_rows(out, rows);
    }
    assert(out@ =~= start + optional_table(title@, prows(rows@)));
}

/// Appends the section of one response.
fn push_response(out: &mut Vec<char>, r: &ResponseRow)
    ensures
        final(out)@ == old(out)@ + response_text(rrow(*r)),
{
    let ghost before = out@;
    extend_str(out, "### ");
    extend_str(out, r.status.as_str());
    extend_str(out, "\n\n");
    if !r.description.as_str().is_empty() {
        extend_str(out, r.description.as_str());
        extend_str(out, "\n\n");
    }
    let ghost mid = out@;
    if r.headers.len() > 0 {
        extend_str(out, "#### Headers\n\n");
        extend_str(out, "| Name | Required | Type | Description |\n| :--- | :------: | :--- | :---------- |\n");
        push_param_rows(out, r.headers.as_slice());
        extend_str(out, "\n\n");
    }
    assert(out@ =~= mid + (if prows(r.headers@).len() > 0 {
        "#### Headers\n\n"@ + table_head() + param_rows_text(prows(r.headers@)) + "\n\n"@
    } else {
        Seq::empty()
    }));
    if !r.content.as_str().is_empty() {
        extend_str(out, r.content.as_str());
        extend_str(out, "\n\n");
    }
    assert(out@ =~= before + response_text(rrow(*r)));
}

/// Appends the sections of the responses.
fn push_responses(out: &mut Vec<char>, rows: &[ResponseRow])
    ensures
        final(out)@ == old(out)@ + responses_text(rows@.map_values(|x: ResponseRow| rrow(x))),
{
    let ghost start = out@;
    let ghost rv = rows@.map_values(|x: ResponseRow| rrow(x));
    let mut i: usize = 0;
    while i < rows.len()
        invariant
            i <= rows@.len(),
            rv == rows@.map_values(|x: ResponseRow| rrow(x)),
            out@ == start + responses_text(rv.take(i as int)),
        decreases rows@.len() - i,
    {
        assert(rv.take(i + 1).drop_last() =~= rv.take(i as int));
        assert(rv.take(i + 1).last() == rrow(rows@[i as int]));
        push_response(out, &rows[i]);
        assert(out@ =~= start + responses_text(rv.take(i + 1)));
        i = i + 1;
    }
    assert(rv.take(rows@.len() as int) =~= rv);
}

/// The frontmatter and heading of a route document.
pub open spec fn route_head(
    method: Seq<char>,
    url: Seq<char>,
    auth: Option<Seq<char>>,
    content_type: Seq<char>,
    summary: Seq<char>,
    description: Seq<char>,
) -> Seq<char> {
    "---\nmethod: \""@ + method + "\"\nurl: \""@ + url + "\""@ + match auth {
        Some(a) => "\nauth: \""@ + a + "\""@,
        None => Seq::empty(),
    } + "\ncontent_type: \""@ + content_type + "\"\n---\n\n# "@ + summary + "\n\n"@ + if description.len()
        > 0 {
        description + "\n\n"@
    } else {
        Seq::empty()
    }
}

/// The frontmatter YAML of a route document.
pub open spec fn route_yaml(method: Seq<char>, url: Seq<char>, auth: Option<Seq<char>>, content_type: Seq<char>) -> Seq<char> {
    "method: \""@ + method + "\"\nurl: \""@ + url + "\""@ + match auth {
        Some(a) => "\nauth: \""@ + a + "\""@,
        None => Seq::empty(),
    } + "\ncontent_type: \""@ + content_type + "\""@
}

proof fn lemma_literal_no_marker(s: Seq<char>)
    requires
        forall|i: int| 0 <= i < s.len() ==> s[i] != '-',
    ensures
        !contains(s, crate::vault::frontmatter::marker()),
{
    crate::vault::frontmatter::lemma_no_dash_no_marker(s);
}

proof fn lemma_route_yaml_no_marker(
    method: Seq<char>,
    url: Seq<char>,
    auth: Option<Seq<char>>,
    content_type: Seq<char>,
)
    requires
        !contains(method, marker()),
        !contains(url, marker()),
        !contains(content_type, marker()),
        auth matches Some(a) ==> !contains(a, marker()),
    ensures
        !contains(route_yaml(method, url, auth, content_type), marker()),
        route_yaml(method, url, auth, content_type).len() > 0,
        route_yaml(method, url, auth, content_type)[0] == 'm',
        route_yaml(method, url, auth, content_type).last() == '"',
{
    reveal_strlit("\"\nurl: \"");
    reveal_strlit("\"");
    reveal_strlit("\nauth: \"");
    reveal_strlit("\ncontent_type: \"");
    reveal_strlit("method: \"");
    let l1 = "method: \""@;
    let l2 = "\"\nurl: \""@;
    let l3 = "\""@;
    let l4 = "\ncontent_type: \""@;
    let ap = match auth {
        Some(a) => "\nauth: \""@ + a + "\""@,
        None => Seq::<char>::empty(),
    };
    lemma_literal_no_marker(l1);
    lemma_literal_no_marker(l2);
    lemma_literal_no_marker(l3);
    lemma_literal_no_marker(l4);
    lemma_literal_no_marker("\nauth: \""@);
    match auth {
        Some(a) => {
            let x = "\nauth: \""@ + a;
            lemma_join_no_marker("\nauth: \""@, a);
            lemma_join_no_marker(x, l3);
        },
        None => {
            lemma_literal_no_marker(ap);
        },
    }
    let y1 = l1 + method;
    lemma_join_no_marker(l1, method);
    let y2 = y1 + l2;
    lemma_join_no_marker(y1, l2);
    let y3 = y2 + url;
    assert(y2.last() == l2.last());
    lemma_join_no_marker(y2, url);
    let y4 = y3 + l3;
    lemma_join_no_marker(y3, l3);
    let y5 = y4 + ap;
    assert(y4.last() == '"');
    lemma_join_no_marker(y4, ap);
    let y6 = y5 + l4;
    lemma_join_no_marker(y5, l4);
    let y7 = y6 + content_type;
    assert(y6.last() == l4.last());
    lemma_join_no_marker(y6, content_type);
    let y = y7 + l3;
    lemma_join_no_marker(y7, l3);
    assert(y =~= route_yaml(method, url, auth, content_type));
    assert(y[0] == 'm');
}

proof fn lemma_route_head_shape(
    method: Seq<char>,
    url: Seq<char>,
    auth: Option<Seq<char>>,
    content_type: Seq<char>,
    summary: Seq<char>,
    description: Seq<char>,
    tail: Seq<char>,
)
    ensures
        route_head(method, url, auth, content_type, summary, description) + tail == marker() + seq![
            '\n',
        ] + route_yaml(method, url, auth, content_type) + seq!['\n'] + marker() + seq!['\n'] + (
        "\n# "@ + summary + "\n\n"@ + (if description.len() > 0 {
            description + "\n\n"@
        } else {
            Seq::empty()
        }) + tail),
{
    reveal_strlit("---\nmethod: \"");
    reveal_strlit("\"\n---\n\n# ");
    reveal_strlit("\"");
    reveal_strlit("method: \"");
    reveal_strlit("\n# ");
    assert("---\nmethod: \""@ =~= marker() + seq!['\n'] + "method: \""@);
    assert("\"\n---\n\n# "@ =~= "\""@ + seq!['\n'] + marker() + seq!['\n'] + "\n# "@);
    assert(route_head(method, url, auth, content_type, summary, description) + tail =~= marker() + seq![
            '\n',
        ] + route_yaml(method, url, auth, content_type) + seq!['\n'] + marker() + seq!['\n'] + (
        "\n# "@ + summary + "\n\n"@ + (if description.len() > 0 {
            description + "\n\n"@
        } else {
            Seq::empty()
        }) + tail));
}

/// A route document reads back as written: its frontmatter is the YAML of
/// its method, URL, authentication and content type, and its body starts
/// at the summary heading, when none of those four values holds `---`.
pub proof fn law_route_document_frontmatter(
    method: Seq<char>,
    url: Seq<char>,
    auth: Option<Seq<char>>,
    content_type: Seq<char>,
    summary: Seq<char>,
    description: Seq<char>,
    tail: Seq<char>,
)
    requires
        !contains(method, marker()),
        !contains(url, marker()),
        !contains(content_type, marker()),
        auth matches Some(a) ==> !contains(a, marker()),
    ensures
        crate::vault::frontmatter::split_frontmatter(
            route_head(method, url, auth, content_type, summary, description) + tail,
        ) == Ok::<(Seq<char>, Seq<char>), Seq<char>>(
            (
                route_yaml(method, url, auth, content_type),
                "# "@ + summary + "\n\n"@ + (if description.len() > 0 {
                    description + "\n\n"@
                } else {
                    Seq::empty()
                }) + tail,
            ),
        ),
{
    reveal_strlit("\n# ");
    reveal_strlit("# ");
    let y = route_yaml(method, url, auth, content_type);
    lemma_route_yaml_no_marker(method, url, auth, content_type);
    lemma_route_head_shape(method, url, auth, content_type, summary, description, tail);
    assert(!crate::text::is_ws('m'));
    assert(!crate::text::is_ws('"'));
    let rest = "# "@ + summary + "\n\n"@ + (if description.len() > 0 {
        description + "\n\n"@
    } else {
        Seq::empty()
    }) + tail;
    let body = "\n# "@ + summary + "\n\n"@ + (if description.len() > 0 {
        description + "\n\n"@
    } else {
        Seq::empty()
    }) + tail;
    crate::vault::frontmatter::law_frontmatter_round_trip(y, body);
    assert(crate::text::is_ws(body[0]));
    assert(body.drop_first() =~= rest);
    assert(!crate::text::is_ws(rest[0]));
    assert(crate::text::trim_start(body) == crate::text::trim_start(rest));
}

/// A route document: frontmatter (method, URL, authentication when it
/// differs from the API's, content type), summary and description, the
/// parameter tables by location, the request body and the responses.
pub open spec fn route_doc(
    head: Seq<char>,
    path_rows: Seq<(Seq<char>, Seq<char>, Seq<char>, Seq<char>)>,
    query_rows: Seq<(Seq<char>, Seq<char>, Seq<char>, Seq<char>)>,
    header_rows: Seq<(Seq<char>, Seq<char>, Seq<char>, Seq<char>)>,
    cookie_rows: Seq<(Seq<char>, Seq<char>, Seq<char>, Seq<char>)>,
    body: Seq<char>,
    responses: Seq<(Seq<char>, Seq<char>, Seq<(Seq<char>, Seq<char>, Seq<char>, Seq<char>)>, Seq<char>)>,
) -> Seq<char> {
    head + route_tail(path_rows, query_rows, header_rows, cookie_rows, body, responses)
}

/// A route document after its heading.
pub open spec fn route_tail(
    path_rows: Seq<(Seq<char>, Seq<char>, Seq<char>, Seq<char>)>,
    query_rows: Seq<(Seq<char>, Seq<char>, Seq<char>, Seq<char>)>,
    header_rows: Seq<(Seq<char>, Seq<char>, Seq<char>, Seq<char>)>,
    cookie_rows: Seq<(Seq<char>, Seq<char>, Seq<char>, Seq<char>)>,
    body: Seq<char>,
    responses: Seq<(Seq<char>, Seq<char>, Seq<(Seq<char>, Seq<char>, Seq<char>, Seq<char>)>, Seq<char>)>,
) -> Seq<char> {
    "## Path Parameters\n\n"@ + table_or_none(path_rows) + "\n\n## Query Parameters\n\n"@
        + table_or_none(query_rows) + "\n"@ + optional_table("Header Parameters"@, header_rows)
        + optional_table("Cookie Parameters"@, cookie_rows) + "\n\n## Request Body\n\n"@ + (if body.len()
        == 0 {
        "_(None)_\n"@
    } else {
        body + "\n"@
    }) + "\n\n## Responses\n\n"@ + responses_text(responses)
}

/// The authentication a route document records: the operation's, unless it
/// is the API's own.
pub open spec fn route_auth(parsed: ParsedSpec, op: Operation) -> Option<Seq<char>> {
    let a = crate::build::parser::security_summary(op.security@, parsed.spec.components);
    if a == parsed.auth@ {
        None
    } else {
        Some(a)
    }
}

/// The document of one operation of a route path.
pub open spec fn operation_doc(
    parsed: ParsedSpec,
    path: Seq<char>,
    item: PathItem,
    method: Seq<char>,
    op: Operation,
) -> Seq<char> {
    let base = components_rel(path);
    let all = item.parameters@ + op.parameters@;
    route_doc(
        route_head(
            method,
            parsed.base_url@ + path,
            route_auth(parsed, op),
            match content_type_of(op) {
                Some(c) => c,
                None => "application/json"@,
            },
            match op.summary {
                Some(x) => x@,
                None => method,
            },
            opt_text(op.description),
        ),
        bucket_rows(all, ParamLocation::Path, base),
        bucket_rows(all, ParamLocation::Query, base),
        bucket_rows(all, ParamLocation::Header, base),
        bucket_rows(all, ParamLocation::Cookie, base),
        request_body_doc(op, base),
        response_list(op, base),
    )
}

/// Where an operation's document goes, relative to the version directory:
/// `<path parts>/<METHOD>.md`.
pub open spec fn operation_file(path: Seq<char>, method: Seq<char>) -> Seq<char> {
    crate::paths::join(crate::paths::join_all(Seq::empty(), segments(path, '/')), method + ".md"@)
}

/// A path joined with a non-empty name that does not start with `/` ends
/// with the name's last character.
proof fn lemma_join_ends_with(base: Seq<char>, name: Seq<char>)
    requires
        name.len() > 0,
        name[0] != '/',
    ensures
        crate::paths::join(base, name).len() > 0,
        crate::paths::join(base, name).last() == name.last(),
{
}

/// The file an import writes for an operation is the file `show`, `peek`
/// and `call` look up for its route in the local source: the route
/// `<namespace>/<version>/<path>/<METHOD>` has as its parts the namespace,
/// the version, the path's segments and the method, and the route file of
/// those parts is where the operation's document was written under the
/// local source's version directory (for plain names: non-empty, without
/// `/`, and a method without `.`).
pub proof fn law_imported_route_is_found(
    home: Seq<char>,
    namespace: Seq<char>,
    version: Seq<char>,
    path: Seq<char>,
    method: Seq<char>,
)
    requires
        namespace.len() > 0,
        !namespace.contains('/'),
        version.len() > 0,
        !version.contains('/'),
        method.len() > 0,
        !method.contains('/'),
        !method.contains('.'),
    ensures
        ({
            let route = namespace + "/"@ + version + "/"@ + path + "/"@ + method;
            let parts = segments(route, '/');
            let root = crate::paths::join(
                crate::paths::join(crate::vault::resolver::source_root_spec(home, ".local"@), namespace),
                version,
            );
            &&& parts == seq![namespace, version] + segments(path, '/') + seq![method]
            &&& crate::paths::join(root, operation_file(path, method)) == crate::vault::resolver::route_file(
                home,
                ".local"@,
                parts[0],
                parts[1],
                join(parts.skip(2), seq!['/']),
            )
        }),
{
    reveal_strlit("/");
    reveal_strlit(".md");
    let sl = seq!['/'];
    assert("/"@ == sl);
    let route = namespace + "/"@ + version + "/"@ + path + "/"@ + method;
    let segs = segments(path, '/');
    // The route's parts.
    crate::text::lemma_segments_word(namespace, '/');
    crate::text::lemma_segments_word(version, '/');
    crate::text::lemma_segments_word(method, '/');
    let b = namespace + sl + version;
    crate::text::lemma_segments_concat(namespace, version, '/');
    let a = b + sl + path;
    crate::text::lemma_segments_concat(b, path, '/');
    assert(route =~= a + sl + method);
    crate::text::lemma_segments_concat(a, method, '/');
    let parts = segments(route, '/');
    assert(parts =~= seq![namespace, version] + segs + seq![method]);
    assert(parts.skip(2) =~= segs.push(method));
    // The file written.
    let sr = crate::vault::resolver::source_root_spec(home, ".local"@);
    let r1 = crate::paths::join(sr, namespace);
    let root = crate::paths::join(r1, version);
    assert(namespace[0] != '/') by {
        assert(namespace.contains(namespace[0]));
    }
    assert(version[0] != '/') by {
        assert(version.contains(version[0]));
    }
    assert(method[0] != '/') by {
        assert(method.contains(method[0]));
    }
    lemma_join_ends_with(r1, version);
    assert(version.last() != '/') by {
        assert(version.contains(version[version.len() - 1]));
    }
    crate::text::lemma_segments_plain(path, '/');
    crate::paths::lemma_join_all_plain(segs);
    let j = join(segs, sl);
    let full = segs.push(method);
    let rel = join(full, sl);
    let md = method + ".md"@;
    assert(md[0] == method[0]);
    if segs.len() == 0 {
        assert(full =~= seq![method]);
        assert(rel == method);
        assert(operation_file(path, method) == md);
        assert(crate::paths::join(root, rel) =~= root + sl + method);
        crate::paths::lemma_set_md_plain(root, method);
        assert(crate::paths::join(root, md) =~= root + sl + method + ".md"@);
    } else {
        assert(segs[segs.len() - 1] == segs.last());
        assert(segs[0].len() > 0);
        crate::text::lemma_join_ends(segs, sl);
        let l = segs.last();
        assert(l.last() != '/') by {
            assert(l.contains(l[l.len() - 1]));
        }
        assert(full.drop_last() =~= segs);
        assert(full.last() == method);
        assert(rel == j + sl + method);
        assert(crate::paths::join(j, md) == j + sl + md);
        assert(operation_file(path, method) == j + sl + md);
        assert(rel[0] == j[0]);
        assert(crate::paths::join(root, rel) =~= (root + sl + j) + sl + method);
        crate::paths::lemma_set_md_plain(root + sl + j, method);
        assert(crate::paths::join(root, j + sl + md) =~= (root + sl + j) + sl + method + ".md"@);
    }
}

/// Renders the heading of a route document.
fn route_head_exec(
    method: &str,
    url_base: &str,
    path: &str,
    auth: Option<&str>,
    content_type: &str,
    summary: &str,
    description: &str,
) -> (r: Vec<char>)
    ensures
        r@ == route_head(
            method@,
            url_base@ + path@,
            crate::vault::resolver::opt_str(auth),
            content_type@,
            summary@,
            description@,
        ),
{
    let mut out: Vec<char> = Vec::new();
    extend_str(&mut out, "---\nmethod: \"");
    extend_str(&mut out, method);
    extend_str(&mut out, "\"\nurl: \"");
    extend_str(&mut out, url_base);
    extend_str(&mut out, path);
    extend_str(&mut out, "\"");
    if let Some(a) = auth {
        extend_str(&mut out, "\nauth: \"");
        extend_str(&mut out, a);
        extend_str(&mut out, "\"");
    }
    extend_str(&mut out, "\ncontent_type: \"");
    extend_str(&mut out, content_type);
    extend_str(&mut out, "\"\n---\n\n# ");
    extend_str(&mut out, summary);
    extend_str(&mut out, "\n\n");
    if !description.is_empty() {
        extend_str(&mut out, description);
        extend_str(&mut out, "\n\n");
    }
    assert(out@ =~= route_head(
        method@,
        url_base@ + path@,
        crate::vault::resolver::opt_str(auth),
        content_type@,
        summary@,
        description@,
    ));
    out
}

/// Appends a route document's sections after its heading.
#[verifier::spinoff_prover]
#[verifier::rlimit(40)]
fn push_route_tail(
    out: &mut Vec<char>,
    rows: &(Vec<ParamRow>, Vec<ParamRow>, Vec<ParamRow>, Vec<ParamRow>),
    request_body: &str,
    responses: &[ResponseRow],
)
    ensures
        final(out)@ == old(out)@ + route_tail(
            prows(rows.0@),
            prows(rows.1@),
            prows(rows.2@),
            prows(rows.3@),
            request_body@,
            responses@.map_values(|x: ResponseRow| rrow(x)),
        ),
{
    let ghost start = out@;
    extend_str(out, "## Path Parameters\n\n");
    push_table_or_none(out, rows.0.as_slice());
    extend_str(out, "\n\n## Query Parameters\n\n");
    push_table_or_none(out, rows.1.as_slice());
    extend_str(out, "\n");
    push_optional_table(out, "Header Parameters", rows.2.as_slice());
    push_optional_table(out, "Cookie Parameters", rows.3.as_slice());
    extend_str(out, "\n\n## Request Body\n\n");
    if request_body.is_empty() {
        extend_str(out, "_(None)_\n");
    } else {
        extend_str(out, request_body);
        extend_str(out, "\n");
    }
    extend_str(out, "\n\n## Responses\n\n");
    push_responses(out, responses);
    assert(out@ =~= start + route_tail(
        prows(rows.0@),
        prows(rows.1@),
        prows(rows.2@),
        prows(rows.3@),
        request_body@,
        responses@.map_values(|x: ResponseRow| rrow(x)),
    ));
}

/// Where an operation's document goes.
fn operation_file_exec(path: &str, method: &str) -> (r: String)
    ensures
        r@ == operation_file(path@, method@),
{
    let pc = chars_of(path);
    let segs = segments_of(pc.as_slice(), '/');
    let ss = crate::text::strings_of(segs.as_slice());
    assert(ss@.map_values(|x: String| x@) =~= strs(ss@));
    proof {
        reveal_strlit("");
    }
    assert(""@ =~= Seq::<char>::empty());
    assert(strs(ss@) == segments(path@, '/'));
    let dir = crate::paths::join_all_str("", ss.as_slice());
    let mut file = chars_of(method);
    extend_str(&mut file, ".md");
    let fs = string_of(file.as_slice());
    crate::paths::join_str(dir.as_str(), fs.as_str())
}

/// Renders the document of one operation, with where it goes.
pub fn emit_operation(
    parsed: &ParsedSpec,
    path: &str,
    path_item: &PathItem,
    method: &str,
    op: &Operation,
) -> (r: (String, String))
    ensures
        r.0@ == operation_file(path@, method@),
        r.1@ == operation_doc(*parsed, path@, *path_item, method@, *op),
{
    let base = base_components_rel(path);
    let rows = collect_parameters(path_item, op, base.as_str());
    let content_type = match request_content_type(op) {
        Some(c) => c,
        None => owned("application/json"),
    };
    let request_body = request_body_text(op, base.as_str());
    let responses = response_rows(op, base.as_str());
    let op_auth = crate::build::parser::format_security_schemes(
        op.security.as_slice(),
        &parsed.spec.components,
    );
    let auth = if crate::text::str_eq(op_auth.as_str(), parsed.auth.as_str()) {
        None
    } else {
        Some(op_auth.as_str())
    };
    let summary = match &op.summary {
        Some(x) => x.as_str(),
        None => method,
    };
    let description = match &op.description {
        Some(d) => d.as_str(),
        None => "",
    };
    proof {
        reveal_strlit("");
    }
    let mut out = route_head_exec(
        method,
        parsed.base_url.as_str(),
        path,
        auth,
        content_type.as_str(),
        summary,
        description,
    );
    push_route_tail(&mut out, &rows, request_body.as_str(), responses.as_slice());
    let rel = operation_file_exec(path, method);
    (rel, string_of(out.as_slice()))
}

/// The path item a route documents: the one its `$ref` names, else itself.
pub open spec fn resolved_item(item: PathItem, spec: Spec) -> Result<PathItem, Seq<char>> {
    match item.reference {
        Some(r) => match crate::build::resolver::path_target(r@, spec) {
            Some(i) => match spec.paths {
                Some(ps) => Ok(ps@[i].1),
                None => Err(crate::build::resolver::unresolved_path(r@)),
            },
            None => Err(crate::build::resolver::unresolved_path(r@)),
        },
        None => Ok(item),
    }
}

/// The file of an operation, if the path item has it.
#[verifier::opaque]
pub open spec fn op_file(
    parsed: ParsedSpec,
    path: Seq<char>,
    item: PathItem,
    method: Seq<char>,
    op: Option<Operation>,
) -> Seq<(Seq<char>, Seq<char>)> {
    match op {
        Some(o) => seq![(operation_file(path, method), operation_doc(parsed, path, item, method, o))],
        None => Seq::empty(),
    }
}

/// The content type an operation's document records: its request body's
/// first media type, else `application/json`.
pub open spec fn recorded_content_type(op: Operation) -> Seq<char> {
    match content_type_of(op) {
        Some(c) => c,
        None => "application/json"@,
    }
}

/// An operation's document reads back with its frontmatter: the method,
/// the document's base URL followed by the path, an authentication line
/// exactly when the operation's authentication differs from the
/// document's (and then that authentication), and the recorded content
/// type; when none of those values holds `---`.
pub proof fn law_operation_document_frontmatter(
    parsed: ParsedSpec,
    path: Seq<char>,
    item: PathItem,
    method: Seq<char>,
    op: Operation,
)
    requires
        !contains(method, marker()),
        !contains(parsed.base_url@ + path, marker()),
        !contains(recorded_content_type(op), marker()),
        !contains(crate::build::parser::security_summary(op.security@, parsed.spec.components), marker()),
    ensures
        crate::vault::frontmatter::split_frontmatter(operation_doc(parsed, path, item, method, op)) matches Ok(
            (yaml, _),
        ) && yaml == route_yaml(
            method,
            parsed.base_url@ + path,
            route_auth(parsed, op),
            recorded_content_type(op),
        ),
        route_auth(parsed, op) is Some <==> crate::build::parser::security_summary(
            op.security@,
            parsed.spec.components,
        ) != parsed.auth@,
        route_auth(parsed, op) matches Some(a) ==> a == crate::build::parser::security_summary(
            op.security@,
            parsed.spec.components,
        ),
{
    let base = components_rel(path);
    let all = item.parameters@ + op.parameters@;
    let summary = match op.summary {
        Some(x) => x@,
        None => method,
    };
    let tail = route_tail(
        bucket_rows(all, ParamLocation::Path, base),
        bucket_rows(all, ParamLocation::Query, base),
        bucket_rows(all, ParamLocation::Header, base),
        bucket_rows(all, ParamLocation::Cookie, base),
        request_body_doc(op, base),
        response_list(op, base),
    );
    law_route_document_frontmatter(
        method,
        parsed.base_url@ + path,
        route_auth(parsed, op),
        recorded_content_type(op),
        summary,
        opt_text(op.description),
        tail,
    );
}

/// The files of a path item's operations, in the order GET, POST, PUT,
/// PATCH, DELETE, HEAD, OPTIONS, TRACE.
pub open spec fn item_files(parsed: ParsedSpec, path: Seq<char>, item: PathItem) -> Seq<
    (Seq<char>, Seq<char>),
> {
    op_file(parsed, path, item, "GET"@, item.get) + op_file(parsed, path, item, "POST"@, item.post)
        + op_file(parsed, path, item, "PUT"@, item.put) + op_file(
        parsed,
        path,
        item,
        "PATCH"@,
        item.patch,
    ) + op_file(parsed, path, item, "DELETE"@, item.delete) + op_file(
        parsed,
        path,
        item,
        "HEAD"@,
        item.head,
    ) + op_file(parsed, path, item, "OPTIONS"@, item.options) + op_file(
        parsed,
        path,
        item,
        "TRACE"@,
        item.trace,
    )
}

/// The route files of the paths, in order; a path item whose `$ref` does
/// not resolve is an error.
pub open spec fn route_files(parsed: ParsedSpec, paths: Seq<(String, PathItem)>) -> Result<
    Seq<(Seq<char>, Seq<char>)>,
    Seq<char>,
>
    decreases paths.len(),
{
    if paths.len() == 0 {
        Ok(Seq::empty())
    } else {
        match route_files(parsed, paths.drop_last()) {
            Err(m) => Err(m),
            Ok(fs) => match resolved_item(paths.last().1, parsed.spec) {
                Err(m) => Err(m),
                Ok(it) => Ok(fs + item_files(parsed, paths.last().0@, it)),
            },
        }
    }
}

/// The route files written before the first path item whose `$ref` does
/// not resolve: those of the path items before it.
pub open spec fn routes_before_error(parsed: ParsedSpec, paths: Seq<(String, PathItem)>) -> Seq<
    (Seq<char>, Seq<char>),
>
    decreases paths.len(),
{
    if paths.len() == 0 {
        Seq::empty()
    } else {
        match route_files(parsed, paths.drop_last()) {
            Err(_) => routes_before_error(parsed, paths.drop_last()),
            Ok(fs) => match resolved_item(paths.last().1, parsed.spec) {
                Err(_) => fs,
                Ok(it) => fs + item_files(parsed, paths.last().0@, it),
            },
        }
    }
}

proof fn lemma_routes_before_error(parsed: ParsedSpec, paths: Seq<(String, PathItem)>, i: int)
    requires
        0 < i <= paths.len(),
        route_files(parsed, paths.take(i)) is Err,
    ensures
        routes_before_error(parsed, paths) == routes_before_error(parsed, paths.take(i)),
    decreases paths.len() - i,
{
    if i < paths.len() {
        assert(paths.take(i + 1).drop_last() =~= paths.take(i));
        lemma_routes_before_error(parsed, paths, i + 1);
    } else {
        assert(paths.take(i) =~= paths);
    }
}

/// How many of the eight methods a path item has an operation for.
pub open spec fn item_operation_count(it: PathItem) -> nat {
    (if it.get is Some { 1nat } else { 0nat }) + (if it.post is Some { 1nat } else { 0nat }) + (
    if it.put is Some {
        1nat
    } else {
        0nat
    }) + (if it.patch is Some { 1nat } else { 0nat }) + (if it.delete is Some {
        1nat
    } else {
        0nat
    }) + (if it.head is Some { 1nat } else { 0nat }) + (if it.options is Some {
        1nat
    } else {
        0nat
    }) + (if it.trace is Some { 1nat } else { 0nat })
}

/// The operations of the paths, each path item taken after its `$ref` is
/// resolved.
pub open spec fn operation_total(spec: Spec, paths: Seq<(String, PathItem)>) -> nat
    decreases paths.len(),
{
    if paths.len() == 0 {
        0
    } else {
        operation_total(spec, paths.drop_last()) + match resolved_item(paths.last().1, spec) {
            Ok(it) => item_operation_count(it),
            Err(_) => 0,
        }
    }
}

/// Whether every path item's `$ref` resolves.
pub open spec fn all_items_resolve(spec: Spec, paths: Seq<(String, PathItem)>) -> bool {
    forall|i: int| 0 <= i < paths.len() ==> #[trigger] resolved_item(paths[i].1, spec) is Ok
}

/// The documents of a path item: one per operation.
proof fn lemma_item_files_len(parsed: ParsedSpec, path: Seq<char>, it: PathItem)
    ensures
        item_files(parsed, path, it).len() == item_operation_count(it),
{
    reveal(op_file);
}

/// Importing writes one route document per operation: the routes come
/// out exactly when every path item's `$ref` resolves, and then there are
/// as many as the path items (after resolution) have operations.
pub proof fn law_one_route_file_per_operation(parsed: ParsedSpec, paths: Seq<(String, PathItem)>)
    ensures
        route_files(parsed, paths) is Ok <==> all_items_resolve(parsed.spec, paths),
        route_files(parsed, paths) matches Ok(fs) ==> fs.len() == operation_total(parsed.spec, paths),
    decreases paths.len(),
{
    if paths.len() > 0 {
        let d = paths.drop_last();
        law_one_route_file_per_operation(parsed, d);
        let n = paths.len() - 1;
        assert(paths.last() == paths[n]);
        lemma_item_files_len(parsed, paths.last().0@, resolved_item(paths.last().1, parsed.spec)->Ok_0);
        if all_items_resolve(parsed.spec, paths) {
            assert forall|i: int| 0 <= i < d.len() implies #[trigger] resolved_item(d[i].1, parsed.spec) is Ok by {
                assert(d[i] == paths[i]);
                assert(resolved_item(paths[i].1, parsed.spec) is Ok);
            }
            assert(resolved_item(paths[n].1, parsed.spec) is Ok);
        }
        if route_files(parsed, paths) is Ok {
            assert forall|i: int| 0 <= i < paths.len() implies #[trigger] resolved_item(paths[i].1, parsed.spec) is Ok by {
                if i < n {
                    assert(d[i] == paths[i]);
                    assert(resolved_item(d[i].1, parsed.spec) is Ok);
                }
            }
        }
    }
}

proof fn lemma_route_files_err(parsed: ParsedSpec, paths: Seq<(String, PathItem)>, i: int)
    requires
        0 < i <= paths.len(),
        route_files(parsed, paths.take(i)) is Err,
    ensures
        route_files(parsed, paths) == route_files(parsed, paths.take(i)),
    decreases paths.len() - i,
{
    if i < paths.len() {
        assert(paths.take(i + 1).drop_last() =~= paths.take(i));
        lemma_route_files_err(parsed, paths, i + 1);
    } else {
        assert(paths.take(i) =~= paths);
    }
}

/// Adds the file of an operation, if there is one.
fn push_op_file(
    out: &mut Vec<(String, String)>,
    parsed: &ParsedSpec,
    path: &str,
    item: &PathItem,
    method: &str,
    op: &Option<Operation>,
)
    ensures
        crate::build::components::file_views(final(out)@) == crate::build::components::file_views(
            old(out)@,
        ) + op_file(*parsed, path@, *item, method@, *op),
{
    let ghost before = crate::build::components::file_views(out@);
    proof {
        reveal(op_file);
    }
    if let Some(o) = op {
        let f = emit_operation(parsed, path, item, method, o);
        let ghost fv = (f.0@, f.1@);
        out.push(f);
        assert(crate::build::components::file_views(out@) =~= before.push(fv));
        assert(op_file(*parsed, path@, *item, method@, *op) =~= seq![fv]);
    } else {
        assert(op_file(*parsed, path@, *item, method@, *op) =~= Seq::empty());
        assert(crate::build::components::file_views(out@) =~= before + Seq::empty());
    }
}

/// The path item a route documents.
fn resolve_item<'a>(item: &'a PathItem, spec: &'a Spec) -> (r: Result<&'a PathItem, ApixError>)
    ensures
        match resolved_item(*item, *spec) {
            Ok(it) => r matches Ok(p) && *p == it,
            Err(m) => r matches Err(ApixError::Parse(x)) && x@ == m,
        },
{
    match &item.reference {
        Some(reference) => {
            let mut seen: Vec<String> = Vec::new();
            assert(strs(seen@) =~= Seq::<Seq<char>>::empty());
            crate::build::resolver::resolve_path_item(reference.as_str(), spec, &mut seen)
        },
        None => Ok(item),
    }
}

/// Adds the files of a path item's operations.
fn push_item_files(out: &mut Vec<(String, String)>, parsed: &ParsedSpec, path: &str, item: &PathItem)
    ensures
        crate::build::components::file_views(final(out)@) == crate::build::components::file_views(
            old(out)@,
        ) + item_files(*parsed, path@, *item),
{
    let ghost before = crate::build::components::file_views(out@);
    push_op_file(out, parsed, path, item, "GET", &item.get);
    push_op_file(out, parsed, path, item, "POST", &item.post);
    push_op_file(out, parsed, path, item, "PUT", &item.put);
    push_op_file(out, parsed, path, item, "PATCH", &item.patch);
    push_op_file(out, parsed, path, item, "DELETE", &item.delete);
    push_op_file(out, parsed, path, item, "HEAD", &item.head);
    push_op_file(out, parsed, path, item, "OPTIONS", &item.options);
    push_op_file(out, parsed, path, item, "TRACE", &item.trace);
    assert(crate::build::components::file_views(out@) =~= before + item_files(*parsed, path@, *item));
}

/// The route documents of a document: one per operation (see
/// [`route_files`]), as (path relative to the version directory,
/// document).
pub fn generate_routes(parsed: &ParsedSpec) -> (r: Result<Vec<(String, String)>, (Vec<(String, String)>, ApixError)>)
    ensures
        match route_files(
            *parsed,
            match parsed.spec.paths {
                Some(ps) => ps@,
                None => Seq::empty(),
            },
        ) {
            Ok(fs) => r matches Ok(v) && crate::build::components::file_views(v@) == fs,
            Err(m) => r matches Err((v, ApixError::Parse(x))) && x@ == m
                && crate::build::components::file_views(v@) == routes_before_error(
                *parsed,
                match parsed.spec.paths {
                    Some(ps) => ps@,
                    None => Seq::empty(),
                },
            ),
        },
{
    let mut out: Vec<(String, String)> = Vec::new();
    let ps = match &parsed.spec.paths {
        Some(ps) => ps,
        None => {
            assert(crate::build::components::file_views(out@) =~= Seq::empty());
            return Ok(out);
        },
    };
    let ghost all = ps@;
    let mut i: usize = 0;
    assert(crate::build::components::file_views(out@) =~= Seq::empty());
    while i < ps.len()
        invariant
            i <= ps@.len(),
            all == ps@,
            parsed.spec.paths == Some(*ps),
            route_files(*parsed, all.take(i as int)) == Ok::<Seq<(Seq<char>, Seq<char>)>, Seq<char>>(
                crate::build::components::file_views(out@),
            ),
        decreases ps@.len() - i,
    {
        assert(all.take(i + 1).drop_last() =~= all.take(i as int));
        assert(all.take(i + 1).last() == ps@[i as int]);
        let path = ps[i].0.as_str();
        match resolve_item(&ps[i].1, &parsed.spec) {
            Ok(resolved) => {
                push_item_files(&mut out, parsed, path, resolved);
            },
            Err(e) => {
                proof {
                    lemma_route_files_err(*parsed, all, i as int + 1);
                    lemma_routes_before_error(*parsed, all, i as int + 1);
                }
                return Err((out, e));
            },
        }
        i = i + 1;
    }
    assert(all.take(ps@.len() as int) =~= all);
    Ok(out)
}

/// The version metadata document: frontmatter (base URL, authentication,
/// tags), title, description and a version summary.
pub open spec fn metadata_doc(
    base_url: Seq<char>,
    auth: Seq<char>,
    title: Seq<char>,
    description: Seq<char>,
    version: Seq<char>,
    tags: Seq<Seq<char>>,
) -> Seq<char> {
    "---\nbase_url: \""@ + base_url + "\"\nauth: \""@ + auth + "\"\ntags: ["@ + join(tags, ", "@)
        + "]\n---\n\n# "@ + title + "\n\n"@ + (if description.len() > 0 {
        "\n"@ + description + "\n\n"@
    } else {
        Seq::empty()
    }) + "**Version:** "@ + version + "\n**Base URL:** `"@ + base_url + "`\n"@
}

/// Renders the version metadata document of a parsed document.
pub fn render_metadata(parsed: &ParsedSpec) -> (r: String)
    ensures
        r@ == metadata_doc(
            parsed.base_url@,
            parsed.auth@,
            parsed.title@,
            parsed.description@,
            parsed.version@,
            strs(parsed.tags@),
        ),
{
    let mut out: Vec<char> = Vec::new();
    extend_str(&mut out, "---\nbase_url: \"");
    extend_str(&mut out, parsed.base_url.as_str());
    extend_str(&mut out, "\"\nauth: \"");
    extend_str(&mut out, parsed.auth.as_str());
    extend_str(&mut out, "\"\ntags: [");
    let t = crate::text::join_strings(parsed.tags.as_slice(), ", ");
    extend_str(&mut out, t.as_str());
    extend_str(&mut out, "]\n---\n\n# ");
    extend_str(&mut out, parsed.title.as_str());
    extend_str(&mut out, "\n\n");
    if !parsed.description.as_str().is_empty() {
        extend_str(&mut out, "\n");
        extend_str(&mut out, parsed.description.as_str());
        extend_str(&mut out, "\n\n");
    }
    extend_str(&mut out, "**Version:** ");
    extend_str(&mut out, parsed.version.as_str());
    extend_str(&mut out, "\n**Base URL:** `");
    extend_str(&mut out, parsed.base_url.as_str());
    extend_str(&mut out, "`\n");
    assert(strs(parsed.tags@) =~= parsed.tags@.map_values(|x: String| x@));
    string_of(out.as_slice())
}

} // verus!
