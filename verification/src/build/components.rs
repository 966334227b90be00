//! The component documents of a vault: one markdown file per schema,
//! parameter, response, header and request body of the components object.

use vstd::prelude::*;
use crate::build::model::{
    BodyRef, Components, HeaderRef, Items, ParamLocation, ParamRef, ResponseRef, Schema, SchemaRef,
    SchemaType, Spec,
};
use crate::build::parser::ParsedSpec;
use crate::build::schema_helpers::{primary, primary_type};
use crate::build::{sanitize_markdown_table_cell, table_cell};
use crate::paths::file_name;
use crate::text::{
    chars_of, decimal, extend_chars, extend_str, join, join_chars, owned, push_decimal, string_of,
    strs, views,
};

verus! {

/// One row of a properties table (every cell already escaped).
#[derive(Debug)]
pub struct PropertyRow {
    pub name: String,
    pub required: String,
    pub prop_type: String,
    pub description: String,
}

/// A row as (name, required, type, description).
pub open spec fn row_view(r: PropertyRow) -> (Seq<char>, Seq<char>, Seq<char>, Seq<char>) {
    (r.name@, r.required@, r.prop_type@, r.description@)
}

/// The rows as views.
pub open spec fn row_views(v: Seq<PropertyRow>) -> Seq<(Seq<char>, Seq<char>, Seq<char>, Seq<char>)> {
    v.map_values(|r: PropertyRow| row_view(r))
}

/// The name a reference points at: its last `/`-separated part.
pub open spec fn ref_name(reference: Seq<char>) -> Seq<char> {
    file_name(reference)
}

/// The last `/`-separated part of a reference.
pub fn ref_name_of(reference: &str) -> (r: Vec<char>)
    ensures
        r@ == ref_name(reference@),
{
    let rc = chars_of(reference);
    crate::paths::file_name_chars(rc.as_slice())
}

/// How a schema's type is shown: the size of a composition, an array with
/// its item type (a link for a referenced item schema, relative to
/// `dir`), or the primary type's name (`any` without one).
pub open spec fn type_text(s: Schema, dir: Seq<char>) -> Seq<char>
    decreases s,
{
    if s.one_of@.len() > 0 {
        "oneOf("@ + decimal(s.one_of@.len()) + ")"@
    } else if s.any_of@.len() > 0 {
        "anyOf("@ + decimal(s.any_of@.len()) + ")"@
    } else if s.all_of@.len() > 0 {
        "allOf("@ + decimal(s.all_of@.len()) + ")"@
    } else if primary(s) == Some(SchemaType::Array) {
        match s.items {
            Some(b) => match *b {
                Items::Inline(inner) => "array<"@ + type_text(*inner, dir) + ">"@,
                Items::Ref(r) => "array<["@ + ref_name(r@) + "]("@ + dir + "/"@ + ref_name(r@)
                    + ".md)>"@,
                Items::Bool => "array"@,
            },
            None => "array"@,
        }
    } else {
        match primary(s) {
            Some(SchemaType::String) => "string"@,
            Some(SchemaType::Number) => "number"@,
            Some(SchemaType::Integer) => "integer"@,
            Some(SchemaType::Object) => "object"@,
            Some(SchemaType::Array) => "array"@,
            Some(SchemaType::Boolean) => "boolean"@,
            Some(SchemaType::Null) => "null"@,
            None => "any"@,
        }
    }
}

/// Describes a schema's type (see [`type_text`]).
pub fn schema_type_to_string(schema: &Schema, schema_dir_rel: &str) -> (r: String)
    ensures
        r@ == type_text(*schema, schema_dir_rel@),
    decreases schema,
{
    let mut out: Vec<char> = Vec::new();
    if schema.one_of.len() > 0 {
        extend_str(&mut out, "oneOf(");
        push_decimal(&mut out, schema.one_of.len() as u64);
        extend_str(&mut out, ")");
        return string_of(out.as_slice());
    }
    if schema.any_of.len() > 0 {
        extend_str(&mut out, "anyOf(");
        push_decimal(&mut out, schema.any_of.len() as u64);
        extend_str(&mut out, ")");
        return string_of(out.as_slice());
    }
    if schema.all_of.len() > 0 {
        extend_str(&mut out, "allOf(");
        push_decimal(&mut out, schema.all_of.len() as u64);
        extend_str(&mut out, ")");
        return string_of(out.as_slice());
    }
    let p = primary_type(schema);
    if p == Some(SchemaType::Array) {
        match &schema.items {
            Some(b) => match &**b {
                Items::Inline(inner) => {
                    let t = schema_type_to_string(&**inner, schema_dir_rel);
                    extend_str(&mut out, "array<");
                    extend_str(&mut out, t.as_str());
                    extend_str(&mut out, ">");
                    return string_of(out.as_slice());
                },
                Items::Ref(r) => {
                    let name = ref_name_of(r.as_str());
                    extend_str(&mut out, "array<[");
                    extend_chars(&mut out, name.as_slice());
                    extend_str(&mut out, "](");
                    extend_str(&mut out, schema_dir_rel);
                    extend_str(&mut out, "/");
                    extend_chars(&mut out, name.as_slice());
                    extend_str(&mut out, ".md)>");
                    return string_of(out.as_slice());
                },
                Items::Bool => return owned("array"),
            },
            None => return owned("array"),
        }
    }
    match p {
        Some(SchemaType::String) => owned("string"),
        Some(SchemaType::Number) => owned("number"),
        Some(SchemaType::Integer) => owned("integer"),
        Some(SchemaType::Object) => owned("object"),
        Some(SchemaType::Array) => owned("array"),
        Some(SchemaType::Boolean) => owned("boolean"),
        Some(SchemaType::Null) => owned("null"),
        None => owned("any"),
    }
}

/// An optional text, empty when absent.
pub open spec fn opt_text(o: Option<String>) -> Seq<char> {
    match o {
        Some(t) => t@,
        None => Seq::empty(),
    }
}

/// A description followed by the allowed values of a string enum.
pub open spec fn with_allowed_values(d: Seq<char>, values: Seq<Seq<char>>) -> Seq<char> {
    if values.len() == 0 {
        d
    } else {
        (if d.len() > 0 {
            d + " "@
        } else {
            d
        }) + "Allowed values: "@ + join(values, ", "@)
    }
}

/// The type and description shown for a property: a link for a reference,
/// else its type with its description and allowed values.
pub open spec fn prop_text(p: SchemaRef) -> (Seq<char>, Seq<char>) {
    match p {
        SchemaRef::Ref(r) => ("["@ + ref_name(r@) + "]("@ + ref_name(r@) + ".md)"@, Seq::empty()),
        SchemaRef::Inline(inner) => (
            type_text(*inner, "."@),
            with_allowed_values(opt_text(inner.description), strs(inner.string_enum@)),
        ),
    }
}

/// The rows of a schema's own properties, in order.
pub open spec fn own_rows(s: Schema) -> Seq<(Seq<char>, Seq<char>, Seq<char>, Seq<char>)> {
    s.properties@.map_values(
        |p: (String, SchemaRef)|
            (
                table_cell(p.0@),
                if strs(s.required@).contains(p.0@) {
                    "Yes"@
                } else {
                    "No"@
                },
                table_cell(prop_text(p.1).0),
                table_cell(prop_text(p.1).1),
            ),
    )
}

/// The row shown for an `allOf` reference that does not resolve.
pub open spec fn unresolved_row(reference: Seq<char>) -> (Seq<char>, Seq<char>, Seq<char>, Seq<char>) {
    (
        table_cell("(ref: "@ + ref_name(reference) + ")"@),
        "Unknown"@,
        table_cell("["@ + ref_name(reference) + "]("@ + ref_name(reference) + ".md)"@),
        table_cell("Unresolved reference"@),
    )
}

/// The property rows of a schema: its own, then those of its `allOf`
/// members in order (a referenced member resolved among the component
/// schemas). `fuel` bounds how many references are followed in depth; a
/// member beyond it adds no row.
pub open spec fn schema_rows(s: Schema, spec: Spec, fuel: nat) -> Seq<
    (Seq<char>, Seq<char>, Seq<char>, Seq<char>),
>
    decreases fuel, s, 0nat,
{
    own_rows(s) + all_of_rows(s.all_of@, spec, fuel)
}

/// The property rows of `allOf` members.
pub open spec fn all_of_rows(items: Seq<SchemaRef>, spec: Spec, fuel: nat) -> Seq<
    (Seq<char>, Seq<char>, Seq<char>, Seq<char>),
>
    decreases fuel, items, 1nat,
{
    if items.len() == 0 {
        Seq::empty()
    } else {
        all_of_rows(items.drop_last(), spec, fuel) + match items.last() {
            SchemaRef::Inline(b) => schema_rows(*b, spec, fuel),
            SchemaRef::Ref(r) => match crate::build::resolver::follow_schema(
                r@,
                spec,
                Seq::empty(),
                crate::build::resolver::schema_fuel(spec),
            ).0 {
                Ok(i) => if fuel == 0 {
                    Seq::empty()
                } else {
                    match spec.components {
                        Some(c) => match c.schemas@[i].1 {
                            SchemaRef::Inline(t) => schema_rows(*t, spec, (fuel - 1) as nat),
                            SchemaRef::Ref(_) => Seq::empty(),
                        },
                        None => Seq::empty(),
                    }
                },
                Err(_) => seq![unresolved_row(r@)],
            },
        }
    }
}

/// The type and description shown for a property.
pub fn prop_type_and_description(prop_schema: &SchemaRef) -> (r: (String, String))
    ensures
        r.0@ == prop_text(*prop_schema).0,
        r.1@ == prop_text(*prop_schema).1,
{
    match prop_schema {
        SchemaRef::Ref(reference) => {
            let name = ref_name_of(reference.as_str());
            let mut t: Vec<char> = Vec::new();
            extend_str(&mut t, "[");
            extend_chars(&mut t, name.as_slice());
            extend_str(&mut t, "](");
            extend_chars(&mut t, name.as_slice());
            extend_str(&mut t, ".md)");
            (string_of(t.as_slice()), String::new())
        },
        SchemaRef::Inline(inner) => {
            let ptype = schema_type_to_string(&**inner, ".");
            let mut d: Vec<char> = match &inner.description {
                Some(x) => chars_of(x.as_str()),
                None => Vec::new(),
            };
            if inner.string_enum.len() > 0 {
                if d.len() > 0 {
                    d.push(' ');
                    proof {
                        reveal_strlit(" ");
                    }
                }
                extend_str(&mut d, "Allowed values: ");
                let j = crate::text::join_strings(inner.string_enum.as_slice(), ", ");
                extend_str(&mut d, j.as_str());
            }
            (ptype, string_of(d.as_slice()))
        },
    }
}

/// The rows of a schema's own properties.
fn own_property_rows(schema: &Schema) -> (r: Vec<PropertyRow>)
    ensures
        row_views(r@) == own_rows(*schema),
{
    let mut rows: Vec<PropertyRow> = Vec::new();
    let mut i: usize = 0;
    while i < schema.properties.len()
        invariant
            i <= schema.properties@.len(),
            row_views(rows@) == own_rows(*schema).take(i as int),
        decreases schema.properties@.len() - i,
    {
        let (name, prop) = (&schema.properties[i].0, &schema.properties[i].1);
        let (ptype, desc) = prop_type_and_description(prop);
        let required = if crate::text::contains_string(schema.required.as_slice(), name.as_str()) {
            owned("Yes")
        } else {
            owned("No")
        };
        let row = PropertyRow {
            name: sanitize_markdown_table_cell(name.as_str()),
            required,
            prop_type: sanitize_markdown_table_cell(ptype.as_str()),
            description: sanitize_markdown_table_cell(desc.as_str()),
        };
        let ghost prev = row_views(rows@);
        let ghost rv = row_view(row);
        rows.push(row);
        assert(row_views(rows@) =~= prev.push(rv));
        assert(own_rows(*schema).take(i + 1) =~= own_rows(*schema).take(i as int).push(
            own_rows(*schema)[i as int],
        ));
        i = i + 1;
    }
    assert(own_rows(*schema).take(schema.properties@.len() as int) =~= own_rows(*schema));
    rows
}

/// Collects property rows within a depth of `fuel` references.
fn collect_properties_fuel(schema: &Schema, spec: &Spec, fuel: usize) -> (r: Vec<PropertyRow>)
    ensures
        row_views(r@) == schema_rows(*schema, *spec, fuel as nat),
    decreases fuel, *schema,
{
    let mut rows = own_property_rows(schema);
    let ghost own = row_views(rows@);
    let mut k: usize = 0;
    while k < schema.all_of.len()
        invariant
            k <= schema.all_of@.len(),
            own == own_rows(*schema),
            row_views(rows@) == own + all_of_rows(schema.all_of@.take(k as int), *spec, fuel as nat),
        decreases schema.all_of@.len() - k,
    {
        let ghost items = schema.all_of@.take(k + 1);
        assert(items.drop_last() =~= schema.all_of@.take(k as int));
        assert(items.last() == schema.all_of@[k as int]);
        let ghost before = row_views(rows@);
        match &schema.all_of[k] {
            SchemaRef::Inline(b) => {
                let mut more = collect_properties_fuel(&**b, spec, fuel);
                let ghost mv = row_views(more@);
                rows.append(&mut more);
                assert(row_views(rows@) =~= before + mv);
            },
            SchemaRef::Ref(reference) => {
                let mut seen: Vec<String> = Vec::new();
                assert(strs(seen@) =~= Seq::<Seq<char>>::empty());
                match crate::build::resolver::resolve_schema(reference.as_str(), spec, &mut seen) {
                    Ok(resolved) => {
                        if fuel > 0 {
                            let mut more = collect_properties_fuel(resolved, spec, fuel - 1);
                            let ghost mv = row_views(more@);
                            rows.append(&mut more);
                            assert(row_views(rows@) =~= before + mv);
                        } else {
                            assert(row_views(rows@) =~= before + Seq::empty());
                        }
                    },
                    Err(_) => {
                        let name = ref_name_of(reference.as_str());
                        let mut n: Vec<char> = Vec::new();
                        extend_str(&mut n, "(ref: ");
                        extend_chars(&mut n, name.as_slice());
                        extend_str(&mut n, ")");
                        let mut t: Vec<char> = Vec::new();
                        extend_str(&mut t, "[");
                        extend_chars(&mut t, name.as_slice());
                        extend_str(&mut t, "](");
                        extend_chars(&mut t, name.as_slice());
                        extend_str(&mut t, ".md)");
                        let row = PropertyRow {
                            name: sanitize_markdown_table_cell(string_of(n.as_slice()).as_str()),
                            required: owned("Unknown"),
                            prop_type: sanitize_markdown_table_cell(string_of(t.as_slice()).as_str()),
                            description: sanitize_markdown_table_cell("Unresolved reference"),
                        };
                        let ghost rv = row_view(row);
                        rows.push(row);
                        assert(rv == unresolved_row(reference@));
                        assert(row_views(rows@) =~= before + seq![rv]);
                    },
                }
            },
        }
        k = k + 1;
    }
    assert(schema.all_of@.take(schema.all_of@.len() as int) =~= schema.all_of@);
    rows
}

/// The property rows of a schema (see [`schema_rows`]), following
/// references at most as deep as there are component schemas.
pub fn collect_properties(schema: &Schema, spec: &Spec) -> (r: Vec<PropertyRow>)
    ensures
        row_views(r@) == schema_rows(*schema, *spec, crate::build::resolver::schema_fuel(*spec)),
{
    let fuel = match &spec.components {
        Some(c) => c.schemas.len(),
        None => 0,
    };
    collect_properties_fuel(schema, spec, fuel)
}

/// The variants of a `oneOf`/`anyOf` schema, listed: a link for each
/// referenced variant, `(Inline Schema)` for the others.
pub open spec fn variant_line(v: SchemaRef) -> Seq<char> {
    match v {
        SchemaRef::Ref(r) => "- ["@ + ref_name(r@) + "]("@ + ref_name(r@) + ".md)"@,
        SchemaRef::Inline(_) => "- (Inline Schema)"@,
    }
}

/// The variants section of a schema, if it has variants.
pub open spec fn variants_text(s: Schema) -> Option<Seq<char>> {
    let vs = s.one_of@ + s.any_of@;
    if vs.len() == 0 {
        None
    } else {
        Some("Variants:\n"@ + join(vs.map_values(|v: SchemaRef| variant_line(v)), "\n"@))
    }
}

/// The line of one variant.
fn variant_line_exec(v: &SchemaRef) -> (r: Vec<char>)
    ensures
        r@ == variant_line(*v),
{
    let mut l: Vec<char> = Vec::new();
    match v {
        SchemaRef::Ref(reference) => {
            let name = ref_name_of(reference.as_str());
            extend_str(&mut l, "- [");
            extend_chars(&mut l, name.as_slice());
            extend_str(&mut l, "](");
            extend_chars(&mut l, name.as_slice());
            extend_str(&mut l, ".md)");
        },
        SchemaRef::Inline(_) => {
            extend_str(&mut l, "- (Inline Schema)");
        },
    }
    l
}

/// Lists the variants of a schema.
pub fn variant_links(schema: &Schema) -> (r: Option<String>)
    ensures
        match variants_text(*schema) {
            Some(t) => r matches Some(x) && x@ == t,
            None => r is None,
        },
{
    let ghost vs = schema.one_of@ + schema.any_of@;
    let mut lines: Vec<Vec<char>> = Vec::new();
    let mut i: usize = 0;
    while i < schema.one_of.len()
        invariant
            i <= schema.one_of@.len(),
            vs == schema.one_of@ + schema.any_of@,
            views(lines@) == vs.take(i as int).map_values(|v: SchemaRef| variant_line(v)),
        decreases schema.one_of@.len() - i,
    {
        let l = variant_line_exec(&schema.one_of[i]);
        assert(vs[i as int] == schema.one_of@[i as int]);
        let ghost prev = views(lines@);
        lines.push(l);
        assert(views(lines@) =~= prev.push(variant_line(vs[i as int])));
        assert(vs.take(i + 1).map_values(|v: SchemaRef| variant_line(v)) =~= vs.take(
            i as int,
        ).map_values(|v: SchemaRef| variant_line(v)).push(variant_line(vs[i as int])));
        i = i + 1;
    }
    let n1 = schema.one_of.len();
    let mut j: usize = 0;
    while j < schema.any_of.len()
        invariant
            n1 == schema.one_of@.len(),
            j <= schema.any_of@.len(),
            vs == schema.one_of@ + schema.any_of@,
            views(lines@) == vs.take(n1 + j).map_values(|v: SchemaRef| variant_line(v)),
        decreases schema.any_of@.len() - j,
    {
        let l = variant_line_exec(&schema.any_of[j]);
        assert(vs[n1 + j] == schema.any_of@[j as int]);
        let ghost prev = views(lines@);
        lines.push(l);
        assert(views(lines@) =~= prev.push(variant_line(vs[n1 + j])));
        assert(vs.take(n1 + j + 1).map_values(|v: SchemaRef| variant_line(v)) =~= vs.take(
            n1 + j,
        ).map_values(|v: SchemaRef| variant_line(v)).push(variant_line(vs[n1 + j])));
        j = j + 1;
    }
    assert(vs.take(n1 + j) =~= vs);
    if lines.len() == 0 {
        return None;
    }
    let mut out: Vec<char> = Vec::new();
    extend_str(&mut out, "Variants:\n");
    let mut sep: Vec<char> = Vec::new();
    extend_str(&mut sep, "\n");
    let j = join_chars(lines.as_slice(), sep.as_slice());
    extend_chars(&mut out, j.as_slice());
    Some(string_of(out.as_slice()))
}

/// What a schema document shows: its type, its description (with its
/// variants after a blank line), and its property rows.
pub open spec fn schema_info(r: SchemaRef, spec: Spec) -> (
    Seq<char>,
    Seq<char>,
    Seq<(Seq<char>, Seq<char>, Seq<char>, Seq<char>)>,
) {
    match r {
        SchemaRef::Ref(x) => ("reference"@, "Reference to `"@ + x@ + "`"@, Seq::empty()),
        SchemaRef::Inline(s) => {
            let d = opt_text(s.description);
            (
                type_text(*s, "."@),
                match variants_text(*s) {
                    Some(v) => (if d.len() > 0 {
                        d + "\n\n"@
                    } else {
                        d
                    }) + v,
                    None => d,
                },
                schema_rows(*s, spec, crate::build::resolver::schema_fuel(spec)),
            )
        },
    }
}

/// The type, description and property rows of a component schema.
pub fn schema_details(schema_ref: &SchemaRef, spec: &Spec) -> (r: (String, String, Vec<PropertyRow>))
    ensures
        r.0@ == schema_info(*schema_ref, *spec).0,
        r.1@ == schema_info(*schema_ref, *spec).1,
        row_views(r.2@) == schema_info(*schema_ref, *spec).2,
{
    match schema_ref {
        SchemaRef::Ref(reference) => {
            let mut d: Vec<char> = Vec::new();
            extend_str(&mut d, "Reference to `");
            extend_str(&mut d, reference.as_str());
            extend_str(&mut d, "`");
            let rows: Vec<PropertyRow> = Vec::new();
            assert(row_views(rows@) =~= Seq::empty());
            (owned("reference"), string_of(d.as_slice()), rows)
        },
        SchemaRef::Inline(schema) => {
            let t = schema_type_to_string(&**schema, ".");
            let mut d: Vec<char> = match &schema.description {
                Some(x) => chars_of(x.as_str()),
                None => Vec::new(),
            };
            if let Some(v) = variant_links(&**schema) {
                if d.len() > 0 {
                    extend_str(&mut d, "\n\n");
                }
                extend_str(&mut d, v.as_str());
            }
            let rows = collect_properties(&**schema, spec);
            (t, string_of(d.as_slice()), rows)
        },
    }
}

/// The lines of a properties table.
pub open spec fn rows_text(rows: Seq<(Seq<char>, Seq<char>, Seq<char>, Seq<char>)>) -> Seq<char>
    decreases rows.len(),
{
    if rows.len() == 0 {
        Seq::empty()
    } else {
        let r = rows.last();
        rows_text(rows.drop_last()) + "| `"@ + r.0 + "` | "@ + r.1 + " | "@ + r.2 + " | "@ + r.3
            + " |\n"@
    }
}

/// The document of a schema: frontmatter with its type, its name as the
/// title, its description, and its properties table.
pub open spec fn schema_doc(
    schema_type: Seq<char>,
    name: Seq<char>,
    description: Seq<char>,
    rows: Seq<(Seq<char>, Seq<char>, Seq<char>, Seq<char>)>,
) -> Seq<char> {
    "---\ntype: "@ + schema_type + "\n---\n\n# "@ + name + "\n\n"@ + description
        + "\n\n## Properties\n\n| Property | Required | Type | Description |\n| :--- | :---: | :--- | :--- |\n"@
        + rows_text(rows)
}

/// Appends the lines of a properties table.
fn push_rows(out: &mut Vec<char>, rows: &[PropertyRow])
    ensures
        final(out)@ == old(out)@ + rows_text(row_views(rows@)),
{
    let ghost start = out@;
    let mut i: usize = 0;
    while i < rows.len()
        invariant
            i <= rows@.len(),
            out@ == start + rows_text(row_views(rows@).take(i as int)),
        decreases rows@.len() - i,
    {
        assert(row_views(rows@).take(i + 1).drop_last() =~= row_views(rows@).take(i as int));
        assert(row_views(rows@).take(i + 1).last() == row_view(rows@[i as int]));
        extend_str(out, "| `");
        extend_str(out, rows[i].name.as_str());
        extend_str(out, "` | ");
        extend_str(out, rows[i].required.as_str());
        extend_str(out, " | ");
        extend_str(out, rows[i].prop_type.as_str());
        extend_str(out, " | ");
        extend_str(out, rows[i].description.as_str());
        extend_str(out, " |\n");
        assert(out@ =~= start + rows_text(row_views(rows@).take(i + 1)));
        i = i + 1;
    }
    assert(row_views(rows@).take(rows@.len() as int) =~= row_views(rows@));
}

/// Renders the document of a schema.
pub fn render_schema_doc(schema_type: &str, name: &str, description: &str, rows: &[PropertyRow]) -> (r:
    String)
    ensures
        r@ == schema_doc(schema_type@, name@, description@, row_views(rows@)),
{
    let mut out: Vec<char> = Vec::new();
    extend_str(&mut out, "---\ntype: ");
    extend_str(&mut out, schema_type);
    extend_str(&mut out, "\n---\n\n# ");
    extend_str(&mut out, name);
    extend_str(&mut out, "\n\n");
    extend_str(&mut out, description);
    extend_str(
        &mut out,
        "\n\n## Properties\n\n| Property | Required | Type | Description |\n| :--- | :---: | :--- | :--- |\n",
    );
    push_rows(&mut out, rows);
    string_of(out.as_slice())
}

// ---------------------------------------------------------------------------
// Component documents
// ---------------------------------------------------------------------------

/// The document of a component that is shown as a kind and a text.
pub open spec fn generic_doc(kind: Seq<char>, name: Seq<char>, content: Seq<char>) -> Seq<char> {
    "# "@ + name + "\n\n**"@ + kind + "**\n\n"@ + content + "\n"@
}

/// Renders a kind-and-text component document.
fn render_generic_doc(kind: &str, name: &str, content: &[char]) -> (r: String)
    ensures
        r@ == generic_doc(kind@, name@, content@),
{
    let mut out: Vec<char> = Vec::new();
    extend_str(&mut out, "# ");
    extend_str(&mut out, name);
    extend_str(&mut out, "\n\n**");
    extend_str(&mut out, kind);
    extend_str(&mut out, "**\n\n");
    extend_chars(&mut out, content);
    extend_str(&mut out, "\n");
    string_of(out.as_slice())
}

/// The name of a parameter location.
pub open spec fn location_name(l: ParamLocation) -> Seq<char> {
    match l {
        ParamLocation::Query => "query"@,
        ParamLocation::Path => "path"@,
        ParamLocation::Header => "header"@,
        ParamLocation::Cookie => "cookie"@,
    }
}

/// The document of a component parameter.
pub open spec fn param_doc(
    name: Seq<char>,
    location: Seq<char>,
    required: bool,
    param_type: Seq<char>,
    description: Seq<char>,
) -> Seq<char> {
    "# "@ + name + "\n\n- **In:** "@ + location + "\n- **Required:** "@ + (if required {
        "true"@
    } else {
        "false"@
    }) + "\n- **Type:** "@ + param_type + "\n\n"@ + description + "\n"@
}

/// The type shown for a component parameter: a link for a referenced
/// schema, the schema's type, or `content` without a schema.
pub open spec fn component_param_type(schema: Option<SchemaRef>) -> Seq<char> {
    match schema {
        Some(SchemaRef::Ref(r)) => "["@ + ref_name(r@) + "](../schemas/"@ + ref_name(r@) + ".md)"@,
        Some(SchemaRef::Inline(inner)) => type_text(*inner, "../schemas"@),
        None => "content"@,
    }
}

/// The file of each component of each kind: (path relative to the version
/// directory, document).
pub open spec fn component_file(
    dir: Seq<char>,
    name: Seq<char>,
    doc: Seq<char>,
) -> (Seq<char>, Seq<char>) {
    ("_components/"@ + dir + "/"@ + name + ".md"@, doc)
}

/// The schema documents.
pub open spec fn schema_files(items: Seq<(String, SchemaRef)>, spec: Spec) -> Seq<
    (Seq<char>, Seq<char>),
> {
    items.map_values(
        |x: (String, SchemaRef)|
            {
                let info = schema_info(x.1, spec);
                component_file("schemas"@, x.0@, schema_doc(info.0, x.0@, info.1, info.2))
            },
    )
}

/// The parameter documents.
pub open spec fn param_files(items: Seq<(String, ParamRef)>) -> Seq<(Seq<char>, Seq<char>)> {
    items.map_values(
        |x: (String, ParamRef)|
            component_file(
                "parameters"@,
                x.0@,
                match x.1 {
                    ParamRef::Ref(r) => generic_doc("Parameter Reference"@, x.0@, "Ref: "@ + r@),
                    ParamRef::Param(p) => param_doc(
                        x.0@,
                        location_name(p.location),
                        match p.required {
                            Some(b) => b,
                            None => false,
                        },
                        component_param_type(p.schema),
                        opt_text(p.description),
                    ),
                },
            ),
    )
}

/// The response documents.
pub open spec fn response_files(items: Seq<(String, ResponseRef)>) -> Seq<(Seq<char>, Seq<char>)> {
    items.map_values(
        |x: (String, ResponseRef)|
            component_file(
                "responses"@,
                x.0@,
                match x.1 {
                    ResponseRef::Ref(r) => generic_doc("Response Reference"@, x.0@, "Ref: "@ + r@),
                    ResponseRef::Response(resp) => "# "@ + x.0@ + "\n\n"@ + opt_text(resp.description)
                        + "\n"@,
                },
            ),
    )
}

/// The header documents.
pub open spec fn header_files(items: Seq<(String, HeaderRef)>) -> Seq<(Seq<char>, Seq<char>)> {
    items.map_values(
        |x: (String, HeaderRef)|
            component_file(
                "headers"@,
                x.0@,
                match x.1 {
                    HeaderRef::Ref(r) => generic_doc("Header Reference"@, x.0@, "Ref: "@ + r@),
                    HeaderRef::Header(h) => generic_doc("Header"@, x.0@, opt_text(h.description)),
                },
            ),
    )
}

/// The request body documents.
pub open spec fn body_files(items: Seq<(String, BodyRef)>) -> Seq<(Seq<char>, Seq<char>)> {
    items.map_values(
        |x: (String, BodyRef)|
            component_file(
                "requestBodies"@,
                x.0@,
                match x.1 {
                    BodyRef::Ref(r) => generic_doc("Request Body Reference"@, x.0@, "Ref: "@ + r@),
                    BodyRef::Body(b) => generic_doc(
                        "Request Body"@,
                        x.0@,
                        "Description: "@ + opt_text(b.description),
                    ),
                },
            ),
    )
}

/// Every component document of a document, kind by kind (schemas,
/// parameters, responses, headers, request bodies), each kind in the
/// components' order.
pub open spec fn component_files(spec: Spec) -> Seq<(Seq<char>, Seq<char>)> {
    match spec.components {
        None => Seq::empty(),
        Some(c) => schema_files(c.schemas@, spec) + param_files(c.parameters@) + response_files(
            c.responses@,
        ) + header_files(c.headers@) + body_files(c.request_bodies@),
    }
}

/// The files as (path, document) pairs.
pub open spec fn file_views(v: Seq<(String, String)>) -> Seq<(Seq<char>, Seq<char>)> {
    v.map_values(|f: (String, String)| (f.0@, f.1@))
}

/// The path of a component file.
fn component_path(dir: &str, name: &str) -> (r: String)
    ensures
        r@ == "_components/"@ + dir@ + "/"@ + name@ + ".md"@,
{
    let mut p: Vec<char> = Vec::new();
    extend_str(&mut p, "_components/");
    extend_str(&mut p, dir);
    extend_str(&mut p, "/");
    extend_str(&mut p, name);
    extend_str(&mut p, ".md");
    string_of(p.as_slice())
}

/// The document of one component parameter.
fn param_file_doc(name: &str, pref: &ParamRef) -> (r: String)
    ensures
        r@ == match *pref {
            ParamRef::Ref(r) => generic_doc("Parameter Reference"@, name@, "Ref: "@ + r@),
            ParamRef::Param(p) => param_doc(
                name@,
                location_name(p.location),
                match p.required {
                    Some(b) => b,
                    None => false,
                },
                component_param_type(p.schema),
                opt_text(p.description),
            ),
        },
{
    match pref {
        ParamRef::Ref(reference) => {
            let mut c: Vec<char> = Vec::new();
            extend_str(&mut c, "Ref: ");
            extend_str(&mut c, reference.as_str());
            render_generic_doc("Parameter Reference", name, c.as_slice())
        },
        ParamRef::Param(p) => {
            let loc = match p.location {
                ParamLocation::Query => "query",
                ParamLocation::Path => "path",
                ParamLocation::Header => "header",
                ParamLocation::Cookie => "cookie",
            };
            let mut t: Vec<char> = Vec::new();
            match &p.schema {
                Some(SchemaRef::Ref(r)) => {
                    let rn = ref_name_of(r.as_str());
                    extend_str(&mut t, "[");
                    extend_chars(&mut t, rn.as_slice());
                    extend_str(&mut t, "](../schemas/");
                    extend_chars(&mut t, rn.as_slice());
                    extend_str(&mut t, ".md)");
                },
                Some(SchemaRef::Inline(inner)) => {
                    let x = schema_type_to_string(&**inner, "../schemas");
                    extend_str(&mut t, x.as_str());
                },
                None => extend_str(&mut t, "content"),
            }
            let required = match p.required {
                Some(b) => b,
                None => false,
            };
            let mut out: Vec<char> = Vec::new();
            extend_str(&mut out, "# ");
            extend_str(&mut out, name);
            extend_str(&mut out, "\n\n- **In:** ");
            extend_str(&mut out, loc);
            extend_str(&mut out, "\n- **Required:** ");
            extend_str(&mut out, if required { "true" } else { "false" });
            extend_str(&mut out, "\n- **Type:** ");
            extend_chars(&mut out, t.as_slice());
            extend_str(&mut out, "\n\n");
            if let Some(d) = &p.description {
                extend_str(&mut out, d.as_str());
            }
            extend_str(&mut out, "\n");
            string_of(out.as_slice())
        },
    }
}

/// The component documents of a document (see [`component_files`]).
pub fn generate_components(parsed: &ParsedSpec) -> (r: Vec<(String, String)>)
    ensures
        file_views(r@) == component_files(parsed.spec),
{
    let ghost spec = parsed.spec;
    let mut out: Vec<(String, String)> = Vec::new();
    let c = match &parsed.spec.components {
        None => {
            assert(file_views(out@) =~= Seq::empty());
            return out;
        },
        Some(c) => c,
    };
    let mut i: usize = 0;
    while i < c.schemas.len()
        invariant
            i <= c.schemas@.len(),
            spec == parsed.spec,
            spec.components == Some(*c),
            file_views(out@) == schema_files(c.schemas@.take(i as int), spec),
        decreases c.schemas@.len() - i,
    {
        let (name, sref) = (&c.schemas[i].0, &c.schemas[i].1);
        let (t, d, rows) = schema_details(sref, &parsed.spec);
        let doc = render_schema_doc(t.as_str(), name.as_str(), d.as_str(), rows.as_slice());
        let path = component_path("schemas", name.as_str());
        let ghost prev = file_views(out@);
        let ghost fv = (path@, doc@);
        out.push((path, doc));
        assert(file_views(out@) =~= prev.push(fv));
        assert(schema_files(c.schemas@.take(i + 1), spec) =~= schema_files(c.schemas@.take(i as int), spec).push(
            fv,
        ));
        i = i + 1;
    }
    assert(c.schemas@.take(c.schemas@.len() as int) =~= c.schemas@);
    let ghost f1 = file_views(out@);
    let mut i: usize = 0;
    while i < c.parameters.len()
        invariant
            i <= c.parameters@.len(),
            file_views(out@) == f1 + param_files(c.parameters@.take(i as int)),
        decreases c.parameters@.len() - i,
    {
        let name = &c.parameters[i].0;
        let doc = param_file_doc(name.as_str(), &c.parameters[i].1);
        let path = component_path("parameters", name.as_str());
        let ghost prev = file_views(out@);
        let ghost fv = (path@, doc@);
        out.push((path, doc));
        assert(file_views(out@) =~= prev.push(fv));
        assert(param_files(c.parameters@.take(i + 1)) =~= param_files(c.parameters@.take(i as int)).push(fv));
        i = i + 1;
    }
    assert(c.parameters@.take(c.parameters@.len() as int) =~= c.parameters@);
    let ghost f2 = file_views(out@);
    let mut i: usize = 0;
    while i < c.responses.len()
        invariant
            i <= c.responses@.len(),
            file_views(out@) == f2 + response_files(c.responses@.take(i as int)),
        decreases c.responses@.len() - i,
    {
        let name = &c.responses[i].0;
        let doc = match &c.responses[i].1 {
            ResponseRef::Ref(reference) => {
                let mut x: Vec<char> = Vec::new();
                extend_str(&mut x, "Ref: ");
                extend_str(&mut x, reference.as_str());
                render_generic_doc("Response Reference", name.as_str(), x.as_slice())
            },
            ResponseRef::Response(resp) => {
                let mut x: Vec<char> = Vec::new();
                extend_str(&mut x, "# ");
                extend_str(&mut x, name.as_str());
                extend_str(&mut x, "\n\n");
                if let Some(d) = &resp.description {
                    extend_str(&mut x, d.as_str());
                }
                extend_str(&mut x, "\n");
                string_of(x.as_slice())
            },
        };
        let path = component_path("responses", name.as_str());
        let ghost prev = file_views(out@);
        let ghost fv = (path@, doc@);
        out.push((path, doc));
        assert(file_views(out@) =~= prev.push(fv));
        assert(response_files(c.responses@.take(i + 1)) =~= response_files(c.responses@.take(i as int)).push(
            fv,
        ));
        i = i + 1;
    }
    assert(c.responses@.take(c.responses@.len() as int) =~= c.responses@);
    let ghost f3 = file_views(out@);
    let mut i: usize = 0;
    while i < c.headers.len()
        invariant
            i <= c.headers@.len(),
            file_views(out@) == f3 + header_files(c.headers@.take(i as int)),
        decreases c.headers@.len() - i,
    {
        let name = &c.headers[i].0;
        let doc = match &c.headers[i].1 {
            HeaderRef::Ref(reference) => {
                let mut x: Vec<char> = Vec::new();
                extend_str(&mut x, "Ref: ");
                extend_str(&mut x, reference.as_str());
                render_generic_doc("Header Reference", name.as_str(), x.as_slice())
            },
            HeaderRef::Header(h) => {
                let x: Vec<char> = match &h.description {
                    Some(d) => chars_of(d.as_str()),
                    None => Vec::new(),
                };
                render_generic_doc("Header", name.as_str(), x.as_slice())
            },
        };
        let path = component_path("headers", name.as_str());
        let ghost prev = file_views(out@);
        let ghost fv = (path@, doc@);
        out.push((path, doc));
        assert(file_views(out@) =~= prev.push(fv));
        assert(header_files(c.headers@.take(i + 1)) =~= header_files(c.headers@.take(i as int)).push(fv));
        i = i + 1;
    }
    assert(c.headers@.take(c.headers@.len() as int) =~= c.headers@);
    let ghost f4 = file_views(out@);
    let mut i: usize = 0;
    while i < c.request_bodies.len()
        invariant
            i <= c.request_bodies@.len(),
            file_views(out@) == f4 + body_files(c.request_bodies@.take(i as int)),
        decreases c.request_bodies@.len() - i,
    {
        let name = &c.request_bodies[i].0;
        let doc = match &c.request_bodies[i].1 {
            BodyRef::Ref(reference) => {
                let mut x: Vec<char> = Vec::new();
                extend_str(&mut x, "Ref: ");
                extend_str(&mut x, reference.as_str());
                render_generic_doc("Request Body Reference", name.as_str(), x.as_slice())
            },
            BodyRef::Body(b) => {
                let mut x: Vec<char> = Vec::new();
                extend_str(&mut x, "Description: ");
                if let Some(d) = &b.description {
                    extend_str(&mut x, d.as_str());
                }
                render_generic_doc("Request Body", name.as_str(), x.as_slice())
            },
        };
        let path = component_path("requestBodies", name.as_str());
        let ghost prev = file_views(out@);
        let ghost fv = (path@, doc@);
        out.push((path, doc));
        assert(file_views(out@) =~= prev.push(fv));
        assert(body_files(c.request_bodies@.take(i + 1)) =~= body_files(c.request_bodies@.take(i as int)).push(
            fv,
        ));
        i = i + 1;
    }
    assert(c.request_bodies@.take(c.request_bodies@.len() as int) =~= c.request_bodies@);
    assert(file_views(out@) =~= component_files(spec));
    out
}

} // verus!
