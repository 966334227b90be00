//! Reading an OpenAPI document into the library's model.
//!
//! oas3 reads the document (JSON, else YAML) and writes it back as JSON
//! text in its own canonical form; this module reads the library's model
//! out of that text, one JSON value at a time, with serde_json telling the
//! kind of each value and its members or elements as JSON texts.

use vstd::prelude::*;
use crate::build::model::{
    BodyRef, Components, Example, Header, HeaderRef, Items, MediaType, Operation, ParamLocation,
    ParamRef, Parameter, PathItem, RequestBody, Response, ResponseRef, Schema, SchemaRef,
    SchemaType, SecurityScheme, SecuritySchemeRef, Spec, TypeSet,
};
use crate::config::opt_view;
use crate::text::{owned, str_eq, strs};
use serde_json::Value;

verus! {

// ---------------------------------------------------------------------------
// JSON values
// ---------------------------------------------------------------------------

/// A JSON value as the reader sees it: its kind, and for a text its
/// characters, for an array its elements and for an object its members
/// (in serde_json's map order), each element and member value written as
/// JSON text.
pub enum JsonShape {
    Null,
    Bool(bool),
    Number,
    Str(Seq<char>),
    Array(Seq<Seq<char>>),
    Object(Seq<(Seq<char>, Seq<char>)>),
    Invalid,
}

/// A JSON value read by serde_json (see [`JsonShape`]).
pub enum JsonNode {
    Null,
    Bool(bool),
    Number,
    Str(String),
    Array(Vec<String>),
    Object(Vec<(String, String)>),
    Invalid,
}

/// Pairs of texts as pairs of character sequences.
pub open spec fn pair_views(v: Seq<(String, String)>) -> Seq<(Seq<char>, Seq<char>)> {
    v.map_values(|p: (String, String)| (p.0@, p.1@))
}

impl View for JsonNode {
    type V = JsonShape;

    open spec fn view(&self) -> JsonShape {
        match self {
            JsonNode::Null => JsonShape::Null,
            JsonNode::Bool(b) => JsonShape::Bool(*b),
            JsonNode::Number => JsonShape::Number,
            JsonNode::Str(s) => JsonShape::Str(s@),
            JsonNode::Array(xs) => JsonShape::Array(strs(xs@)),
            JsonNode::Object(ms) => JsonShape::Object(pair_views(ms@)),
            JsonNode::Invalid => JsonShape::Invalid,
        }
    }
}

/// What serde_json reads from a JSON text (`serde_json::from_str` into a
/// `Value`): its kind, its text, or its elements or members each written
/// with `Value::to_string`; `Invalid` when it does not read.
pub uninterp spec fn json_shape(json: Seq<char>) -> JsonShape;

/// A JSON text read by serde_json and written with
/// `serde_json::to_string_pretty`; none when it does not read.
pub uninterp spec fn json_pretty(json: Seq<char>) -> Option<Seq<char>>;

/// What oas3 reads from a document text: the document (`oas3::from_json`,
/// else `serde_yaml` into `oas3::spec::Spec`) written back as JSON text
/// (`serde_json::to_string`), or the JSON and the YAML readers' error
/// messages.
pub uninterp spec fn openapi_read(text: Seq<char>) -> Result<Seq<char>, (Seq<char>, Seq<char>)>;

/// Reads a JSON text with serde_json into its kind and parts. The
/// contract names the outcome.
#[verifier::external_body]
fn node_of(json: &str) -> (r: JsonNode)
    ensures
        r@ == json_shape(json@),
{
    match serde_json::from_str::<Value>(json) {
        Err(_) => JsonNode::Invalid,
        Ok(Value::Null) => JsonNode::Null,
        Ok(Value::Bool(b)) => JsonNode::Bool(b),
        Ok(Value::Number(_)) => JsonNode::Number,
        Ok(Value::String(s)) => JsonNode::Str(s),
        Ok(Value::Array(a)) => JsonNode::Array(a.iter().map(|x| x.to_string()).collect()),
        Ok(Value::Object(m)) => JsonNode::Object(m.iter().map(|(k, x)| (k.clone(), x.to_string())).collect()),
    }
}

/// Writes a JSON text again with serde_json's pretty printer. The contract
/// names the outcome.
#[verifier::external_body]
fn pretty_of(json: &str) -> (r: Option<String>)
    ensures
        match json_pretty(json@) {
            Some(p) => r matches Some(x) && x@ == p,
            None => r is None,
        },
{
    let v: serde_json::Value = serde_json::from_str(json).ok()?;
    serde_json::to_string_pretty(&v).ok()
}

/// Reads a document with oas3, as JSON, else as YAML, and writes it back
/// as JSON text. The contract names the outcome.
#[verifier::external_body]
pub(crate) fn read_document_json(text: &str) -> (r: Result<String, (String, String)>)
    ensures
        match openapi_read(text@) {
            Ok(d) => r matches Ok(x) && x@ == d,
            Err((j, y)) => r matches Err((a, b)) && a@ == j && b@ == y,
        },
{
    let spec = match oas3::from_json(text) {
        Ok(s) => s,
        Err(je) => match serde_yaml::from_str::<oas3::spec::Spec>(text) {
            Ok(s) => s,
            Err(ye) => return Err((je.to_string(), ye.to_string())),
        },
    };
    serde_json::to_string(&spec).map_err(|e| (e.to_string(), e.to_string()))
}

/// The members of an object (none for another value).
pub open spec fn members(j: Seq<char>) -> Seq<(Seq<char>, Seq<char>)> {
    match json_shape(j) {
        JsonShape::Object(ms) => ms,
        _ => Seq::empty(),
    }
}

/// The elements of an array (none for another value).
pub open spec fn elements(j: Seq<char>) -> Seq<Seq<char>> {
    match json_shape(j) {
        JsonShape::Array(xs) => xs,
        _ => Seq::empty(),
    }
}

/// The value of the first member with a key.
pub open spec fn lookup(ms: Seq<(Seq<char>, Seq<char>)>, k: Seq<char>) -> Option<Seq<char>>
    decreases ms.len(),
{
    if ms.len() == 0 {
        None
    } else if ms[0].0 == k {
        Some(ms[0].1)
    } else {
        lookup(ms.drop_first(), k)
    }
}

/// The value of an object's member.
pub open spec fn get(j: Seq<char>, k: Seq<char>) -> Option<Seq<char>> {
    lookup(members(j), k)
}

/// A text value.
pub open spec fn text(j: Seq<char>) -> Option<Seq<char>> {
    match json_shape(j) {
        JsonShape::Str(s) => Some(s),
        _ => None,
    }
}

/// A boolean value.
pub open spec fn flag(j: Seq<char>) -> Option<bool> {
    match json_shape(j) {
        JsonShape::Bool(b) => Some(b),
        _ => None,
    }
}

/// The text of an object's member.
pub open spec fn text_at(j: Seq<char>, k: Seq<char>) -> Option<Seq<char>> {
    match get(j, k) {
        Some(x) => text(x),
        None => None,
    }
}

/// The boolean of an object's member.
pub open spec fn flag_at(j: Seq<char>, k: Seq<char>) -> Option<bool> {
    match get(j, k) {
        Some(x) => flag(x),
        None => None,
    }
}

/// The members of an object's member (none when absent).
pub open spec fn members_at(j: Seq<char>, k: Seq<char>) -> Seq<(Seq<char>, Seq<char>)> {
    match get(j, k) {
        Some(x) => members(x),
        None => Seq::empty(),
    }
}

/// The elements of an object's member (none when absent).
pub open spec fn elements_at(j: Seq<char>, k: Seq<char>) -> Seq<Seq<char>> {
    match get(j, k) {
        Some(x) => elements(x),
        None => Seq::empty(),
    }
}

/// The texts among values, in order.
pub open spec fn texts(xs: Seq<Seq<char>>) -> Seq<Seq<char>>
    decreases xs.len(),
{
    if xs.len() == 0 {
        Seq::empty()
    } else {
        let r = texts(xs.drop_last());
        match text(xs.last()) {
            Some(s) => r.push(s),
            None => r,
        }
    }
}

/// The keys of members, in order.
pub open spec fn keys(ms: Seq<(Seq<char>, Seq<char>)>) -> Seq<Seq<char>> {
    ms.map_values(|m: (Seq<char>, Seq<char>)| m.0)
}

fn members_of(json: &str) -> (r: Vec<(String, String)>)
    ensures
        pair_views(r@) == members(json@),
{
    match node_of(json) {
        JsonNode::Object(ms) => ms,
        _ => {
            let v: Vec<(String, String)> = Vec::new();
            assert(pair_views(v@) =~= Seq::<(Seq<char>, Seq<char>)>::empty());
            v
        },
    }
}

fn elements_of(json: &str) -> (r: Vec<String>)
    ensures
        strs(r@) == elements(json@),
{
    match node_of(json) {
        JsonNode::Array(xs) => xs,
        _ => {
            let v: Vec<String> = Vec::new();
            assert(strs(v@) =~= Seq::<Seq<char>>::empty());
            v
        },
    }
}

fn lookup_exec(ms: &[(String, String)], k: &str) -> (r: Option<String>)
    ensures
        opt_view(r) == lookup(pair_views(ms@), k@),
{
    let ghost pv = pair_views(ms@);
    let mut i: usize = 0;
    assert(pv.skip(0) =~= pv);
    while i < ms.len()
        invariant
            i <= ms@.len(),
            pv == pair_views(ms@),
            lookup(pv, k@) == lookup(pv.skip(i as int), k@),
        decreases ms@.len() - i,
    {
        assert(pv.skip(i as int)[0] == (ms@[i as int].0@, ms@[i as int].1@));
        assert(pv.skip(i as int).drop_first() =~= pv.skip(i + 1));
        if str_eq(ms[i].0.as_str(), k) {
            return Some(owned(ms[i].1.as_str()));
        }
        i = i + 1;
    }
    assert(pv.skip(ms@.len() as int) =~= Seq::<(Seq<char>, Seq<char>)>::empty());
    None
}

fn text_exec(json: &str) -> (r: Option<String>)
    ensures
        opt_view(r) == text(json@),
{
    match node_of(json) {
        JsonNode::Str(s) => Some(s),
        _ => None,
    }
}

fn flag_exec(json: &str) -> (r: Option<bool>)
    ensures
        r == flag(json@),
{
    match node_of(json) {
        JsonNode::Bool(b) => Some(b),
        _ => None,
    }
}

/// The text of a member, from an object's members.
fn text_in(ms: &[(String, String)], k: &str) -> (r: Option<String>)
    ensures
        opt_view(r) == match lookup(pair_views(ms@), k@) {
            Some(x) => text(x),
            None => None,
        },
{
    match lookup_exec(ms, k) {
        Some(x) => text_exec(x.as_str()),
        None => None,
    }
}

/// The boolean of a member, from an object's members.
fn flag_in(ms: &[(String, String)], k: &str) -> (r: Option<bool>)
    ensures
        r == match lookup(pair_views(ms@), k@) {
            Some(x) => flag(x),
            None => None,
        },
{
    match lookup_exec(ms, k) {
        Some(x) => flag_exec(x.as_str()),
        None => None,
    }
}

/// The members of a member, from an object's members.
fn members_in(ms: &[(String, String)], k: &str) -> (r: Vec<(String, String)>)
    ensures
        pair_views(r@) == match lookup(pair_views(ms@), k@) {
            Some(x) => members(x),
            None => Seq::empty(),
        },
{
    match lookup_exec(ms, k) {
        Some(x) => members_of(x.as_str()),
        None => {
            let v: Vec<(String, String)> = Vec::new();
            assert(pair_views(v@) =~= Seq::<(Seq<char>, Seq<char>)>::empty());
            v
        },
    }
}

/// The elements of a member, from an object's members.
fn elements_in(ms: &[(String, String)], k: &str) -> (r: Vec<String>)
    ensures
        strs(r@) == match lookup(pair_views(ms@), k@) {
            Some(x) => elements(x),
            None => Seq::empty(),
        },
{
    match lookup_exec(ms, k) {
        Some(x) => elements_of(x.as_str()),
        None => {
            let v: Vec<String> = Vec::new();
            assert(strs(v@) =~= Seq::<Seq<char>>::empty());
            v
        },
    }
}

/// The texts among values.
fn texts_exec(xs: &[String]) -> (r: Vec<String>)
    ensures
        strs(r@) == texts(strs(xs@)),
{
    let ghost xv = strs(xs@);
    let mut out: Vec<String> = Vec::new();
    let mut i: usize = 0;
    assert(strs(out@) =~= texts(xv.take(0)));
    while i < xs.len()
        invariant
            i <= xs@.len(),
            xv == strs(xs@),
            strs(out@) == texts(xv.take(i as int)),
        decreases xs@.len() - i,
    {
        assert(xv.take(i + 1).drop_last() =~= xv.take(i as int));
        assert(xv.take(i + 1).last() == xs@[i as int]@);
        match text_exec(xs[i].as_str()) {
            Some(s) => {
                let ghost prev = strs(out@);
                let ghost sv = s@;
                out.push(s);
                assert(strs(out@) =~= prev.push(sv));
            },
            None => {},
        }
        i = i + 1;
    }
    assert(xv.take(xs@.len() as int) =~= xv);
    out
}

/// The keys of members.
fn keys_exec(ms: &[(String, String)]) -> (r: Vec<String>)
    ensures
        strs(r@) == keys(pair_views(ms@)),
{
    let mut out: Vec<String> = Vec::new();
    let mut i: usize = 0;
    while i < ms.len()
        invariant
            i <= ms@.len(),
            strs(out@) == keys(pair_views(ms@)).take(i as int),
        decreases ms@.len() - i,
    {
        let ghost prev = strs(out@);
        let k = owned(ms[i].0.as_str());
        let ghost kv = k@;
        out.push(k);
        assert(strs(out@) =~= prev.push(kv));
        assert(keys(pair_views(ms@))[i as int] == kv);
        assert(keys(pair_views(ms@)).take(i + 1) =~= keys(pair_views(ms@)).take(i as int).push(kv));
        i = i + 1;
    }
    assert(keys(pair_views(ms@)).take(ms@.len() as int) =~= keys(pair_views(ms@)));
    out
}

// ---------------------------------------------------------------------------
// Schemas
// ---------------------------------------------------------------------------

/// A schema type by its name in the document.
pub open spec fn type_named(s: Seq<char>) -> Option<SchemaType> {
    if s == "boolean"@ {
        Some(SchemaType::Boolean)
    } else if s == "object"@ {
        Some(SchemaType::Object)
    } else if s == "array"@ {
        Some(SchemaType::Array)
    } else if s == "number"@ {
        Some(SchemaType::Number)
    } else if s == "string"@ {
        Some(SchemaType::String)
    } else if s == "integer"@ {
        Some(SchemaType::Integer)
    } else if s == "null"@ {
        Some(SchemaType::Null)
    } else {
        None
    }
}

fn type_named_exec(s: &str) -> (r: Option<SchemaType>)
    ensures
        r == type_named(s@),
{
    if str_eq(s, "boolean") {
        Some(SchemaType::Boolean)
    } else if str_eq(s, "object") {
        Some(SchemaType::Object)
    } else if str_eq(s, "array") {
        Some(SchemaType::Array)
    } else if str_eq(s, "number") {
        Some(SchemaType::Number)
    } else if str_eq(s, "string") {
        Some(SchemaType::String)
    } else if str_eq(s, "integer") {
        Some(SchemaType::Integer)
    } else if str_eq(s, "null") {
        Some(SchemaType::Null)
    } else {
        None
    }
}

/// The known types named by text values, in order.
pub open spec fn types_named(xs: Seq<Seq<char>>) -> Seq<SchemaType>
    decreases xs.len(),
{
    if xs.len() == 0 {
        Seq::empty()
    } else {
        let r = types_named(xs.drop_last());
        match text(xs.last()) {
            Some(s) => match type_named(s) {
                Some(t) => r.push(t),
                None => r,
            },
            None => r,
        }
    }
}

/// `t` is the `type` of a schema: one known type name, or an array whose
/// known type names it gives, in order.
pub open spec fn type_set_reads(v: Option<Seq<char>>, t: Option<TypeSet>) -> bool {
    match v {
        None => t is None,
        Some(x) => match json_shape(x) {
            JsonShape::Str(s) => match type_named(s) {
                Some(ty) => t == Some(TypeSet::Single(ty)),
                None => t is None,
            },
            JsonShape::Array(xs) => t matches Some(TypeSet::Multiple(v)) && v@ == types_named(xs),
            _ => t is None,
        },
    }
}

fn type_set_exec(v: Option<String>) -> (r: Option<TypeSet>)
    ensures
        type_set_reads(opt_view(v), r),
{
    let x = match v {
        None => return None,
        Some(x) => x,
    };
    match node_of(x.as_str()) {
        JsonNode::Str(s) => match type_named_exec(s.as_str()) {
            Some(t) => Some(TypeSet::Single(t)),
            None => None,
        },
        JsonNode::Array(xs) => {
            let ghost xv = strs(xs@);
            let mut out: Vec<SchemaType> = Vec::new();
            let mut i: usize = 0;
            assert(out@ =~= types_named(xv.take(0)));
            while i < xs.len()
                invariant
                    i <= xs@.len(),
                    xv == strs(xs@),
                    out@ == types_named(xv.take(i as int)),
                decreases xs@.len() - i,
            {
                assert(xv.take(i + 1).drop_last() =~= xv.take(i as int));
                assert(xv.take(i + 1).last() == xs@[i as int]@);
                if let Some(s) = text_exec(xs[i].as_str()) {
                    if let Some(t) = type_named_exec(s.as_str()) {
                        out.push(t);
                    }
                }
                i = i + 1;
            }
            assert(xv.take(xs@.len() as int) =~= xv);
            Some(TypeSet::Multiple(out))
        },
        _ => None,
    }
}

/// An example value: its pretty JSON text (`{}` when it does not read) and,
/// for an object, its members with text values unquoted and other values as
/// compact JSON.
pub open spec fn example_reads(j: Seq<char>, e: Example) -> bool {
    &&& e.pretty@ == match json_pretty(j) {
        Some(p) => p,
        None => "{}"@,
    }
    &&& match json_shape(j) {
        JsonShape::Object(ms) => e.fields matches Some(fs) && pair_views(fs@) == ms.map_values(
            |m: (Seq<char>, Seq<char>)|
                (
                    m.0,
                    match text(m.1) {
                        Some(s) => s,
                        None => m.1,
                    },
                ),
        ),
        _ => e.fields is None,
    }
}

/// An optional example member.
pub open spec fn example_opt_reads(v: Option<Seq<char>>, e: Option<Example>) -> bool {
    match v {
        None => e is None,
        Some(x) => e matches Some(ex) && example_reads(x, ex),
    }
}

fn example_exec(j: &str) -> (r: Example)
    ensures
        example_reads(j@, r),
{
    let pretty = match pretty_of(j) {
        Some(p) => p,
        None => owned("{}"),
    };
    let fields = match node_of(j) {
        JsonNode::Object(ms) => {
            let ghost mv = pair_views(ms@);
            let ghost want = mv.map_values(
                |m: (Seq<char>, Seq<char>)|
                    (
                        m.0,
                        match text(m.1) {
                            Some(s) => s,
                            None => m.1,
                        },
                    ),
            );
            let mut out: Vec<(String, String)> = Vec::new();
            let mut i: usize = 0;
            while i < ms.len()
                invariant
                    i <= ms@.len(),
                    mv == pair_views(ms@),
                    want == mv.map_values(
                        |m: (Seq<char>, Seq<char>)|
                            (
                                m.0,
                                match text(m.1) {
                                    Some(s) => s,
                                    None => m.1,
                                },
                            ),
                    ),
                    pair_views(out@) == want.take(i as int),
                decreases ms@.len() - i,
            {
                let v = match text_exec(ms[i].1.as_str()) {
                    Some(s) => s,
                    None => owned(ms[i].1.as_str()),
                };
                let ghost prev = pair_views(out@);
                let k = owned(ms[i].0.as_str());
                let ghost e = (k@, v@);
                assert(mv[i as int] == (ms@[i as int].0@, ms@[i as int].1@));
                assert(want[i as int] == e);
                out.push((k, v));
                assert(pair_views(out@) =~= prev.push(e));
                assert(want.take(i + 1) =~= want.take(i as int).push(e));
                i = i + 1;
            }
            assert(want.take(ms@.len() as int) =~= want);
            Some(out)
        },
        _ => None,
    };
    Example { pretty, fields }
}

fn example_opt_exec(v: Option<String>) -> (r: Option<Example>)
    ensures
        example_opt_reads(opt_view(v), r),
{
    match v {
        None => None,
        Some(x) => Some(example_exec(x.as_str())),
    }
}

/// A schema with nothing in it.
pub open spec fn schema_is_empty(s: Schema) -> bool {
    &&& s.schema_type is None
    &&& s.description is None
    &&& s.properties@.len() == 0
    &&& s.required@.len() == 0
    &&& s.all_of@.len() == 0
    &&& s.any_of@.len() == 0
    &&& s.one_of@.len() == 0
    &&& s.items is None
    &&& s.string_enum@.len() == 0
    &&& s.example is None
    &&& s.default is None
}

fn empty_schema() -> (r: Schema)
    ensures
        schema_is_empty(r),
{
    Schema {
        schema_type: None,
        description: None,
        properties: Vec::new(),
        required: Vec::new(),
        all_of: Vec::new(),
        any_of: Vec::new(),
        one_of: Vec::new(),
        items: None,
        string_enum: Vec::new(),
        example: None,
        default: None,
    }
}

/// `r` is what a schema value reads as, nesting at most `d` deep: a
/// boolean schema is empty, a `$ref` is a reference, an object is read as
/// a schema; past the depth a schema reads as empty.
pub open spec fn schema_ref_reads(j: Seq<char>, d: nat, r: SchemaRef) -> bool
    decreases d, 0nat,
{
    if d == 0 {
        r matches SchemaRef::Inline(b) && schema_is_empty(*b)
    } else {
        match json_shape(j) {
            JsonShape::Bool(_) => r matches SchemaRef::Inline(b) && schema_is_empty(*b),
            _ => match text_at(j, "$ref"@) {
                Some(p) => r matches SchemaRef::Ref(x) && x@ == p,
                None => r matches SchemaRef::Inline(b) && schema_reads(j, (d - 1) as nat, *b),
            },
        }
    }
}

/// `r` is what the `items` value of a schema reads as (see
/// [`schema_ref_reads`]; a boolean is `Bool`).
pub open spec fn items_reads(j: Seq<char>, d: nat, r: Items) -> bool
    decreases d, 0nat,
{
    if d == 0 {
        r is Bool
    } else {
        match json_shape(j) {
            JsonShape::Bool(_) => r is Bool,
            _ => match text_at(j, "$ref"@) {
                Some(p) => r matches Items::Ref(x) && x@ == p,
                None => r matches Items::Inline(b) && schema_reads(j, (d - 1) as nat, *b),
            },
        }
    }
}

/// `s` is what a schema object reads as: its `type`, `description`,
/// `properties` (in order), `required`, `allOf`, `anyOf`, `oneOf`,
/// `items`, the texts of its `enum`, its `example` and its `default`.
pub open spec fn schema_reads(j: Seq<char>, d: nat, s: Schema) -> bool
    decreases d, 1nat,
{
    let ps = members_at(j, "properties"@);
    let all = elements_at(j, "allOf"@);
    let any = elements_at(j, "anyOf"@);
    let one = elements_at(j, "oneOf"@);
    &&& type_set_reads(get(j, "type"@), s.schema_type)
    &&& opt_view(s.description) == text_at(j, "description"@)
    &&& s.properties@.len() == ps.len()
    &&& forall|i: int|
        0 <= i < ps.len() ==> #[trigger] s.properties@[i].0@ == ps[i].0 && schema_ref_reads(
            ps[i].1,
            d,
            s.properties@[i].1,
        )
    &&& strs(s.required@) == texts(elements_at(j, "required"@))
    &&& s.all_of@.len() == all.len()
    &&& forall|i: int| 0 <= i < all.len() ==> schema_ref_reads(all[i], d, #[trigger] s.all_of@[i])
    &&& s.any_of@.len() == any.len()
    &&& forall|i: int| 0 <= i < any.len() ==> schema_ref_reads(any[i], d, #[trigger] s.any_of@[i])
    &&& s.one_of@.len() == one.len()
    &&& forall|i: int| 0 <= i < one.len() ==> schema_ref_reads(one[i], d, #[trigger] s.one_of@[i])
    &&& match get(j, "items"@) {
        None => s.items is None,
        Some(x) => s.items matches Some(b) && items_reads(x, d, *b),
    }
    &&& strs(s.string_enum@) == texts(elements_at(j, "enum"@))
    &&& example_opt_reads(get(j, "example"@), s.example)
    &&& example_opt_reads(get(j, "default"@), s.default)
}

/// Reads schema values (see [`schema_ref_reads`]).
fn schema_refs_exec(xs: &[String], d: u32) -> (r: Vec<SchemaRef>)
    ensures
        r@.len() == xs@.len(),
        forall|i: int| 0 <= i < xs@.len() ==> schema_ref_reads(xs@[i]@, d as nat, #[trigger] r@[i]),
    decreases d, 1nat, 0nat,
{
    let mut out: Vec<SchemaRef> = Vec::new();
    let mut i: usize = 0;
    while i < xs.len()
        invariant
            i <= xs@.len(),
            out@.len() == i,
            forall|k: int| 0 <= k < i ==> schema_ref_reads(xs@[k]@, d as nat, #[trigger] out@[k]),
        decreases xs@.len() - i,
    {
        let r = schema_ref_exec(xs[i].as_str(), d);
        out.push(r);
        i = i + 1;
    }
    out
}

/// Reads a schema value (see [`schema_ref_reads`]).
fn schema_ref_exec(j: &str, d: u32) -> (r: SchemaRef)
    ensures
        schema_ref_reads(j@, d as nat, r),
    decreases d, 0nat, 0nat,
{
    if d == 0 {
        return SchemaRef::Inline(Box::new(empty_schema()));
    }
    if let JsonNode::Bool(_) = node_of(j) {
        return SchemaRef::Inline(Box::new(empty_schema()));
    }
    let ms = members_of(j);
    match text_in(ms.as_slice(), "$ref") {
        Some(p) => SchemaRef::Ref(p),
        None => SchemaRef::Inline(Box::new(schema_exec(j, ms.as_slice(), d - 1))),
    }
}

/// Reads an `items` value (see [`items_reads`]).
fn items_exec(j: &str, d: u32) -> (r: Items)
    ensures
        items_reads(j@, d as nat, r),
    decreases d, 0nat, 0nat,
{
    if d == 0 {
        return Items::Bool;
    }
    if let JsonNode::Bool(_) = node_of(j) {
        return Items::Bool;
    }
    let ms = members_of(j);
    match text_in(ms.as_slice(), "$ref") {
        Some(p) => Items::Ref(p),
        None => Items::Inline(Box::new(schema_exec(j, ms.as_slice(), d - 1))),
    }
}

/// Reads a schema object, given its members (see [`schema_reads`]).
fn schema_exec(j: &str, ms: &[(String, String)], d: u32) -> (r: Schema)
    requires
        pair_views(ms@) == members(j@),
    ensures
        schema_reads(j@, d as nat, r),
    decreases d, 1nat, 1nat,
{
    let schema_type = type_set_exec(lookup_exec(ms, "type"));
    let description = text_in(ms, "description");
    let ps = members_in(ms, "properties");
    let ghost pv = pair_views(ps@);
    let mut properties: Vec<(String, SchemaRef)> = Vec::new();
    let mut i: usize = 0;
    while i < ps.len()
        invariant
            i <= ps@.len(),
            pv == pair_views(ps@),
            properties@.len() == i,
            forall|k: int|
                0 <= k < i ==> #[trigger] properties@[k].0@ == pv[k].0 && schema_ref_reads(
                    pv[k].1,
                    d as nat,
                    properties@[k].1,
                ),
        decreases ps@.len() - i,
    {
        let r = schema_ref_exec(ps[i].1.as_str(), d);
        properties.push((owned(ps[i].0.as_str()), r));
        i = i + 1;
    }
    let req = elements_in(ms, "required");
    let required = texts_exec(req.as_slice());
    let all_of = schema_refs_exec(elements_in(ms, "allOf").as_slice(), d);
    let any_of = schema_refs_exec(elements_in(ms, "anyOf").as_slice(), d);
    let one_of = schema_refs_exec(elements_in(ms, "oneOf").as_slice(), d);
    let items = match lookup_exec(ms, "items") {
        None => None,
        Some(x) => Some(Box::new(items_exec(x.as_str(), d))),
    };
    let en = elements_in(ms, "enum");
    let string_enum = texts_exec(en.as_slice());
    let example = example_opt_exec(lookup_exec(ms, "example"));
    let default = example_opt_exec(lookup_exec(ms, "default"));
    Schema {
        schema_type,
        description,
        properties,
        required,
        all_of,
        any_of,
        one_of,
        items,
        string_enum,
        example,
        default,
    }
}

// ---------------------------------------------------------------------------
// Parameters, bodies, headers, responses
// ---------------------------------------------------------------------------

/// A text, or nothing.
pub open spec fn or_empty(o: Option<Seq<char>>) -> Seq<char> {
    match o {
        Some(s) => s,
        None => Seq::empty(),
    }
}

fn or_empty_exec(o: Option<String>) -> (r: String)
    ensures
        r@ == or_empty(opt_view(o)),
{
    match o {
        Some(s) => s,
        None => String::new(),
    }
}

/// The media types of a `content` member, in order.
pub open spec fn media_list_reads(ms: Seq<(Seq<char>, Seq<char>)>, d: nat, v: Seq<(String, MediaType)>) -> bool {
    &&& v.len() == ms.len()
    &&& forall|i: int|
        0 <= i < ms.len() ==> #[trigger] v[i].0@ == ms[i].0 && match get(ms[i].1, "schema"@) {
            None => v[i].1.schema is None,
            Some(x) => v[i].1.schema matches Some(r) && schema_ref_reads(x, d, r),
        }
}

fn media_list_exec(ms: &[(String, String)], d: u32) -> (r: Vec<(String, MediaType)>)
    ensures
        media_list_reads(pair_views(ms@), d as nat, r@),
{
    let ghost pv = pair_views(ms@);
    let mut out: Vec<(String, MediaType)> = Vec::new();
    let mut i: usize = 0;
    while i < ms.len()
        invariant
            i <= ms@.len(),
            pv == pair_views(ms@),
            out@.len() == i,
            forall|k: int|
                0 <= k < i ==> #[trigger] out@[k].0@ == pv[k].0 && match get(pv[k].1, "schema"@) {
                    None => out@[k].1.schema is None,
                    Some(x) => out@[k].1.schema matches Some(r) && schema_ref_reads(x, d as nat, r),
                },
        decreases ms@.len() - i,
    {
        assert(pv[i as int] == (ms@[i as int].0@, ms@[i as int].1@));
        let inner = members_of(ms[i].1.as_str());
        let schema = match lookup_exec(inner.as_slice(), "schema") {
            None => None,
            Some(x) => Some(schema_ref_exec(x.as_str(), d)),
        };
        let ghost prev = out@;
        out.push((owned(ms[i].0.as_str()), MediaType { schema }));
        assert(forall|k: int| 0 <= k < i ==> out@[k] == prev[k]);
        i = i + 1;
    }
    out
}

/// Where a parameter goes, by its `in` text (a query parameter unless
/// named otherwise).
pub open spec fn location_named(s: Option<Seq<char>>) -> ParamLocation {
    if s == Some("path"@) {
        ParamLocation::Path
    } else if s == Some("header"@) {
        ParamLocation::Header
    } else if s == Some("cookie"@) {
        ParamLocation::Cookie
    } else {
        ParamLocation::Query
    }
}

fn location_exec(s: Option<String>) -> (r: ParamLocation)
    ensures
        r == location_named(opt_view(s)),
{
    match s {
        Some(x) => if str_eq(x.as_str(), "path") {
            ParamLocation::Path
        } else if str_eq(x.as_str(), "header") {
            ParamLocation::Header
        } else if str_eq(x.as_str(), "cookie") {
            ParamLocation::Cookie
        } else {
            ParamLocation::Query
        },
        None => ParamLocation::Query,
    }
}

/// A parameter style as oas3 names its variant (`form` is `Form`, and so
/// on); another text as it is.
pub open spec fn style_named(s: Seq<char>) -> Seq<char> {
    if s == "matrix"@ {
        "Matrix"@
    } else if s == "label"@ {
        "Label"@
    } else if s == "form"@ {
        "Form"@
    } else if s == "simple"@ {
        "Simple"@
    } else if s == "spaceDelimited"@ {
        "SpaceDelimited"@
    } else if s == "pipeDelimited"@ {
        "PipeDelimited"@
    } else if s == "deepObject"@ {
        "DeepObject"@
    } else {
        s
    }
}

fn style_exec(s: &str) -> (r: String)
    ensures
        r@ == style_named(s@),
{
    if str_eq(s, "matrix") {
        owned("Matrix")
    } else if str_eq(s, "label") {
        owned("Label")
    } else if str_eq(s, "form") {
        owned("Form")
    } else if str_eq(s, "simple") {
        owned("Simple")
    } else if str_eq(s, "spaceDelimited") {
        owned("SpaceDelimited")
    } else if str_eq(s, "pipeDelimited") {
        owned("PipeDelimited")
    } else if str_eq(s, "deepObject") {
        owned("DeepObject")
    } else {
        owned(s)
    }
}

/// The keys of a `content` member, if there is one.
pub open spec fn content_keys(j: Seq<char>, c: Option<Vec<String>>) -> bool {
    match get(j, "content"@) {
        None => c is None,
        Some(x) => c matches Some(v) && strs(v@) == keys(members(x)),
    }
}

fn content_keys_exec(ms: &[(String, String)]) -> (r: Option<Vec<String>>)
    ensures
        match lookup(pair_views(ms@), "content"@) {
            None => r is None,
            Some(x) => r matches Some(v) && strs(v@) == keys(members(x)),
        },
{
    match lookup_exec(ms, "content") {
        None => None,
        Some(x) => {
            let inner = members_of(x.as_str());
            Some(keys_exec(inner.as_slice()))
        },
    }
}

/// An optional schema member.
pub open spec fn schema_opt_reads(v: Option<Seq<char>>, d: nat, r: Option<SchemaRef>) -> bool {
    match v {
        None => r is None,
        Some(x) => r matches Some(s) && schema_ref_reads(x, d, s),
    }
}

fn schema_opt_exec(v: Option<String>, d: u32) -> (r: Option<SchemaRef>)
    ensures
        schema_opt_reads(opt_view(v), d as nat, r),
{
    match v {
        None => None,
        Some(x) => Some(schema_ref_exec(x.as_str(), d)),
    }
}

/// A parameter value: a `$ref`, or the parameter's `name`, `in`,
/// `required`, `description`, `schema`, the keys of its `content`, its
/// `style`, `explode` and `allowReserved`.
pub open spec fn param_ref_reads(j: Seq<char>, d: nat, r: ParamRef) -> bool {
    match text_at(j, "$ref"@) {
        Some(x) => r matches ParamRef::Ref(y) && y@ == x,
        None => r matches ParamRef::Param(p) && {
            &&& p.name@ == or_empty(text_at(j, "name"@))
            &&& p.location == location_named(text_at(j, "in"@))
            &&& p.required == flag_at(j, "required"@)
            &&& opt_view(p.description) == text_at(j, "description"@)
            &&& schema_opt_reads(get(j, "schema"@), d, p.schema)
            &&& content_keys(j, p.content)
            &&& opt_view(p.style) == match text_at(j, "style"@) {
                Some(s) => Some(style_named(s)),
                None => None,
            }
            &&& p.explode == flag_at(j, "explode"@)
            &&& p.allow_reserved == flag_at(j, "allowReserved"@)
        },
    }
}

fn param_ref_exec(j: &str, d: u32) -> (r: ParamRef)
    ensures
        param_ref_reads(j@, d as nat, r),
{
    let ms = members_of(j);
    let m = ms.as_slice();
    if let Some(x) = text_in(m, "$ref") {
        return ParamRef::Ref(x);
    }
    let style = match text_in(m, "style") {
        Some(s) => Some(style_exec(s.as_str())),
        None => None,
    };
    ParamRef::Param(
        Parameter {
            name: or_empty_exec(text_in(m, "name")),
            location: location_exec(text_in(m, "in")),
            required: flag_in(m, "required"),
            description: text_in(m, "description"),
            schema: schema_opt_exec(lookup_exec(m, "schema"), d),
            content: content_keys_exec(m),
            style,
            explode: flag_in(m, "explode"),
            allow_reserved: flag_in(m, "allowReserved"),
        },
    )
}

/// Parameter values in order.
pub open spec fn param_refs_reads(xs: Seq<Seq<char>>, d: nat, v: Seq<ParamRef>) -> bool {
    v.len() == xs.len() && forall|i: int| 0 <= i < xs.len() ==> param_ref_reads(xs[i], d, #[trigger] v[i])
}

fn param_refs_exec(xs: &[String], d: u32) -> (r: Vec<ParamRef>)
    ensures
        param_refs_reads(strs(xs@), d as nat, r@),
{
    let mut out: Vec<ParamRef> = Vec::new();
    let mut i: usize = 0;
    while i < xs.len()
        invariant
            i <= xs@.len(),
            out@.len() == i,
            forall|k: int| 0 <= k < i ==> param_ref_reads(xs@[k]@, d as nat, #[trigger] out@[k]),
        decreases xs@.len() - i,
    {
        out.push(param_ref_exec(xs[i].as_str(), d));
        i = i + 1;
    }
    out
}

/// A request body value: a `$ref`, or its `description` and `content`.
pub open spec fn body_ref_reads(j: Seq<char>, d: nat, r: BodyRef) -> bool {
    match text_at(j, "$ref"@) {
        Some(x) => r matches BodyRef::Ref(y) && y@ == x,
        None => r matches BodyRef::Body(b) && opt_view(b.description) == text_at(j, "description"@)
            && media_list_reads(members_at(j, "content"@), d, b.content@),
    }
}

fn body_ref_exec(j: &str, d: u32) -> (r: BodyRef)
    ensures
        body_ref_reads(j@, d as nat, r),
{
    let ms = members_of(j);
    let m = ms.as_slice();
    if let Some(x) = text_in(m, "$ref") {
        return BodyRef::Ref(x);
    }
    let c = members_in(m, "content");
    BodyRef::Body(
        RequestBody { description: text_in(m, "description"), content: media_list_exec(c.as_slice(), d) },
    )
}

/// A header value: a `$ref`, or its `required`, `description`, `schema`
/// and the keys of its `content`.
pub open spec fn header_ref_reads(j: Seq<char>, d: nat, r: HeaderRef) -> bool {
    match text_at(j, "$ref"@) {
        Some(x) => r matches HeaderRef::Ref(y) && y@ == x,
        None => r matches HeaderRef::Header(h) && {
            &&& h.required == flag_at(j, "required"@)
            &&& opt_view(h.description) == text_at(j, "description"@)
            &&& schema_opt_reads(get(j, "schema"@), d, h.schema)
            &&& content_keys(j, h.content)
        },
    }
}

fn header_ref_exec(j: &str, d: u32) -> (r: HeaderRef)
    ensures
        header_ref_reads(j@, d as nat, r),
{
    let ms = members_of(j);
    let m = ms.as_slice();
    if let Some(x) = text_in(m, "$ref") {
        return HeaderRef::Ref(x);
    }
    HeaderRef::Header(
        Header {
            required: flag_in(m, "required"),
            description: text_in(m, "description"),
            schema: schema_opt_exec(lookup_exec(m, "schema"), d),
            content: content_keys_exec(m),
        },
    )
}

/// Keyed header values in order.
pub open spec fn headers_reads(ms: Seq<(Seq<char>, Seq<char>)>, d: nat, v: Seq<(String, HeaderRef)>) -> bool {
    v.len() == ms.len() && forall|i: int|
        0 <= i < ms.len() ==> #[trigger] v[i].0@ == ms[i].0 && header_ref_reads(ms[i].1, d, v[i].1)
}

fn headers_exec(ms: &[(String, String)], d: u32) -> (r: Vec<(String, HeaderRef)>)
    ensures
        headers_reads(pair_views(ms@), d as nat, r@),
{
    let ghost pv = pair_views(ms@);
    let mut out: Vec<(String, HeaderRef)> = Vec::new();
    let mut i: usize = 0;
    while i < ms.len()
        invariant
            i <= ms@.len(),
            pv == pair_views(ms@),
            out@.len() == i,
            forall|k: int|
                0 <= k < i ==> #[trigger] out@[k].0@ == pv[k].0 && header_ref_reads(pv[k].1, d as nat, out@[k].1),
        decreases ms@.len() - i,
    {
        out.push((owned(ms[i].0.as_str()), header_ref_exec(ms[i].1.as_str(), d)));
        i = i + 1;
    }
    out
}

/// A response value: a `$ref`, or its `description`, `headers` and
/// `content`.
pub open spec fn response_ref_reads(j: Seq<char>, d: nat, r: ResponseRef) -> bool {
    match text_at(j, "$ref"@) {
        Some(x) => r matches ResponseRef::Ref(y) && y@ == x,
        None => r matches ResponseRef::Response(x) && {
            &&& opt_view(x.description) == text_at(j, "description"@)
            &&& headers_reads(members_at(j, "headers"@), d, x.headers@)
            &&& media_list_reads(members_at(j, "content"@), d, x.content@)
        },
    }
}

fn response_ref_exec(j: &str, d: u32) -> (r: ResponseRef)
    ensures
        response_ref_reads(j@, d as nat, r),
{
    let ms = members_of(j);
    let m = ms.as_slice();
    if let Some(x) = text_in(m, "$ref") {
        return ResponseRef::Ref(x);
    }
    let h = members_in(m, "headers");
    let c = members_in(m, "content");
    ResponseRef::Response(
        Response {
            description: text_in(m, "description"),
            headers: headers_exec(h.as_slice(), d),
            content: media_list_exec(c.as_slice(), d),
        },
    )
}

/// Keyed response values in order.
pub open spec fn responses_reads(ms: Seq<(Seq<char>, Seq<char>)>, d: nat, v: Seq<(String, ResponseRef)>) -> bool {
    v.len() == ms.len() && forall|i: int|
        0 <= i < ms.len() ==> #[trigger] v[i].0@ == ms[i].0 && response_ref_reads(ms[i].1, d, v[i].1)
}

fn responses_exec(ms: &[(String, String)], d: u32) -> (r: Vec<(String, ResponseRef)>)
    ensures
        responses_reads(pair_views(ms@), d as nat, r@),
{
    let ghost pv = pair_views(ms@);
    let mut out: Vec<(String, ResponseRef)> = Vec::new();
    let mut i: usize = 0;
    while i < ms.len()
        invariant
            i <= ms@.len(),
            pv == pair_views(ms@),
            out@.len() == i,
            forall|k: int|
                0 <= k < i ==> #[trigger] out@[k].0@ == pv[k].0 && response_ref_reads(pv[k].1, d as nat, out@[k].1),
        decreases ms@.len() - i,
    {
        out.push((owned(ms[i].0.as_str()), response_ref_exec(ms[i].1.as_str(), d)));
        i = i + 1;
    }
    out
}

// ---------------------------------------------------------------------------
// Operations and path items
// ---------------------------------------------------------------------------

/// Security requirement values: the scheme names of each, in order.
pub open spec fn security_reads(xs: Seq<Seq<char>>, v: Seq<Vec<String>>) -> bool {
    v.len() == xs.len() && forall|i: int|
        0 <= i < xs.len() ==> strs(#[trigger] v[i]@) == keys(members(xs[i]))
}

fn security_exec(xs: &[String]) -> (r: Vec<Vec<String>>)
    ensures
        security_reads(strs(xs@), r@),
{
    let mut out: Vec<Vec<String>> = Vec::new();
    let mut i: usize = 0;
    while i < xs.len()
        invariant
            i <= xs@.len(),
            out@.len() == i,
            forall|k: int| 0 <= k < i ==> strs(#[trigger] out@[k]@) == keys(members(xs@[k]@)),
        decreases xs@.len() - i,
    {
        let m = members_of(xs[i].as_str());
        out.push(keys_exec(m.as_slice()));
        i = i + 1;
    }
    out
}

/// An operation value: its `summary`, `description`, `parameters`,
/// `requestBody`, `responses` (when an object) and `security`.
pub open spec fn operation_reads(j: Seq<char>, d: nat, o: Operation) -> bool {
    &&& opt_view(o.summary) == text_at(j, "summary"@)
    &&& opt_view(o.description) == text_at(j, "description"@)
    &&& param_refs_reads(elements_at(j, "parameters"@), d, o.parameters@)
    &&& match get(j, "requestBody"@) {
        None => o.request_body is None,
        Some(x) => o.request_body matches Some(b) && body_ref_reads(x, d, b),
    }
    &&& match get(j, "responses"@) {
        Some(x) => match json_shape(x) {
            JsonShape::Object(ms) => o.responses matches Some(v) && responses_reads(ms, d, v@),
            _ => o.responses is None,
        },
        None => o.responses is None,
    }
    &&& security_reads(elements_at(j, "security"@), o.security@)
}

fn operation_exec(j: &str, d: u32) -> (r: Operation)
    ensures
        operation_reads(j@, d as nat, r),
{
    let ms = members_of(j);
    let m = ms.as_slice();
    let ps = elements_in(m, "parameters");
    let request_body = match lookup_exec(m, "requestBody") {
        None => None,
        Some(x) => Some(body_ref_exec(x.as_str(), d)),
    };
    let responses = match lookup_exec(m, "responses") {
        None => None,
        Some(x) => match node_of(x.as_str()) {
            JsonNode::Object(rs) => Some(responses_exec(rs.as_slice(), d)),
            _ => None,
        },
    };
    let sec = elements_in(m, "security");
    Operation {
        summary: text_in(m, "summary"),
        description: text_in(m, "description"),
        parameters: param_refs_exec(ps.as_slice(), d),
        request_body,
        responses,
        security: security_exec(sec.as_slice()),
    }
}

/// An optional operation member.
pub open spec fn operation_opt_reads(v: Option<Seq<char>>, d: nat, o: Option<Operation>) -> bool {
    match v {
        None => o is None,
        Some(x) => o matches Some(op) && operation_reads(x, d, op),
    }
}

fn operation_opt_exec(v: Option<String>, d: u32) -> (r: Option<Operation>)
    ensures
        operation_opt_reads(opt_view(v), d as nat, r),
{
    match v {
        None => None,
        Some(x) => Some(operation_exec(x.as_str(), d)),
    }
}

/// A path item value: its `$ref`, `parameters` and the operations of the
/// eight methods.
pub open spec fn path_item_reads(j: Seq<char>, d: nat, p: PathItem) -> bool {
    &&& opt_view(p.reference) == text_at(j, "$ref"@)
    &&& param_refs_reads(elements_at(j, "parameters"@), d, p.parameters@)
    &&& operation_opt_reads(get(j, "get"@), d, p.get)
    &&& operation_opt_reads(get(j, "post"@), d, p.post)
    &&& operation_opt_reads(get(j, "put"@), d, p.put)
    &&& operation_opt_reads(get(j, "patch"@), d, p.patch)
    &&& operation_opt_reads(get(j, "delete"@), d, p.delete)
    &&& operation_opt_reads(get(j, "head"@), d, p.head)
    &&& operation_opt_reads(get(j, "options"@), d, p.options)
    &&& operation_opt_reads(get(j, "trace"@), d, p.trace)
}

fn path_item_exec(j: &str, d: u32) -> (r: PathItem)
    ensures
        path_item_reads(j@, d as nat, r),
{
    let ms = members_of(j);
    let m = ms.as_slice();
    let ps = elements_in(m, "parameters");
    PathItem {
        reference: text_in(m, "$ref"),
        parameters: param_refs_exec(ps.as_slice(), d),
        get: operation_opt_exec(lookup_exec(m, "get"), d),
        post: operation_opt_exec(lookup_exec(m, "post"), d),
        put: operation_opt_exec(lookup_exec(m, "put"), d),
        patch: operation_opt_exec(lookup_exec(m, "patch"), d),
        delete: operation_opt_exec(lookup_exec(m, "delete"), d),
        head: operation_opt_exec(lookup_exec(m, "head"), d),
        options: operation_opt_exec(lookup_exec(m, "options"), d),
        trace: operation_opt_exec(lookup_exec(m, "trace"), d),
    }
}

/// Keyed path items in order.
pub open spec fn paths_reads(ms: Seq<(Seq<char>, Seq<char>)>, d: nat, v: Seq<(String, PathItem)>) -> bool {
    v.len() == ms.len() && forall|i: int|
        0 <= i < ms.len() ==> #[trigger] v[i].0@ == ms[i].0 && path_item_reads(ms[i].1, d, v[i].1)
}

fn paths_exec(ms: &[(String, String)], d: u32) -> (r: Vec<(String, PathItem)>)
    ensures
        paths_reads(pair_views(ms@), d as nat, r@),
{
    let ghost pv = pair_views(ms@);
    let mut out: Vec<(String, PathItem)> = Vec::new();
    let mut i: usize = 0;
    while i < ms.len()
        invariant
            i <= ms@.len(),
            pv == pair_views(ms@),
            out@.len() == i,
            forall|k: int|
                0 <= k < i ==> #[trigger] out@[k].0@ == pv[k].0 && path_item_reads(pv[k].1, d as nat, out@[k].1),
        decreases ms@.len() - i,
    {
        out.push((owned(ms[i].0.as_str()), path_item_exec(ms[i].1.as_str(), d)));
        i = i + 1;
    }
    out
}

// ---------------------------------------------------------------------------
// Components and the document
// ---------------------------------------------------------------------------

/// A security scheme value: a `$ref`, or the scheme its `type` names.
pub open spec fn scheme_ref_reads(j: Seq<char>, r: SecuritySchemeRef) -> bool {
    match text_at(j, "$ref"@) {
        Some(x) => r matches SecuritySchemeRef::Ref(y) && y@ == x,
        None => r matches SecuritySchemeRef::Scheme(s) && {
            let t = text_at(j, "type"@);
            if t == Some("apiKey"@) {
                s matches SecurityScheme::ApiKey { location, name } && location@ == or_empty(
                    text_at(j, "in"@),
                ) && name@ == or_empty(text_at(j, "name"@))
            } else if t == Some("http"@) {
                s matches SecurityScheme::Http { scheme, bearer_format } && scheme@ == or_empty(
                    text_at(j, "scheme"@),
                ) && opt_view(bearer_format) == text_at(j, "bearerFormat"@)
            } else if t == Some("oauth2"@) {
                s is OAuth2
            } else if t == Some("openIdConnect"@) {
                s is OpenIdConnect
            } else {
                s is MutualTls
            }
        },
    }
}

fn scheme_ref_exec(j: &str) -> (r: SecuritySchemeRef)
    ensures
        scheme_ref_reads(j@, r),
{
    let ms = members_of(j);
    let m = ms.as_slice();
    if let Some(x) = text_in(m, "$ref") {
        return SecuritySchemeRef::Ref(x);
    }
    let t = text_in(m, "type");
    let kind = match &t {
        Some(x) => x.as_str(),
        None => "",
    };
    let s = if t.is_some() && str_eq(kind, "apiKey") {
        SecurityScheme::ApiKey {
            location: or_empty_exec(text_in(m, "in")),
            name: or_empty_exec(text_in(m, "name")),
        }
    } else if t.is_some() && str_eq(kind, "http") {
        SecurityScheme::Http {
            scheme: or_empty_exec(text_in(m, "scheme")),
            bearer_format: text_in(m, "bearerFormat"),
        }
    } else if t.is_some() && str_eq(kind, "oauth2") {
        SecurityScheme::OAuth2
    } else if t.is_some() && str_eq(kind, "openIdConnect") {
        SecurityScheme::OpenIdConnect
    } else {
        SecurityScheme::MutualTls
    };
    SecuritySchemeRef::Scheme(s)
}

/// The components value: its `schemas`, `parameters`, `responses`,
/// `headers`, `requestBodies` and `securitySchemes`, each keyed in order.
pub open spec fn components_reads(j: Seq<char>, d: nat, c: Components) -> bool {
    let sc = members_at(j, "schemas"@);
    let pa = members_at(j, "parameters"@);
    let rb = members_at(j, "requestBodies"@);
    let ss = members_at(j, "securitySchemes"@);
    &&& c.schemas@.len() == sc.len()
    &&& forall|i: int|
        0 <= i < sc.len() ==> #[trigger] c.schemas@[i].0@ == sc[i].0 && schema_ref_reads(sc[i].1, d, c.schemas@[i].1)
    &&& c.parameters@.len() == pa.len()
    &&& forall|i: int|
        0 <= i < pa.len() ==> #[trigger] c.parameters@[i].0@ == pa[i].0 && param_ref_reads(pa[i].1, d, c.parameters@[i].1)
    &&& responses_reads(members_at(j, "responses"@), d, c.responses@)
    &&& headers_reads(members_at(j, "headers"@), d, c.headers@)
    &&& c.request_bodies@.len() == rb.len()
    &&& forall|i: int|
        0 <= i < rb.len() ==> #[trigger] c.request_bodies@[i].0@ == rb[i].0 && body_ref_reads(rb[i].1, d, c.request_bodies@[i].1)
    &&& c.security_schemes@.len() == ss.len()
    &&& forall|i: int|
        0 <= i < ss.len() ==> #[trigger] c.security_schemes@[i].0@ == ss[i].0 && scheme_ref_reads(ss[i].1, c.security_schemes@[i].1)
}

fn components_exec(j: &str, d: u32) -> (r: Components)
    ensures
        components_reads(j@, d as nat, r),
{
    let ms = members_of(j);
    let m = ms.as_slice();
    let sc = members_in(m, "schemas");
    let ghost scv = pair_views(sc@);
    let mut schemas: Vec<(String, SchemaRef)> = Vec::new();
    let mut i: usize = 0;
    while i < sc.len()
        invariant
            i <= sc@.len(),
            scv == pair_views(sc@),
            schemas@.len() == i,
            forall|k: int|
                0 <= k < i ==> #[trigger] schemas@[k].0@ == scv[k].0 && schema_ref_reads(scv[k].1, d as nat, schemas@[k].1),
        decreases sc@.len() - i,
    {
        schemas.push((owned(sc[i].0.as_str()), schema_ref_exec(sc[i].1.as_str(), d)));
        i = i + 1;
    }
    let pa = members_in(m, "parameters");
    let ghost pav = pair_views(pa@);
    let mut parameters: Vec<(String, ParamRef)> = Vec::new();
    let mut i: usize = 0;
    while i < pa.len()
        invariant
            i <= pa@.len(),
            pav == pair_views(pa@),
            parameters@.len() == i,
            forall|k: int|
                0 <= k < i ==> #[trigger] parameters@[k].0@ == pav[k].0 && param_ref_reads(pav[k].1, d as nat, parameters@[k].1),
        decreases pa@.len() - i,
    {
        parameters.push((owned(pa[i].0.as_str()), param_ref_exec(pa[i].1.as_str(), d)));
        i = i + 1;
    }
    let rs = members_in(m, "responses");
    let hs = members_in(m, "headers");
    let rb = members_in(m, "requestBodies");
    let ghost rbv = pair_views(rb@);
    let mut request_bodies: Vec<(String, BodyRef)> = Vec::new();
    let mut i: usize = 0;
    while i < rb.len()
        invariant
            i <= rb@.len(),
            rbv == pair_views(rb@),
            request_bodies@.len() == i,
            forall|k: int|
                0 <= k < i ==> #[trigger] request_bodies@[k].0@ == rbv[k].0 && body_ref_reads(rbv[k].1, d as nat, request_bodies@[k].1),
        decreases rb@.len() - i,
    {
        request_bodies.push((owned(rb[i].0.as_str()), body_ref_exec(rb[i].1.as_str(), d)));
        i = i + 1;
    }
    let ss = members_in(m, "securitySchemes");
    let ghost ssv = pair_views(ss@);
    let mut security_schemes: Vec<(String, SecuritySchemeRef)> = Vec::new();
    let mut i: usize = 0;
    while i < ss.len()
        invariant
            i <= ss@.len(),
            ssv == pair_views(ss@),
            security_schemes@.len() == i,
            forall|k: int|
                0 <= k < i ==> #[trigger] security_schemes@[k].0@ == ssv[k].0 && scheme_ref_reads(ssv[k].1, security_schemes@[k].1),
        decreases ss@.len() - i,
    {
        security_schemes.push((owned(ss[i].0.as_str()), scheme_ref_exec(ss[i].1.as_str())));
        i = i + 1;
    }
    assert(scv == members_at(j@, "schemas"@));
    assert(pav == members_at(j@, "parameters"@));
    assert(rbv == members_at(j@, "requestBodies"@));
    assert(ssv == members_at(j@, "securitySchemes"@));
    let responses = responses_exec(rs.as_slice(), d);
    let headers = headers_exec(hs.as_slice(), d);
    assert(pair_views(rs@) == members_at(j@, "responses"@));
    assert(pair_views(hs@) == members_at(j@, "headers"@));
    let c = Components { schemas, parameters, responses, headers, request_bodies, security_schemes };
    assert(c.schemas@.len() == scv.len());
    assert(forall|i: int|
        0 <= i < scv.len() ==> #[trigger] c.schemas@[i].0@ == scv[i].0 && schema_ref_reads(scv[i].1, d as nat, c.schemas@[i].1));
    assert(forall|i: int|
        0 <= i < pav.len() ==> #[trigger] c.parameters@[i].0@ == pav[i].0 && param_ref_reads(pav[i].1, d as nat, c.parameters@[i].1));
    assert(forall|i: int|
        0 <= i < rbv.len() ==> #[trigger] c.request_bodies@[i].0@ == rbv[i].0 && body_ref_reads(rbv[i].1, d as nat, c.request_bodies@[i].1));
    assert(forall|i: int|
        0 <= i < ssv.len() ==> #[trigger] c.security_schemes@[i].0@ == ssv[i].0 && scheme_ref_reads(ssv[i].1, c.security_schemes@[i].1));
    c
}

/// The text of a member of the document's `info`.
pub open spec fn info_text(j: Seq<char>, k: Seq<char>) -> Option<Seq<char>> {
    match get(j, "info"@) {
        Some(i) => text_at(i, k),
        None => None,
    }
}

/// The texts of one member of each element, in order (empty where absent).
pub open spec fn member_texts(xs: Seq<Seq<char>>, k: Seq<char>) -> Seq<Seq<char>> {
    xs.map_values(|x: Seq<char>| or_empty(text_at(x, k)))
}

fn member_texts_exec(xs: &[String], k: &str) -> (r: Vec<String>)
    ensures
        strs(r@) == member_texts(strs(xs@), k@),
{
    let mut out: Vec<String> = Vec::new();
    let mut i: usize = 0;
    while i < xs.len()
        invariant
            i <= xs@.len(),
            strs(out@) == member_texts(strs(xs@), k@).take(i as int),
        decreases xs@.len() - i,
    {
        let m = members_of(xs[i].as_str());
        let t = or_empty_exec(text_in(m.as_slice(), k));
        let ghost prev = strs(out@);
        let ghost tv = t@;
        out.push(t);
        assert(strs(out@) =~= prev.push(tv));
        assert(member_texts(strs(xs@), k@).take(i + 1) =~= member_texts(strs(xs@), k@).take(i as int).push(tv));
        i = i + 1;
    }
    assert(member_texts(strs(xs@), k@).take(xs@.len() as int) =~= member_texts(strs(xs@), k@));
    out
}

/// The document value: its `info` title, description and version, the
/// URLs of its `servers`, its `security`, the names of its `tags`, its
/// `paths` and its `components`; schemas nested at most `d` deep.
pub open spec fn spec_reads(j: Seq<char>, d: nat, s: Spec) -> bool {
    &&& s.title@ == or_empty(info_text(j, "title"@))
    &&& opt_view(s.description) == info_text(j, "description"@)
    &&& s.version@ == or_empty(info_text(j, "version"@))
    &&& strs(s.servers@) == member_texts(elements_at(j, "servers"@), "url"@)
    &&& security_reads(elements_at(j, "security"@), s.security@)
    &&& strs(s.tags@) == member_texts(elements_at(j, "tags"@), "name"@)
    &&& match get(j, "paths"@) {
        None => s.paths is None,
        Some(x) => s.paths matches Some(v) && paths_reads(members(x), d, v@),
    }
    &&& match get(j, "components"@) {
        None => s.components is None,
        Some(x) => s.components matches Some(c) && components_reads(x, d, c),
    }
}

/// Reads the document (see [`spec_reads`]).
pub fn spec_exec(j: &str, d: u32) -> (r: Spec)
    ensures
        spec_reads(j@, d as nat, r),
{
    let ms = members_of(j);
    let m = ms.as_slice();
    let info = members_in(m, "info");
    let sv = elements_in(m, "servers");
    let sec = elements_in(m, "security");
    let tg = elements_in(m, "tags");
    let paths = match lookup_exec(m, "paths") {
        None => None,
        Some(x) => {
            let pm = members_of(x.as_str());
            Some(paths_exec(pm.as_slice(), d))
        },
    };
    let components = match lookup_exec(m, "components") {
        None => None,
        Some(x) => Some(components_exec(x.as_str(), d)),
    };
    Spec {
        title: or_empty_exec(text_in(info.as_slice(), "title")),
        description: text_in(info.as_slice(), "description"),
        version: or_empty_exec(text_in(info.as_slice(), "version")),
        servers: member_texts_exec(sv.as_slice(), "url"),
        security: security_exec(sec.as_slice()),
        tags: member_texts_exec(tg.as_slice(), "name"),
        paths,
        components,
    }
}

} // verus!
