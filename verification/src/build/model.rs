//! The parts of an OpenAPI document that vault generation reads, as plain
//! values. Maps are lists of (key, value) pairs, in the document's order.

use vstd::prelude::*;

verus! {

/// A JSON Schema type name.
#[derive(Debug, Clone, Copy, PartialEq, Eq, Structural)]
pub enum SchemaType {
    Boolean,
    Object,
    Array,
    Number,
    String,
    Integer,
    Null,
}

/// A schema's `type`: one name, or a list of them.
#[derive(Debug)]
pub enum TypeSet {
    Single(SchemaType),
    Multiple(Vec<SchemaType>),
}

/// A schema or a `$ref` to one.
#[derive(Debug)]
pub enum SchemaRef {
    Ref(String),
    Inline(Box<Schema>),
}

/// The `items` of an array schema: a boolean schema, a `$ref`, or a schema.
#[derive(Debug)]
pub enum Items {
    Bool,
    Ref(String),
    Inline(Box<Schema>),
}

/// An example or default value of a schema, rendered: as pretty JSON, and,
/// for a JSON object, each member as (name, text) with strings unquoted and
/// other values in compact JSON.
#[derive(Debug)]
pub struct Example {
    pub pretty: String,
    pub fields: Option<Vec<(String, String)>>,
}

/// A schema object.
#[derive(Debug)]
pub struct Schema {
    /// The declared `type`, when there is one.
    pub schema_type: Option<TypeSet>,
    pub description: Option<String>,
    pub properties: Vec<(String, SchemaRef)>,
    pub required: Vec<String>,
    pub all_of: Vec<SchemaRef>,
    pub any_of: Vec<SchemaRef>,
    pub one_of: Vec<SchemaRef>,
    pub items: Option<Box<Items>>,
    /// The string members of `enum`, in order.
    pub string_enum: Vec<String>,
    pub example: Option<Example>,
    pub default: Option<Example>,
}

/// Where a parameter goes.
#[derive(Debug, Clone, Copy, PartialEq, Eq, Structural)]
pub enum ParamLocation {
    Query,
    Path,
    Header,
    Cookie,
}

/// A parameter object.
#[derive(Debug)]
pub struct Parameter {
    pub name: String,
    pub location: ParamLocation,
    pub required: Option<bool>,
    pub description: Option<String>,
    pub schema: Option<SchemaRef>,
    /// The media types of `content`, when it is given.
    pub content: Option<Vec<String>>,
    /// The serialization style's name, as the variant is called
    /// (`Form`, `Simple`, ...).
    pub style: Option<String>,
    pub explode: Option<bool>,
    pub allow_reserved: Option<bool>,
}

/// A parameter or a `$ref` to one.
#[derive(Debug)]
pub enum ParamRef {
    Ref(String),
    Param(Parameter),
}

/// A media type entry.
#[derive(Debug)]
pub struct MediaType {
    pub schema: Option<SchemaRef>,
}

/// A request body object.
#[derive(Debug)]
pub struct RequestBody {
    pub description: Option<String>,
    pub content: Vec<(String, MediaType)>,
}

/// A request body or a `$ref` to one.
#[derive(Debug)]
pub enum BodyRef {
    Ref(String),
    Body(RequestBody),
}

/// A header object.
#[derive(Debug)]
pub struct Header {
    pub required: Option<bool>,
    pub description: Option<String>,
    pub schema: Option<SchemaRef>,
    pub content: Option<Vec<String>>,
}

/// A header or a `$ref` to one.
#[derive(Debug)]
pub enum HeaderRef {
    Ref(String),
    Header(Header),
}

/// A response object.
#[derive(Debug)]
pub struct Response {
    pub description: Option<String>,
    pub headers: Vec<(String, HeaderRef)>,
    pub content: Vec<(String, MediaType)>,
}

/// A response or a `$ref` to one.
#[derive(Debug)]
pub enum ResponseRef {
    Ref(String),
    Response(Response),
}

/// An operation object; each security requirement is the list of its
/// scheme names.
#[derive(Debug)]
pub struct Operation {
    pub summary: Option<String>,
    pub description: Option<String>,
    pub parameters: Vec<ParamRef>,
    pub request_body: Option<BodyRef>,
    pub responses: Option<Vec<(String, ResponseRef)>>,
    pub security: Vec<Vec<String>>,
}

/// A path item: its `$ref`, shared parameters and operations.
#[derive(Debug)]
pub struct PathItem {
    pub reference: Option<String>,
    pub parameters: Vec<ParamRef>,
    pub get: Option<Operation>,
    pub post: Option<Operation>,
    pub put: Option<Operation>,
    pub patch: Option<Operation>,
    pub delete: Option<Operation>,
    pub head: Option<Operation>,
    pub options: Option<Operation>,
    pub trace: Option<Operation>,
}

/// A security scheme object, by kind.
#[derive(Debug)]
pub enum SecurityScheme {
    Http { scheme: String, bearer_format: Option<String> },
    ApiKey { location: String, name: String },
    OAuth2,
    OpenIdConnect,
    MutualTls,
}

/// A security scheme or a `$ref` to one.
#[derive(Debug)]
pub enum SecuritySchemeRef {
    Ref(String),
    Scheme(SecurityScheme),
}

/// The components object.
#[derive(Debug)]
pub struct Components {
    pub schemas: Vec<(String, SchemaRef)>,
    pub parameters: Vec<(String, ParamRef)>,
    pub responses: Vec<(String, ResponseRef)>,
    pub headers: Vec<(String, HeaderRef)>,
    pub request_bodies: Vec<(String, BodyRef)>,
    pub security_schemes: Vec<(String, SecuritySchemeRef)>,
}

/// An OpenAPI document.
#[derive(Debug)]
pub struct Spec {
    pub title: String,
    pub description: Option<String>,
    pub version: String,
    /// The server URLs, in order.
    pub servers: Vec<String>,
    pub security: Vec<Vec<String>>,
    /// The tag names, in order.
    pub tags: Vec<String>,
    pub paths: Option<Vec<(String, PathItem)>>,
    pub components: Option<Components>,
}

/// The position of the first entry with a key.
pub open spec fn key_index<V>(pairs: Seq<(String, V)>, k: Seq<char>) -> Option<int>
    decreases pairs.len(),
{
    if pairs.len() == 0 {
        None
    } else if pairs[0].0@ == k {
        Some(0)
    } else {
        match key_index(pairs.drop_first(), k) {
            Some(i) => Some(i + 1),
            None => None,
        }
    }
}

/// Finds the first entry with a key.
pub fn find_key<V>(pairs: &[(String, V)], key: &str) -> (r: Option<usize>)
    ensures
        match key_index(pairs@, key@) {
            Some(i) => r is Some && r->0 as int == i && 0 <= i < pairs@.len(),
            None => r is None,
        },
{
    let mut i: usize = 0;
    assert(pairs@.skip(0) =~= pairs@);
    while i < pairs.len()
        invariant
            i <= pairs@.len(),
            key_index(pairs@, key@) == match key_index(pairs@.skip(i as int), key@) {
                Some(j) => Some(j + i),
                None => None::<int>,
            },
        decreases pairs@.len() - i,
    {
        assert(pairs@.skip(i as int)[0] == pairs@[i as int]);
        assert(pairs@.skip(i as int).drop_first() =~= pairs@.skip(i + 1));
        if crate::text::str_eq(pairs[i].0.as_str(), key) {
            return Some(i);
        }
        i = i + 1;
    }
    None
}

} // verus!
