//! What an imported document says about the API as a whole: base URL,
//! title, version, tags and security.

use vstd::prelude::*;
use crate::build::model::{find_key, key_index, Components, SecurityScheme, SecuritySchemeRef, Spec};
use crate::error::ApixError;
use crate::text::{concat5, extend_str, join, join_chars, owned, string_of, strs, views};

verus! {

/// A parsed document with what the vault records of it.
#[derive(Debug)]
pub struct ParsedSpec {
    pub spec: Spec,
    pub base_url: String,
    pub title: String,
    pub description: String,
    pub version: String,
    pub auth: String,
    pub tags: Vec<String>,
}

/// How one security scheme is described: by its kind's details when the
/// components define it, else by its name.
pub open spec fn scheme_label(name: Seq<char>, components: Option<Components>) -> Seq<char> {
    match components {
        None => name,
        Some(c) => match key_index(c.security_schemes@, name) {
            None => name,
            Some(i) => match c.security_schemes@[i].1 {
                SecuritySchemeRef::Ref(_) => name,
                SecuritySchemeRef::Scheme(s) => match s {
                    SecurityScheme::Http { scheme, bearer_format } => match bearer_format {
                        Some(b) => scheme@ + " ("@ + b@ + ")"@,
                        None => scheme@,
                    },
                    SecurityScheme::ApiKey { location, name: key } => "apiKey ("@ + location@ + ": "@
                        + key@ + ")"@,
                    SecurityScheme::OAuth2 => "oauth2"@,
                    SecurityScheme::OpenIdConnect => "openIdConnect"@,
                    SecurityScheme::MutualTls => "mutualTls"@,
                },
            },
        },
    }
}

/// The alternatives of a list of security requirements that name schemes,
/// each as its schemes' labels joined by ` + `.
pub open spec fn requirement_parts(reqs: Seq<Vec<String>>, components: Option<Components>) -> Seq<
    Seq<char>,
>
    decreases reqs.len(),
{
    if reqs.len() == 0 {
        Seq::empty()
    } else {
        let prev = requirement_parts(reqs.drop_last(), components);
        let names = strs(reqs.last()@);
        if names.len() == 0 {
            prev
        } else {
            prev.push(join(names.map_values(|n: Seq<char>| scheme_label(n, components)), " + "@))
        }
    }
}

/// The authentication summary of security requirements: the alternatives
/// joined by ` | `, or `none`.
pub open spec fn security_summary(reqs: Seq<Vec<String>>, components: Option<Components>) -> Seq<char> {
    let parts = requirement_parts(reqs, components);
    if parts.len() == 0 {
        "none"@
    } else {
        join(parts, " | "@)
    }
}

/// Describes one security scheme.
pub fn format_single_scheme(name: &str, components: &Option<Components>) -> (r: String)
    ensures
        r@ == scheme_label(name@, *components),
{
    if components.is_none() {
        return owned(name);
    }
    let comps = components.as_ref().unwrap();
    let found = find_key(comps.security_schemes.as_slice(), name);
    if found.is_none() {
        return owned(name);
    }
    let i = found.unwrap();
    proof {
        match key_index(comps.security_schemes@, name@) {
            Some(j) => {
                assert(i as int == j);
            },
            None => {
                assert(found is None);
            },
        }
    }
    assert(key_index(comps.security_schemes@, name@) == Some(i as int));
    match &comps.security_schemes[i].1 {
        SecuritySchemeRef::Ref(_) => owned(name),
        SecuritySchemeRef::Scheme(s) => match s {
            SecurityScheme::Http { scheme, bearer_format } => match bearer_format {
                Some(b) => {
                    let mut out: Vec<char> = Vec::new();
                    extend_str(&mut out, scheme.as_str());
                    extend_str(&mut out, " (");
                    extend_str(&mut out, b.as_str());
                    extend_str(&mut out, ")");
                    assert(out@ =~= scheme@ + " ("@ + b@ + ")"@);
                    string_of(out.as_slice())
                },
                None => owned(scheme.as_str()),
            },
            SecurityScheme::ApiKey { location, name: key } => {
                let mut out: Vec<char> = Vec::new();
                extend_str(&mut out, "apiKey (");
                extend_str(&mut out, location.as_str());
                extend_str(&mut out, ": ");
                extend_str(&mut out, key.as_str());
                extend_str(&mut out, ")");
                assert(out@ =~= "apiKey ("@ + location@ + ": "@ + key@ + ")"@);
                string_of(out.as_slice())
            },
            SecurityScheme::OAuth2 => owned("oauth2"),
            SecurityScheme::OpenIdConnect => owned("openIdConnect"),
            SecurityScheme::MutualTls => owned("mutualTls"),
        },
    }
}

/// Summarises security requirements (see [`security_summary`]).
pub fn format_security_schemes(requirements: &[Vec<String>], components: &Option<Components>) -> (r:
    String)
    ensures
        r@ == security_summary(requirements@, *components),
{
    let mut parts: Vec<Vec<char>> = Vec::new();
    let mut i: usize = 0;
    while i < requirements.len()
        invariant
            i <= requirements@.len(),
            views(parts@) == requirement_parts(requirements@.take(i as int), *components),
        decreases requirements@.len() - i,
    {
        assert(requirements@.take(i + 1).drop_last() =~= requirements@.take(i as int));
        assert(requirements@.take(i + 1).last() == requirements@[i as int]);
        let names = &requirements[i];
        if names.len() > 0 {
            let mut labels: Vec<Vec<char>> = Vec::new();
            let mut k: usize = 0;
            while k < names.len()
                invariant
                    k <= names@.len(),
                    views(labels@) == strs(names@).take(k as int).map_values(
                        |n: Seq<char>| scheme_label(n, *components),
                    ),
                decreases names@.len() - k,
            {
                let l = format_single_scheme(names[k].as_str(), components);
                let lc = crate::text::chars_of(l.as_str());
                let ghost prev = views(labels@);
                labels.push(lc);
                assert(views(labels@) =~= prev.push(lc@));
                assert(strs(names@).take(k + 1).map_values(|n: Seq<char>| scheme_label(n, *components))
                    =~= strs(names@).take(k as int).map_values(
                    |n: Seq<char>| scheme_label(n, *components),
                ).push(scheme_label(names@[k as int]@, *components)));
                k = k + 1;
            }
            assert(strs(names@).take(names@.len() as int) =~= strs(names@));
            let mut sep: Vec<char> = Vec::new();
            extend_str(&mut sep, " + ");
            let joined = join_chars(labels.as_slice(), sep.as_slice());
            let ghost prev = views(parts@);
            parts.push(joined);
            assert(views(parts@) =~= prev.push(joined@));
        }
        i = i + 1;
    }
    assert(requirements@.take(requirements@.len() as int) =~= requirements@);
    if parts.len() == 0 {
        return owned("none");
    }
    let mut sep: Vec<char> = Vec::new();
    extend_str(&mut sep, " | ");
    let j = join_chars(parts.as_slice(), sep.as_slice());
    string_of(j.as_slice())
}

/// The fields recorded of a document (see [`parsed_spec`]).
pub open spec fn records_document(r: ParsedSpec) -> bool {
    let spec = r.spec;
    &&& r.base_url@ == if spec.servers@.len() > 0 {
        spec.servers@[0]@
    } else {
        Seq::empty()
    }
    &&& r.title@ == spec.title@
    &&& r.description@ == match spec.description {
        Some(d) => d@,
        None => Seq::empty(),
    }
    &&& r.version@ == spec.version@
    &&& r.auth@ == if spec.security@.len() == 0 {
        "none"@
    } else {
        security_summary(spec.security@, spec.components)
    }
    &&& strs(r.tags@) == strs(spec.tags@)
}

/// What the vault records of a document: its first server as the base URL
/// (empty without one), its title, description (empty without one),
/// version, tag names, and the authentication of its top-level security
/// requirements (`none` without any).
pub fn parsed_spec(spec: Spec) -> (r: ParsedSpec)
    ensures
        r.spec == spec,
        records_document(r),
{
    let base_url = if spec.servers.len() > 0 {
        owned(spec.servers[0].as_str())
    } else {
        String::new()
    };
    let auth = if spec.security.len() == 0 {
        owned("none")
    } else {
        format_security_schemes(spec.security.as_slice(), &spec.components)
    };
    let tags = crate::text::clone_strings(spec.tags.as_slice());
    let title = owned(spec.title.as_str());
    let description = match &spec.description {
        Some(d) => owned(d.as_str()),
        None => String::new(),
    };
    let version = owned(spec.version.as_str());
    ParsedSpec { spec, base_url, title, description, version, auth, tags }
}

/// Why a text parsed neither as a JSON nor as a YAML document: both
/// parsers' messages.
pub fn content_parse_error(json_error: &str, yaml_error: &str) -> (r: String)
    ensures
        r@ == "json error: "@ + json_error@ + "; yaml error: "@ + yaml_error@,
{
    proof {
        reveal_strlit("");
    }
    let r = concat5("json error: ", json_error, "; yaml error: ", yaml_error, "");
    assert(r@ =~= "json error: "@ + json_error@ + "; yaml error: "@ + yaml_error@);
    r
}

/// The error for a document that neither the first parse nor the parse
/// after the compatibility rewrites accepted, with both parses' messages.
pub fn retry_error(initial: &str, sanitized: &str) -> (r: ApixError)
    ensures
        r matches ApixError::Parse(m) && m@ == "Invalid OpenAPI spec (JSON/YAML), including compat retry: initial parse: "@
            + initial@ + "; sanitized parse: "@ + sanitized@,
{
    proof {
        reveal_strlit("");
    }
    let m = concat5(
            "Invalid OpenAPI spec (JSON/YAML), including compat retry: initial parse: ",
            initial,
            "; sanitized parse: ",
            sanitized,
            "",
        );
    assert(m@ =~= "Invalid OpenAPI spec (JSON/YAML), including compat retry: initial parse: "@
        + initial@ + "; sanitized parse: "@ + sanitized@);
    ApixError::Parse(m)
}

/// The text tried after a document is refused: the compatibility text
/// rewrites, then the relative OAuth URLs made absolute when that changes
/// anything.
pub open spec fn retry_text(raw: Seq<char>) -> Seq<char> {
    let c = crate::build::compat::compat_text(raw);
    match crate::build::oauth::oauth_rewrite(c) {
        Some(t) => t,
        None => c,
    }
}

/// The error message of a document neither text of which reads.
pub open spec fn retry_message(j1: Seq<char>, y1: Seq<char>, j2: Seq<char>, y2: Seq<char>) -> Seq<char> {
    "Invalid OpenAPI spec (JSON/YAML), including compat retry: initial parse: "@ + (
    "json error: "@ + j1 + "; yaml error: "@ + y1) + "; sanitized parse: "@ + ("json error: "@ + j2
        + "; yaml error: "@ + y2)
}

/// How deep schemas nest at most when a document is read: serde_json and
/// serde_yaml refuse documents nested past 128 levels, and each schema
/// level takes at least one.
pub const SCHEMA_DEPTH: u32 = 128;

/// A document is read as `parsed` from its JSON text `d` (see
/// [`crate::build::reader::spec_reads`] and [`records_document`]).
pub open spec fn read_as(d: Seq<char>, parsed: ParsedSpec) -> bool {
    crate::build::reader::spec_reads(d, SCHEMA_DEPTH as nat, parsed.spec) && records_document(parsed)
}

/// Reads an OpenAPI document: from the text itself when oas3 reads it;
/// else from the [`retry_text`] when oas3 reads that; else a parse error
/// naming both attempts' errors.
pub fn parse_spec(raw: &str) -> (r: Result<ParsedSpec, ApixError>)
    ensures
        match crate::build::reader::openapi_read(raw@) {
            Ok(d) => r matches Ok(p) && read_as(d, p),
            Err((j1, y1)) => match crate::build::reader::openapi_read(retry_text(raw@)) {
                Ok(d) => r matches Ok(p) && read_as(d, p),
                Err((j2, y2)) => r matches Err(ApixError::Parse(m)) && m@ == retry_message(
                    j1,
                    y1,
                    j2,
                    y2,
                ),
            },
        },
{
    let (j1, y1) = match crate::build::reader::read_document_json(raw) {
        Ok(d) => return Ok(parsed_spec(crate::build::reader::spec_exec(d.as_str(), SCHEMA_DEPTH))),
        Err(e) => e,
    };
    let c = crate::build::compat::compat_rewrites(raw);
    let t = match crate::build::oauth::sanitize_relative_oauth_urls(c.as_str()) {
        Some(t) => t,
        None => c,
    };
    match crate::build::reader::read_document_json(t.as_str()) {
        Ok(d) => Ok(parsed_spec(crate::build::reader::spec_exec(d.as_str(), SCHEMA_DEPTH))),
        Err((j2, y2)) => {
            let first = content_parse_error(j1.as_str(), y1.as_str());
            let second = content_parse_error(j2.as_str(), y2.as_str());
            let e = retry_error(first.as_str(), second.as_str());
            assert(e matches ApixError::Parse(m) && m@ =~= retry_message(j1@, y1@, j2@, y2@));
            Err(e)
        },
    }
}

} // verus!
