use apix::build::components::{collect_properties, generate_components, schema_type_to_string};
use apix::build::model::{
    BodyRef, Components, Example, Header, HeaderRef, Items, MediaType, Operation, ParamLocation,
    ParamRef, Parameter, PathItem, RequestBody, Response, ResponseRef, Schema, SchemaRef,
    SchemaType, SecurityScheme, SecuritySchemeRef, Spec, TypeSet,
};
use apix::build::oauth::sanitize_relative_oauth_urls;
use apix::build::parser::{content_parse_error, format_security_schemes, parse_spec, parsed_spec, retry_error};
use apix::build::resolver::{resolve_path_item, resolve_schema};
use apix::build::routes::{
    emit_operation, generate_routes, multipart_example, ref_to_link, render_metadata, route_dir,
    schema_example_json, url_encoded_example,
};
use apix::build::schema_helpers::{is_nullable, primary_type};
use apix::build::{check_import_target, sanitize_markdown_table_cell, target_version_root};
use apix::error::ApixError;
use apix::build::compat::{clamp_integer_text, compat_rewrites, exclusive_bound_text};
use apix::config::{Config, EnvOverrides};
use apix::vault::resolver::route_candidates;
use apix::vault::frontmatter::extract_frontmatter;

fn schema() -> Schema {
    Schema {
        schema_type: None,
        description: None,
        properties: vec![],
        required: vec![],
        all_of: vec![],
        any_of: vec![],
        one_of: vec![],
        items: None,
        string_enum: vec![],
        example: None,
        default: None,
    }
}

fn typed(t: SchemaType) -> Schema {
    Schema { schema_type: Some(TypeSet::Single(t)), ..schema() }
}

fn components() -> Components {
    Components {
        schemas: vec![],
        parameters: vec![],
        responses: vec![],
        headers: vec![],
        request_bodies: vec![],
        security_schemes: vec![],
    }
}

fn spec() -> Spec {
    Spec {
        title: "T".to_string(),
        description: None,
        version: "v1".to_string(),
        servers: vec!["https://api.example.com".to_string()],
        security: vec![],
        tags: vec![],
        paths: None,
        components: None,
    }
}

fn operation() -> Operation {
    Operation {
        summary: None,
        description: None,
        parameters: vec![],
        request_body: None,
        responses: None,
        security: vec![],
    }
}

fn path_item() -> PathItem {
    PathItem {
        reference: None,
        parameters: vec![],
        get: None,
        post: None,
        put: None,
        patch: None,
        delete: None,
        head: None,
        options: None,
        trace: None,
    }
}

#[test]
fn sanitizes_table_cells() {
    assert_eq!(sanitize_markdown_table_cell("a|b\r\nc\nd\re"), "a\\|b<br/>c<br/>d<br/>e");
}

#[test]
fn target_roots() {
    assert_eq!(target_version_root("pet", "v1", Some("/out"), "/h"), "/out/pet/v1");
    assert_eq!(target_version_root("pet", "v1", None, "/h"), "/h/vaults/.local/pet/v1");
    assert!(check_import_target("/x", false, false).is_ok());
    assert!(check_import_target("/x", true, true).is_ok());
    assert_eq!(
        check_import_target("/x", true, false),
        Err(ApixError::Config("Target already exists: /x. Use --overwrite to replace it.".to_string()))
    );
}

#[test]
fn test_primary_type() {
    let mut s = schema();
    s.schema_type = Some(TypeSet::Single(SchemaType::String));
    assert_eq!(primary_type(&s), Some(SchemaType::String));
    s.schema_type = Some(TypeSet::Multiple(vec![SchemaType::String, SchemaType::Null]));
    assert_eq!(primary_type(&s), Some(SchemaType::String));
    assert!(is_nullable(&s));
    s.schema_type = Some(TypeSet::Single(SchemaType::Null));
    assert_eq!(primary_type(&s), None);
    s.schema_type = None;
    assert_eq!(primary_type(&s), None);
}

fn security_components(items: Vec<(&str, SecurityScheme)>) -> Option<Components> {
    let mut c = components();
    c.security_schemes = items
        .into_iter()
        .map(|(n, s)| (n.to_string(), SecuritySchemeRef::Scheme(s)))
        .collect();
    Some(c)
}

#[test]
fn format_security_bearer() {
    let comps = security_components(vec![(
        "bearerAuth",
        SecurityScheme::Http { scheme: "bearer".to_string(), bearer_format: None },
    )]);
    let reqs = vec![vec!["bearerAuth".to_string()]];
    assert_eq!(format_security_schemes(&reqs, &comps), "bearer");
}

#[test]
fn format_security_api_key() {
    let comps = security_components(vec![(
        "apiKeyAuth",
        SecurityScheme::ApiKey { location: "header".to_string(), name: "X-API-KEY".to_string() },
    )]);
    let reqs = vec![vec!["apiKeyAuth".to_string()]];
    assert_eq!(format_security_schemes(&reqs, &comps), "apiKey (header: X-API-KEY)");
}

#[test]
fn format_security_multiple_alternatives() {
    let comps = security_components(vec![
        ("apiKeyAuth", SecurityScheme::ApiKey { location: "header".to_string(), name: "X-API-KEY".to_string() }),
        ("bearerAuth", SecurityScheme::Http { scheme: "bearer".to_string(), bearer_format: None }),
    ]);
    let reqs = vec![vec!["bearerAuth".to_string()], vec!["apiKeyAuth".to_string()]];
    assert_eq!(
        format_security_schemes(&reqs, &comps),
        "bearer | apiKey (header: X-API-KEY)"
    );
}

#[test]
fn format_security_oauth2() {
    let comps = security_components(vec![("oauth", SecurityScheme::OAuth2)]);
    let reqs = vec![vec!["oauth".to_string()]];
    assert_eq!(format_security_schemes(&reqs, &comps), "oauth2");
}

#[test]
fn security_edge_cases() {
    let comps = security_components(vec![(
        "b",
        SecurityScheme::Http { scheme: "bearer".to_string(), bearer_format: Some("JWT".to_string()) },
    )]);
    assert_eq!(format_security_schemes(&[], &comps), "none");
    assert_eq!(format_security_schemes(&[vec![]], &comps), "none");
    assert_eq!(
        format_security_schemes(&[vec!["b".to_string(), "other".to_string()]], &comps),
        "bearer (JWT) + other"
    );
    assert_eq!(format_security_schemes(&[vec!["x".to_string()]], &None), "x");
}

#[test]
fn resolve_path_item_unresolvable() {
    let s = spec();
    let mut seen = Vec::new();
    let err = resolve_path_item("#/paths/path_missing", &s, &mut seen).unwrap_err();
    assert!(matches!(err, ApixError::Parse(msg) if msg.contains("Could not resolve")));
}

#[test]
fn resolves_escaped_path_reference() {
    let mut s = spec();
    let mut target = path_item();
    target.get = Some(Operation { summary: Some("Target".to_string()), ..operation() });
    s.paths = Some(vec![("/a/b".to_string(), target)]);
    let mut seen = Vec::new();
    let item = resolve_path_item("#/paths/~1a~1b", &s, &mut seen).expect("resolve");
    assert_eq!(item.get.as_ref().unwrap().summary.as_deref(), Some("Target"));
    assert_eq!(seen, vec!["#/paths/~1a~1b".to_string()]);
}

#[test]
fn resolve_schema_circular() {
    let mut s = spec();
    let mut c = components();
    c.schemas = vec![
        ("schema_a".to_string(), SchemaRef::Ref("#/components/schemas/schema_b".to_string())),
        ("schema_b".to_string(), SchemaRef::Ref("#/components/schemas/schema_a".to_string())),
    ];
    s.components = Some(c);
    let mut seen = Vec::new();
    let err = resolve_schema("#/components/schemas/schema_a", &s, &mut seen).unwrap_err();
    assert!(matches!(err, ApixError::Parse(msg) if msg.contains("Circular schema reference")));
}

#[test]
fn resolve_schema_unresolvable() {
    let s = spec();
    let mut seen = Vec::new();
    let err = resolve_schema("#/components/schemas/missing", &s, &mut seen).unwrap_err();
    assert!(matches!(err, ApixError::Parse(msg) if msg.contains("Could not resolve")));
}

#[test]
fn schema_type_strings() {
    assert_eq!(schema_type_to_string(&typed(SchemaType::Integer), "."), "integer");
    assert_eq!(schema_type_to_string(&schema(), "."), "any");
    let mut arr = typed(SchemaType::Array);
    arr.items = Some(Box::new(Items::Ref("#/components/schemas/Pet".to_string())));
    assert_eq!(schema_type_to_string(&arr, "../schemas"), "array<[Pet](../schemas/Pet.md)>");
    let mut nested = typed(SchemaType::Array);
    nested.items = Some(Box::new(Items::Inline(Box::new(typed(SchemaType::String)))));
    assert_eq!(schema_type_to_string(&nested, "."), "array<string>");
    let mut one = schema();
    one.one_of = vec![SchemaRef::Inline(Box::new(schema())), SchemaRef::Inline(Box::new(schema()))];
    assert_eq!(schema_type_to_string(&one, "."), "oneOf(2)");
}

fn thing_spec(description: &str) -> Spec {
    let mut thing = typed(SchemaType::Object);
    thing.required = vec!["id".to_string()];
    thing.properties = vec![
        (
            "id".to_string(),
            SchemaRef::Inline(Box::new(Schema {
                description: Some(description.to_string()),
                ..typed(SchemaType::String)
            })),
        ),
        (
            "kind".to_string(),
            SchemaRef::Inline(Box::new(Schema {
                string_enum: vec!["a".to_string(), "b".to_string()],
                ..typed(SchemaType::String)
            })),
        ),
    ];
    let mut c = components();
    c.schemas = vec![("Thing".to_string(), SchemaRef::Inline(Box::new(thing)))];
    Spec { components: Some(c), ..spec() }
}

#[test]
fn components_generates_type_markdown_from_schema() {
    let parsed = parsed_spec(thing_spec("identifier"));
    let files = generate_components(&parsed);
    assert_eq!(files.len(), 1);
    assert_eq!(files[0].0, "_components/schemas/Thing.md");
    assert!(files[0].1.contains("# Thing"));
    assert!(files[0].1.contains("Allowed values: a, b"));
    assert!(files[0].1.contains("| `id` | Yes | string | identifier |"));
}

#[test]
fn escapes_multiline_schema_property_description_in_table_cell() {
    let parsed = parsed_spec(thing_spec("line one\nline two"));
    let files = generate_components(&parsed);
    assert!(files[0].1.contains("line one<br/>line two"));
}

#[test]
fn all_of_references_contribute_properties() {
    let mut s = thing_spec("identifier");
    let mut composed = schema();
    composed.all_of = vec![
        SchemaRef::Ref("#/components/schemas/Thing".to_string()),
        SchemaRef::Ref("#/components/schemas/Missing".to_string()),
    ];
    let rows = collect_properties(&composed, &s);
    assert_eq!(rows.len(), 3);
    assert_eq!(rows[0].name, "id");
    assert_eq!(rows[2].required, "Unknown");
    assert_eq!(rows[2].prop_type, "[Missing](Missing.md)");
    s.components = None;
    assert_eq!(collect_properties(&composed, &s).len(), 2);
}

#[test]
fn links_and_dirs() {
    assert_eq!(
        ref_to_link("#/components/responses/NotFound", "../_components"),
        "[NotFound](../_components/responses/NotFound.md)"
    );
    assert_eq!(ref_to_link("Pet", "_components"), "[Pet](_components/schemas/Pet.md)");
    assert_eq!(route_dir("/root", "/items/{id}/"), "/root/items/{id}");
}

#[test]
fn examples_are_rendered_by_content_type() {
    let ex = Example {
        pretty: "{}".to_string(),
        fields: Some(vec![("a".to_string(), "1".to_string()), ("b".to_string(), "x y".to_string())]),
    };
    assert_eq!(url_encoded_example(&ex), "a=1&b=x y");
    assert_eq!(
        multipart_example(&ex),
        "--boundary\nContent-Disposition: form-data; name=\"a\"\n\n1\n--boundary\nContent-Disposition: form-data; name=\"b\"\n\nx y\n--boundary--"
    );
}

fn items_spec() -> Spec {
    let mut op = operation();
    op.summary = Some("Create".to_string());
    op.parameters = vec![
        ParamRef::Param(Parameter {
            name: "id".to_string(),
            location: ParamLocation::Path,
            required: Some(true),
            description: None,
            schema: Some(SchemaRef::Inline(Box::new(typed(SchemaType::String)))),
            content: None,
            style: None,
            explode: None,
            allow_reserved: None,
        }),
        ParamRef::Param(Parameter {
            name: "verbose".to_string(),
            location: ParamLocation::Query,
            required: Some(false),
            description: None,
            schema: Some(SchemaRef::Inline(Box::new(typed(SchemaType::Boolean)))),
            content: None,
            style: Some("Form".to_string()),
            explode: Some(true),
            allow_reserved: None,
        }),
    ];
    let mut body_schema = typed(SchemaType::Object);
    body_schema.required = vec!["name".to_string()];
    body_schema.properties = vec![
        ("name".to_string(), SchemaRef::Inline(Box::new(typed(SchemaType::String)))),
        ("count".to_string(), SchemaRef::Inline(Box::new(typed(SchemaType::Integer)))),
    ];
    op.request_body = Some(BodyRef::Body(RequestBody {
        description: None,
        content: vec![(
            "application/json".to_string(),
            MediaType { schema: Some(SchemaRef::Inline(Box::new(body_schema))) },
        )],
    }));
    let mut resp_schema = typed(SchemaType::Object);
    resp_schema.properties =
        vec![("new_id".to_string(), SchemaRef::Inline(Box::new(typed(SchemaType::String))))];
    op.responses = Some(vec![(
        "201".to_string(),
        ResponseRef::Response(Response {
            description: Some("Created".to_string()),
            headers: vec![(
                "X-RateLimit".to_string(),
                HeaderRef::Header(Header {
                    required: None,
                    description: None,
                    schema: Some(SchemaRef::Inline(Box::new(typed(SchemaType::Integer)))),
                    content: None,
                }),
            )],
            content: vec![(
                "application/json".to_string(),
                MediaType { schema: Some(SchemaRef::Inline(Box::new(resp_schema))) },
            )],
        }),
    )]);
    let mut item = path_item();
    item.post = Some(op);
    Spec { paths: Some(vec![("/items/{id}".to_string(), item)]), ..spec() }
}

#[test]
fn generates_route_markdown_with_params() {
    let parsed = parsed_spec(items_spec());
    let files = generate_routes(&parsed).expect("routes");
    assert_eq!(files.len(), 1);
    assert_eq!(files[0].0, "items/{id}/POST.md");
    let rendered = &files[0].1;
    assert!(rendered.starts_with(
        "---\nmethod: \"POST\"\nurl: \"https://api.example.com/items/{id}\"\ncontent_type: \"application/json\"\n---\n\n# Create\n\n## Path Parameters\n\n"
    ));
    assert!(rendered.contains("## Query Parameters"));
    assert!(rendered.contains("| `verbose` | No | boolean | *Serialization: style=Form, explode=true* |"));
    assert!(rendered.contains("## Request Body"));
    assert!(rendered.contains("| `name` | Yes | string |  |"));
    assert!(rendered.contains("### 201"));
    assert!(rendered.contains("#### Headers"));
    assert!(rendered.contains("X-RateLimit"));
    assert!(rendered.contains("#### Response Schema (`application/json`)"));
    assert!(rendered.contains("new_id"));
}

#[test]
fn route_with_unresolvable_path_reference_is_an_error() {
    let mut item = path_item();
    item.reference = Some("#/paths/missing".to_string());
    let parsed = parsed_spec(Spec { paths: Some(vec![("/x".to_string(), item)]), ..spec() });
    let (written, err) = generate_routes(&parsed).unwrap_err();
    assert!(written.is_empty());
    assert_eq!(err, ApixError::Parse("Could not resolve path item reference: #/paths/missing".to_string()));
}

#[test]
fn routes_before_an_unresolvable_reference_are_kept() {
    let mut first = path_item();
    first.get = Some(Operation { summary: Some("First".to_string()), ..operation() });
    let mut broken = path_item();
    broken.reference = Some("#/paths/missing".to_string());
    let parsed = parsed_spec(Spec {
        paths: Some(vec![("/a".to_string(), first), ("/x".to_string(), broken)]),
        ..spec()
    });
    let (written, err) = generate_routes(&parsed).unwrap_err();
    assert_eq!(written.len(), 1);
    assert_eq!(written[0].0, "a/GET.md");
    assert_eq!(err, ApixError::Parse("Could not resolve path item reference: #/paths/missing".to_string()));
}

#[test]
fn operation_auth_is_recorded_when_it_differs() {
    let mut s = items_spec();
    let mut c = components();
    c.security_schemes = vec![(
        "k".to_string(),
        SecuritySchemeRef::Scheme(SecurityScheme::ApiKey {
            location: "header".to_string(),
            name: "X-API-KEY".to_string(),
        }),
    )];
    s.components = Some(c);
    s.security = vec![vec!["k".to_string()]];
    let parsed = parsed_spec(s);
    assert_eq!(parsed.auth, "apiKey (header: X-API-KEY)");
    let item = &parsed.spec.paths.as_ref().unwrap()[0].1;
    let (_, doc) = emit_operation(&parsed, "/items/{id}", item, "POST", item.post.as_ref().unwrap());
    assert!(doc.contains("auth: \"none\""));
}

#[test]
fn metadata_document() {
    let mut s = spec();
    s.tags = vec!["pet".to_string(), "store".to_string()];
    s.description = Some("Pets".to_string());
    let parsed = parsed_spec(s);
    assert_eq!(parsed.base_url, "https://api.example.com");
    assert_eq!(parsed.auth, "none");
    assert_eq!(
        render_metadata(&parsed),
        "---\nbase_url: \"https://api.example.com\"\nauth: \"none\"\ntags: [pet, store]\n---\n\n# T\n\n\nPets\n\n**Version:** v1\n**Base URL:** `https://api.example.com`\n"
    );
}

#[test]
fn generated_route_frontmatter_reads_back() {
    let parsed = parsed_spec(items_spec());
    let files = generate_routes(&parsed).expect("routes");
    let (yaml, body) = extract_frontmatter(&files[0].1).expect("frontmatter");
    assert_eq!(
        yaml,
        "method: \"POST\"\nurl: \"https://api.example.com/items/{id}\"\ncontent_type: \"application/json\""
    );
    assert!(body.starts_with("# Create\n\n## Path Parameters"));
}

#[test]
fn table_cells_never_break_lines() {
    for v in ["\r", "\n", "\r\n", "a\n\rb", "x|y\r\r\n"] {
        let c = sanitize_markdown_table_cell(v);
        assert!(!c.contains('\n') && !c.contains('\r'), "{c}");
    }
}

#[test]
fn out_of_range_integers_are_clamped() {
    assert_eq!(clamp_integer_text(": ", "-9223372036854776000"), ": -9223372036854775808");
    assert_eq!(clamp_integer_text(": ", "9223372036854775808"), ": 9223372036854775807");
    assert_eq!(clamp_integer_text(":", "123456789012345"), ":123456789012345");
    assert_eq!(clamp_integer_text(":", "-9223372036854775808"), ":-9223372036854775808");
    assert_eq!(
        clamp_integer_text(":", "999999999999999999999999999999999999999999"),
        ":9223372036854775807"
    );
    assert_eq!(
        clamp_integer_text(":", "-999999999999999999999999999999999999999999"),
        ":-9223372036854775808"
    );
    assert_eq!(exclusive_bound_text("exclusiveMinimum", ": ", "true"), "x-exclusiveMinimum: true");
    assert_eq!(
        compat_rewrites("minimum: -9223372036854776000\nexclusiveMaximum: false\n"),
        "minimum: -9223372036854775808\nx-exclusiveMaximum: false\n"
    );
    assert_eq!(compat_rewrites("a: 12"), "a: 12");
}

#[test]
fn imported_route_file_is_where_the_route_resolves() {
    let parsed = parsed_spec(items_spec());
    let files = generate_routes(&parsed).expect("routes");
    let root = target_version_root("demo", "v1", None, "/h");
    let written = format!("{root}/{}", files[0].0);
    let found = route_candidates(
        "demo/v1/items/{id}/POST",
        Some(".local"),
        &Config::default(),
        &EnvOverrides::none(),
        "/h",
    )
    .expect("candidates");
    assert_eq!(found.len(), 1);
    assert_eq!(found[0].file_path, written);
    assert_eq!(written, "/h/vaults/.local/demo/v1/items/{id}/POST.md");
}

#[test]
fn sanitize_spec_for_compat_clamps_out_of_range() {
    let input = "minimum: -9223372036854776000\nmaximum: 9223372036854776000\nnormal: 12345";
    let output = compat_rewrites(input);
    assert!(output.contains(&format!("minimum: {}", i64::MIN)));
    assert!(output.contains(&format!("maximum: {}", i64::MAX)));
    assert!(
        output.contains("normal: 12345"),
        "in-range values must be unchanged"
    );
}

#[test]
fn sanitize_spec_for_compat_leaves_normal_values_intact() {
    let input = "seed: 42\nlimit: 100\noffset: -500";
    let output = compat_rewrites(input);
    assert_eq!(input, output);
}

#[test]
fn sanitize_spec_for_compat_renames_exclusive_booleans() {
    let input = "minimum: 0\nexclusiveMinimum: true\nmaximum: 10\nexclusiveMaximum: false";
    let output = compat_rewrites(input);
    assert!(output.contains("x-exclusiveMinimum: true"));
    assert!(output.contains("x-exclusiveMaximum: false"));
    assert!(!output.contains("\nexclusiveMinimum: true"));
    assert!(!output.contains("\nexclusiveMaximum: false"));
}

#[test]
fn schema_example_prefers_example_over_default() {
    let ex = || Example { pretty: "{\n  \"a\": 1\n}".to_string(), fields: None };
    let def = || Example { pretty: "{}".to_string(), fields: None };
    let both = Schema { example: Some(ex()), default: Some(def()), ..schema() };
    assert_eq!(schema_example_json(&both).map(|e| e.pretty.clone()), Some("{\n  \"a\": 1\n}".to_string()));
    let only_default = Schema { default: Some(def()), ..schema() };
    assert_eq!(schema_example_json(&only_default).map(|e| e.pretty.clone()), Some("{}".to_string()));
    assert!(schema_example_json(&schema()).is_none());
}

#[test]
fn sanitize_spec_for_compat_absolutizes_relative_oauth_urls() {
    let input = r#"{
  "openapi": "3.0.0",
  "info": { "title": "t", "version": "v1" },
  "servers": [{ "url": "https://api.example.com" }],
  "paths": {},
  "components": {
    "securitySchemes": {
      "Oauth2": {
        "type": "oauth2",
        "flows": {
          "clientCredentials": {
            "tokenUrl": "/v1/oauth2/token",
            "scopes": {}
          }
        }
      }
    }
  }
}"#;
    let output = sanitize_relative_oauth_urls(&compat_rewrites(input)).unwrap_or_else(|| compat_rewrites(input));
    assert!(
        output.contains(r#""tokenUrl":"https://api.example.com/v1/oauth2/token""#),
        "expected absolute tokenUrl, got: {output}"
    );
}

#[test]
fn sanitize_spec_for_compat_does_not_rewrite_non_root_relative_oauth_urls() {
    let input = r#"{
  "openapi": "3.0.0",
  "info": { "title": "No Rewrite", "version": "v1" },
  "servers": [{ "url": "https://api.example.com" }],
  "paths": {},
  "components": {
    "securitySchemes": {
      "Oauth2": {
        "type": "oauth2",
        "flows": {
          "clientCredentials": {
            "tokenUrl": "v1/oauth2/token",
            "scopes": {}
          }
        }
      }
    }
  }
}"#;
    let output = sanitize_relative_oauth_urls(&compat_rewrites(input)).unwrap_or_else(|| compat_rewrites(input));
    assert_eq!(output, input, "non-root-relative URL must remain unchanged");
}

#[test]
fn sanitize_spec_for_compat_rewrites_only_relative_urls_in_mixed_flows() {
    let input = r#"{
  "openapi": "3.0.0",
  "info": { "title": "Mixed URLs", "version": "v1" },
  "servers": [{ "url": "https://api.example.com/base" }],
  "paths": {},
  "components": {
    "securitySchemes": {
      "Oauth2": {
        "type": "oauth2",
        "flows": {
          "authorizationCode": {
            "authorizationUrl": "/oauth/authorize",
            "tokenUrl": "https://idp.example.com/oauth/token",
            "refreshUrl": "/oauth/refresh",
            "scopes": {}
          },
          "clientCredentials": {
            "tokenUrl": "/oauth/token2",
            "scopes": {}
          }
        }
      }
    }
  }
}"#;
    let output = sanitize_relative_oauth_urls(&compat_rewrites(input)).expect("rewritten");
    let doc: serde_json::Value = serde_json::from_str(&output).expect("valid json");
    let auth_code = &doc["components"]["securitySchemes"]["Oauth2"]["flows"]["authorizationCode"];
    let client_credentials = &doc["components"]["securitySchemes"]["Oauth2"]["flows"]["clientCredentials"];
    assert_eq!(auth_code["authorizationUrl"].as_str(), Some("https://api.example.com/oauth/authorize"));
    assert_eq!(auth_code["tokenUrl"].as_str(), Some("https://idp.example.com/oauth/token"));
    assert_eq!(auth_code["refreshUrl"].as_str(), Some("https://api.example.com/oauth/refresh"));
    assert_eq!(client_credentials["tokenUrl"].as_str(), Some("https://api.example.com/oauth/token2"));
}

#[test]
fn oauth_urls_need_a_first_server_that_parses() {
    let no_server = r#"{"components":{"securitySchemes":{"Oidc":{"type":"openIdConnect","openIdConnectUrl":"/.well-known/openid"}}}}"#;
    assert!(sanitize_relative_oauth_urls(no_server).is_none());
    let yaml = "servers:\n  - url: https://id.example.com\ncomponents:\n  securitySchemes:\n    Oidc:\n      type: openIdConnect\n      openIdConnectUrl: /.well-known/openid\n";
    let out = sanitize_relative_oauth_urls(yaml).expect("rewritten");
    assert!(out.contains(r#""openIdConnectUrl":"https://id.example.com/.well-known/openid""#), "got {out}");
    assert!(sanitize_relative_oauth_urls("{ not a document").is_none());
}

#[test]
fn parses_spec_with_relative_oauth_token_url() {
    let spec = r#"{
  "openapi": "3.0.0",
  "info": { "title": "OAuth Relative URL", "version": "v1" },
  "servers": [{ "url": "https://api.example.com" }],
  "paths": {},
  "components": {
    "securitySchemes": {
      "Oauth2": {
        "type": "oauth2",
        "flows": {
          "clientCredentials": {
            "tokenUrl": "/v1/oauth2/token",
            "scopes": {}
          }
        }
      }
    }
  }
}"#;
    let parsed = parse_spec(spec);
    assert!(parsed.is_ok(), "relative OAuth tokenUrl should be sanitized and parse successfully: {:?}", parsed.err());
}

#[test]
fn parses_minimal_json_spec_file() {
    let spec = r#"{
  "openapi": "3.0.0",
  "info": { "title": "Pet API", "version": "v1" },
  "servers": [{ "url": "https://api.example.com" }],
  "paths": {}
}"#;
    let parsed = parse_spec(spec).expect("must parse");
    assert_eq!(parsed.title, "Pet API");
    assert_eq!(parsed.version, "v1");
    assert_eq!(parsed.base_url, "https://api.example.com");
    assert!(parsed.spec.paths.as_ref().map(|p| p.is_empty()).unwrap_or(true));
}

#[test]
fn parses_minimal_yaml_spec_file() {
    let spec = "openapi: 3.0.0\ninfo:\n  title: Pet API\n  version: v1\nservers:\n  - url: https://api.example.com\npaths: {}";
    let parsed = parse_spec(spec).expect("must parse");
    assert_eq!(parsed.title, "Pet API");
    assert_eq!(parsed.version, "v1");
    assert_eq!(parsed.base_url, "https://api.example.com");
    assert!(parsed.spec.paths.as_ref().map(|p| p.is_empty()).unwrap_or(true));
}

#[test]
fn parsed_document_keeps_its_structure() {
    let spec = r##"{
  "openapi": "3.0.0",
  "info": { "title": "T", "description": "D", "version": "v2" },
  "tags": [{ "name": "pet" }],
  "security": [{ "bearerAuth": [] }],
  "paths": {
    "/pets/{id}": {
      "parameters": [{ "name": "id", "in": "path", "required": true, "schema": { "type": "string" }, "style": "simple" }],
      "get": {
        "summary": "Get",
        "responses": { "200": { "description": "OK", "content": { "application/json": { "schema": { "$ref": "#/components/schemas/Pet" } } } } }
      },
      "post": {
        "requestBody": { "content": { "application/json": { "schema": { "type": "object", "properties": { "zeta": { "type": "integer" }, "alpha": { "type": ["string", "null"] } }, "example": { "zeta": 1, "alpha": "a" } } } } },
        "responses": { "201": { "description": "Created" } }
      }
    }
  },
  "components": {
    "schemas": { "Pet": { "type": "object", "required": ["name"], "properties": { "name": { "type": "string" } } } },
    "securitySchemes": { "bearerAuth": { "type": "http", "scheme": "bearer" } }
  }
}"##;
    let parsed = parse_spec(spec).expect("must parse");
    assert_eq!(parsed.description, "D");
    assert_eq!(parsed.tags, vec!["pet"]);
    assert_eq!(parsed.auth, "bearer");
    let paths = parsed.spec.paths.as_ref().expect("paths");
    assert_eq!(paths.len(), 1);
    let (path, item) = &paths[0];
    assert_eq!(path, "/pets/{id}");
    match &item.parameters[0] {
        ParamRef::Param(p) => {
            assert_eq!(p.name, "id");
            assert_eq!(p.location, ParamLocation::Path);
            assert_eq!(p.required, Some(true));
            assert_eq!(p.style.as_deref(), Some("Simple"));
        }
        _ => panic!("expected an inline parameter"),
    }
    let get = item.get.as_ref().expect("get");
    assert_eq!(get.summary.as_deref(), Some("Get"));
    let post = item.post.as_ref().expect("post");
    match &post.request_body {
        Some(BodyRef::Body(b)) => {
            assert_eq!(b.content[0].0, "application/json");
            match &b.content[0].1.schema {
                Some(SchemaRef::Inline(s)) => {
                    let names: Vec<&str> = s.properties.iter().map(|p| p.0.as_str()).collect();
                    assert_eq!(names, vec!["zeta", "alpha"]);
                    let ex = s.example.as_ref().expect("example");
                    assert_eq!(ex.fields.clone().expect("fields"), vec![("zeta".to_string(), "1".to_string()), ("alpha".to_string(), "a".to_string())]);
                }
                _ => panic!("expected an inline schema"),
            }
        }
        _ => panic!("expected an inline body"),
    }
    let comps = parsed.spec.components.as_ref().expect("components");
    assert_eq!(comps.schemas[0].0, "Pet");
    match &comps.security_schemes[0].1 {
        SecuritySchemeRef::Scheme(SecurityScheme::Http { scheme, .. }) => assert_eq!(scheme, "bearer"),
        _ => panic!("expected an http scheme"),
    }
}

#[test]
fn parses_invalid_spec_fails() {
    match parse_spec("invalid JSON or YAML format") {
        Err(ApixError::Parse(m)) => {
            assert!(m.starts_with("Invalid OpenAPI spec (JSON/YAML), including compat retry: initial parse: json error: "), "got {m}");
            assert!(m.contains("; sanitized parse: json error: "), "got {m}");
        }
        other => panic!("expected a parse error, got {other:?}"),
    }
}

#[test]
fn parse_errors_name_both_attempts() {
    assert_eq!(content_parse_error("bad json", "bad yaml"), "json error: bad json; yaml error: bad yaml");
    assert_eq!(
        retry_error("a", "b"),
        ApixError::Parse(
            "Invalid OpenAPI spec (JSON/YAML), including compat retry: initial parse: a; sanitized parse: b".to_string()
        )
    );
}

#[test]
fn parses_spec_with_large_integer() {
    let spec = "openapi: 3.0.0\ninfo:\n  title: Large Int Test\n  version: v1\npaths:\n  /test:\n    post:\n      responses:\n        '200':\n          description: OK\n          content:\n            application/json:\n              schema:\n                type: integer\n                minimum: -9223372036854776000\n                maximum: 9223372036854776000\n";
    let res = parse_spec(spec);
    assert!(res.is_ok(), "large integers should be handled by the compat retry: {:?}", res.err());
}

#[test]
fn parses_openapi_3_1_type_array() {
    let spec = r#"{
  "openapi": "3.1.0",
  "info": { "title": "3.1 API", "version": "v1" },
  "paths": {
    "/test": {
      "get": {
        "parameters": [
          { "name": "id", "in": "query", "schema": { "type": ["string", "null"] } }
        ],
        "responses": { "200": { "description": "OK" } }
      }
    }
  }
}"#;
    let parsed = parse_spec(spec).expect("must parse 3.1");
    assert_eq!(parsed.title, "3.1 API");
}
