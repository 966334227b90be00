//! Relative OAuth and OpenID Connect URLs made absolute against a
//! document's first server, before a second parse of a document the parser
//! refused.
//!
//! The document is read (JSON, else YAML) and written back as JSON text by
//! serde_json; its values are read and set through JSON pointers. Which
//! fields are URL fields, which of them change, and to what, is decided
//! here.

use vstd::prelude::*;
use crate::exec::{parse_url, url_parse};
use crate::text::{chars_of, concat2, replace_all, replace_str, starts_with_str, string_of};

verus! {

// ---------------------------------------------------------------------------
// The outside calls
// ---------------------------------------------------------------------------

/// What url's `Url::parse(base)` followed by `Url::join(reference)` gives:
/// the joined URL's serialisation, or the error's message.
pub uninterp spec fn url_joined(base: Seq<char>, reference: Seq<char>) -> Result<
    Seq<char>,
    Seq<char>,
>;

/// Joins a reference to a base URL with the url crate (`Url::parse`, then
/// `Url::join`), giving the serialisation or the error's message. The
/// contract names the outcome.
#[verifier::external_body]
fn join_url(base: &str, reference: &str) -> (r: Result<String, String>)
    ensures
        match url_joined(base@, reference@) {
            Ok(u) => r matches Ok(x) && x@ == u,
            Err(e) => r matches Err(x) && x@ == e,
        },
{
    match url::Url::parse(base).and_then(|b| b.join(reference)) {
        Ok(u) => Ok(u.to_string()),
        Err(e) => Err(e.to_string()),
    }
}

/// A document text read as a `serde_json::Value` (with `serde_json`, else
/// with `serde_yaml`) and written back with `serde_json::to_string`; none
/// when neither reads it.
pub uninterp spec fn document_json(text: Seq<char>) -> Option<Seq<char>>;

/// The text value at a JSON pointer (`Value::pointer`, then
/// `Value::as_str`) of a JSON text read with `serde_json`; none when the
/// text does not read, the pointer does not resolve, or the value is not a
/// text.
pub uninterp spec fn json_text_at(json: Seq<char>, pointer: Seq<char>) -> Option<Seq<char>>;

/// The keys of the object at a JSON pointer, in `serde_json`'s map order;
/// none when the text does not read, the pointer does not resolve, or the
/// value is not an object.
pub uninterp spec fn json_keys_at(json: Seq<char>, pointer: Seq<char>) -> Option<Seq<Seq<char>>>;

/// The length of the array at a JSON pointer; none when the text does not
/// read, the pointer does not resolve, or the value is not an array.
pub uninterp spec fn json_array_len_at(json: Seq<char>, pointer: Seq<char>) -> Option<nat>;

/// A JSON text with the value at a JSON pointer replaced by a text value
/// (`Value::pointer_mut`), written back with `serde_json::to_string`; none
/// when the text does not read or the pointer does not resolve.
pub uninterp spec fn json_with_text_at(json: Seq<char>, pointer: Seq<char>, value: Seq<char>) -> Option<
    Seq<char>,
>;

/// Reads a document as JSON, else as YAML, into a `serde_json::Value` and
/// writes it as JSON text. The contract names the outcome.
#[verifier::external_body]
fn read_document(text: &str) -> (r: Option<String>)
    ensures
        match document_json(text@) {
            Some(d) => r matches Some(x) && x@ == d,
            None => r is None,
        },
{
    let v: serde_json::Value = match serde_json::from_str(text) {
        Ok(v) => v,
        Err(_) => serde_yaml::from_str(text).ok()?,
    };
    serde_json::to_string(&v).ok()
}

/// The text value at a JSON pointer of a JSON text (serde_json). The
/// contract names the outcome.
#[verifier::external_body]
fn text_at(json: &str, pointer: &str) -> (r: Option<String>)
    ensures
        match json_text_at(json@, pointer@) {
            Some(t) => r matches Some(x) && x@ == t,
            None => r is None,
        },
{
    let v: serde_json::Value = serde_json::from_str(json).ok()?;
    v.pointer(pointer)?.as_str().map(|s| s.to_string())
}

/// The keys of the object at a JSON pointer of a JSON text (serde_json).
/// The contract names the outcome.
#[verifier::external_body]
fn keys_at(json: &str, pointer: &str) -> (r: Option<Vec<String>>)
    ensures
        match json_keys_at(json@, pointer@) {
            Some(ks) => r matches Some(x) && crate::text::strs(x@) == ks,
            None => r is None,
        },
{
    let v: serde_json::Value = serde_json::from_str(json).ok()?;
    v.pointer(pointer)?.as_object().map(|m| m.keys().cloned().collect())
}

/// The length of the array at a JSON pointer of a JSON text (serde_json).
/// The contract names the outcome.
#[verifier::external_body]
fn array_len_at(json: &str, pointer: &str) -> (r: Option<usize>)
    ensures
        match json_array_len_at(json@, pointer@) {
            Some(n) => r matches Some(x) && x == n,
            None => r is None,
        },
{
    let v: serde_json::Value = serde_json::from_str(json).ok()?;
    v.pointer(pointer)?.as_array().map(|a| a.len())
}

/// A JSON text with a text value set at a JSON pointer (serde_json). The
/// contract names the outcome.
#[verifier::external_body]
fn with_text_at(json: &str, pointer: &str, value: &str) -> (r: Option<String>)
    ensures
        match json_with_text_at(json@, pointer@, value@) {
            Some(t) => r matches Some(x) && x@ == t,
            None => r is None,
        },
{
    let mut v: serde_json::Value = serde_json::from_str(json).ok()?;
    *v.pointer_mut(pointer)? = serde_json::Value::String(value.to_string());
    serde_json::to_string(&v).ok()
}

// ---------------------------------------------------------------------------
// Which fields change
// ---------------------------------------------------------------------------

/// Whether a URL field is rewritten: it does not parse as a URL on its
/// own, starts with `/`, and joins to the base.
pub open spec fn field_changes(base: Seq<char>, raw: Seq<char>) -> bool {
    &&& url_parse(raw) is Err
    &&& "/"@.is_prefix_of(raw)
    &&& url_joined(base, raw) is Ok
}

/// An object key as a JSON pointer token: `~` written `~0`, then `/`
/// written `~1`.
pub open spec fn pointer_token(k: Seq<char>) -> Seq<char> {
    replace_all(replace_all(k, "~"@, "~0"@), "/"@, "~1"@)
}

/// The edit of the URL field at a pointer: the pointer and the joined URL
/// when the field is a text that changes, else none.
pub open spec fn field_edit(d: Seq<char>, base: Seq<char>, ptr: Seq<char>) -> Seq<
    (Seq<char>, Seq<char>),
> {
    match json_text_at(d, ptr) {
        Some(v) => if field_changes(base, v) {
            seq![(ptr, url_joined(base, v)->Ok_0)]
        } else {
            Seq::empty()
        },
        None => Seq::empty(),
    }
}

/// The edits of an OAuth flow: its `authorizationUrl`, `tokenUrl` and
/// `refreshUrl`.
pub open spec fn flow_edits(d: Seq<char>, base: Seq<char>, fp: Seq<char>) -> Seq<
    (Seq<char>, Seq<char>),
> {
    field_edit(d, base, fp + "/authorizationUrl"@) + field_edit(d, base, fp + "/tokenUrl"@)
        + field_edit(d, base, fp + "/refreshUrl"@)
}

/// The edits of the flows of a scheme, by flow key in order.
pub open spec fn flows_edits(d: Seq<char>, base: Seq<char>, sp: Seq<char>, fs: Seq<Seq<char>>) -> Seq<
    (Seq<char>, Seq<char>),
>
    decreases fs.len(),
{
    if fs.len() == 0 {
        Seq::empty()
    } else {
        flows_edits(d, base, sp, fs.drop_last()) + flow_edits(
            d,
            base,
            sp + "/flows/"@ + pointer_token(fs.last()),
        )
    }
}

/// The edits of a security scheme: the flows of an `oauth2` scheme, the
/// `openIdConnectUrl` of an `openIdConnect` scheme, none for another.
pub open spec fn scheme_edits(d: Seq<char>, base: Seq<char>, sp: Seq<char>) -> Seq<
    (Seq<char>, Seq<char>),
> {
    if json_text_at(d, sp + "/type"@) == Some("oauth2"@) {
        match json_keys_at(d, sp + "/flows"@) {
            Some(fs) => flows_edits(d, base, sp, fs),
            None => Seq::empty(),
        }
    } else if json_text_at(d, sp + "/type"@) == Some("openIdConnect"@) {
        field_edit(d, base, sp + "/openIdConnectUrl"@)
    } else {
        Seq::empty()
    }
}

/// The pointer of a security scheme.
pub open spec fn scheme_pointer(k: Seq<char>) -> Seq<char> {
    "/components/securitySchemes/"@ + pointer_token(k)
}

/// The edits of the security schemes, by key in order.
pub open spec fn schemes_edits(d: Seq<char>, base: Seq<char>, ks: Seq<Seq<char>>) -> Seq<
    (Seq<char>, Seq<char>),
>
    decreases ks.len(),
{
    if ks.len() == 0 {
        Seq::empty()
    } else {
        schemes_edits(d, base, ks.drop_last()) + scheme_edits(d, base, scheme_pointer(ks.last()))
    }
}

/// The edits of a document (see [`scheme_edits`]).
pub open spec fn document_edits(d: Seq<char>, base: Seq<char>) -> Seq<(Seq<char>, Seq<char>)> {
    match json_keys_at(d, "/components/securitySchemes"@) {
        Some(ks) => schemes_edits(d, base, ks),
        None => Seq::empty(),
    }
}

/// The URL of the document's first server, when `servers` is a non-empty
/// array whose first element has a text `url`.
pub open spec fn first_server_url(d: Seq<char>) -> Option<Seq<char>> {
    match json_array_len_at(d, "/servers"@) {
        Some(n) => if n > 0 {
            json_text_at(d, "/servers/0/url"@)
        } else {
            None
        },
        None => None,
    }
}

/// The document after the edits, in order.
pub open spec fn apply_edits(d: Seq<char>, es: Seq<(Seq<char>, Seq<char>)>) -> Option<Seq<char>>
    decreases es.len(),
{
    if es.len() == 0 {
        Some(d)
    } else {
        match apply_edits(d, es.drop_last()) {
            Some(t) => json_with_text_at(t, es.last().0, es.last().1),
            None => None,
        }
    }
}

/// The document with its relative OAuth and OpenID Connect URLs made
/// absolute against its first server, as JSON text; none when the text is
/// no JSON or YAML document, has no first server whose URL parses, or no
/// field changes.
pub open spec fn oauth_rewrite(content: Seq<char>) -> Option<Seq<char>> {
    match document_json(content) {
        None => None,
        Some(d) => match first_server_url(d) {
            None => None,
            Some(b) => if url_parse(b) is Err {
                None
            } else {
                let es = document_edits(d, b);
                if es.len() == 0 {
                    None
                } else {
                    apply_edits(d, es)
                }
            },
        },
    }
}

// ---------------------------------------------------------------------------
// The rewrite
// ---------------------------------------------------------------------------

/// The edits as pairs of texts.
pub open spec fn edit_views(v: Seq<(String, String)>) -> Seq<(Seq<char>, Seq<char>)> {
    v.map_values(|e: (String, String)| (e.0@, e.1@))
}

/// Writes an object key as a JSON pointer token.
fn pointer_token_exec(k: &str) -> (r: String)
    ensures
        r@ == pointer_token(k@),
{
    proof {
        reveal_strlit("~");
        reveal_strlit("/");
    }
    let kc = chars_of(k);
    let a = replace_str(kc.as_slice(), "~", "~0");
    let b = replace_str(a.as_slice(), "/", "~1");
    string_of(b.as_slice())
}

/// Appends the edit of the URL field at a pointer.
fn push_field_edit(d: &str, base: &str, ptr: String, out: &mut Vec<(String, String)>)
    ensures
        edit_views(final(out)@) == edit_views(old(out)@) + field_edit(d@, base@, ptr@),
{
    let ghost start = edit_views(out@);
    match text_at(d, ptr.as_str()) {
        None => {
            assert(edit_views(out@) =~= start + field_edit(d@, base@, ptr@));
        },
        Some(v) => {
            if parse_url(v.as_str()).is_ok() {
                assert(edit_views(out@) =~= start + field_edit(d@, base@, ptr@));
                return;
            }
            let vc = chars_of(v.as_str());
            if !starts_with_str(vc.as_slice(), "/") {
                assert(edit_views(out@) =~= start + field_edit(d@, base@, ptr@));
                return;
            }
            match join_url(base, v.as_str()) {
                Ok(a) => {
                    let ghost p = ptr@;
                    let ghost av = a@;
                    out.push((ptr, a));
                    assert(edit_views(out@) =~= start.push((p, av)));
                    assert(edit_views(out@) =~= start + field_edit(d@, base@, p));
                },
                Err(_) => {
                    assert(edit_views(out@) =~= start + field_edit(d@, base@, ptr@));
                },
            }
        },
    }
}

/// Appends the edits of the flow at a pointer.
fn push_flow_edits(d: &str, base: &str, fp: &str, out: &mut Vec<(String, String)>)
    ensures
        edit_views(final(out)@) == edit_views(old(out)@) + flow_edits(d@, base@, fp@),
{
    let ghost start = edit_views(out@);
    push_field_edit(d, base, concat2(fp, "/authorizationUrl"), out);
    push_field_edit(d, base, concat2(fp, "/tokenUrl"), out);
    push_field_edit(d, base, concat2(fp, "/refreshUrl"), out);
    assert(edit_views(out@) =~= start + flow_edits(d@, base@, fp@));
}

/// Appends the edits of the scheme at a pointer.
fn push_scheme_edits(d: &str, base: &str, sp: &str, out: &mut Vec<(String, String)>)
    ensures
        edit_views(final(out)@) == edit_views(old(out)@) + scheme_edits(d@, base@, sp@),
{
    let ghost start = edit_views(out@);
    let tp = concat2(sp, "/type");
    let kind = text_at(d, tp.as_str());
    let is_oauth2 = match &kind {
        Some(t) => crate::text::str_eq(t.as_str(), "oauth2"),
        None => false,
    };
    let is_oidc = match &kind {
        Some(t) => crate::text::str_eq(t.as_str(), "openIdConnect"),
        None => false,
    };
    if is_oauth2 {
        let flp = concat2(sp, "/flows");
        match keys_at(d, flp.as_str()) {
            None => {
                assert(edit_views(out@) =~= start + scheme_edits(d@, base@, sp@));
            },
            Some(fs) => {
                let ghost fsv = crate::text::strs(fs@);
                let mut i: usize = 0;
                while i < fs.len()
                    invariant
                        i <= fs@.len(),
                        fsv == crate::text::strs(fs@),
                        edit_views(out@) == start + flows_edits(d@, base@, sp@, fsv.take(i as int)),
                    decreases fs@.len() - i,
                {
                    assert(fsv.take(i + 1).drop_last() =~= fsv.take(i as int));
                    assert(fsv.take(i + 1).last() == fs@[i as int]@);
                    let tok = pointer_token_exec(fs[i].as_str());
                    let fp = crate::text::concat3(sp, "/flows/", tok.as_str());
                    push_flow_edits(d, base, fp.as_str(), out);
                    i = i + 1;
                }
                assert(fsv.take(fs@.len() as int) =~= fsv);
            },
        }
    } else if is_oidc {
        push_field_edit(d, base, concat2(sp, "/openIdConnectUrl"), out);
    } else {
        assert(edit_views(out@) =~= start + scheme_edits(d@, base@, sp@));
    }
}

/// The edits of a document.
fn document_edits_exec(d: &str, base: &str) -> (r: Vec<(String, String)>)
    ensures
        edit_views(r@) == document_edits(d@, base@),
{
    let mut out: Vec<(String, String)> = Vec::new();
    match keys_at(d, "/components/securitySchemes") {
        None => {
            assert(edit_views(out@) =~= document_edits(d@, base@));
        },
        Some(ks) => {
            let ghost ksv = crate::text::strs(ks@);
            let mut i: usize = 0;
            assert(edit_views(out@) =~= schemes_edits(d@, base@, ksv.take(0)));
            while i < ks.len()
                invariant
                    i <= ks@.len(),
                    ksv == crate::text::strs(ks@),
                    edit_views(out@) == schemes_edits(d@, base@, ksv.take(i as int)),
                decreases ks@.len() - i,
            {
                assert(ksv.take(i + 1).drop_last() =~= ksv.take(i as int));
                assert(ksv.take(i + 1).last() == ks@[i as int]@);
                let tok = pointer_token_exec(ks[i].as_str());
                let sp = concat2("/components/securitySchemes/", tok.as_str());
                push_scheme_edits(d, base, sp.as_str(), &mut out);
                i = i + 1;
            }
            assert(ksv.take(ks@.len() as int) =~= ksv);
        },
    }
    out
}

/// Makes the relative OAuth and OpenID Connect URLs of a document absolute
/// against its first server (see [`oauth_rewrite`]).
pub fn sanitize_relative_oauth_urls(content: &str) -> (r: Option<String>)
    ensures
        match oauth_rewrite(content@) {
            Some(t) => r matches Some(x) && x@ == t,
            None => r is None,
        },
{
    let d = match read_document(content) {
        None => return None,
        Some(d) => d,
    };
    let base = match array_len_at(d.as_str(), "/servers") {
        Some(n) => if n > 0 {
            text_at(d.as_str(), "/servers/0/url")
        } else {
            None
        },
        None => None,
    };
    let base = match base {
        None => return None,
        Some(b) => b,
    };
    if parse_url(base.as_str()).is_err() {
        return None;
    }
    let edits = document_edits_exec(d.as_str(), base.as_str());
    if edits.len() == 0 {
        return None;
    }
    let ghost ev = edit_views(edits@);
    let ghost dv = d@;
    assert(oauth_rewrite(content@) == apply_edits(dv, ev));
    let mut cur = d;
    let mut i: usize = 0;
    while i < edits.len()
        invariant
            i <= edits@.len(),
            ev == edit_views(edits@),
            oauth_rewrite(content@) == apply_edits(dv, ev),
            apply_edits(dv, ev.take(i as int)) == Some(cur@),
        decreases edits@.len() - i,
    {
        assert(ev.take(i + 1).drop_last() =~= ev.take(i as int));
        assert(ev.take(i + 1).last() == (edits@[i as int].0@, edits@[i as int].1@));
        match with_text_at(cur.as_str(), edits[i].0.as_str(), edits[i].1.as_str()) {
            None => {
                proof {
                    lemma_apply_none(dv, ev, i as int + 1);
                    assert(ev.take(edits@.len() as int) =~= ev);
                }
                return None;
            },
            Some(t) => {
                cur = t;
            },
        }
        i = i + 1;
    }
    assert(ev.take(edits@.len() as int) =~= ev);
    Some(cur)
}

/// Once an edit cannot be applied, the later ones are not either.
proof fn lemma_apply_none(d: Seq<char>, es: Seq<(Seq<char>, Seq<char>)>, i: int)
    requires
        0 <= i <= es.len(),
        apply_edits(d, es.take(i)) is None,
    ensures
        apply_edits(d, es) is None,
    decreases es.len() - i,
{
    if i < es.len() {
        assert(es.take(i + 1).drop_last() =~= es.take(i));
        lemma_apply_none(d, es, i + 1);
    } else {
        assert(es.take(i) =~= es);
    }
}

} // verus!
