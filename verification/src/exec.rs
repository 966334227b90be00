//! `apix call`: from a route and command-line pieces to the request to
//! send. The request itself, reading a body from stdin or a file, and the
//! directory listings are the caller's.

use vstd::prelude::*;
use crate::error::ApixError;
use crate::paths::{file_name, parent_dir};
use crate::text::{
    chars_eq, chars_of, contains_string, extend_chars, extend_str, has_char, owned, replace_all,
    replace_chars, split_once, split_once_chars, starts_with_str, str_eq, string_of, strs, trim,
    trim_chars, views,
};

verus! {

// ---------------------------------------------------------------------------
// Command-line pieces
// ---------------------------------------------------------------------------

/// The message for a `--<flag>` value without `=`.
pub open spec fn kv_error(flag: Seq<char>, input: Seq<char>) -> Seq<char> {
    "Invalid --"@ + flag + " value: "@ + input + ". Expected key=value"@
}

/// Splits a `key=value` argument at its first `=`; `flag` names the option
/// in the error.
pub fn split_kv(input: &str, flag: &str) -> (r: Result<(String, String), ApixError>)
    ensures
        match split_once(input@, '=') {
            Some((k, v)) => r matches Ok((a, b)) && a@ == k && b@ == v,
            None => r matches Err(ApixError::Parse(m)) && m@ == kv_error(flag@, input@),
        },
{
    let cs = chars_of(input);
    match split_once_chars(cs.as_slice(), '=') {
        Some((k, v)) => Ok((string_of(k.as_slice()), string_of(v.as_slice()))),
        None => {
            let mut m: Vec<char> = Vec::new();
            extend_str(&mut m, "Invalid --");
            extend_str(&mut m, flag);
            extend_str(&mut m, " value: ");
            extend_str(&mut m, input);
            extend_str(&mut m, ". Expected key=value");
            Err(ApixError::Parse(string_of(m.as_slice())))
        },
    }
}

/// A `key=value` argument splits back into its key and value when the key
/// holds no `=` (the value may).
pub proof fn law_key_value_round_trip(key: Seq<char>, value: Seq<char>)
    requires
        !key.contains('='),
    ensures
        split_once(key + seq!['='] + value, '=') == Some((key, value)),
{
    crate::text::lemma_split_once_join(key, value, '=');
}

/// The message for a header without `:`.
pub open spec fn header_error(input: Seq<char>) -> Seq<char> {
    "Invalid header "@ + input + ". Expected 'Key: Value'"@
}

/// Splits a `Key: Value` header at its first `:`, both sides trimmed.
pub fn split_header(input: &str) -> (r: Result<(String, String), ApixError>)
    ensures
        match split_once(input@, ':') {
            Some((k, v)) => r matches Ok((a, b)) && a@ == trim(k) && b@ == trim(v),
            None => r matches Err(ApixError::Parse(m)) && m@ == header_error(input@),
        },
{
    let cs = chars_of(input);
    match split_once_chars(cs.as_slice(), ':') {
        Some((k, v)) => {
            let kt = trim_chars(k.as_slice());
            let vt = trim_chars(v.as_slice());
            Ok((string_of(kt.as_slice()), string_of(vt.as_slice())))
        },
        None => {
            let mut m: Vec<char> = Vec::new();
            extend_str(&mut m, "Invalid header ");
            extend_str(&mut m, input);
            extend_str(&mut m, ". Expected 'Key: Value'");
            Err(ApixError::Parse(string_of(m.as_slice())))
        },
    }
}

/// Where the request body comes from.
#[derive(Debug, Clone, PartialEq, Eq)]
pub enum BodySource {
    /// No body.
    Absent,
    /// `@-`: standard input.
    Stdin,
    /// `@<path>`: the contents of a file.
    File(String),
    /// The text itself.
    Inline(String),
}

/// Reads the `--data` argument: `@-` is standard input, `@<path>` a file,
/// anything else the body itself.
pub fn read_body(data: Option<&str>) -> (r: BodySource)
    ensures
        match data {
            None => r == BodySource::Absent,
            Some(d) => if d@ == "@-"@ {
                r == BodySource::Stdin
            } else if d@.len() > 0 && d@[0] == '@' {
                r matches BodySource::File(p) && p@ == d@.drop_first()
            } else {
                r matches BodySource::Inline(b) && b@ == d@
            },
        },
{
    match data {
        None => BodySource::Absent,
        Some(d) => {
            if str_eq(d, "@-") {
                return BodySource::Stdin;
            }
            let cs = chars_of(d);
            if cs.len() > 0 && cs[0] == '@' {
                let rest = crate::text::sub_chars(cs.as_slice(), 1, cs.len());
                assert(rest@ =~= d@.drop_first());
                BodySource::File(string_of(rest.as_slice()))
            } else {
                BodySource::Inline(owned(d))
            }
        },
    }
}

// ---------------------------------------------------------------------------
// Path parameters
// ---------------------------------------------------------------------------

/// The parameters as (key, value) pairs.
pub open spec fn pair_views(v: Seq<(String, String)>) -> Seq<(Seq<char>, Seq<char>)> {
    v.map_values(|p: (String, String)| (p.0@, p.1@))
}

/// A key set to a value (`HashMap::insert`): its value replaced where the
/// key is there, else the pair added at the end.
pub open spec fn assoc_set(
    s: Seq<(Seq<char>, Seq<char>)>,
    k: Seq<char>,
    v: Seq<char>,
) -> Seq<(Seq<char>, Seq<char>)>
    decreases s.len(),
{
    if s.len() == 0 {
        seq![(k, v)]
    } else if s[0].0 == k {
        s.update(0, (k, v))
    } else {
        seq![s[0]] + assoc_set(s.drop_first(), k, v)
    }
}

/// Sets a key to a value.
fn assoc_insert(params: &mut Vec<(String, String)>, k: String, v: String)
    ensures
        pair_views(final(params)@) == assoc_set(pair_views(old(params)@), k@, v@),
{
    let ghost s = pair_views(params@);
    let mut j: usize = 0;
    assert(s.skip(0) =~= s);
    assert(s.take(0) + assoc_set(s.skip(0), k@, v@) =~= assoc_set(s, k@, v@));
    while j < params.len()
        invariant
            j <= params@.len(),
            s == pair_views(params@),
            s == pair_views(old(params)@),
            forall|i: int| 0 <= i < j ==> (#[trigger] s[i]).0 != k@,
            assoc_set(s, k@, v@) == s.take(j as int) + assoc_set(s.skip(j as int), k@, v@),
        decreases params@.len() - j,
    {
        assert(s[j as int] == (params@[j as int].0@, params@[j as int].1@));
        let ghost rest = s.skip(j as int);
        assert(rest[0] == s[j as int]);
        assert(rest.drop_first() =~= s.skip(j + 1));
        if str_eq(params[j].0.as_str(), k.as_str()) {
            let ghost kv = (k@, v@);
            params.set(j, (k, v));
            assert(assoc_set(rest, kv.0, kv.1) =~= rest.update(0, kv));
            assert(pair_views(params@) =~= s.take(j as int) + rest.update(0, kv));
            return;
        }
        assert(s.take(j + 1) =~= s.take(j as int) + seq![s[j as int]]);
        assert(assoc_set(s, k@, v@) =~= s.take(j + 1) + assoc_set(s.skip(j + 1), k@, v@));
        j = j + 1;
    }
    let ghost kv = (k@, v@);
    params.push((k, v));
    assert(s.skip(j as int) =~= Seq::<(Seq<char>, Seq<char>)>::empty());
    assert(s.take(j as int) =~= s);
    assert(pair_views(params@) =~= s.push(kv));
}

/// The path parameters after `--param key=value` arguments are applied in
/// turn to those taken from the route (each split at its first `=`); the
/// first malformed argument is an error.
pub open spec fn params_after(
    captured: Seq<(Seq<char>, Seq<char>)>,
    args: Seq<Seq<char>>,
) -> Result<Seq<(Seq<char>, Seq<char>)>, Seq<char>>
    decreases args.len(),
{
    if args.len() == 0 {
        Ok(captured)
    } else {
        match params_after(captured, args.drop_last()) {
            Err(m) => Err(m),
            Ok(s) => match split_once(args.last(), '=') {
                Some((k, v)) => Ok(assoc_set(s, k, v)),
                None => Err(kv_error("param"@, args.last())),
            },
        }
    }
}

/// Applies `--param` arguments to the captured path parameters.
pub fn call_params(captured: Vec<(String, String)>, args: &[String]) -> (r: Result<
    Vec<(String, String)>,
    ApixError,
>)
    ensures
        match params_after(pair_views(captured@), strs(args@)) {
            Ok(s) => r matches Ok(v) && pair_views(v@) == s,
            Err(m) => r matches Err(ApixError::Parse(x)) && x@ == m,
        },
{
    let mut params = captured;
    let ghost start = pair_views(params@);
    let mut i: usize = 0;
    while i < args.len()
        invariant
            i <= args@.len(),
            start == pair_views(captured@),
            params_after(start, strs(args@).take(i as int)) == Ok::<
                Seq<(Seq<char>, Seq<char>)>,
                Seq<char>,
            >(pair_views(params@)),
        decreases args@.len() - i,
    {
        assert(strs(args@).take(i + 1).drop_last() =~= strs(args@).take(i as int));
        assert(strs(args@).take(i + 1).last() == args@[i as int]@);
        match split_kv(args[i].as_str(), "param") {
            Ok((k, v)) => {
                assoc_insert(&mut params, k, v);
            },
            Err(e) => {
                assert(params_after(start, strs(args@).take(i + 1)) == Err::<
                    Seq<(Seq<char>, Seq<char>)>,
                    Seq<char>,
                >(kv_error("param"@, args@[i as int]@)));
                proof {
                    lemma_params_after_err(start, strs(args@), i as int + 1);
                }
                return Err(e);
            },
        }
        i = i + 1;
    }
    assert(strs(args@).take(args@.len() as int) =~= strs(args@));
    Ok(params)
}

/// Once an argument is malformed, later ones do not change the error.
proof fn lemma_params_after_err(captured: Seq<(Seq<char>, Seq<char>)>, args: Seq<Seq<char>>, i: int)
    requires
        0 < i <= args.len(),
        params_after(captured, args.take(i)) is Err,
    ensures
        params_after(captured, args) == params_after(captured, args.take(i)),
    decreases args.len() - i,
{
    if i < args.len() {
        assert(args.take(i + 1).drop_last() =~= args.take(i));
        lemma_params_after_err(captured, args, i + 1);
    } else {
        assert(args.take(i) =~= args);
    }
}

/// The URL with every `{key}` placeholder replaced by its value, in turn.
pub open spec fn substituted(url: Seq<char>, params: Seq<(Seq<char>, Seq<char>)>) -> Seq<char>
    decreases params.len(),
{
    if params.len() == 0 {
        url
    } else {
        let p = params.last();
        replace_all(substituted(url, params.drop_last()), seq!['{'] + p.0 + seq!['}'], p.1)
    }
}

/// Fills the path parameters into a URL; a URL still holding both `{` and
/// `}` afterwards has unresolved parameters, an error.
pub fn substitute_params(url: &str, params: &[(String, String)]) -> (r: Result<String, ApixError>)
    ensures
        ({
            let u = substituted(url@, pair_views(params@));
            if u.contains('{') && u.contains('}') {
                r matches Err(ApixError::Parse(m)) && m@ == "Unresolved path parameters in URL: "@
                    + u
            } else {
                r matches Ok(x) && x@ == u
            }
        }),
{
    let mut cur = chars_of(url);
    let mut i: usize = 0;
    while i < params.len()
        invariant
            i <= params@.len(),
            cur@ == substituted(url@, pair_views(params@).take(i as int)),
        decreases params@.len() - i,
    {
        assert(pair_views(params@).take(i + 1).drop_last() =~= pair_views(params@).take(i as int));
        assert(pair_views(params@).take(i + 1).last() == (params@[i as int].0@, params@[i as int].1@));
        let mut ph: Vec<char> = Vec::new();
        ph.push('{');
        extend_str(&mut ph, params[i].0.as_str());
        ph.push('}');
        assert(ph@ =~= seq!['{'] + params@[i as int].0@ + seq!['}']);
        let val = chars_of(params[i].1.as_str());
        cur = replace_chars(cur.as_slice(), ph.as_slice(), val.as_slice());
        i = i + 1;
    }
    assert(pair_views(params@).take(params@.len() as int) =~= pair_views(params@));
    if has_char(cur.as_slice(), '{') && has_char(cur.as_slice(), '}') {
        let mut m: Vec<char> = Vec::new();
        extend_str(&mut m, "Unresolved path parameters in URL: ");
        extend_chars(&mut m, cur.as_slice());
        return Err(ApixError::Parse(string_of(m.as_slice())));
    }
    Ok(string_of(cur.as_slice()))
}

/// A URL template as pieces: `(true, key)` is the placeholder `{key}`,
/// `(false, text)` is literal text.
pub open spec fn template_text(parts: Seq<(bool, Seq<char>)>) -> Seq<char>
    decreases parts.len(),
{
    if parts.len() == 0 {
        Seq::empty()
    } else {
        piece_text(parts[0]) + template_text(parts.drop_first())
    }
}

/// The text of one piece of a template.
pub open spec fn piece_text(p: (bool, Seq<char>)) -> Seq<char> {
    if p.0 {
        seq!['{'] + p.1 + seq!['}']
    } else {
        p.1
    }
}

/// A text with neither `{` nor `}`.
pub open spec fn braceless(s: Seq<char>) -> bool {
    !s.contains('{') && !s.contains('}')
}

/// Literal pieces hold no `{`; placeholder keys hold no brace.
pub open spec fn template_pieces_ok(parts: Seq<(bool, Seq<char>)>) -> bool {
    forall|i: int|
        0 <= i < parts.len() ==> !(#[trigger] parts[i]).1.contains('{') && (parts[i].0
            ==> !parts[i].1.contains('}'))
}

/// The pieces with the placeholder `{kv.0}` filled in by `kv.1`.
spec fn fill_pieces(parts: Seq<(bool, Seq<char>)>, kv: (Seq<char>, Seq<char>)) -> Seq<
    (bool, Seq<char>),
> {
    parts.map_values(
        |p: (bool, Seq<char>)|
            if p.0 && p.1 == kv.0 {
                (false, kv.1)
            } else {
                p
            },
    )
}

/// The pieces with each parameter filled in, in turn.
spec fn fill_all_pieces(parts: Seq<(bool, Seq<char>)>, params: Seq<(Seq<char>, Seq<char>)>) -> Seq<
    (bool, Seq<char>),
>
    decreases params.len(),
{
    if params.len() == 0 {
        parts
    } else {
        fill_pieces(fill_all_pieces(parts, params.drop_last()), params.last())
    }
}

/// Text without `{` passes a `{`-led pattern's replacement unchanged.
proof fn lemma_replace_skips_text(t: Seq<char>, rest: Seq<char>, from: Seq<char>, to: Seq<char>)
    requires
        from.len() > 0,
        from[0] == '{',
        !t.contains('{'),
    ensures
        replace_all(t + rest, from, to) == t + replace_all(rest, from, to),
    decreases t.len(),
{
    if t.len() > 0 {
        let s = t + rest;
        assert(s[0] == t[0]);
        assert(!from.is_prefix_of(s));
        assert(s.drop_first() =~= t.drop_first() + rest);
        assert(!t.drop_first().contains('{')) by {
            if t.drop_first().contains('{') {
                let i = choose|i: int| 0 <= i < t.drop_first().len() && t.drop_first()[i] == '{';
                assert(t[i + 1] == '{');
            }
        }
        lemma_replace_skips_text(t.drop_first(), rest, from, to);
        assert(t =~= seq![t[0]] + t.drop_first());
    } else {
        assert(t + rest =~= rest);
    }
}

/// Replacing `{key}` at a placeholder `{k}`: it is filled in exactly when
/// `k` is `key`.
proof fn lemma_replace_at_placeholder(k: Seq<char>, key: Seq<char>, rest: Seq<char>, to: Seq<char>)
    requires
        braceless(k),
        !key.contains('}'),
    ensures
        replace_all(seq!['{'] + k + seq!['}'] + rest, seq!['{'] + key + seq!['}'], to) == (if k
            == key {
            to
        } else {
            seq!['{'] + k + seq!['}']
        }) + replace_all(rest, seq!['{'] + key + seq!['}'], to),
{
    let from = seq!['{'] + key + seq!['}'];
    let ph = seq!['{'] + k + seq!['}'];
    let s = ph + rest;
    if k == key {
        assert(s.take(from.len() as int) =~= from);
        assert(from.is_prefix_of(s));
        assert(s.skip(from.len() as int) =~= rest);
    } else {
        if from.is_prefix_of(s) {
            let a: int = key.len() as int;
            let b: int = k.len() as int;
            if a < b {
                assert(from[a + 1] == s[a + 1]);
                assert(s[a + 1] == k[a]);
            } else if a > b {
                assert(from[b + 1] == s[b + 1]);
                assert(from[b + 1] == key[b]);
            } else {
                assert forall|i: int| 0 <= i < k.len() implies k[i] == key[i] by {
                    assert(from[i + 1] == s[i + 1]);
                }
                assert(k =~= key);
            }
        }
        let tail = k + seq!['}'];
        assert(s.drop_first() =~= tail + rest);
        assert(!tail.contains('{')) by {
            if tail.contains('{') {
                let i = choose|i: int| 0 <= i < tail.len() && tail[i] == '{';
                if i < k.len() {
                    assert(k[i] == '{');
                }
            }
        }
        lemma_replace_skips_text(tail, rest, from, to);
        assert(ph =~= seq!['{'] + tail);
        assert(s =~= ph + rest);
    }
}

/// One substitution fills in the matching placeholders of a template.
proof fn lemma_fill_one(parts: Seq<(bool, Seq<char>)>, kv: (Seq<char>, Seq<char>))
    requires
        template_pieces_ok(parts),
        braceless(kv.0),
        braceless(kv.1),
    ensures
        replace_all(template_text(parts), seq!['{'] + kv.0 + seq!['}'], kv.1) == template_text(
            fill_pieces(parts, kv),
        ),
        template_pieces_ok(fill_pieces(parts, kv)),
    decreases parts.len(),
{
    let from = seq!['{'] + kv.0 + seq!['}'];
    let filled = fill_pieces(parts, kv);
    if parts.len() > 0 {
        let rest = parts.drop_first();
        assert forall|i: int| 0 <= i < rest.len() implies !(#[trigger] rest[i]).1.contains('{') && (
        rest[i].0 ==> !rest[i].1.contains('}')) by {
            assert(rest[i] == parts[i + 1]);
        }
        lemma_fill_one(rest, kv);
        assert(filled.drop_first() =~= fill_pieces(rest, kv));
        let p = parts[0];
        assert(!p.1.contains('{'));
        if p.0 {
            lemma_replace_at_placeholder(p.1, kv.0, template_text(rest), kv.1);
        } else {
            lemma_replace_skips_text(p.1, template_text(rest), from, kv.1);
        }
        assert(template_text(filled) == piece_text(filled[0]) + template_text(filled.drop_first()));
    } else {
        assert(filled.len() == 0);
    }
}

/// Substituting the parameters in turn fills in the template.
proof fn lemma_fill_all(parts: Seq<(bool, Seq<char>)>, params: Seq<(Seq<char>, Seq<char>)>)
    requires
        template_pieces_ok(parts),
        forall|j: int| 0 <= j < params.len() ==> braceless((#[trigger] params[j]).0) && braceless(params[j].1),
    ensures
        substituted(template_text(parts), params) == template_text(fill_all_pieces(parts, params)),
        template_pieces_ok(fill_all_pieces(parts, params)),
        fill_all_pieces(parts, params).len() == parts.len(),
        forall|i: int| #![trigger fill_all_pieces(parts, params)[i]]
            0 <= i < parts.len() && fill_all_pieces(parts, params)[i].0 ==> parts[i].0
                && fill_all_pieces(parts, params)[i].1 == parts[i].1 && forall|j: int|
                0 <= j < params.len() ==> (#[trigger] params[j]).0 != parts[i].1,
    decreases params.len(),
{
    if params.len() > 0 {
        let init = params.drop_last();
        assert forall|j: int| 0 <= j < init.len() implies braceless((#[trigger] init[j]).0) && braceless(init[j].1) by {
            assert(init[j] == params[j]);
        }
        lemma_fill_all(parts, init);
        let prev = fill_all_pieces(parts, init);
        let kv = params.last();
        assert(kv == params[params.len() - 1]);
        lemma_fill_one(prev, kv);
        let now = fill_all_pieces(parts, params);
        assert forall|i: int| #![trigger now[i]]
            0 <= i < parts.len() && now[i].0 implies parts[i].0 && now[i].1 == parts[i].1 && forall|j: int|
                0 <= j < params.len() ==> (#[trigger] params[j]).0 != parts[i].1 by {
            assert(now[i] == (if prev[i].0 && prev[i].1 == kv.0 { (false, kv.1) } else { prev[i] }));
            assert forall|j: int| 0 <= j < params.len() implies (#[trigger] params[j]).0 != parts[i].1 by {
                if j < init.len() {
                    assert(params[j] == init[j]);
                }
            }
        }
    }
}

/// Literal pieces without `{` make a text without `{`.
proof fn lemma_literal_template(parts: Seq<(bool, Seq<char>)>)
    requires
        forall|i: int| 0 <= i < parts.len() ==> !(#[trigger] parts[i]).0 && !parts[i].1.contains('{'),
    ensures
        !template_text(parts).contains('{'),
    decreases parts.len(),
{
    if parts.len() > 0 {
        let rest = parts.drop_first();
        assert forall|i: int| 0 <= i < rest.len() implies !(#[trigger] rest[i]).0 && !rest[i].1.contains('{') by {
            assert(rest[i] == parts[i + 1]);
        }
        lemma_literal_template(rest);
        crate::text::lemma_concat_lacks(parts[0].1, template_text(rest), '{');
    }
}

/// A URL made of literal text and `{key}` placeholders, where each
/// placeholder's key is among the parameters and no key or value holds a
/// brace, is left without `{` by the substitution: every placeholder is
/// filled in, so `substitute_params` gives `Ok`.
pub proof fn law_every_placeholder_filled(
    parts: Seq<(bool, Seq<char>)>,
    params: Seq<(Seq<char>, Seq<char>)>,
)
    requires
        template_pieces_ok(parts),
        forall|j: int| 0 <= j < params.len() ==> braceless((#[trigger] params[j]).0) && braceless(params[j].1),
        forall|i: int| 0 <= i < parts.len() && (#[trigger] parts[i]).0 ==> exists|j: int|
            0 <= j < params.len() && (#[trigger] params[j]).0 == parts[i].1,
    ensures
        !substituted(template_text(parts), params).contains('{'),
{
    lemma_fill_all(parts, params);
    let filled = fill_all_pieces(parts, params);
    assert forall|i: int| 0 <= i < filled.len() implies !(#[trigger] filled[i]).0 && !filled[i].1.contains('{') by {
        if filled[i].0 {
            assert(parts[i].0);
            let j = choose|j: int| 0 <= j < params.len() && (#[trigger] params[j]).0 == parts[i].1;
        }
    }
    lemma_literal_template(filled);
}

// ---------------------------------------------------------------------------
// Query strings
// ---------------------------------------------------------------------------

/// What `url::Url::parse` gives for a text: the URL in the url crate's
/// normalised serialisation (`Url::as_str`), or the parse error's message.
pub uninterp spec fn url_parse(s: Seq<char>) -> Result<Seq<char>, Seq<char>>;

/// The serialisation of a URL after `query_pairs_mut().append_pair(k, v)`
/// on the URL that `url::Url::parse` reads from `url`.
pub uninterp spec fn url_append_pair(url: Seq<char>, k: Seq<char>, v: Seq<char>) -> Seq<char>;

/// Parses a URL with the url crate (`Url::parse`), giving its serialisation
/// (`Url::as_str`) or the error's message. The contract names the outcome;
/// which texts parse, and how they are normalised, is the url crate's.
#[verifier::external_body]
pub(crate) fn parse_url(s: &str) -> (r: Result<String, String>)
    ensures
        match url_parse(s@) {
            Ok(u) => r matches Ok(x) && x@ == u,
            Err(e) => r matches Err(x) && x@ == e,
        },
{
    match url::Url::parse(s) {
        Ok(u) => Ok(u.as_str().to_string()),
        Err(e) => Err(e.to_string()),
    }
}

/// Appends a query pair to a URL with the url crate: parses it
/// (`Url::parse`), calls `query_pairs_mut().append_pair(k, v)` and gives
/// the serialisation; a text that does not parse comes back as it is. The
/// contract names the result as a function of the three texts; the
/// percent-encoding is the url crate's.
#[verifier::external_body]
fn append_query_pair(url: &str, k: &str, v: &str) -> (r: String)
    ensures
        r@ == url_append_pair(url@, k@, v@),
{
    match url::Url::parse(url) {
        Ok(mut u) => {
            u.query_pairs_mut().append_pair(k, v);
            u.as_str().to_string()
        },
        Err(_) => url.to_string(),
    }
}

/// The URL after the `--query key=value` pairs are appended in turn to the
/// parsed URL `u`; the first malformed pair is an error.
pub open spec fn pairs_applied(u: Seq<char>, query: Seq<Seq<char>>) -> Result<Seq<char>, Seq<char>>
    decreases query.len(),
{
    if query.len() == 0 {
        Ok(u)
    } else {
        match pairs_applied(u, query.drop_last()) {
            Err(m) => Err(m),
            Ok(x) => match split_once(query.last(), '=') {
                Some((k, v)) => Ok(url_append_pair(x, k, v)),
                None => Err(kv_error("query"@, query.last())),
            },
        }
    }
}

/// The URL with the query pairs: unchanged without any; else the URL must
/// parse, and each pair is appended.
pub open spec fn query_applied(url: Seq<char>, query: Seq<Seq<char>>) -> Result<Seq<char>, Seq<char>> {
    if query.len() == 0 {
        Ok(url)
    } else {
        match url_parse(url) {
            Err(e) => Err("Invalid URL "@ + url + ": "@ + e),
            Ok(u) => pairs_applied(u, query),
        }
    }
}

proof fn lemma_pairs_applied_err(u: Seq<char>, q: Seq<Seq<char>>, i: int)
    requires
        0 < i <= q.len(),
        pairs_applied(u, q.take(i)) is Err,
    ensures
        pairs_applied(u, q) == pairs_applied(u, q.take(i)),
    decreases q.len() - i,
{
    if i < q.len() {
        assert(q.take(i + 1).drop_last() =~= q.take(i));
        lemma_pairs_applied_err(u, q, i + 1);
    } else {
        assert(q.take(i) =~= q);
    }
}

/// Appends `--query key=value` pairs to a URL.
pub fn apply_query(url: String, query: &[String]) -> (r: Result<String, ApixError>)
    ensures
        match query_applied(url@, strs(query@)) {
            Ok(u) => r matches Ok(x) && x@ == u,
            Err(m) => r matches Err(ApixError::Parse(x)) && x@ == m,
        },
{
    if query.len() == 0 {
        return Ok(url);
    }
    let mut cur = match parse_url(url.as_str()) {
        Ok(u) => u,
        Err(e) => {
            let mut m: Vec<char> = Vec::new();
            extend_str(&mut m, "Invalid URL ");
            extend_str(&mut m, url.as_str());
            extend_str(&mut m, ": ");
            extend_str(&mut m, e.as_str());
            return Err(ApixError::Parse(string_of(m.as_slice())));
        },
    };
    let ghost u0 = cur@;
    let mut i: usize = 0;
    while i < query.len()
        invariant
            i <= query@.len(),
            url_parse(url@) == Ok::<Seq<char>, Seq<char>>(u0),
            pairs_applied(u0, strs(query@).take(i as int)) == Ok::<Seq<char>, Seq<char>>(cur@),
        decreases query@.len() - i,
    {
        assert(strs(query@).take(i + 1).drop_last() =~= strs(query@).take(i as int));
        assert(strs(query@).take(i + 1).last() == query@[i as int]@);
        match split_kv(query[i].as_str(), "query") {
            Ok((k, v)) => {
                cur = append_query_pair(cur.as_str(), k.as_str(), v.as_str());
            },
            Err(e) => {
                proof {
                    lemma_pairs_applied_err(u0, strs(query@), i as int + 1);
                }
                return Err(e);
            },
        }
        i = i + 1;
    }
    assert(strs(query@).take(query@.len() as int) =~= strs(query@));
    Ok(cur)
}

// ---------------------------------------------------------------------------
// Finding the route file, with path parameters
// ---------------------------------------------------------------------------

/// A version directory of one source as listed: its directories and its
/// markdown files, as paths relative to it, directories' children in the
/// order the file system lists them.
#[derive(Debug, Clone)]
pub struct SourceTree {
    pub source: String,
    pub dirs: Vec<String>,
    pub files: Vec<String>,
}

/// A route file found for a route with path parameters.
#[derive(Debug, Clone)]
pub struct RouteMatch {
    pub source: String,
    /// The file's path relative to the version directory.
    pub relative: String,
    /// The values taken by `{name}` directories, by name.
    pub params: Vec<(String, String)>,
}

/// A relative path joined with one more name.
pub open spec fn rel_join(cur: Seq<char>, seg: Seq<char>) -> Seq<char> {
    if cur.len() == 0 {
        seg
    } else {
        cur + "/"@ + seg
    }
}

/// Whether a directory name stands for a path parameter: `{name}`.
pub open spec fn is_param_dir(name: Seq<char>) -> bool {
    name.len() > 2 && name[0] == '{' && name.last() == '}'
}

/// `s` without its trailing `c`s (`str::trim_end_matches`).
pub open spec fn strip_suffixes(s: Seq<char>, c: char) -> Seq<char>
    decreases s.len(),
{
    if s.len() > 0 && s.last() == c {
        strip_suffixes(s.drop_last(), c)
    } else {
        s
    }
}

/// The parameter name of a `{name}` directory.
pub open spec fn param_key(name: Seq<char>) -> Seq<char> {
    strip_suffixes(crate::text::strip_prefixes(name, seq!['{']), '}')
}

/// The first parameter directory directly under `cur`, in listing order.
pub open spec fn first_param_child(dirs: Seq<Seq<char>>, cur: Seq<char>) -> Option<Seq<char>>
    decreases dirs.len(),
{
    if dirs.len() == 0 {
        None
    } else if parent_dir(dirs[0]) == cur && is_param_dir(file_name(dirs[0])) {
        Some(dirs[0])
    } else {
        first_param_child(dirs.drop_first(), cur)
    }
}

/// Follows the path segments from directory `cur`: into the directory of
/// the segment's name when there is one, else into the first parameter
/// directory, which takes the segment as its value; `None` when neither is
/// there.
pub open spec fn walk(
    dirs: Seq<Seq<char>>,
    segs: Seq<Seq<char>>,
    cur: Seq<char>,
    captured: Seq<(Seq<char>, Seq<char>)>,
) -> Option<(Seq<char>, Seq<(Seq<char>, Seq<char>)>)>
    decreases segs.len(),
{
    if segs.len() == 0 {
        Some((cur, captured))
    } else {
        let exact = rel_join(cur, segs[0]);
        if dirs.contains(exact) {
            walk(dirs, segs.drop_first(), exact, captured)
        } else {
            match first_param_child(dirs, cur) {
                Some(d) => walk(
                    dirs,
                    segs.drop_first(),
                    d,
                    assoc_set(captured, param_key(file_name(d)), segs[0]),
                ),
                None => None,
            }
        }
    }
}

/// Where a source's tree has the route file: after walking the path
/// segments, the file `<METHOD>.md` must be there.
pub open spec fn tree_match(
    dirs: Seq<Seq<char>>,
    files: Seq<Seq<char>>,
    path: Seq<Seq<char>>,
    method: Seq<char>,
) -> Option<(Seq<char>, Seq<(Seq<char>, Seq<char>)>)> {
    match walk(dirs, path, Seq::empty(), Seq::empty()) {
        Some((cur, cap)) => {
            let f = rel_join(cur, method + ".md"@);
            if files.contains(f) {
                Some((f, cap))
            } else {
                None
            }
        },
        None => None,
    }
}

/// The directory reached from `cur` by following the segments as names.
pub open spec fn joined_path(cur: Seq<char>, segs: Seq<Seq<char>>) -> Seq<char>
    decreases segs.len(),
{
    if segs.len() == 0 {
        cur
    } else {
        joined_path(rel_join(cur, segs[0]), segs.drop_first())
    }
}

/// Where the directory named exactly by the next segment exists, the walk
/// enters it and takes no parameter value for that segment, whatever
/// parameter directories stand beside it.
pub proof fn law_literal_directory_first(
    dirs: Seq<Seq<char>>,
    segs: Seq<Seq<char>>,
    cur: Seq<char>,
    captured: Seq<(Seq<char>, Seq<char>)>,
)
    requires
        segs.len() > 0,
        dirs.contains(rel_join(cur, segs[0])),
    ensures
        walk(dirs, segs, cur, captured) == walk(
            dirs,
            segs.drop_first(),
            rel_join(cur, segs[0]),
            captured,
        ),
{
}

/// Where every directory along the segments exists by name, the walk ends
/// in the directory that the segments name, with no parameter values
/// taken.
pub proof fn law_literal_walk(
    dirs: Seq<Seq<char>>,
    segs: Seq<Seq<char>>,
    cur: Seq<char>,
    captured: Seq<(Seq<char>, Seq<char>)>,
)
    requires
        forall|i: int| 0 <= i < segs.len() ==> dirs.contains(#[trigger] joined_path(cur, segs.take(i + 1))),
    ensures
        walk(dirs, segs, cur, captured) == Some((joined_path(cur, segs), captured)),
    decreases segs.len(),
{
    if segs.len() > 0 {
        let exact = rel_join(cur, segs[0]);
        let rest = segs.drop_first();
        assert(segs.take(1).drop_first() =~= Seq::<Seq<char>>::empty());
        assert(segs.take(1)[0] == segs[0]);
        assert(joined_path(exact, Seq::<Seq<char>>::empty()) == exact);
        assert(joined_path(cur, segs.take(1)) == exact);
        assert forall|i: int| 0 <= i < rest.len() implies dirs.contains(#[trigger] joined_path(exact, rest.take(i + 1))) by {
            assert(segs.take(i + 2).drop_first() =~= rest.take(i + 1));
            assert(segs.take(i + 2)[0] == segs[0]);
            assert(joined_path(cur, segs.take(i + 1 + 1)) == joined_path(exact, rest.take(i + 1)));
        }
        law_literal_walk(dirs, rest, exact, captured);
    }
}

/// A route whose every directory exists by name, and whose method file is
/// there, is matched to that file, with no parameter values.
pub proof fn law_literal_route_matched(
    dirs: Seq<Seq<char>>,
    files: Seq<Seq<char>>,
    path: Seq<Seq<char>>,
    method: Seq<char>,
)
    requires
        forall|i: int| 0 <= i < path.len() ==> dirs.contains(#[trigger] joined_path(Seq::empty(), path.take(i + 1))),
        files.contains(rel_join(joined_path(Seq::empty(), path), method + ".md"@)),
    ensures
        tree_match(dirs, files, path, method) == Some((
            rel_join(joined_path(Seq::empty(), path), method + ".md"@),
            Seq::<(Seq<char>, Seq<char>)>::empty(),
        )),
{
    law_literal_walk(dirs, path, Seq::empty(), Seq::empty());
}

/// The matches over the sources, in order, as (source, file, parameters).
pub open spec fn route_matches(
    trees: Seq<SourceTree>,
    path: Seq<Seq<char>>,
    method: Seq<char>,
) -> Seq<(Seq<char>, Seq<char>, Seq<(Seq<char>, Seq<char>)>)>
    decreases trees.len(),
{
    if trees.len() == 0 {
        Seq::empty()
    } else {
        let prev = route_matches(trees.drop_last(), path, method);
        let t = trees.last();
        match tree_match(strs(t.dirs@), strs(t.files@), path, method) {
            Some((f, cap)) => prev.push((t.source@, f, cap)),
            None => prev,
        }
    }
}

/// The ambiguity message of a route found in several sources.
pub open spec fn ambiguous_route(route: Seq<char>) -> Seq<char> {
    "Route `"@ + route + "` exists in multiple sources. Use --source or source-prefixed route."@
}

/// `strip_suffixes` of a character slice.
fn strip_suffixes_chars(s: &[char], c: char) -> (r: Vec<char>)
    ensures
        r@ == strip_suffixes(s@, c),
{
    let mut j = s.len();
    assert(s@.take(j as int) =~= s@);
    while j > 0 && s[j - 1] == c
        invariant
            j <= s@.len(),
            strip_suffixes(s@, c) == strip_suffixes(s@.take(j as int), c),
        decreases j,
    {
        assert(s@.take(j as int).drop_last() =~= s@.take(j - 1));
        j = j - 1;
    }
    crate::text::sub_chars(s, 0, j)
}

/// The first parameter directory under `cur`.
fn find_param_dir(dirs: &[String], cur: &[char]) -> (r: Option<String>)
    ensures
        match first_param_child(strs(dirs@), cur@) {
            Some(d) => r matches Some(x) && x@ == d,
            None => r is None,
        },
{
    let mut i: usize = 0;
    assert(strs(dirs@).skip(0) =~= strs(dirs@));
    while i < dirs.len()
        invariant
            i <= dirs@.len(),
            first_param_child(strs(dirs@), cur@) == first_param_child(strs(dirs@).skip(i as int), cur@),
        decreases dirs@.len() - i,
    {
        assert(strs(dirs@).skip(i as int)[0] == dirs@[i as int]@);
        assert(strs(dirs@).skip(i as int).drop_first() =~= strs(dirs@).skip(i + 1));
        let dc = chars_of(dirs[i].as_str());
        let parent = crate::paths::parent_dir_chars(dc.as_slice());
        let name = crate::paths::file_name_chars(dc.as_slice());
        if chars_eq(parent.as_slice(), cur) && name.len() > 2 && name[0] == '{' && name[name.len()
            - 1] == '}' {
            return Some(owned(dirs[i].as_str()));
        }
        i = i + 1;
    }
    None
}

/// Walks a source's tree along the path and checks for the method's file.
fn match_tree(tree: &SourceTree, path: &[String], method: &str) -> (r: Option<
    (String, Vec<(String, String)>),
>)
    ensures
        match tree_match(strs(tree.dirs@), strs(tree.files@), strs(path@), method@) {
            Some((f, cap)) => r matches Some((x, c)) && x@ == f && pair_views(c@) == cap,
            None => r is None,
        },
{
    let ghost dirs = strs(tree.dirs@);
    let ghost segs = strs(path@);
    let mut cur: Vec<char> = Vec::new();
    let mut cap: Vec<(String, String)> = Vec::new();
    let mut i: usize = 0;
    assert(segs.skip(0) =~= segs);
    assert(pair_views(cap@) =~= Seq::<(Seq<char>, Seq<char>)>::empty());
    assert(cur@ =~= Seq::<char>::empty());
    while i < path.len()
        invariant
            i <= path@.len(),
            dirs == strs(tree.dirs@),
            segs == strs(path@),
            walk(dirs, segs, Seq::empty(), Seq::empty()) == walk(
                dirs,
                segs.skip(i as int),
                cur@,
                pair_views(cap@),
            ),
        decreases path@.len() - i,
    {
        let ghost rest = segs.skip(i as int);
        assert(rest[0] == path@[i as int]@);
        assert(rest.drop_first() =~= segs.skip(i + 1));
        let seg = chars_of(path[i].as_str());
        let mut exact: Vec<char> = Vec::new();
        if cur.len() > 0 {
            extend_chars(&mut exact, cur.as_slice());
            extend_str(&mut exact, "/");
        }
        extend_chars(&mut exact, seg.as_slice());
        proof {
            reveal_strlit("/");
        }
        assert(exact@ =~= rel_join(cur@, seg@));
        let ex = string_of(exact.as_slice());
        if contains_string(tree.dirs.as_slice(), ex.as_str()) {
            cur = exact;
        } else {
            match find_param_dir(tree.dirs.as_slice(), cur.as_slice()) {
                Some(d) => {
                    let dc = chars_of(d.as_str());
                    let name = crate::paths::file_name_chars(dc.as_slice());
                    let open: Vec<char> = vec!['{'];
                    let stripped = crate::text::strip_prefixes_chars(name.as_slice(), open.as_slice());
                    let key = strip_suffixes_chars(stripped.as_slice(), '}');
                    assert(key@ == param_key(file_name(d@)));
                    assoc_insert(&mut cap, string_of(key.as_slice()), owned(path[i].as_str()));
                    cur = dc;
                },
                None => {
                    return None;
                },
            }
        }
        i = i + 1;
    }
    let mut f: Vec<char> = Vec::new();
    if cur.len() > 0 {
        extend_chars(&mut f, cur.as_slice());
        extend_str(&mut f, "/");
    }
    extend_str(&mut f, method);
    extend_str(&mut f, ".md");
    proof {
        reveal_strlit("/");
    }
    assert(f@ =~= rel_join(cur@, method@ + ".md"@));
    let fs = string_of(f.as_slice());
    if contains_string(tree.files.as_slice(), fs.as_str()) {
        Some((fs, cap))
    } else {
        None
    }
}

/// Finds the route file for a route whose path has parameter values: the
/// last part is the method, the others are walked in each source's tree;
/// the route must be found in exactly one source. (A route found as a file
/// directly is resolved before this.)
pub fn resolve_route_file(route: &str, parts: &[String], trees: &[SourceTree]) -> (r: Result<
    RouteMatch,
    ApixError,
>)
    ensures
        parts@.len() < 2 ==> (r matches Err(ApixError::RouteNotFound(m)) && m@ == route@),
        parts@.len() >= 2 ==> ({
            let ms = route_matches(
                trees@,
                strs(parts@).drop_last(),
                parts@.last()@,
            );
            &&& ms.len() == 0 ==> (r matches Err(ApixError::RouteNotFound(m)) && m@ == route@)
            &&& ms.len() == 1 ==> (r matches Ok(x) && x.source@ == ms[0].0 && x.relative@
                == ms[0].1 && pair_views(x.params@) == ms[0].2)
            &&& ms.len() > 1 ==> (r matches Err(ApixError::Ambiguous(m)) && m@ == ambiguous_route(
                route@,
            ))
        }),
{
    if parts.len() < 2 {
        return Err(ApixError::RouteNotFound(owned(route)));
    }
    let n = parts.len();
    let method = parts[n - 1].as_str();
    let mut path: Vec<String> = Vec::new();
    let mut k: usize = 0;
    while k < n - 1
        invariant
            n == parts@.len(),
            k <= n - 1,
            strs(path@) == strs(parts@).take(k as int),
        decreases n - 1 - k,
    {
        let ghost prev = strs(path@);
        path.push(owned(parts[k].as_str()));
        assert(strs(path@) =~= prev.push(parts@[k as int]@));
        assert(strs(parts@).take(k + 1) =~= strs(parts@).take(k as int).push(parts@[k as int]@));
        k = k + 1;
    }
    assert(strs(path@) =~= strs(parts@).drop_last());
    let mut found: Vec<RouteMatch> = Vec::new();
    let mut i: usize = 0;
    while i < trees.len()
        invariant
            i <= trees@.len(),
            strs(path@) == strs(parts@).drop_last(),
            method@ == parts@.last()@,
            found@.len() == route_matches(trees@.take(i as int), strs(path@), method@).len(),
            forall|j: int|
                0 <= j < found@.len() ==> {
                    let m = route_matches(trees@.take(i as int), strs(path@), method@)[j];
                    &&& (#[trigger] found@[j]).source@ == m.0
                    &&& found@[j].relative@ == m.1
                    &&& pair_views(found@[j].params@) == m.2
                },
        decreases trees@.len() - i,
    {
        assert(trees@.take(i + 1).drop_last() =~= trees@.take(i as int));
        assert(trees@.take(i + 1).last() == trees@[i as int]);
        if let Some((f, cap)) = match_tree(&trees[i], path.as_slice(), method) {
            let ghost prev = found@;
            found.push(RouteMatch { source: owned(trees[i].source.as_str()), relative: f, params: cap });
            assert(forall|j: int| 0 <= j < prev.len() ==> found@[j] == prev[j]);
        }
        i = i + 1;
    }
    assert(trees@.take(trees@.len() as int) =~= trees@);
    if found.len() == 0 {
        return Err(ApixError::RouteNotFound(owned(route)));
    }
    if found.len() == 1 {
        return Ok(found.remove(0));
    }
    let mut m: Vec<char> = Vec::new();
    extend_str(&mut m, "Route `");
    extend_str(&mut m, route);
    extend_str(&mut m, "` exists in multiple sources. Use --source or source-prefixed route.");
    Err(ApixError::Ambiguous(string_of(m.as_slice())))
}

// ---------------------------------------------------------------------------
// The request
// ---------------------------------------------------------------------------

/// The request headers: the route's content type first, when it has one,
/// then the `--header` arguments in order (each split at its first `:`);
/// the first malformed header is an error.
pub open spec fn headers_after(
    content_type: Option<Seq<char>>,
    args: Seq<Seq<char>>,
) -> Result<Seq<(Seq<char>, Seq<char>)>, Seq<char>>
    decreases args.len(),
{
    if args.len() == 0 {
        Ok(
            match content_type {
                Some(c) => seq![("Content-Type"@, c)],
                None => Seq::empty(),
            },
        )
    } else {
        match headers_after(content_type, args.drop_last()) {
            Err(m) => Err(m),
            Ok(s) => match split_once(args.last(), ':') {
                Some((k, v)) => Ok(s.push((trim(k), trim(v)))),
                None => Err(header_error(args.last())),
            },
        }
    }
}

proof fn lemma_headers_after_err(c: Option<Seq<char>>, args: Seq<Seq<char>>, i: int)
    requires
        0 < i <= args.len(),
        headers_after(c, args.take(i)) is Err,
    ensures
        headers_after(c, args) == headers_after(c, args.take(i)),
    decreases args.len() - i,
{
    if i < args.len() {
        assert(args.take(i + 1).drop_last() =~= args.take(i));
        lemma_headers_after_err(c, args, i + 1);
    } else {
        assert(args.take(i) =~= args);
    }
}

/// The headers of a call.
pub fn request_headers(content_type: Option<&str>, headers: &[String]) -> (r: Result<
    Vec<(String, String)>,
    ApixError,
>)
    ensures
        match headers_after(crate::vault::resolver::opt_str(content_type), strs(headers@)) {
            Ok(s) => r matches Ok(v) && pair_views(v@) == s,
            Err(m) => r matches Err(ApixError::Parse(x)) && x@ == m,
        },
{
    let ghost ct = crate::vault::resolver::opt_str(content_type);
    let mut out: Vec<(String, String)> = Vec::new();
    if let Some(c) = content_type {
        out.push((owned("Content-Type"), owned(c)));
        assert(pair_views(out@) =~= seq![("Content-Type"@, c@)]);
    } else {
        assert(pair_views(out@) =~= Seq::<(Seq<char>, Seq<char>)>::empty());
    }
    assert(strs(headers@).take(0).len() == 0);
    assert(headers_after(ct, strs(headers@).take(0)) == Ok::<Seq<(Seq<char>, Seq<char>)>, Seq<char>>(pair_views(out@)));
    let mut i: usize = 0;
    while i < headers.len()
        invariant
            i <= headers@.len(),
            ct == crate::vault::resolver::opt_str(content_type),
            headers_after(ct, strs(headers@).take(i as int)) == Ok::<
                Seq<(Seq<char>, Seq<char>)>,
                Seq<char>,
            >(pair_views(out@)),
        decreases headers@.len() - i,
    {
        assert(strs(headers@).take(i + 1).drop_last() =~= strs(headers@).take(i as int));
        assert(strs(headers@).take(i + 1).last() == headers@[i as int]@);
        match split_header(headers[i].as_str()) {
            Ok((k, v)) => {
                let ghost prev = pair_views(out@);
                let ghost kv = (k@, v@);
                out.push((k, v));
                assert(pair_views(out@) =~= prev.push(kv));
            },
            Err(e) => {
                proof {
                    lemma_headers_after_err(ct, strs(headers@), i as int + 1);
                }
                return Err(e);
            },
        }
        i = i + 1;
    }
    assert(strs(headers@).take(headers@.len() as int) =~= strs(headers@));
    Ok(out)
}

/// The header lines of a dry run.
pub open spec fn header_lines(hs: Seq<(Seq<char>, Seq<char>)>) -> Seq<char>
    decreases hs.len(),
{
    if hs.len() == 0 {
        Seq::empty()
    } else {
        header_lines(hs.drop_last()) + hs.last().0 + ": "@ + hs.last().1 + "\n"@
    }
}

/// What a dry run prints: the request line with its source, the headers,
/// and the body after a blank line when there are headers.
pub open spec fn dry_run_text(
    method: Seq<char>,
    url: Seq<char>,
    source: Seq<char>,
    hs: Seq<(Seq<char>, Seq<char>)>,
    body: Option<Seq<char>>,
) -> Seq<char> {
    method + " "@ + url + " [source="@ + source + "]\n"@ + header_lines(hs) + match body {
        Some(b) => if hs.len() > 0 {
            "\n"@ + b
        } else {
            b
        },
        None => Seq::empty(),
    }
}

/// Formats the dry run of a call.
pub fn format_dry_run(
    method: &str,
    url: &str,
    source: &str,
    headers: &[(String, String)],
    body: Option<&str>,
) -> (r: String)
    ensures
        r@ == dry_run_text(
            method@,
            url@,
            source@,
            pair_views(headers@),
            crate::vault::resolver::opt_str(body),
        ),
{
    let mut out: Vec<char> = Vec::new();
    extend_str(&mut out, method);
    extend_str(&mut out, " ");
    extend_str(&mut out, url);
    extend_str(&mut out, " [source=");
    extend_str(&mut out, source);
    extend_str(&mut out, "]\n");
    let ghost head = out@;
    let mut i: usize = 0;
    while i < headers.len()
        invariant
            i <= headers@.len(),
            out@ == head + header_lines(pair_views(headers@).take(i as int)),
        decreases headers@.len() - i,
    {
        assert(pair_views(headers@).take(i + 1).drop_last() =~= pair_views(headers@).take(i as int));
        assert(pair_views(headers@).take(i + 1).last() == (headers@[i as int].0@, headers@[i as int].1@));
        extend_str(&mut out, headers[i].0.as_str());
        extend_str(&mut out, ": ");
        extend_str(&mut out, headers[i].1.as_str());
        extend_str(&mut out, "\n");
        assert(out@ =~= head + header_lines(pair_views(headers@).take(i + 1)));
        i = i + 1;
    }
    assert(pair_views(headers@).take(headers@.len() as int) =~= pair_views(headers@));
    if let Some(b) = body {
        if headers.len() > 0 {
            extend_str(&mut out, "\n");
        }
        extend_str(&mut out, b);
    }
    string_of(out.as_slice())
}

} // verus!
