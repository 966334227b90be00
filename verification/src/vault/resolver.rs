//! Route and namespace resolution across sources.
//!
//! Resolution runs in two steps: the candidates are computed from the route
//! and configuration, the caller checks which of them exist on disk, and the
//! match is then picked from what exists.

use vstd::prelude::*;
use crate::config::{known, opt_view, priority, Config, EnvOverrides};
use crate::error::ApixError;
use crate::paths::{join, join_str, set_md, set_md_ext};
use crate::text::{
    chars_of, concat3, join as join_seq, join_chars, owned, segments, segments_of, string_of,
    strings_of, strs, views,
};

verus! {

/// A route file found in a source.
#[derive(Debug)]
pub struct ResolvedRoute {
    pub source: String,
    pub namespace: String,
    pub version: String,
    /// The route's path and method below the version, without extension.
    pub relative: String,
    pub file_path: String,
}

/// A namespace directory found in a source.
#[derive(Debug)]
pub struct ResolvedNamespace {
    pub source: String,
    pub root: String,
}

/// The directory of a source: `<home>/vaults/<source>`.
pub open spec fn source_root_spec(home: Seq<char>, source: Seq<char>) -> Seq<char> {
    join(join(home, "vaults"@), source)
}

/// The directory of a source under the apix home.
pub fn source_root(home: &str, source: &str) -> (r: String)
    ensures
        r@ == source_root_spec(home@, source@),
{
    let v = join_str(home, "vaults");
    join_str(v.as_str(), source)
}

/// The sources searched: the override alone, else the priority order.
pub open spec fn candidates_spec(prio: Seq<Seq<char>>, over: Option<Seq<char>>) -> Seq<Seq<char>> {
    match over {
        Some(s) => seq![s],
        None => prio,
    }
}

/// The view of an optional string slice.
pub open spec fn opt_str(o: Option<&str>) -> Option<Seq<char>> {
    match o {
        Some(s) => Some(s@),
        None => None,
    }
}

/// The priority order of a configuration under the environment.
pub open spec fn prio_of(cfg: &Config, env: &EnvOverrides) -> Seq<Seq<char>> {
    priority(strs(cfg.sources@), opt_view(env.sources))
}

/// Every known source of a configuration under the environment.
pub open spec fn known_of(cfg: &Config, env: &EnvOverrides) -> Seq<Seq<char>> {
    known(prio_of(cfg, env), cfg.source.names())
}

pub fn candidate_sources(cfg: &Config, env: &EnvOverrides, source_override: Option<&str>) -> (r: Vec<
    String,
>)
    ensures
        strs(r@) == candidates_spec(prio_of(cfg, env), opt_str(source_override)),
{
    match source_override {
        Some(s) => {
            let mut v: Vec<String> = Vec::new();
            v.push(owned(s));
            assert(strs(v@) =~= seq![s@]);
            v
        },
        None => cfg.source_priority(env),
    }
}

/// The source a route names and where its namespace starts: the override
/// at 0; else the first part, when the route has at least four parts and
/// that part is a known source, with the namespace at 1; else no source, 0.
pub open spec fn prefix_spec(parts: Seq<Seq<char>>, known: Seq<Seq<char>>, over: Option<Seq<char>>) -> (
    Option<Seq<char>>,
    int,
) {
    match over {
        Some(s) => (Some(s), 0),
        None => if parts.len() >= 4 && known.contains(parts[0]) {
            (Some(parts[0]), 1)
        } else {
            (None, 0)
        },
    }
}

fn parse_source_prefix(
    cfg: &Config,
    env: &EnvOverrides,
    parts: &[Vec<char>],
    source_override: Option<&str>,
) -> (r: (Option<String>, usize))
    ensures
        (opt_view(r.0), r.1 as int) == prefix_spec(
            views(parts@),
            known_of(cfg, env),
            opt_str(source_override),
        ),
{
    if let Some(s) = source_override {
        return (Some(owned(s)), 0);
    }
    if parts.len() >= 4 {
        let known = cfg.known_sources(env);
        let first = string_of(parts[0].as_slice());
        if crate::text::contains_string(known.as_slice(), first.as_str()) {
            return (Some(first), 1);
        }
    }
    (None, 0)
}

/// The sources a route is looked up in: its own source when it names one,
/// else the candidates.
pub open spec fn lookup_sources(
    parts: Seq<Seq<char>>,
    cfg: &Config,
    env: &EnvOverrides,
    over: Option<Seq<char>>,
) -> Seq<Seq<char>> {
    match prefix_spec(parts, known_of(cfg, env), over).0 {
        Some(s) => seq![s],
        None => candidates_spec(prio_of(cfg, env), over),
    }
}

/// Splits a route of at least four parts into the sources to look in, the
/// namespace, the version and the remaining path parts.
pub fn route_resolution_inputs(
    route: &str,
    source_override: Option<&str>,
    cfg: &Config,
    env: &EnvOverrides,
) -> (r: Result<(Vec<String>, String, String, Vec<String>), ApixError>)
    ensures
        ({
            let parts = segments(route@, '/');
            let idx = prefix_spec(parts, known_of(cfg, env), opt_str(source_override)).1;
            match r {
                Ok((sources, ns, ver, rest)) => parts.len() >= 4 && strs(sources@) == lookup_sources(
                    parts,
                    cfg,
                    env,
                    opt_str(source_override),
                ) && ns@ == parts[idx] && ver@ == parts[idx + 1] && strs(rest@) == parts.skip(
                    idx + 2,
                ),
                Err(e) => parts.len() < 4 && e == ApixError::RouteNotFound(e->RouteNotFound_0)
                    && e->RouteNotFound_0@ == route@,
            }
        }),
{
    let rc = chars_of(route);
    let parts = segments_of(rc.as_slice(), '/');
    if parts.len() < 4 {
        return Err(ApixError::RouteNotFound(owned(route)));
    }
    let (forced, idx) = parse_source_prefix(cfg, env, parts.as_slice(), source_override);
    let namespace = string_of(parts[idx].as_slice());
    let version = string_of(parts[idx + 1].as_slice());
    let mut rest_chars: Vec<Vec<char>> = Vec::new();
    let mut i = idx + 2;
    while i < parts.len()
        invariant
            idx + 2 <= i <= parts@.len(),
            views(rest_chars@) == views(parts@).subrange(idx + 2, i as int),
        decreases parts@.len() - i,
    {
        let x = crate::text::sub_chars(parts[i].as_slice(), 0, parts[i].len());
        assert(x@ =~= parts@[i as int]@);
        let ghost prev = views(rest_chars@);
        rest_chars.push(x);
        assert(views(rest_chars@) =~= prev.push(x@));
        assert(views(parts@).subrange(idx + 2, i + 1) =~= views(parts@).subrange(
            idx + 2,
            i as int,
        ).push(parts@[i as int]@));
        i = i + 1;
    }
    assert(views(parts@).subrange(idx + 2, parts@.len() as int) =~= views(parts@).skip(idx + 2));
    let rest = strings_of(rest_chars.as_slice());
    let sources = match forced {
        Some(s) => {
            let mut v: Vec<String> = Vec::new();
            v.push(s);
            v
        },
        None => candidate_sources(cfg, env, source_override),
    };
    proof {
        let p = views(parts@);
        let pre = prefix_spec(p, known_of(cfg, env), opt_str(source_override));
        if pre.0 is Some {
            assert(strs(sources@) =~= seq![pre.0->0]);
        }
    }
    Ok((sources, namespace, version, rest))
}


/// The elements whose flag is set, in order.
pub open spec fn selected<A>(c: Seq<A>, p: Seq<bool>) -> Seq<A>
    decreases c.len(),
{
    if c.len() == 0 {
        Seq::empty()
    } else {
        let r = selected(c.drop_last(), p.take(c.len() - 1));
        if p[c.len() - 1] {
            r.push(c.last())
        } else {
            r
        }
    }
}

proof fn lemma_selected_step<A>(c: Seq<A>, p: Seq<bool>, i: int)
    requires
        0 <= i < c.len(),
        c.len() == p.len(),
    ensures
        selected(c.take(i + 1), p.take(i + 1)) == if p[i] {
            selected(c.take(i), p.take(i)).push(c[i])
        } else {
            selected(c.take(i), p.take(i))
        },
{
    assert(c.take(i + 1).drop_last() =~= c.take(i));
    assert(p.take(i + 1).take(i) =~= p.take(i));
}

/// The candidates of (candidate, whether it exists) pairs that exist, in
/// order.
pub open spec fn existing<A>(c: Seq<(A, bool)>) -> Seq<A> {
    selected(c.map_values(|x: (A, bool)| x.0), c.map_values(|x: (A, bool)| x.1))
}

/// The path of a route file: `<source root>/<namespace>/<version>/<relative>`
/// with the extension set to `md`.
pub open spec fn route_file(
    home: Seq<char>,
    source: Seq<char>,
    ns: Seq<char>,
    ver: Seq<char>,
    rel: Seq<char>,
) -> Seq<char> {
    set_md(join(join(join(source_root_spec(home, source), ns), ver), rel))
}

/// One candidate per source, in order, each naming the route file in its source.
pub open spec fn candidates_match(
    c: Seq<ResolvedRoute>,
    home: Seq<char>,
    srcs: Seq<Seq<char>>,
    ns: Seq<char>,
    ver: Seq<char>,
    rel: Seq<char>,
) -> bool {
    c.len() == srcs.len() && forall|i: int|
        0 <= i < c.len() ==> {
            &&& #[trigger] c[i].source@ == srcs[i]
            &&& c[i].namespace@ == ns
            &&& c[i].version@ == ver
            &&& c[i].relative@ == rel
            &&& c[i].file_path@ == route_file(home, srcs[i], ns, ver, rel)
        }
}

/// The candidate files for a route of at least three parts, one per source
/// looked in, in order.
pub fn route_candidates(
    route: &str,
    source_override: Option<&str>,
    cfg: &Config,
    env: &EnvOverrides,
    home: &str,
) -> (r: Result<Vec<ResolvedRoute>, ApixError>)
    ensures
        ({
            let parts = segments(route@, '/');
            let idx = prefix_spec(parts, known_of(cfg, env), opt_str(source_override)).1;
            let srcs = lookup_sources(parts, cfg, env, opt_str(source_override));
            let rel = join_seq(parts.skip(idx + 2), seq!['/']);
            match r {
                Ok(c) => parts.len() >= 3 && candidates_match(
                    c@,
                    home@,
                    srcs,
                    parts[idx],
                    parts[idx + 1],
                    rel,
                ),
                Err(e) => parts.len() < 3 && e == ApixError::Parse(e->Parse_0) && e->Parse_0@
                    == "Route must include namespace/version/path, got: "@ + route@,
            }
        }),
{
    let rc = chars_of(route);
    let parts = segments_of(rc.as_slice(), '/');
    if parts.len() < 3 {
        return Err(ApixError::Parse(crate::text::concat2("Route must include namespace/version/path, got: ", route)));
    }
    let (forced, idx) = parse_source_prefix(cfg, env, parts.as_slice(), source_override);
    let namespace = string_of(parts[idx].as_slice());
    let version = string_of(parts[idx + 1].as_slice());
    let mut rest: Vec<Vec<char>> = Vec::new();
    let mut i = idx + 2;
    while i < parts.len()
        invariant
            idx + 2 <= i <= parts@.len(),
            views(rest@) == views(parts@).subrange(idx + 2, i as int),
        decreases parts@.len() - i,
    {
        let x = crate::text::sub_chars(parts[i].as_slice(), 0, parts[i].len());
        assert(x@ =~= parts@[i as int]@);
        let ghost prev = views(rest@);
        rest.push(x);
        assert(views(rest@) =~= prev.push(x@));
        assert(views(parts@).subrange(idx + 2, i + 1) =~= views(parts@).subrange(
            idx + 2,
            i as int,
        ).push(parts@[i as int]@));
        i = i + 1;
    }
    assert(views(parts@).subrange(idx + 2, parts@.len() as int) =~= views(parts@).skip(idx + 2));
    let sep: Vec<char> = vec!['/'];
    assert(sep@ =~= seq!['/']);
    let relc = join_chars(rest.as_slice(), sep.as_slice());
    let relative = string_of(relc.as_slice());
    let sources = match forced {
        Some(s) => {
            let mut v: Vec<String> = Vec::new();
            v.push(s);
            v
        },
        None => candidate_sources(cfg, env, source_override),
    };
    proof {
        let p = views(parts@);
        let pre = prefix_spec(p, known_of(cfg, env), opt_str(source_override));
        if pre.0 is Some {
            assert(strs(sources@) =~= seq![pre.0->0]);
        }
    }
    let ghost srcs = strs(sources@);
    proof {
        let p = views(parts@);
        assert(namespace@ == p[idx as int]);
        assert(version@ == p[idx + 1]);
        assert(relative@ == join_seq(p.skip(idx + 2), seq!['/']));
    }
    let mut out: Vec<ResolvedRoute> = Vec::new();
    let mut j: usize = 0;
    while j < sources.len()
        invariant
            j <= sources@.len(),
            srcs == strs(sources@),
            out@.len() == j,
            forall|k: int|
                0 <= k < j ==> {
                    &&& #[trigger] out@[k].source@ == srcs[k]
                    &&& out@[k].namespace@ == namespace@
                    &&& out@[k].version@ == version@
                    &&& out@[k].relative@ == relative@
                    &&& out@[k].file_path@ == route_file(
                        home@,
                        srcs[k],
                        namespace@,
                        version@,
                        relative@,
                    )
                },
        decreases sources@.len() - j,
    {
        let root = source_root(home, sources[j].as_str());
        let a = join_str(root.as_str(), namespace.as_str());
        let b = join_str(a.as_str(), version.as_str());
        let c = join_str(b.as_str(), relative.as_str());
        let cc = chars_of(c.as_str());
        let file = set_md_ext(cc.as_slice());
        let file_path = string_of(file.as_slice());
        assert(srcs[j as int] == sources@[j as int]@);
        out.push(
            ResolvedRoute {
                source: owned(sources[j].as_str()),
                namespace: owned(namespace.as_str()),
                version: owned(version.as_str()),
                relative: owned(relative.as_str()),
                file_path,
            },
        );
        j = j + 1;
    }
    proof {
        let p = views(parts@);
        assert(namespace@ == p[idx as int]);
        assert(version@ == p[idx + 1]);
        assert(relative@ == join_seq(p.skip(idx + 2), seq!['/']));
        assert(p == segments(route@, '/'));
        let pre = prefix_spec(p, known_of(cfg, env), opt_str(source_override));
        assert(pre.1 == idx as int);
        assert(srcs == lookup_sources(p, cfg, env, opt_str(source_override)));
        assert(p.len() >= 3);
        assert(out@.len() == srcs.len());
        let rel = join_seq(p.skip(idx + 2), seq!['/']);
        assert(candidates_match(out@, home@, srcs, namespace@, version@, relative@));
    }
    Ok(out)
}

/// How a matched route is named in an ambiguity message.
pub open spec fn route_label(r: ResolvedRoute) -> Seq<char> {
    r.source@ + seq!['/'] + r.namespace@ + seq!['/'] + r.version@ + seq!['/'] + r.relative@
}

fn route_label_exec(r: &ResolvedRoute) -> (s: String)
    ensures
        s@ == route_label(*r),
{
    let mut v: Vec<char> = Vec::new();
    crate::text::extend_str(&mut v, r.source.as_str());
    v.push('/');
    crate::text::extend_str(&mut v, r.namespace.as_str());
    v.push('/');
    crate::text::extend_str(&mut v, r.version.as_str());
    v.push('/');
    crate::text::extend_str(&mut v, r.relative.as_str());
    assert(v@ =~= route_label(*r));
    string_of(v.as_slice())
}

/// The route matched in the sources where its file exists: none is a
/// route-not-found error, one is the result, several are ambiguous.
pub fn resolve_route_path(route: &str, candidates: Vec<(ResolvedRoute, bool)>) -> (r: Result<
    ResolvedRoute,
    ApixError,
>)
    ensures
        ({
            let m = existing(candidates@);
            &&& m.len() == 0 ==> r == Err::<ResolvedRoute, ApixError>(
                ApixError::RouteNotFound(r->Err_0->RouteNotFound_0),
            ) && r->Err_0->RouteNotFound_0@ == route@
            &&& m.len() == 1 ==> r == Ok::<ResolvedRoute, ApixError>(m[0])
            &&& m.len() > 1 ==> r == Err::<ResolvedRoute, ApixError>(
                ApixError::Ambiguous(r->Err_0->Ambiguous_0),
            ) && r->Err_0->Ambiguous_0@ == "Route `"@ + route@
                + "` matched multiple sources: "@ + join_seq(
                m.map_values(|x: ResolvedRoute| route_label(x)),
                ", "@,
            ) + ". Pass --source or use source-prefixed route."@
        }),
{
    let mut rest = candidates;
    let ghost pairs = rest@;
    let ghost all = pairs.map_values(|x: (ResolvedRoute, bool)| x.0);
    let ghost flags = pairs.map_values(|x: (ResolvedRoute, bool)| x.1);
    let mut matches: Vec<ResolvedRoute> = Vec::new();
    let mut i: usize = 0;
    let n = rest.len();
    while i < n
        invariant
            n == pairs.len(),
            all == pairs.map_values(|x: (ResolvedRoute, bool)| x.0),
            flags == pairs.map_values(|x: (ResolvedRoute, bool)| x.1),
            i <= n,
            rest@ == pairs.skip(i as int),
            matches@ == selected(all.take(i as int), flags.take(i as int)),
        decreases n - i,
    {
        proof {
            lemma_selected_step(all, flags, i as int);
        }
        let (x, here) = rest.remove(0);
        assert(rest@ =~= pairs.skip(i + 1));
        assert(x == all[i as int] && here == flags[i as int]);
        if here {
            matches.push(x);
        }
        i = i + 1;
    }
    assert(all.take(n as int) =~= all);
    assert(flags.take(n as int) =~= flags);
    if matches.len() == 0 {
        return Err(ApixError::RouteNotFound(owned(route)));
    }
    if matches.len() == 1 {
        let x = matches.remove(0);
        return Ok(x);
    }
    let mut labels: Vec<Vec<char>> = Vec::new();
    let mut j: usize = 0;
    while j < matches.len()
        invariant
            j <= matches@.len(),
            views(labels@) == matches@.take(j as int).map_values(|x: ResolvedRoute| route_label(x)),
        decreases matches@.len() - j,
    {
        let l = route_label_exec(&matches[j]);
        let lc = chars_of(l.as_str());
        let ghost prev = views(labels@);
        labels.push(lc);
        assert(views(labels@) =~= prev.push(lc@));
        assert(matches@.take(j + 1).map_values(|x: ResolvedRoute| route_label(x)) =~= matches@.take(
            j as int,
        ).map_values(|x: ResolvedRoute| route_label(x)).push(route_label(matches@[j as int])));
        j = j + 1;
    }
    assert(matches@.take(matches@.len() as int) =~= matches@);
    let sep = chars_of(", ");
    let joined = join_chars(labels.as_slice(), sep.as_slice());
    let js = string_of(joined.as_slice());
    let msg = crate::text::concat5(
        "Route `",
        route,
        "` matched multiple sources: ",
        js.as_str(),
        ". Pass --source or use source-prefixed route.",
    );
    Err(ApixError::Ambiguous(msg))
}

/// The candidate namespace directories, one per source looked in.
pub fn namespace_candidates(
    namespace: &str,
    source_override: Option<&str>,
    cfg: &Config,
    env: &EnvOverrides,
    home: &str,
) -> (r: Vec<ResolvedNamespace>)
    ensures
        ({
            let srcs = candidates_spec(prio_of(cfg, env), opt_str(source_override));
            r@.len() == srcs.len() && forall|i: int|
                0 <= i < r@.len() ==> #[trigger] r@[i].source@ == srcs[i] && r@[i].root@ == join(
                    source_root_spec(home@, srcs[i]),
                    namespace@,
                )
        }),
{
    let sources = candidate_sources(cfg, env, source_override);
    let ghost srcs = strs(sources@);
    let mut out: Vec<ResolvedNamespace> = Vec::new();
    let mut j: usize = 0;
    while j < sources.len()
        invariant
            j <= sources@.len(),
            srcs == strs(sources@),
            out@.len() == j,
            forall|k: int|
                0 <= k < j ==> #[trigger] out@[k].source@ == srcs[k] && out@[k].root@ == join(
                    source_root_spec(home@, srcs[k]),
                    namespace@,
                ),
        decreases sources@.len() - j,
    {
        let root = source_root(home, sources[j].as_str());
        let nroot = join_str(root.as_str(), namespace);
        assert(srcs[j as int] == sources@[j as int]@);
        out.push(ResolvedNamespace { source: owned(sources[j].as_str()), root: nroot });
        j = j + 1;
    }
    out
}

/// The namespace matched in the sources where its directory exists: none is
/// a vault-not-found error, one is the result, several are ambiguous.
pub fn resolve_namespace(namespace: &str, candidates: Vec<(ResolvedNamespace, bool)>) -> (r: Result<
    ResolvedNamespace,
    ApixError,
>)
    ensures
        ({
            let m = existing(candidates@);
            &&& m.len() == 0 ==> r == Err::<ResolvedNamespace, ApixError>(
                ApixError::VaultNotFound(r->Err_0->VaultNotFound_0),
            ) && r->Err_0->VaultNotFound_0@ == namespace@
            &&& m.len() == 1 ==> r == Ok::<ResolvedNamespace, ApixError>(m[0])
            &&& m.len() > 1 ==> r == Err::<ResolvedNamespace, ApixError>(
                ApixError::Ambiguous(r->Err_0->Ambiguous_0),
            ) && r->Err_0->Ambiguous_0@ == "Namespace `"@ + namespace@
                + "` exists in multiple sources: "@ + join_seq(
                m.map_values(|x: ResolvedNamespace| x.source@ + seq!['/'] + namespace@),
                ", "@,
            ) + ". Pass --source."@
        }),
{
    let mut rest = candidates;
    let ghost pairs = rest@;
    let ghost all = pairs.map_values(|x: (ResolvedNamespace, bool)| x.0);
    let ghost flags = pairs.map_values(|x: (ResolvedNamespace, bool)| x.1);
    let mut matches: Vec<ResolvedNamespace> = Vec::new();
    let mut i: usize = 0;
    let n = rest.len();
    while i < n
        invariant
            n == pairs.len(),
            all == pairs.map_values(|x: (ResolvedNamespace, bool)| x.0),
            flags == pairs.map_values(|x: (ResolvedNamespace, bool)| x.1),
            i <= n,
            rest@ == pairs.skip(i as int),
            matches@ == selected(all.take(i as int), flags.take(i as int)),
        decreases n - i,
    {
        proof {
            lemma_selected_step(all, flags, i as int);
        }
        let (x, here) = rest.remove(0);
        assert(rest@ =~= pairs.skip(i + 1));
        assert(x == all[i as int] && here == flags[i as int]);
        if here {
            matches.push(x);
        }
        i = i + 1;
    }
    assert(all.take(n as int) =~= all);
    assert(flags.take(n as int) =~= flags);
    if matches.len() == 0 {
        return Err(ApixError::VaultNotFound(owned(namespace)));
    }
    if matches.len() == 1 {
        let x = matches.remove(0);
        return Ok(x);
    }
    let mut labels: Vec<Vec<char>> = Vec::new();
    let mut j: usize = 0;
    while j < matches.len()
        invariant
            j <= matches@.len(),
            views(labels@) == matches@.take(j as int).map_values(
                |x: ResolvedNamespace| x.source@ + seq!['/'] + namespace@,
            ),
        decreases matches@.len() - j,
    {
        let mut lc = chars_of(matches[j].source.as_str());
        lc.push('/');
        crate::text::extend_str(&mut lc, namespace);
        assert(lc@ =~= matches@[j as int].source@ + seq!['/'] + namespace@);
        let ghost prev = views(labels@);
        labels.push(lc);
        assert(views(labels@) =~= prev.push(lc@));
        assert(matches@.take(j + 1).map_values(
            |x: ResolvedNamespace| x.source@ + seq!['/'] + namespace@,
        ) =~= matches@.take(j as int).map_values(
            |x: ResolvedNamespace| x.source@ + seq!['/'] + namespace@,
        ).push(matches@[j as int].source@ + seq!['/'] + namespace@));
        j = j + 1;
    }
    assert(matches@.take(matches@.len() as int) =~= matches@);
    let sep = chars_of(", ");
    let joined = join_chars(labels.as_slice(), sep.as_slice());
    let js = string_of(joined.as_slice());
    let msg = crate::text::concat5(
        "Namespace `",
        namespace,
        "` exists in multiple sources: ",
        js.as_str(),
        ". Pass --source.",
    );
    Err(ApixError::Ambiguous(msg))
}

/// The existing candidates, keyed, are the keys of all candidates that
/// pass `keep`, when a candidate's flag is exactly `keep` of its key; each
/// existing candidate is one of the candidates.
proof fn lemma_existing_filter<A>(
    c: Seq<(A, bool)>,
    key: spec_fn(A) -> Seq<char>,
    keep: spec_fn(Seq<char>) -> bool,
)
    requires
        forall|i: int| 0 <= i < c.len() ==> #[trigger] c[i].1 == keep(key(c[i].0)),
    ensures
        existing(c).map_values(key) == c.map_values(|x: (A, bool)| key(x.0)).filter(keep),
        forall|j: int|
            0 <= j < existing(c).len() ==> exists|i: int|
                0 <= i < c.len() && #[trigger] existing(c)[j] == c[i].0,
    decreases c.len(),
{
    reveal(Seq::filter);
    let ks = c.map_values(|x: (A, bool)| key(x.0));
    if c.len() == 0 {
        assert(existing(c) =~= Seq::<A>::empty());
        assert(ks.filter(keep) =~= Seq::<Seq<char>>::empty());
    } else {
        let d = c.drop_last();
        let n = c.len() - 1;
        lemma_existing_filter(d, key, keep);
        let all = c.map_values(|x: (A, bool)| x.0);
        let flags = c.map_values(|x: (A, bool)| x.1);
        assert(all.drop_last() =~= d.map_values(|x: (A, bool)| x.0));
        assert(flags.take(n) =~= d.map_values(|x: (A, bool)| x.1));
        assert(existing(c) == if flags[n] {
            existing(d).push(all.last())
        } else {
            existing(d)
        });
        assert(ks.drop_last() =~= d.map_values(|x: (A, bool)| key(x.0)));
        assert(ks.last() == key(c[n].0));
        assert(flags[n] == c[n].1);
        if flags[n] {
            assert(existing(c).map_values(key) =~= existing(d).map_values(key).push(key(c[n].0)));
            assert forall|j: int| 0 <= j < existing(c).len() implies exists|i: int|
                0 <= i < c.len() && #[trigger] existing(c)[j] == c[i].0 by {
                if j < existing(d).len() {
                    let i = choose|i: int| 0 <= i < d.len() && #[trigger] existing(d)[j] == d[i].0;
                    assert(existing(c)[j] == c[i].0);
                } else {
                    assert(existing(c)[j] == c[n].0);
                }
            }
        } else {
            assert forall|j: int| 0 <= j < existing(c).len() implies exists|i: int|
                0 <= i < c.len() && #[trigger] existing(c)[j] == c[i].0 by {
                let i = choose|i: int| 0 <= i < d.len() && #[trigger] existing(d)[j] == d[i].0;
                assert(existing(c)[j] == c[i].0);
            }
        }
    }
}

/// A route is looked for in the sources the route and the configuration
/// name; with each candidate flagged by whether its file exists, the
/// matches (which `resolve_route_path` turns into the result: none is not
/// found, one is the route, several are ambiguous) are the candidates of
/// exactly the sources, in order, whose route file exists, each naming its
/// source's route file.
pub proof fn law_route_found_where_file_exists(
    c: Seq<(ResolvedRoute, bool)>,
    home: Seq<char>,
    srcs: Seq<Seq<char>>,
    ns: Seq<char>,
    ver: Seq<char>,
    rel: Seq<char>,
    on_disk: spec_fn(Seq<char>) -> bool,
)
    requires
        candidates_match(c.map_values(|x: (ResolvedRoute, bool)| x.0), home, srcs, ns, ver, rel),
        forall|i: int| 0 <= i < c.len() ==> #[trigger] c[i].1 == on_disk(c[i].0.file_path@),
    ensures
        existing(c).map_values(|r: ResolvedRoute| r.source@) == srcs.filter(
            |s: Seq<char>| on_disk(route_file(home, s, ns, ver, rel)),
        ),
        forall|j: int|
            0 <= j < existing(c).len() ==> {
                let r = #[trigger] existing(c)[j];
                &&& r.file_path@ == route_file(home, r.source@, ns, ver, rel)
                &&& r.namespace@ == ns
                &&& r.version@ == ver
                &&& r.relative@ == rel
            },
{
    let key = |r: ResolvedRoute| r.source@;
    let keep = |s: Seq<char>| on_disk(route_file(home, s, ns, ver, rel));
    let cs = c.map_values(|x: (ResolvedRoute, bool)| x.0);
    assert forall|i: int| 0 <= i < c.len() implies #[trigger] c[i].1 == keep(key(c[i].0)) by {
        assert(cs[i] == c[i].0);
    }
    lemma_existing_filter(c, key, keep);
    assert(c.map_values(|x: (ResolvedRoute, bool)| key(x.0)) =~= srcs) by {
        assert forall|i: int| 0 <= i < c.len() implies c.map_values(
            |x: (ResolvedRoute, bool)| key(x.0),
        )[i] == srcs[i] by {
            assert(cs[i] == c[i].0);
        }
    }
    assert(existing(c).map_values(|r: ResolvedRoute| r.source@) =~= existing(c).map_values(key));
    assert forall|j: int| 0 <= j < existing(c).len() implies {
        let r = #[trigger] existing(c)[j];
        &&& r.file_path@ == route_file(home, r.source@, ns, ver, rel)
        &&& r.namespace@ == ns
        &&& r.version@ == ver
        &&& r.relative@ == rel
    } by {
        let i = choose|i: int| 0 <= i < c.len() && #[trigger] existing(c)[j] == c[i].0;
        assert(cs[i] == c[i].0);
    }
}

/// A namespace is looked for in the override alone, else in the priority
/// order; with each candidate flagged by whether its directory exists, the
/// matches (which `resolve_namespace` turns into the result: none is not
/// found, one is the namespace, several are ambiguous) are the candidates
/// of exactly the sources, in order, whose namespace directory exists, each
/// naming that directory.
pub proof fn law_namespace_found_where_dir_exists(
    c: Seq<(ResolvedNamespace, bool)>,
    home: Seq<char>,
    srcs: Seq<Seq<char>>,
    namespace: Seq<char>,
    on_disk: spec_fn(Seq<char>) -> bool,
)
    requires
        c.len() == srcs.len(),
        forall|i: int|
            0 <= i < c.len() ==> #[trigger] c[i].0.source@ == srcs[i] && c[i].0.root@ == join(
                source_root_spec(home, srcs[i]),
                namespace,
            ),
        forall|i: int| 0 <= i < c.len() ==> #[trigger] c[i].1 == on_disk(c[i].0.root@),
    ensures
        existing(c).map_values(|r: ResolvedNamespace| r.source@) == srcs.filter(
            |s: Seq<char>| on_disk(join(source_root_spec(home, s), namespace)),
        ),
        forall|j: int|
            0 <= j < existing(c).len() ==> #[trigger] existing(c)[j].root@ == join(
                source_root_spec(home, existing(c)[j].source@),
                namespace,
            ),
{
    let key = |r: ResolvedNamespace| r.source@;
    let keep = |s: Seq<char>| on_disk(join(source_root_spec(home, s), namespace));
    assert forall|i: int| 0 <= i < c.len() implies #[trigger] c[i].1 == keep(key(c[i].0)) by {
        assert(c[i].0.source@ == srcs[i]);
    }
    lemma_existing_filter(c, key, keep);
    assert(c.map_values(|x: (ResolvedNamespace, bool)| key(x.0)) =~= srcs) by {
        assert forall|i: int| 0 <= i < c.len() implies c.map_values(
            |x: (ResolvedNamespace, bool)| key(x.0),
        )[i] == srcs[i] by {
            assert(c[i].0.source@ == srcs[i]);
        }
    }
    assert(existing(c).map_values(|r: ResolvedNamespace| r.source@) =~= existing(c).map_values(key));
    assert forall|j: int| 0 <= j < existing(c).len() implies #[trigger] existing(c)[j].root@ == join(
        source_root_spec(home, existing(c)[j].source@),
        namespace,
    ) by {
        let i = choose|i: int| 0 <= i < c.len() && #[trigger] existing(c)[j] == c[i].0;
        assert(c[i].0.source@ == srcs[i]);
    }
}

} // verus!
