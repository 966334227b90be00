//! Sources kept as sparse git checkouts: what to fetch, and the source list
//! of the configuration. The git commands themselves are run by the caller.

use vstd::prelude::*;
use crate::config::{Config, EnvOverrides, SourceConfig};
use crate::error::ApixError;
use crate::registry::Registry;
use crate::text::{
    chars_of, contains, contains_chars, extend_str, join, lines, lines_of_str, owned, split_once,
    split_once_chars, str_eq, string_of, strs, trim, trim_chars, chars_eq_str,
};

verus! {

/// What `apix pull` checks out.
#[derive(Debug, Clone)]
pub struct PullPlan {
    pub namespace: String,
    pub version: Option<String>,
    /// The sparse-checkout pattern: `<namespace>/` or `<namespace>/<version>/`.
    pub checkout_path: String,
    /// How the pull is reported: `<source>/<namespace>[/<version>]`.
    pub description: String,
}

/// Whether a registry key is suggested for a namespace: one contains the
/// other.
pub open spec fn suggests_ns(ns: Seq<char>) -> spec_fn(Seq<char>) -> bool {
    |k: Seq<char>| contains(k, ns) || contains(ns, k)
}

/// The registry keys suggested for a namespace that is not there: those
/// that contain it or that it contains, at most five, in registry order.
pub open spec fn namespace_suggestions(keys: Seq<Seq<char>>, ns: Seq<char>) -> Seq<Seq<char>> {
    let all = keys.filter(suggests_ns(ns));
    if all.len() <= 5 {
        all
    } else {
        all.take(5)
    }
}

/// The message for a namespace missing from a registry.
pub open spec fn missing_namespace_message(ns: Seq<char>, suggestions: Seq<Seq<char>>) -> Seq<char> {
    if suggestions.len() == 0 {
        "Namespace `"@ + ns + "` not found in registry"@
    } else {
        "Namespace `"@ + ns + "` not found in registry. Did you mean: "@ + join(suggestions, ", "@)
    }
}

/// A pull of a namespace that the registry lacks suggests at most five
/// registry keys, each one that contains the namespace or that the
/// namespace contains; and when there are no more than five such keys,
/// all of them.
pub proof fn law_pull_suggestions(keys: Seq<Seq<char>>, ns: Seq<char>, k: Seq<char>)
    ensures
        namespace_suggestions(keys, ns).len() <= 5,
        namespace_suggestions(keys, ns).contains(k) ==> keys.contains(k) && (contains(k, ns)
            || contains(ns, k)),
        keys.filter(suggests_ns(ns)).len() <= 5 ==> (namespace_suggestions(keys, ns).contains(k)
            <==> keys.contains(k) && (contains(k, ns) || contains(ns, k))),
{
    let all = keys.filter(suggests_ns(ns));
    broadcast use vstd::seq_lib::group_filter_ensures;
    let sg = namespace_suggestions(keys, ns);
    if sg.contains(k) {
        let i = choose|i: int| 0 <= i < sg.len() && sg[i] == k;
        assert(all.contains(k)) by {
            assert(all[i] == sg[i]);
        }
        let j = choose|j: int| 0 <= j < all.len() && all[j] == k;
        assert(suggests_ns(ns)(all[j]));
        keys.lemma_filter_contains_rev(suggests_ns(ns), k);
    }
    if all.len() <= 5 && keys.contains(k) && (contains(k, ns) || contains(ns, k)) {
        let i = choose|i: int| 0 <= i < keys.len() && keys[i] == k;
        assert(suggests_ns(ns)(keys[i]));
        assert(all.contains(keys[i]));
    }
}

/// The suggestions for a missing namespace.
fn suggest_namespaces(registry: &Registry, ns: &str) -> (r: Vec<String>)
    ensures
        strs(r@) == namespace_suggestions(registry.apis.names(), ns@),
{
    let keys = registry.apis.keys();
    let ghost ks = registry.apis.names();
    assert(strs(keys@) =~= keys@.map_values(|s: String| s@));
    let nc = chars_of(ns);
    let mut out: Vec<String> = Vec::new();
    let mut i: usize = 0;
    while i < keys.len()
        invariant
            i <= keys@.len(),
            strs(keys@) == ks,
            ks == registry.apis.names(),
            nc@ == ns@,
            strs(out@) == ks.take(i as int).filter(
                suggests_ns(ns@),
            ),
            out@.len() < 5,
        decreases keys@.len() - i,
    {
        proof {
            reveal(Seq::filter);
        }
        assert(ks.take(i + 1).drop_last() =~= ks.take(i as int));
        assert(ks.take(i + 1).last() == keys@[i as int]@);
        let kc = chars_of(keys[i].as_str());
        if contains_chars(kc.as_slice(), nc.as_slice()) || contains_chars(
            nc.as_slice(),
            kc.as_slice(),
        ) {
            let ghost prev = strs(out@);
            out.push(owned(keys[i].as_str()));
            assert(strs(out@) =~= prev.push(keys@[i as int]@));
            proof {
                reveal(Seq::filter);
                assert(ks.take(i + 1).filter(suggests_ns(ns@)) == ks.take(i as int).filter(
                    suggests_ns(ns@),
                ).push(keys@[i as int]@));
            }
            if out.len() >= 5 {
                proof {
                    lemma_filter_prefix(ks, i + 1, ns@);
                    let all = ks.filter(suggests_ns(ns@));
                    assert(strs(out@).is_prefix_of(all));
                    assert(all.take(5) =~= strs(out@));
                    if all.len() == 5 {
                        assert(all =~= strs(out@));
                    }
                }
                return out;
            }
        }
        i = i + 1;
    }
    assert(ks.take(keys@.len() as int) =~= ks);
    out
}

/// Filtering a prefix of a sequence gives a prefix of the filtered whole.
proof fn lemma_filter_prefix(ks: Seq<Seq<char>>, i: int, ns: Seq<char>)
    requires
        0 <= i <= ks.len(),
    ensures
        ks.take(i).filter(suggests_ns(ns)).is_prefix_of(
            ks.filter(suggests_ns(ns)),
        ),
    decreases ks.len() - i,
{
    reveal(Seq::filter);
    if i < ks.len() {
        lemma_filter_prefix(ks, i + 1, ns);
        assert(ks.take(i + 1).drop_last() =~= ks.take(i));
    } else {
        assert(ks.take(i) =~= ks);
    }
}

/// Checks what `apix pull <namespace>[/<version>]` asks for against the
/// source's registry: the source must have been fetched, the namespace be
/// in its registry, and the version, when given, be one of its versions.
pub fn pull_namespace(
    namespace_arg: &str,
    source: &str,
    source_exists: bool,
    registry: &Registry,
) -> (r: Result<PullPlan, ApixError>)
    ensures
        !source_exists ==> (r matches Err(ApixError::Git(m)) && m@ == "Source `"@ + source@
            + "` not found. Run `apix update --source "@ + source@ + "` first."@),
        source_exists ==> ({
            let (ns, ver) = match split_once(namespace_arg@, '/') {
                Some((a, b)) => (a, Some(b)),
                None => (namespace_arg@, None::<Seq<char>>),
            };
            if !registry.apis.apis().contains_key(ns) {
                r matches Err(ApixError::VaultNotFound(m)) && m@ == missing_namespace_message(
                    ns,
                    namespace_suggestions(registry.apis.names(), ns),
                )
            } else {
                let versions = strs(registry.apis.apis()[ns].versions@);
                match ver {
                    Some(v) => if !versions.contains(v) {
                        r matches Err(ApixError::VaultNotFound(m)) && m@ == "Version `"@ + v
                            + "` not found in namespace `"@ + ns + "`. Available versions: "@
                            + join(versions, ", "@)
                    } else {
                        &&& r matches Ok(p)
                        &&& r->Ok_0.namespace@ == ns
                        &&& (r->Ok_0.version matches Some(pv) && pv@ == v)
                        &&& r->Ok_0.checkout_path@ == ns + "/"@ + v + "/"@
                        &&& r->Ok_0.description@ == source@ + "/"@ + ns + "/"@ + v
                    },
                    None => r matches Ok(p) && p.namespace@ == ns && p.version is None
                        && p.checkout_path@ == ns + "/"@ && p.description@ == source@ + "/"@ + ns,
                }
            }
        }),
{
    if !source_exists {
        let mut m: Vec<char> = Vec::new();
        extend_str(&mut m, "Source `");
        extend_str(&mut m, source);
        extend_str(&mut m, "` not found. Run `apix update --source ");
        extend_str(&mut m, source);
        extend_str(&mut m, "` first.");
        return Err(ApixError::Git(string_of(m.as_slice())));
    }
    let arg = chars_of(namespace_arg);
    let (nsc, verc) = match split_once_chars(arg.as_slice(), '/') {
        Some((a, b)) => (a, Some(b)),
        None => (arg, None),
    };
    let ns = string_of(nsc.as_slice());
    let entry = match registry.apis.get(ns.as_str()) {
        Some(e) => e,
        None => {
            let sugg = suggest_namespaces(registry, ns.as_str());
            let mut m: Vec<char> = Vec::new();
            extend_str(&mut m, "Namespace `");
            extend_str(&mut m, ns.as_str());
            if sugg.len() == 0 {
                extend_str(&mut m, "` not found in registry");
            } else {
                extend_str(&mut m, "` not found in registry. Did you mean: ");
                let j = crate::text::join_strings(sugg.as_slice(), ", ");
                extend_str(&mut m, j.as_str());
            }
            return Err(ApixError::VaultNotFound(string_of(m.as_slice())));
        },
    };
    let mut path: Vec<char> = Vec::new();
    extend_str(&mut path, ns.as_str());
    extend_str(&mut path, "/");
    let mut desc: Vec<char> = Vec::new();
    extend_str(&mut desc, source);
    extend_str(&mut desc, "/");
    extend_str(&mut desc, ns.as_str());
    match verc {
        Some(vc) => {
            let v = string_of(vc.as_slice());
            if !crate::text::contains_string(entry.versions.as_slice(), v.as_str()) {
                let mut m: Vec<char> = Vec::new();
                extend_str(&mut m, "Version `");
                extend_str(&mut m, v.as_str());
                extend_str(&mut m, "` not found in namespace `");
                extend_str(&mut m, ns.as_str());
                extend_str(&mut m, "`. Available versions: ");
                let j = crate::text::join_strings(entry.versions.as_slice(), ", ");
                extend_str(&mut m, j.as_str());
                return Err(ApixError::VaultNotFound(string_of(m.as_slice())));
            }
            extend_str(&mut path, v.as_str());
            extend_str(&mut path, "/");
            extend_str(&mut desc, "/");
            extend_str(&mut desc, v.as_str());
            Ok(
                PullPlan {
                    namespace: ns,
                    version: Some(v),
                    checkout_path: string_of(path.as_slice()),
                    description: string_of(desc.as_slice()),
                },
            )
        },
        None => Ok(
            PullPlan {
                namespace: ns,
                version: None,
                checkout_path: string_of(path.as_slice()),
                description: string_of(desc.as_slice()),
            },
        ),
    }
}

/// Whether `git status --porcelain` output shows changes to discard before
/// a sync: a non-blank line other than apix's own untracked lock and time
/// stamp files.
pub open spec fn has_local_changes(status: Seq<char>) -> bool {
    exists|i: int|
        0 <= i < lines(status).len() && {
            let t = trim(#[trigger] lines(status)[i]);
            t.len() > 0 && t != "?? .auto-update.lock"@ && t != "?? .last-updated"@
        }
}

/// Decides from `git status --porcelain` output whether a checkout has
/// local changes to discard (`git reset --hard HEAD`, `git clean -fd`).
pub fn restore_local_changes(status: &str) -> (r: bool)
    ensures
        r == has_local_changes(status@),
{
    let ls = lines_of_str(status);
    let mut i: usize = 0;
    while i < ls.len()
        invariant
            i <= ls@.len(),
            crate::text::views(ls@) == lines(status@),
            forall|j: int|
                0 <= j < i ==> !({
                    let t = trim(#[trigger] lines(status@)[j]);
                    t.len() > 0 && t != "?? .auto-update.lock"@ && t != "?? .last-updated"@
                }),
        decreases ls@.len() - i,
    {
        assert(lines(status@)[i as int] == ls@[i as int]@);
        let t = trim_chars(ls[i].as_slice());
        if t.len() > 0 && !chars_eq_str(t.as_slice(), "?? .auto-update.lock") && !chars_eq_str(
            t.as_slice(),
            "?? .last-updated",
        ) {
            return true;
        }
        i = i + 1;
    }
    false
}

/// The remote a source is synced from; a configuration error when it has
/// none.
pub fn sync_remote(source: &str, cfg: &Config, env: &EnvOverrides) -> (r: Result<String, ApixError>)
    ensures
        match r {
            Ok(u) => crate::registry::has_remote(cfg, source@),
            Err(e) => !crate::registry::has_remote(cfg, source@) && (e matches ApixError::Config(m)
                && m@ == "No remote configured for source `"@ + source@ + "`"@),
        },
        source@ == "core"@ ==> (r matches Ok(u) && u@ == match env.registry_url {
            Some(e) => e@,
            None => cfg.registry.remote@,
        }),
        source@ != "core"@ && cfg.source.remotes().contains_key(source@) ==> (r matches Ok(u)
            && u@ == cfg.source.remotes()[source@]),
{
    match cfg.source_remote(source, env) {
        Some(u) => Ok(u),
        None => {
            let mut m: Vec<char> = Vec::new();
            extend_str(&mut m, "No remote configured for source `");
            extend_str(&mut m, source);
            extend_str(&mut m, "`");
            Err(ApixError::Config(string_of(m.as_slice())))
        },
    }
}

/// Adds a named source with its remote to the configuration, and to the
/// source order when it is not there yet.
pub fn source_add(name: &str, remote: &str, cfg: &mut Config) -> (r: Result<(), ApixError>)
    ensures
        match crate::config::source_name_error(name@) {
            Some(m) => r matches Err(ApixError::Config(x)) && x@ == m,
            None => r is Ok,
        },
        r is Ok ==> final(cfg).source.remotes() == old(cfg).source.remotes().insert(name@, remote@)
            && strs(final(cfg).sources@) == crate::text::append_unique(
            strs(old(cfg).sources@),
            seq![name@],
        ) && final(cfg).registry == old(cfg).registry && final(cfg).auto_update == old(
            cfg,
        ).auto_update && final(cfg).auto_update_ttl_seconds == old(cfg).auto_update_ttl_seconds
            && final(cfg).color == old(cfg).color && final(cfg).pager == old(cfg).pager,
        r is Err ==> *final(cfg) == *old(cfg),
{
    let v = Config::validate_source_name(name);
    if v.is_err() {
        return v;
    }
    cfg.source.insert(owned(name), SourceConfig { remote: owned(remote) });
    let mut one: Vec<String> = Vec::new();
    one.push(owned(name));
    assert(strs(one@) =~= seq![name@]);
    crate::text::push_unique_all(&mut cfg.sources, one.as_slice());
    Ok(())
}

/// The sources without a name.
pub open spec fn without(s: Seq<Seq<char>>, name: Seq<char>) -> Seq<Seq<char>> {
    s.filter(|x: Seq<char>| x != name)
}

/// Without a name that does not occur, a sequence is unchanged.
proof fn lemma_without_absent(s: Seq<Seq<char>>, name: Seq<char>)
    requires
        !s.contains(name),
    ensures
        without(s, name) == s,
    decreases s.len(),
{
    reveal(Seq::filter);
    if s.len() > 0 {
        assert(s.drop_last().contains(name) ==> s.contains(name)) by {
            if s.drop_last().contains(name) {
                let i = choose|i: int| 0 <= i < s.drop_last().len() && s.drop_last()[i] == name;
                assert(s[i] == name);
            }
        }
        lemma_without_absent(s.drop_last(), name);
        assert(s.last() != name) by {
            assert(s[s.len() - 1] == s.last());
        }
        assert(s.drop_last().push(s.last()) =~= s);
    }
}

/// A source that was added has the given remote, so it can be refreshed,
/// and is in the source order; once removed again it has no remote, is not
/// in the order, and the other remotes are as before the addition. A
/// source that was neither in the order nor configured before leaves the
/// order and the remotes as they were.
pub proof fn law_source_add_then_remove(
    before: Config,
    added: Config,
    removed: Config,
    name: Seq<char>,
    remote: Seq<char>,
)
    requires
        added.source.remotes() == before.source.remotes().insert(name, remote),
        strs(added.sources@) == crate::text::append_unique(strs(before.sources@), seq![name]),
        removed.source.remotes() == added.source.remotes().remove(name),
        strs(removed.sources@) == without(strs(added.sources@), name),
    ensures
        added.source.remotes().contains_key(name),
        added.source.remotes()[name] == remote,
        crate::registry::has_remote(&added, name),
        strs(added.sources@).contains(name),
        !removed.source.remotes().contains_key(name),
        !crate::registry::has_remote(&removed, name) || name == "core"@,
        !strs(removed.sources@).contains(name),
        removed.source.remotes() == before.source.remotes().remove(name),
        !strs(before.sources@).contains(name) ==> strs(removed.sources@) == strs(before.sources@),
        !before.source.remotes().contains_key(name) ==> removed.source.remotes()
            == before.source.remotes(),
{
    let b = strs(before.sources@);
    assert(seq![name].drop_last() =~= Seq::<Seq<char>>::empty());
    assert(crate::text::append_unique(b, Seq::<Seq<char>>::empty()) == b);
    if !b.contains(name) {
        assert(b.push(name)[b.len() as int] == name);
    }
    let pred = |x: Seq<char>| x != name;
    broadcast use vstd::seq_lib::group_filter_ensures;
    if strs(removed.sources@).contains(name) {
        let i = choose|i: int| 0 <= i < strs(removed.sources@).len() && strs(removed.sources@)[i] == name;
        assert(pred(strs(added.sources@).filter(pred)[i]));
    }
    assert(removed.source.remotes() =~= before.source.remotes().remove(name));
    if !b.contains(name) {
        assert(strs(added.sources@) == b.push(name));
        reveal(Seq::filter);
        assert(b.push(name).drop_last() =~= b);
        assert(without(b.push(name), name) == without(b, name));
        lemma_without_absent(b, name);
    }
    if !before.source.remotes().contains_key(name) {
        assert(before.source.remotes().remove(name) =~= before.source.remotes());
    }
}

/// Removes a named source from the configuration and the source order.
pub fn source_remove(name: &str, cfg: &mut Config) -> (r: Result<(), ApixError>)
    ensures
        match crate::config::source_name_error(name@) {
            Some(m) => r matches Err(ApixError::Config(x)) && x@ == m,
            None => r is Ok,
        },
        r is Ok ==> final(cfg).source.remotes() == old(cfg).source.remotes().remove(name@)
            && strs(final(cfg).sources@) == without(strs(old(cfg).sources@), name@)
            && final(cfg).registry == old(cfg).registry && final(cfg).auto_update == old(
            cfg,
        ).auto_update && final(cfg).auto_update_ttl_seconds == old(cfg).auto_update_ttl_seconds
            && final(cfg).color == old(cfg).color && final(cfg).pager == old(cfg).pager,
        r is Err ==> *final(cfg) == *old(cfg),
{
    let v = Config::validate_source_name(name);
    if v.is_err() {
        return v;
    }
    cfg.source.remove(name);
    let mut kept: Vec<String> = Vec::new();
    let ghost all = strs(cfg.sources@);
    let mut i: usize = 0;
    while i < cfg.sources.len()
        invariant
            i <= cfg.sources@.len(),
            all == strs(cfg.sources@),
            strs(kept@) == without(all.take(i as int), name@),
        decreases cfg.sources@.len() - i,
    {
        proof {
            reveal(Seq::filter);
        }
        assert(all.take(i + 1).drop_last() =~= all.take(i as int));
        assert(all.take(i + 1).last() == cfg.sources@[i as int]@);
        if !str_eq(cfg.sources[i].as_str(), name) {
            let ghost prev = strs(kept@);
            kept.push(owned(cfg.sources[i].as_str()));
            assert(strs(kept@) =~= prev.push(cfg.sources@[i as int]@));
        }
        i = i + 1;
    }
    assert(all.take(cfg.sources@.len() as int) =~= all);
    cfg.sources = kept;
    Ok(())
}

/// One line of `apix source list`: the source name padded to 12 columns,
/// then its remote or `(no remote configured)`.
pub open spec fn source_line(name: Seq<char>, remote: Option<Seq<char>>) -> Seq<char> {
    crate::registry::pad_right(name, 12) + " "@ + match remote {
        Some(u) => u,
        None => "(no remote configured)"@,
    }
}

/// The remote `apix source list` shows for a source: the registry URL for
/// `core` (the environment's override first), the configured remote of a
/// third-party source, else none.
pub open spec fn listed_remote(cfg: &Config, env: &EnvOverrides, s: Seq<char>) -> Option<Seq<char>> {
    if s == "core"@ {
        Some(
            match env.registry_url {
                Some(e) => e@,
                None => cfg.registry.remote@,
            },
        )
    } else if cfg.source.remotes().contains_key(s) {
        Some(cfg.source.remotes()[s])
    } else {
        None
    }
}

/// `l` is the line of source `s` as listed: with colours off exactly
/// [`source_line`], with colours on [`source_line`] of the name as colored
/// shows it.
pub open spec fn source_line_shown(
    l: Seq<char>,
    s: Seq<char>,
    remote: Option<Seq<char>>,
    colors_disabled: bool,
) -> bool {
    &&& colors_disabled ==> l == source_line(s, remote)
    &&& (l == source_line(s, remote) || l == source_line(
        crate::output::colored_text(s, crate::output::green_underline_code()),
        remote,
    ))
}

/// The lines of `apix source list`, in priority order (see
/// [`source_line_shown`]).
pub fn source_list(cfg: &Config, env: &EnvOverrides, colors_disabled: bool) -> (r: Vec<String>)
    ensures
        r@.len() == crate::vault::resolver::prio_of(cfg, env).len(),
        forall|i: int|
            0 <= i < r@.len() ==> {
                let s = crate::vault::resolver::prio_of(cfg, env)[i];
                source_line_shown(#[trigger] r@[i]@, s, listed_remote(cfg, env, s), colors_disabled)
            },
{
    let order = cfg.source_priority(env);
    let ghost prio = strs(order@);
    let mut out: Vec<String> = Vec::new();
    let mut i: usize = 0;
    while i < order.len()
        invariant
            i <= order@.len(),
            prio == strs(order@),
            prio == crate::vault::resolver::prio_of(cfg, env),
            out@.len() == i,
            forall|k: int|
                0 <= k < i ==> {
                    let s = prio[k];
                    source_line_shown(#[trigger] out@[k]@, s, listed_remote(cfg, env, s), colors_disabled)
                },
        decreases order@.len() - i,
    {
        let s = order[i].as_str();
        assert(prio[i as int] == s@);
        let name = crate::output::fmt_source(s, colors_disabled);
        let mut line: Vec<char> = Vec::new();
        crate::registry::pad_to(&mut line, name.as_str(), 12);
        extend_str(&mut line, " ");
        match cfg.source_remote(s, env) {
            Some(u) => extend_str(&mut line, u.as_str()),
            None => extend_str(&mut line, "(no remote configured)"),
        }
        let ghost prev = out@;
        let l = string_of(line.as_slice());
        assert(l@ =~= source_line(name@, listed_remote(cfg, env, s@)));
        out.push(l);
        assert(forall|k: int| 0 <= k < i ==> out@[k] == prev[k]);
        assert(source_line_shown(out@[i as int]@, s@, listed_remote(cfg, env, s@), colors_disabled));
        i = i + 1;
    }
    out
}

} // verus!
