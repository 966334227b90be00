//! Configuration: defaults, source priority, known sources and remotes,
//! with the environment overrides handed in as plain values.

use vstd::prelude::*;
use crate::error::ApixError;
use crate::text::{
    append_unique, ascii_lower, ascii_lower_chars, chars_eq_str, chars_of, clone_strings, concat3,
    drop_empty, drop_empty_vecs, has_char, owned, parse_u64, parse_u64_chars, push_unique_all,
    split_char, split_chars, str_eq, strings_of, strs, trim, trim_chars, trim_str, views,
};

verus! {

/// The default registry remote.
pub open spec fn default_remote() -> Seq<char> {
    "https://github.com/apix-sh/vault.git"@
}

/// The built-in sources, in default priority order.
pub open spec fn builtin_sources() -> Seq<Seq<char>> {
    seq![".local"@, "core"@]
}

/// Where the core registry is fetched from.
#[derive(Debug, Clone)]
pub struct RegistryConfig {
    pub remote: String,
}

impl RegistryConfig {
    /// The default registry remote.
    pub fn default() -> (r: Self)
        ensures
            r.remote@ == default_remote(),
    {
        RegistryConfig { remote: owned("https://github.com/apix-sh/vault.git") }
    }
}

/// Where a third-party source is fetched from.
#[derive(Debug, Clone)]
pub struct SourceConfig {
    pub remote: String,
}

/// Named third-party sources, each name at most once, in insertion order.
#[derive(Debug)]
pub struct SourceTable {
    entries: Vec<(String, SourceConfig)>,
}

/// The names of a list of entries.
pub open spec fn entry_names(e: Seq<(String, SourceConfig)>) -> Seq<Seq<char>> {
    e.map_values(|x: (String, SourceConfig)| x.0@)
}

impl SourceTable {
    #[verifier::type_invariant]
    spec fn distinct_names(self) -> bool {
        entry_names(self.entries@).no_duplicates()
    }

    /// The names, in insertion order.
    pub closed spec fn names(self) -> Seq<Seq<char>> {
        entry_names(self.entries@)
    }

    /// Name to remote.
    pub closed spec fn remotes(self) -> Map<Seq<char>, Seq<char>> {
        Map::new(
            |k: Seq<char>| self.names().contains(k),
            |k: Seq<char>|
                self.entries@[self.names().index_of(k)].1.remote@,
        )
    }

    /// An empty table.
    pub fn new() -> (r: Self)
        ensures
            r.names() == Seq::<Seq<char>>::empty(),
            r.remotes() == Map::<Seq<char>, Seq<char>>::empty(),
    {
        let r = SourceTable { entries: Vec::new() };
        assert(r.names() =~= Seq::<Seq<char>>::empty());
        assert(r.remotes() =~= Map::<Seq<char>, Seq<char>>::empty());
        r
    }

    /// Whether no source is named.
    pub fn is_empty(&self) -> (r: bool)
        ensures
            r == (self.names().len() == 0),
    {
        self.entries.len() == 0
    }

    /// The number of named sources.
    pub fn len(&self) -> (r: usize)
        ensures
            r == self.names().len(),
    {
        self.entries.len()
    }

    /// The position of a name.
    fn position(&self, name: &str) -> (r: Option<usize>)
        ensures
            match r {
                Some(i) => i < self.names().len() && self.names()[i as int] == name@,
                None => !self.names().contains(name@),
            },
    {
        let mut i: usize = 0;
        while i < self.entries.len()
            invariant
                i <= self.entries@.len(),
                forall|j: int| 0 <= j < i ==> self.names()[j] != name@,
            decreases self.entries@.len() - i,
        {
            if str_eq(self.entries[i].0.as_str(), name) {
                return Some(i);
            }
            i = i + 1;
        }
        None
    }

    /// The remote of a named source, if it is known.
    pub fn get(&self, name: &str) -> (r: Option<&SourceConfig>)
        ensures
            match r {
                Some(c) => self.remotes().contains_key(name@) && c.remote@ == self.remotes()[name@],
                None => !self.remotes().contains_key(name@),
            },
    {
        proof {
            use_type_invariant(self);
        }
        match self.position(name) {
            Some(i) => {
                proof {
                    self.names().index_of_first_ensures(name@);
                    assert(self.names().contains(name@));
                    let k = self.names().index_of(name@);
                    assert(self.names()[k] == name@);
                    assert(k == i);
                }
                Some(&self.entries[i].1)
            },
            None => None,
        }
    }

    /// The names, in insertion order.
    pub fn keys(&self) -> (r: Vec<String>)
        ensures
            r@.map_values(|s: String| s@) == self.names(),
    {
        let mut r: Vec<String> = Vec::new();
        let mut i: usize = 0;
        while i < self.entries.len()
            invariant
                i <= self.entries@.len(),
                r@.map_values(|s: String| s@) == self.names().take(i as int),
            decreases self.entries@.len() - i,
        {
            let k = owned(self.entries[i].0.as_str());
            assert(self.names()[i as int] == k@);
            let ghost prev = r@;
            r.push(k);
            assert(r@.map_values(|s: String| s@) =~= prev.map_values(|s: String| s@).push(k@));
            assert(self.names().take(i + 1) =~= self.names().take(i as int).push(k@));
            i = i + 1;
        }
        assert(self.names().take(self.names().len() as int) =~= self.names());
        r
    }

    /// Adds or replaces a named source.
    pub fn insert(&mut self, name: String, config: SourceConfig)
        ensures
            final(self).remotes() == old(self).remotes().insert(name@, config.remote@),
            old(self).names().contains(name@) ==> final(self).names() == old(self).names(),
            !old(self).names().contains(name@) ==> final(self).names() == old(self).names().push(
                name@,
            ),
    {
        proof {
            use_type_invariant(&*self);
        }
        let ghost old_names = self.names();
        let ghost old_remotes = self.remotes();
        let ghost nm = name@;
        let ghost rm = config.remote@;
        let pos = self.position(name.as_str());
        let mut entries: Vec<(String, SourceConfig)> = Vec::new();
        std::mem::swap(&mut entries, &mut self.entries);
        assert(entry_names(entries@) == old_names);
        match pos {
            Some(i) => {
                entries.set(i, (name, config));
                assert(entry_names(entries@) =~= old_names);
                proof {
                    let t = SourceTable { entries };
                    assert(t.names() =~= old_names);
                    assert forall|k: Seq<char>| #[trigger] t.remotes().contains_key(k) implies
                        t.remotes()[k] == old_remotes.insert(nm, rm)[k] by {
                        old_names.index_of_first_ensures(k);
                        if k == nm {
                            assert(old_names[i as int] == nm);
                            assert(old_names.index_of(nm) == i);
                        } else {
                            assert(old_names[old_names.index_of(k)] == k);
                        }
                    }
                    assert(t.remotes() =~= old_remotes.insert(nm, rm));
                }
            },
            None => {
                entries.push((name, config));
                assert(entry_names(entries@) =~= old_names.push(nm));
                proof {
                    let t = SourceTable { entries };
                    assert forall|a: int, b: int|
                        0 <= a < t.names().len() && 0 <= b < t.names().len() && a != b implies t.names()[a]
                        != t.names()[b] by {
                        if b == old_names.len() {
                            assert(old_names.contains(old_names[a]));
                        }
                        if a == old_names.len() {
                            assert(old_names.contains(old_names[b]));
                        }
                    }
                    assert forall|k: Seq<char>| #[trigger] t.remotes().contains_key(k) implies
                        t.remotes()[k] == old_remotes.insert(nm, rm)[k] by {
                        if k == nm {
                            assert(t.names()[old_names.len() as int] == nm);
                        } else {
                            assert(old_names.contains(k));
                            let j = old_names.index_of(k);
                            assert(t.names()[j] == k);
                        }
                    }
                    assert forall|k: Seq<char>| old_remotes.insert(nm, rm).contains_key(k) implies
                        #[trigger] t.remotes().contains_key(k) by {
                        if k == nm {
                            assert(t.names()[old_names.len() as int] == nm);
                        } else {
                            let j = old_names.index_of(k);
                            assert(t.names()[j] == k);
                        }
                    }
                    assert(t.remotes() =~= old_remotes.insert(nm, rm));
                }
            },
        }
        self.entries = entries;
    }

    /// Removes a named source, if it is there.
    pub fn remove(&mut self, name: &str)
        ensures
            final(self).remotes() == old(self).remotes().remove(name@),
            final(self).names() == old(self).names().remove_value(name@),
    {
        proof {
            use_type_invariant(&*self);
        }
        let ghost old_names = self.names();
        let ghost old_remotes = self.remotes();
        let ghost nm = name@;
        match self.position(name) {
            Some(i) => {
                let mut entries: Vec<(String, SourceConfig)> = Vec::new();
                std::mem::swap(&mut entries, &mut self.entries);
                let ghost before = entries@;
                let _gone = entries.remove(i);
                assert(entry_names(entries@) =~= old_names.remove(i as int));
                proof {
                    old_names.index_of_first_ensures(nm);
                    assert(old_names.index_of_first(nm) == Some(i as int));
                    let t = SourceTable { entries };
                    assert(t.names().no_duplicates());
                    assert forall|k: Seq<char>| #[trigger] t.remotes().contains_key(k) implies
                        t.remotes()[k] == old_remotes.remove(nm)[k] by {
                        assert(t.names().contains(k));
                        let j = t.names().index_of(k);
                        if j < i {
                            assert(old_names[j] == k);
                        } else {
                            assert(old_names[j + 1] == k);
                        }
                    }
                    assert forall|k: Seq<char>| old_remotes.remove(nm).contains_key(k) implies
                        #[trigger] t.remotes().contains_key(k) by {
                        let j = old_names.index_of(k);
                        if j < i {
                            assert(t.names()[j] == k);
                        } else {
                            assert(t.names()[j - 1] == k);
                        }
                    }
                    assert(t.remotes() =~= old_remotes.remove(nm));
                }
                self.entries = entries;
            },
            None => {
                proof {
                    old_names.index_of_first_ensures(nm);
                    assert(old_remotes.remove(nm) =~= old_remotes);
                }
            },
        }
    }
}


/// Environment overrides of the configuration, as read from the process
/// environment (`APIX_SOURCES`, `APIX_REGISTRY_URL`, `APIX_AUTO_UPDATE`,
/// `APIX_AUTO_UPDATE_TTL_SECONDS`); `None` where a variable is unset.
#[derive(Debug)]
pub struct EnvOverrides {
    pub sources: Option<String>,
    pub registry_url: Option<String>,
    pub auto_update: Option<String>,
    pub auto_update_ttl_seconds: Option<String>,
}

impl EnvOverrides {
    /// No variable set.
    pub fn none() -> (r: Self)
        ensures
            r.sources is None,
            r.registry_url is None,
            r.auto_update is None,
            r.auto_update_ttl_seconds is None,
    {
        EnvOverrides { sources: None, registry_url: None, auto_update: None, auto_update_ttl_seconds: None }
    }
}

/// The user configuration (`config.toml`).
#[derive(Debug)]
pub struct Config {
    pub color: bool,
    pub pager: Option<String>,
    pub auto_update: bool,
    pub auto_update_ttl_seconds: u64,
    pub sources: Vec<String>,
    pub source: SourceTable,
    pub registry: RegistryConfig,
}

/// Auto-update is on unless configured off.
pub fn default_auto_update() -> (r: bool)
    ensures
        r,
{
    true
}

/// Six hours.
pub fn default_auto_update_ttl_seconds() -> (r: u64)
    ensures
        r == 21_600,
{
    21_600
}

impl Default for Config {
    fn default() -> (r: Self)
        ensures
            r.color,
            r.pager is None,
            r.auto_update,
            r.auto_update_ttl_seconds == 21_600,
            strs(r.sources@) == builtin_sources(),
            r.source.names() == Seq::<Seq<char>>::empty(),
            r.source.remotes() == Map::<Seq<char>, Seq<char>>::empty(),
            r.registry.remote@ == default_remote(),
    {
        let mut sources: Vec<String> = Vec::new();
        sources.push(owned(".local"));
        sources.push(owned("core"));
        assert(strs(sources@) =~= builtin_sources());
        Config {
            color: true,
            pager: None,
            auto_update: default_auto_update(),
            auto_update_ttl_seconds: default_auto_update_ttl_seconds(),
            sources,
            source: SourceTable::new(),
            registry: RegistryConfig::default(),
        }
    }
}

/// The source names listed in `APIX_SOURCES`: comma-separated, trimmed,
/// empty ones dropped.
pub open spec fn env_source_list(v: Seq<char>) -> Seq<Seq<char>> {
    drop_empty(split_char(v, ',').map_values(|x: Seq<char>| trim(x)))
}

/// The source priority order: `APIX_SOURCES` when it names at least one
/// source, else the configured list, else the built-in sources.
pub open spec fn priority(configured: Seq<Seq<char>>, env: Option<Seq<char>>) -> Seq<Seq<char>> {
    if env is Some && env_source_list(env->0).len() > 0 {
        env_source_list(env->0)
    } else if configured.len() == 0 {
        builtin_sources()
    } else {
        configured
    }
}

/// The view of an optional string.
pub open spec fn opt_view(o: Option<String>) -> Option<Seq<char>> {
    match o {
        Some(s) => Some(s@),
        None => None,
    }
}

/// Every known source: the priority order, then the built-in sources, then
/// the named third-party sources, each once.
pub open spec fn known(prio: Seq<Seq<char>>, named: Seq<Seq<char>>) -> Seq<Seq<char>> {
    append_unique(append_unique(append_unique(Seq::empty(), prio), builtin_sources()), named)
}

/// Every source is known once: the known sources hold no name twice, and
/// hold exactly the sources of the priority order, `.local`, `core`, and
/// the named third-party sources.
pub proof fn law_known_sources_each_once(prio: Seq<Seq<char>>, named: Seq<Seq<char>>)
    ensures
        known(prio, named).no_duplicates(),
        forall|x: Seq<char>| #[trigger] known(prio, named).contains(x) <==> (prio.contains(x) || builtin_sources().contains(x) || named.contains(x)),
{
    let e = Seq::<Seq<char>>::empty();
    crate::text::lemma_append_unique(e, prio);
    let a = crate::text::append_unique(e, prio);
    crate::text::lemma_append_unique(a, builtin_sources());
    let b = crate::text::append_unique(a, builtin_sources());
    crate::text::lemma_append_unique(b, named);
    assert forall|x: Seq<char>| #[trigger] known(prio, named).contains(x) <==> (prio.contains(x) || builtin_sources().contains(x) || named.contains(x)) by {
        assert(!e.contains(x));
        assert(a.contains(x) <==> (e.contains(x) || prio.contains(x)));
        assert(b.contains(x) <==> (a.contains(x) || builtin_sources().contains(x)));
    }
}

/// `APIX_AUTO_UPDATE`-style booleans: `1/true/yes/on` and `0/false/no/off`,
/// trimmed and in any ASCII case.
pub open spec fn parse_bool(v: Seq<char>) -> Option<bool> {
    let l = ascii_lower(trim(v));
    if l == "1"@ || l == "true"@ || l == "yes"@ || l == "on"@ {
        Some(true)
    } else if l == "0"@ || l == "false"@ || l == "no"@ || l == "off"@ {
        Some(false)
    } else {
        None
    }
}

/// Why a name cannot be a third-party source: blank, containing `/`, or
/// one of the built-in sources; `None` when it can.
pub open spec fn source_name_error(name: Seq<char>) -> Option<Seq<char>> {
    if trim(name).len() == 0 {
        Some("Source name cannot be empty"@)
    } else if name.contains('/') {
        Some("Source name cannot contain '/'"@)
    } else if name == ".local"@ || name == "core"@ {
        Some("Source `"@ + name + "` is reserved and cannot be modified"@)
    } else {
        None
    }
}

/// Whether automatic updates are on: `APIX_AUTO_UPDATE` when it reads as a
/// boolean, else the configuration.
pub open spec fn auto_update_on(cfg: &Config, env: &EnvOverrides) -> bool {
    match env.auto_update {
        Some(v) => match parse_bool(v@) {
            Some(b) => b,
            None => cfg.auto_update,
        },
        None => cfg.auto_update,
    }
}

/// Parses a boolean environment value.
pub fn parse_bool_env(v: &str) -> (r: Option<bool>)
    ensures
        r == parse_bool(v@),
{
    let t = trim_str(v);
    let l = ascii_lower_chars(t.as_slice());
    let l = l.as_slice();
    if chars_eq_str(l, "1") || chars_eq_str(l, "true") || chars_eq_str(l, "yes") || chars_eq_str(
        l,
        "on",
    ) {
        Some(true)
    } else if chars_eq_str(l, "0") || chars_eq_str(l, "false") || chars_eq_str(l, "no")
        || chars_eq_str(l, "off") {
        Some(false)
    } else {
        None
    }
}

/// Whether a directory directly under `vaults/` is a namespace of the old
/// layout, to be moved into the local source: its name is neither a known
/// source nor `.local` or `core`, some directory in it holds `_metadata.md`
/// (`has_version_dir`), and the local source has no entry of that name yet
/// (`local_has_name`).
pub fn is_legacy_namespace(name: &str, known: &[String], has_version_dir: bool, local_has_name: bool) -> (r: bool)
    ensures
        r == (!strs(known@).contains(name@) && name@ != ".local"@ && name@ != "core"@
            && has_version_dir && !local_has_name),
{
    if crate::text::contains_string(known, name) || str_eq(name, ".local") || str_eq(name, "core") {
        return false;
    }
    has_version_dir && !local_has_name
}

/// The sources named by an `APIX_SOURCES` value.
pub fn env_sources(v: &str) -> (r: Vec<String>)
    ensures
        strs(r@) == env_source_list(v@),
{
    let cs = chars_of(v);
    let parts = split_chars(cs.as_slice(), ',');
    let mut trimmed: Vec<Vec<char>> = Vec::new();
    let mut i: usize = 0;
    while i < parts.len()
        invariant
            i <= parts@.len(),
            views(trimmed@) == views(parts@).take(i as int).map_values(|x: Seq<char>| trim(x)),
        decreases parts@.len() - i,
    {
        let t = trim_chars(parts[i].as_slice());
        let ghost prev = views(trimmed@);
        trimmed.push(t);
        assert(views(trimmed@) =~= prev.push(t@));
        assert(views(parts@).take(i + 1).map_values(|x: Seq<char>| trim(x)) =~= views(
            parts@,
        ).take(i as int).map_values(|x: Seq<char>| trim(x)).push(trim(parts@[i as int]@)));
        i = i + 1;
    }
    assert(views(parts@).take(parts@.len() as int) =~= views(parts@));
    let kept = drop_empty_vecs(trimmed.as_slice());
    strings_of(kept.as_slice())
}

/// The home directory of apix: `APIX_HOME` when set, else `.apix` under the
/// user's home directory.
pub open spec fn home_spec(env_home: Option<Seq<char>>, user_home: Option<Seq<char>>) -> Option<
    Seq<char>,
> {
    match env_home {
        Some(h) => Some(h),
        None => match user_home {
            Some(u) => Some(crate::paths::join(u, ".apix"@)),
            None => None,
        },
    }
}

impl Config {
    /// The apix home directory, from `APIX_HOME` (`env_home`) or the user's
    /// home directory (`user_home`).
    pub fn apix_home(env_home: Option<&str>, user_home: Option<&str>) -> (r: Result<
        String,
        ApixError,
    >)
        ensures
            match r {
                Ok(h) => home_spec(
                    match env_home {
                        Some(e) => Some(e@),
                        None => None,
                    },
                    match user_home {
                        Some(u) => Some(u@),
                        None => None,
                    },
                ) == Some(h@),
                Err(e) => env_home is None && user_home is None && e == ApixError::Config(
                    e->Config_0,
                ) && e->Config_0@ == "Unable to resolve home directory"@,
            },
    {
        match env_home {
            Some(h) => Ok(owned(h)),
            None => match user_home {
                Some(u) => Ok(crate::paths::join_str(u, ".apix")),
                None => Err(ApixError::Config(owned("Unable to resolve home directory"))),
            },
        }
    }

    /// The registry remote: `APIX_REGISTRY_URL` when set, else the configured one.
    pub fn registry_remote(&self, env: &EnvOverrides) -> (r: String)
        ensures
            r@ == match env.registry_url {
                Some(u) => u@,
                None => self.registry.remote@,
            },
    {
        match &env.registry_url {
            Some(u) => owned(u.as_str()),
            None => owned(self.registry.remote.as_str()),
        }
    }

    /// The source priority order.
    pub fn source_priority(&self, env: &EnvOverrides) -> (r: Vec<String>)
        ensures
            strs(r@) == priority(strs(self.sources@), opt_view(env.sources)),
    {
        if let Some(v) = &env.sources {
            let out = env_sources(v.as_str());
            if out.len() > 0 {
                return out;
            }
        }
        if self.sources.len() == 0 {
            let mut d: Vec<String> = Vec::new();
            d.push(owned(".local"));
            d.push(owned("core"));
            assert(strs(d@) =~= builtin_sources());
            d
        } else {
            clone_strings(self.sources.as_slice())
        }
    }

    /// Every known source, each once: the priority order, then `.local` and
    /// `core`, then the named third-party sources.
    pub fn known_sources(&self, env: &EnvOverrides) -> (r: Vec<String>)
        ensures
            strs(r@) == known(priority(strs(self.sources@), opt_view(env.sources)), self.source.names()),
    {
        let mut out: Vec<String> = Vec::new();
        assert(strs(out@) =~= Seq::<Seq<char>>::empty());
        let prio = self.source_priority(env);
        push_unique_all(&mut out, prio.as_slice());
        let mut b: Vec<String> = Vec::new();
        b.push(owned(".local"));
        b.push(owned("core"));
        assert(strs(b@) =~= builtin_sources());
        push_unique_all(&mut out, b.as_slice());
        let named = self.source.keys();
        push_unique_all(&mut out, named.as_slice());
        out
    }

    /// The remote a source is fetched from: the registry remote for `core`,
    /// the configured remote for a named source, none otherwise.
    pub fn source_remote(&self, name: &str, env: &EnvOverrides) -> (r: Option<String>)
        ensures
            name@ == "core"@ ==> (r matches Some(u) && u@ == (match env.registry_url {
                Some(e) => e@,
                None => self.registry.remote@,
            })),
            name@ != "core"@ ==> match r {
                Some(u) => self.source.remotes().contains_key(name@) && u@
                    == self.source.remotes()[name@],
                None => !self.source.remotes().contains_key(name@),
            },
    {
        if str_eq(name, "core") {
            return Some(self.registry_remote(env));
        }
        match self.source.get(name) {
            Some(c) => Some(owned(c.remote.as_str())),
            None => None,
        }
    }

    /// Checks that a third-party source name is usable: not blank, without
    /// `/`, and neither `.local` nor `core`.
    pub fn validate_source_name(name: &str) -> (r: Result<(), ApixError>)
        ensures
            match source_name_error(name@) {
                Some(m) => r matches Err(ApixError::Config(x)) && x@ == m,
                None => r is Ok,
            },
    {
        let t = trim_str(name);
        if t.len() == 0 {
            return Err(ApixError::Config(owned("Source name cannot be empty")));
        }
        let cs = chars_of(name);
        if has_char(cs.as_slice(), '/') {
            return Err(ApixError::Config(owned("Source name cannot contain '/'")));
        }
        if str_eq(name, ".local") || str_eq(name, "core") {
            return Err(
                ApixError::Config(concat3("Source `", name, "` is reserved and cannot be modified")),
            );
        }
        Ok(())
    }

    /// Whether search may refresh source registries: `APIX_AUTO_UPDATE` when it
    /// holds a boolean, else the configured value.
    pub fn auto_update_enabled(&self, env: &EnvOverrides) -> (r: bool)
        ensures
            r == match env.auto_update {
                Some(v) => match parse_bool(v@) {
                    Some(b) => b,
                    None => self.auto_update,
                },
                None => self.auto_update,
            },
    {
        match &env.auto_update {
            Some(v) => match parse_bool_env(v.as_str()) {
                Some(b) => b,
                None => self.auto_update,
            },
            None => self.auto_update,
        }
    }

    /// How old a source registry may get before search refreshes it:
    /// `APIX_AUTO_UPDATE_TTL_SECONDS` when it is a number, else the configured value.
    pub fn auto_update_ttl_seconds(&self, env: &EnvOverrides) -> (r: u64)
        ensures
            r == match env.auto_update_ttl_seconds {
                Some(v) => match parse_u64(v@) {
                    Some(n) => n,
                    None => self.auto_update_ttl_seconds,
                },
                None => self.auto_update_ttl_seconds,
            },
    {
        match &env.auto_update_ttl_seconds {
            Some(v) => {
                let cs = chars_of(v.as_str());
                match parse_u64_chars(cs.as_slice()) {
                    Some(n) => n,
                    None => self.auto_update_ttl_seconds,
                }
            },
            None => self.auto_update_ttl_seconds,
        }
    }
}

} // verus!
