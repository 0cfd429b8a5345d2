//! The configurations that the daemon has loaded, each under its path.
use crate::common::config::{
    law_same_definition, load_failure, same_values, Config, ConfigSource, LokiConfig, Script,
};
use crate::common::error::Error;
use crate::names::NameMap;
use crate::path::{key, parent, parent_path, same_path, PathKey};
use crate::text::texts;
use vstd::prelude::*;

verus! {

/// How a configuration changed: the names of scripts that came, that went, and
/// that stayed under another definition.
#[derive(Debug)]
pub struct ConfigDiff {
    pub added: Vec<String>,
    pub removed: Vec<String>,
    pub changed: Vec<String>,
}

/// The loaded configurations. Two paths with the same components are one path.
#[derive(Debug)]
pub struct ConfigManager {
    entries: Vec<(String, Config)>,
}

/// The names that do not occur in `m`, in order.
pub open spec fn absent_from(names: Seq<Seq<char>>, m: Map<Seq<char>, Script>) -> Seq<Seq<char>>
    decreases names.len(),
{
    if names.len() == 0 {
        names
    } else if m.contains_key(names.last()) {
        absent_from(names.drop_last(), m)
    } else {
        absent_from(names.drop_last(), m).push(names.last())
    }
}

/// The names that stand in both maps under different definitions, in order.
pub open spec fn differing(
    names: Seq<Seq<char>>,
    a: Map<Seq<char>, Script>,
    b: Map<Seq<char>, Script>,
) -> Seq<Seq<char>>
    decreases names.len(),
{
    if names.len() == 0 {
        names
    } else if b.contains_key(names.last()) && a[names.last()]@ != b[names.last()]@ {
        differing(names.drop_last(), a, b).push(names.last())
    } else {
        differing(names.drop_last(), a, b)
    }
}

/// The first of the configurations that has a script of the given name, or
/// the number of configurations.
pub open spec fn first_with(configs: Seq<Config>, name: Seq<char>) -> int
    decreases configs.len(),
{
    if configs.len() == 0 {
        0
    } else if configs[0].scripts@.contains_key(name) {
        0
    } else {
        1 + first_with(configs.drop_first(), name)
    }
}

/// A position whose configuration has the script, with none before it that
/// has, is the first with it.
proof fn lemma_first_with_is(configs: Seq<Config>, name: Seq<char>, i: int)
    requires
        0 <= i <= configs.len(),
        i < configs.len() ==> configs[i].scripts@.contains_key(name),
        forall|j: int| 0 <= j < i ==> !(#[trigger] configs[j]).scripts@.contains_key(name),
    ensures
        first_with(configs, name) == i,
    decreases configs.len(),
{
    if configs.len() > 0 && i > 0 {
        assert(!configs[0].scripts@.contains_key(name));
        let rest = configs.drop_first();
        assert forall|j: int| 0 <= j < i - 1 implies !(#[trigger] rest[j]).scripts@.contains_key(
            name,
        ) by {
            assert(rest[j] == configs[j + 1]);
        }
        if i < configs.len() {
            assert(rest[i - 1] == configs[i]);
        }
        lemma_first_with_is(rest, name, i - 1);
    }
}

impl ConfigManager {
    /// The paths, in the order in which they were first loaded.
    pub closed spec fn paths(self) -> Seq<Seq<char>> {
        Seq::new(self.entries@.len(), |i: int| self.entries@[i].0@)
    }

    /// The configurations, in the order of their paths.
    pub closed spec fn configs(self) -> Seq<Config> {
        Seq::new(self.entries@.len(), |i: int| self.entries@[i].1)
    }

    /// What tells the paths apart, in the same order.
    pub open spec fn keys(self) -> Seq<PathKey> {
        self.paths().map_values(|p: Seq<char>| key(p))
    }

    /// No path is loaded twice, and each configuration is in order.
    pub open spec fn wf(self) -> bool {
        &&& self.keys().no_duplicates()
        &&& self.paths().len() == self.configs().len()
        &&& forall|i: int| 0 <= i < self.configs().len() ==> (#[trigger] self.configs()[i]).wf()
    }

    /// The configuration under each path.
    pub open spec fn view(self) -> Map<PathKey, Config> {
        Map::new(
            |k: PathKey| self.keys().contains(k),
            |k: PathKey| self.configs()[self.keys().index_of(k)],
        )
    }

    /// Whether some loaded configuration has a script of this name.
    pub open spec fn configured(self, name: Seq<char>) -> bool {
        exists|i: int|
            0 <= i < self.configs().len() && (
            #[trigger] self.configs()[i]).scripts@.contains_key(name)
    }

    /// Whether the configuration under a path has a script of this name.
    pub open spec fn has(self, config_path: Seq<char>, name: Seq<char>) -> bool {
        self@.contains_key(key(config_path)) && self@[key(config_path)].scripts@.contains_key(name)
    }

    /// What a position says about the map.
    pub proof fn lemma_at(self, i: int)
        requires
            self.wf(),
            0 <= i < self.paths().len(),
        ensures
            self.keys()[i] == key(self.paths()[i]),
            self@.contains_key(self.keys()[i]),
            self@[self.keys()[i]] == self.configs()[i],
    {
        let k = self.keys()[i];
        assert(self.keys().contains(k));
        assert(self.keys().index_of(k) == i);
    }

    /// What a path that is loaded says about the positions.
    pub proof fn lemma_loaded(self, k: PathKey) -> (i: int)
        requires
            self.wf(),
            self@.contains_key(k),
        ensures
            0 <= i < self.paths().len(),
            self.keys()[i] == k,
            self.configs()[i] == self@[k],
            self@[k].wf(),
    {
        let i = self.keys().index_of(k);
        assert(self.keys().contains(k));
        self.lemma_at(i);
        i
    }

    /// No configurations at all.
    pub fn new() -> (r: Self)
        ensures
            r.wf(),
            r.paths().len() == 0,
            r@ == Map::<PathKey, Config>::empty(),
    {
        let r = ConfigManager { entries: Vec::new() };
        assert(r@ =~= Map::<PathKey, Config>::empty());
        r
    }

    /// The number of loaded configurations.
    pub fn len(&self) -> (r: usize)
        requires
            self.wf(),
        ensures
            r == self.paths().len(),
    {
        self.entries.len()
    }

    /// The configuration at a position.
    pub fn config_at(&self, i: usize) -> (r: &Config)
        requires
            self.wf(),
            i < self.paths().len(),
        ensures
            *r == self.configs()[i as int],
    {
        &self.entries[i].1
    }

    /// The position of a path, or the number of configurations where it is not loaded.
    fn position(&self, config_path: &str) -> (r: usize)
        ensures
            r <= self.paths().len(),
            r < self.paths().len() ==> self.keys()[r as int] == key(config_path@),
            r == self.paths().len() ==> !self.keys().contains(key(config_path@)),
    {
        let mut i: usize = 0;
        while i < self.entries.len()
            invariant
                i <= self.entries@.len(),
                forall|j: int| 0 <= j < i ==> key(#[trigger] self.paths()[j]) != key(config_path@),
            decreases self.entries.len() - i,
        {
            if same_path(self.entries[i].0.as_str(), config_path) {
                return i;
            }
            i = i + 1;
        }
        proof {
            if self.keys().contains(key(config_path@)) {
                let j = self.keys().index_of(key(config_path@));
                assert(key(self.paths()[j]) == key(config_path@));
            }
        }
        i
    }

    /// Sets the configuration under a path.
    pub(crate) fn set(&mut self, path: &str, config: Config) -> (r: Option<Config>)
        requires
            old(self).wf(),
            config.wf(),
        ensures
            final(self).wf(),
            final(self)@ == old(self)@.insert(key(path@), config),
            final(self).paths() == (if old(self)@.contains_key(key(path@)) {
                old(self).paths()
            } else {
                old(self).paths().push(path@)
            }),
            r == (if old(self)@.contains_key(key(path@)) {
                Some(old(self)@[key(path@)])
            } else {
                None
            }),
    {
        let ghost before = *self;
        let ghost k = key(path@);
        let i = self.position(path);
        if i < self.entries.len() {
            proof {
                before.lemma_at(i as int);
            }
            let mut slot = (self.entries[i].0.clone(), config);
            std::mem::swap(&mut slot, &mut self.entries[i]);
            proof {
                assert(self.paths() =~= before.paths());
                assert(self.keys() =~= before.keys());
                assert(self.configs() =~= before.configs().update(i as int, config));
                assert(self.wf());
                assert forall|q: PathKey| #[trigger] self@.contains_key(q) implies self@[q]
                    == before@.insert(k, config)[q] by {
                    let j = self.lemma_loaded(q);
                    before.lemma_at(j);
                }
                assert(self@ =~= before@.insert(k, config));
            }
            Some(slot.1)
        } else {
            self.entries.push((path.to_owned(), config));
            proof {
                assert(self.paths() =~= before.paths().push(path@));
                assert(self.keys() =~= before.keys().push(k));
                assert(self.configs() =~= before.configs().push(config));
                assert forall|a: int, b: int|
                    0 <= a < b < self.keys().len() implies self.keys()[a] != self.keys()[b] by {
                    if b == before.keys().len() {
                        assert(before.keys().contains(before.keys()[a]));
                    }
                }
                assert(self.wf());
                assert forall|q: PathKey|
                    self@.contains_key(q) == before@.insert(k, config).contains_key(q) by {
                    if before.keys().contains(q) {
                        assert(self.keys()[before.keys().index_of(q)] == q);
                    }
                    if q == k {
                        assert(self.keys()[before.keys().len() as int] == k);
                    }
                    if self.keys().contains(q) && q != k {
                        let j = self.keys().index_of(q);
                        assert(before.keys()[j] == q);
                    }
                }
                assert forall|q: PathKey| #[trigger] self@.contains_key(q) implies self@[q]
                    == before@.insert(k, config)[q] by {
                    let j = self.lemma_loaded(q);
                    if j < before.keys().len() {
                        before.lemma_at(j);
                    }
                }
                assert(self@ =~= before@.insert(k, config));
            }
            None
        }
    }

    /// Loads the configuration that was read from `path`.
    pub fn load(&mut self, path: &str, source: ConfigSource) -> (r: Result<(), Error>)
        requires
            old(self).wf(),
            source is Parsed ==> source->Parsed_0.wf(),
        ensures
            final(self).wf(),
            match r {
                Ok(_) => source is Parsed && final(self)@ == old(self)@.insert(
                    key(path@),
                    source->Parsed_0,
                ) && final(self).paths() == (if old(self)@.contains_key(key(path@)) {
                    old(self).paths()
                } else {
                    old(self).paths().push(path@)
                }),
                Err(e) => load_failure(path@, source, e) && *final(self) == *old(self),
            },
    {
        match Config::load(path, source) {
            Ok(config) => {
                self.set(path, config);
                Ok(())
            },
            Err(e) => Err(e),
        }
    }

    /// The configuration under a path.
    pub fn config(&self, config_path: &str) -> (r: Result<&Config, Error>)
        requires
            self.wf(),
        ensures
            match r {
                Ok(c) => self@.contains_key(key(config_path@)) && *c == self@[key(config_path@)]
                    && c.wf(),
                Err(e) => !self@.contains_key(key(config_path@)) && e is ConfigNotLoaded,
            },
    {
        let i = self.position(config_path);
        if i < self.entries.len() {
            proof {
                self.lemma_at(i as int);
                assert(self.configs()[i as int].wf());
            }
            Ok(&self.entries[i].1)
        } else {
            Err(Error::ConfigNotLoaded)
        }
    }

    /// The directory that holds a configuration.
    pub fn config_dir(&self, config_path: &str) -> (r: String)
        ensures
            r@ == (match parent(config_path@) {
                Some(dir) => dir,
                None => Seq::empty(),
            }),
    {
        match parent_path(config_path) {
            Some(dir) => dir,
            None => {
                let r = String::new();
                assert(r@ =~= Seq::<char>::empty());
                r
            },
        }
    }

    /// A script of the configuration under a path.
    pub fn script(&self, config_path: &str, name: &str) -> (r: Option<&Script>)
        requires
            self.wf(),
        ensures
            r is Some == self.has(config_path@, name@),
            r is Some ==> *r->0 == self@[key(config_path@)].scripts@[name@] && (*r->0).wf(),
    {
        match self.config(config_path) {
            Ok(c) => c.scripts.get(name),
            Err(_) => None,
        }
    }

    /// The names of the scripts of the configuration under a path.
    pub fn script_names(&self, config_path: &str) -> (r: Vec<String>)
        requires
            self.wf(),
        ensures
            texts(r@) == (if self@.contains_key(key(config_path@)) {
                self@[key(config_path@)].scripts.names()
            } else {
                Seq::empty()
            }),
    {
        match self.config(config_path) {
            Ok(c) => c.scripts.keys(),
            Err(_) => {
                let r: Vec<String> = Vec::new();
                assert(texts(r@) =~= Seq::empty());
                r
            },
        }
    }

    /// Whether the configuration under a path has a script of this name.
    pub fn has_script(&self, config_path: &str, name: &str) -> (r: bool)
        requires
            self.wf(),
        ensures
            r == self.has(config_path@, name@),
    {
        match self.config(config_path) {
            Ok(c) => c.scripts.contains_key(name),
            Err(_) => false,
        }
    }

    /// The path of the first configuration that has a script of this name.
    pub fn has_script_globally(&self, name: &str) -> (r: Option<String>)
        requires
            self.wf(),
        ensures
            r is Some == self.configured(name@),
            match r {
                Some(p) => 0 <= first_with(self.configs(), name@) < self.paths().len() && p@
                    == self.paths()[first_with(self.configs(), name@)] && self.has(p@, name@),
                None => first_with(self.configs(), name@) == self.configs().len(),
            },
    {
        let mut i: usize = 0;
        while i < self.entries.len()
            invariant
                self.wf(),
                i <= self.entries@.len(),
                forall|j: int|
                    0 <= j < i ==> !(#[trigger] self.configs()[j]).scripts@.contains_key(name@),
            decreases self.entries.len() - i,
        {
            assert(self.configs()[i as int] == self.entries@[i as int].1);
            if self.entries[i].1.scripts.contains_key(name) {
                proof {
                    lemma_first_with_is(self.configs(), name@, i as int);
                    self.lemma_at(i as int);
                    assert(self.configs()[i as int].scripts@.contains_key(name@));
                }
                return Some(self.entries[i].0.clone());
            }
            i = i + 1;
        }
        proof {
            lemma_first_with_is(self.configs(), name@, i as int);
        }
        None
    }

    /// Whether the configuration at a position is another than the one under a
    /// path, and has a script of this name.
    pub open spec fn elsewhere(self, i: int, config_path: Seq<char>, name: Seq<char>) -> bool {
        self.keys()[i] != key(config_path) && self.configs()[i].scripts@.contains_key(name)
    }

    /// The path of the first configuration, other than the one under a path,
    /// that has a script of this name.
    pub fn conflict(&self, config_path: &str, name: &str) -> (r: Option<&String>)
        requires
            self.wf(),
        ensures
            match r {
                Some(p) => exists|i: int|
                    0 <= i < self.paths().len() && #[trigger] self.elsewhere(
                        i,
                        config_path@,
                        name@,
                    ) && p@ == self.paths()[i] && forall|j: int|
                        0 <= j < i ==> !self.elsewhere(j, config_path@, name@),
                None => forall|j: int|
                    0 <= j < self.paths().len() ==> !self.elsewhere(j, config_path@, name@),
            },
    {
        let mut i: usize = 0;
        while i < self.entries.len()
            invariant
                self.wf(),
                i <= self.entries@.len(),
                forall|j: int| 0 <= j < i ==> !self.elsewhere(j, config_path@, name@),
            decreases self.entries.len() - i,
        {
            proof {
                self.lemma_at(i as int);
                assert(self.configs()[i as int] == self.entries@[i as int].1);
            }
            let same = same_path(self.entries[i].0.as_str(), config_path);
            if !same && self.entries[i].1.scripts.contains_key(name) {
                assert(self.elsewhere(i as int, config_path@, name@));
                return Some(&self.entries[i].0);
            }
            assert(!self.elsewhere(i as int, config_path@, name@));
            i = i + 1;
        }
        None
    }

    /// The directory for logs that the configuration under a path sets.
    pub fn log_dir(&self, config_path: &str) -> (r: Option<&String>)
        requires
            self.wf(),
        ensures
            r is Some == self@.contains_key(key(config_path@)),
            r is Some ==> *r->0 == self@[key(config_path@)].settings.log_dir,
    {
        match self.config(config_path) {
            Ok(c) => Some(&c.settings.log_dir),
            Err(_) => None,
        }
    }

    /// Where the configuration under a path has script output shipped to.
    pub fn loki_config(&self, config_path: &str) -> (r: Option<&LokiConfig>)
        requires
            self.wf(),
        ensures
            r is Some == (self@.contains_key(key(config_path@)) && self@[key(
                config_path@,
            )].settings.loki is Some),
            r is Some ==> Some(*r->0) == self@[key(config_path@)].settings.loki,
    {
        match self.config(config_path) {
            Ok(c) => match &c.settings.loki {
                Some(loki) => Some(loki),
                None => None,
            },
            Err(_) => None,
        }
    }

    /// Replaces the configuration under a path by what was read anew, and
    /// tells how it changed.
    pub fn reload(&mut self, config_path: &str, source: ConfigSource) -> (r: Result<
        ConfigDiff,
        Error,
    >)
        requires
            old(self).wf(),
            source is Parsed ==> source->Parsed_0.wf(),
        ensures
            final(self).wf(),
            final(self).paths() == old(self).paths(),
            match r {
                Ok(diff) => {
                    &&& old(self)@.contains_key(key(config_path@))
                    &&& source is Parsed
                    &&& final(self)@ == old(self)@.insert(key(config_path@), source->Parsed_0)
                    &&& diff.tells(old(self)@[key(config_path@)], source->Parsed_0)
                },
                Err(e) => {
                    &&& *final(self) == *old(self)
                    &&& if old(self)@.contains_key(key(config_path@)) {
                        load_failure(config_path@, source, e)
                    } else {
                        e is ConfigNotLoaded
                    }
                },
            },
    {
        let i = self.position(config_path);
        if i == self.entries.len() {
            return Err(Error::ConfigNotLoaded);
        }
        let new_config = match Config::load(config_path, source) {
            Ok(c) => c,
            Err(e) => {
                proof {
                    self.lemma_at(i as int);
                }
                return Err(e);
            },
        };
        proof {
            self.lemma_at(i as int);
            assert(self.configs()[i as int].wf());
        }
        let diff = compare(&self.entries[i].1.scripts, &new_config.scripts);
        self.set(config_path, new_config);
        Ok(diff)
    }
}

impl ConfigDiff {
    /// Whether this is how one configuration differs from another.
    pub open spec fn tells(self, before: Config, after: Config) -> bool {
        &&& texts(self.added@) == absent_from(after.scripts.names(), before.scripts@)
        &&& texts(self.removed@) == absent_from(before.scripts.names(), after.scripts@)
        &&& texts(self.changed@) == differing(
            before.scripts.names(),
            before.scripts@,
            after.scripts@,
        )
    }
}

/// The names of `of` that do not occur in `other`.
fn names_absent(of: &NameMap<Script>, other: &NameMap<Script>) -> (r: Vec<String>)
    requires
        of.wf(),
        other.wf(),
    ensures
        texts(r@) == absent_from(of.names(), other@),
{
    let mut out: Vec<String> = Vec::new();
    let mut i: usize = 0;
    let n = of.len();
    assert(texts(out@) =~= absent_from(of.names().take(0), other@));
    while i < n
        invariant
            of.wf(),
            other.wf(),
            n == of.names().len(),
            i <= n,
            texts(out@) == absent_from(of.names().take(i as int), other@),
        decreases n - i,
    {
        assert(of.names().take(i as int + 1).drop_last() =~= of.names().take(i as int));
        let name = of.name_at(i);
        if !other.contains_key(name.as_str()) {
            let ghost before = out@;
            out.push(name.clone());
            assert(texts(out@) =~= texts(before).push(name@));
        }
        i = i + 1;
    }
    assert(of.names().take(i as int) =~= of.names());
    out
}

/// How the scripts of a configuration changed.
fn compare(before: &NameMap<Script>, after: &NameMap<Script>) -> (r: ConfigDiff)
    requires
        before.wf(),
        after.wf(),
        forall|name: Seq<char>| #[trigger] before@.contains_key(name) ==> before@[name].wf(),
        forall|name: Seq<char>| #[trigger] after@.contains_key(name) ==> after@[name].wf(),
    ensures
        texts(r.added@) == absent_from(after.names(), before@),
        texts(r.removed@) == absent_from(before.names(), after@),
        texts(r.changed@) == differing(before.names(), before@, after@),
{
    let added = names_absent(after, before);
    let removed = names_absent(before, after);
    let mut changed: Vec<String> = Vec::new();
    let mut i: usize = 0;
    let n = before.len();
    assert(texts(changed@) =~= differing(before.names().take(0), before@, after@));
    while i < n
        invariant
            before.wf(),
            after.wf(),
            forall|name: Seq<char>| #[trigger]
                before@.contains_key(name) ==> before@[name].wf(),
            forall|name: Seq<char>| #[trigger] after@.contains_key(name) ==> after@[name].wf(),
            n == before.names().len(),
            i <= n,
            texts(changed@) == differing(before.names().take(i as int), before@, after@),
        decreases n - i,
    {
        assert(before.names().take(i as int + 1).drop_last() =~= before.names().take(i as int));
        let name = before.name_at(i);
        proof {
            before.lemma_at(i as int);
        }
        if let Some(new_script) = after.get(name.as_str()) {
            if !before.value_at(i).same_definition(new_script) {
                let ghost earlier = changed@;
                changed.push(name.clone());
                assert(texts(changed@) =~= texts(earlier).push(name@));
            }
        }
        i = i + 1;
    }
    assert(before.names().take(i as int) =~= before.names());
    ConfigDiff { added, removed, changed }
}

/// A name is among those absent from a map just if it is one of the given
/// names and the map lacks it.
pub proof fn lemma_absent(names: Seq<Seq<char>>, m: Map<Seq<char>, Script>, name: Seq<char>)
    ensures
        absent_from(names, m).contains(name) == (names.contains(name) && !m.contains_key(name)),
    decreases names.len(),
{
    if names.len() > 0 {
        let front = names.drop_last();
        lemma_absent(front, m, name);
        let inner = absent_from(front, m);
        let outer = absent_from(names, m);
        if names.contains(name) && name != names.last() {
            let i = names.index_of(name);
            assert(front[i] == name);
        }
        if front.contains(name) {
            assert(names[front.index_of(name)] == name);
        }
        if inner.contains(name) {
            assert(outer[inner.index_of(name)] == name);
        }
        if outer.contains(name) && name != names.last() {
            let i = outer.index_of(name);
            assert(inner[i] == name);
        }
        if name == names.last() && !m.contains_key(name) {
            assert(outer[outer.len() - 1] == name);
            assert(names[names.len() - 1] == name);
        }
        if name == names.last() {
            assert(names[names.len() - 1] == name);
        }
    }
}

/// A name is among the differing ones just if both maps have it, under
/// different definitions.
pub proof fn lemma_differing(
    names: Seq<Seq<char>>,
    a: Map<Seq<char>, Script>,
    b: Map<Seq<char>, Script>,
    name: Seq<char>,
)
    ensures
        differing(names, a, b).contains(name) == (names.contains(name) && b.contains_key(name)
            && a[name]@ != b[name]@),
    decreases names.len(),
{
    if names.len() > 0 {
        let front = names.drop_last();
        lemma_differing(front, a, b, name);
        let inner = differing(front, a, b);
        let outer = differing(names, a, b);
        if names.contains(name) && name != names.last() {
            let i = names.index_of(name);
            assert(front[i] == name);
        }
        if front.contains(name) {
            assert(names[front.index_of(name)] == name);
        }
        if inner.contains(name) {
            assert(outer[inner.index_of(name)] == name);
        }
        if outer.contains(name) && name != names.last() {
            let i = outer.index_of(name);
            assert(inner[i] == name);
        }
        if name == names.last() {
            assert(names[names.len() - 1] == name);
            if b.contains_key(name) && a[name]@ != b[name]@ {
                assert(outer[outer.len() - 1] == name);
            }
        }
    }
}

/// A script is told to be added just if only the new configuration has it,
/// removed just if only the old one has it, and changed just if both have it
/// under different definitions; so no script is told twice, and one of which
/// nothing is told stands in both under one definition, or in neither.
pub proof fn law_diff(diff: ConfigDiff, before: Config, after: Config, name: Seq<char>)
    requires
        before.wf(),
        after.wf(),
        diff.tells(before, after),
    ensures
        texts(diff.added@).contains(name) == (after.scripts@.contains_key(name)
            && !before.scripts@.contains_key(name)),
        texts(diff.removed@).contains(name) == (before.scripts@.contains_key(name)
            && !after.scripts@.contains_key(name)),
        texts(diff.changed@).contains(name) == (before.scripts@.contains_key(name)
            && after.scripts@.contains_key(name) && before.scripts@[name]@
            != after.scripts@[name]@),
{
    lemma_absent(after.scripts.names(), before.scripts@, name);
    lemma_absent(before.scripts.names(), after.scripts@, name);
    lemma_differing(before.scripts.names(), before.scripts@, after.scripts@, name);
}

/// A configuration that is read anew without a change tells of no script.
pub proof fn law_diff_of_the_same(diff: ConfigDiff, config: Config)
    requires
        config.wf(),
        diff.tells(config, config),
    ensures
        diff.added@.len() == 0,
        diff.removed@.len() == 0,
        diff.changed@.len() == 0,
{
    if diff.added@.len() > 0 {
        let name = texts(diff.added@)[0];
        assert(texts(diff.added@).contains(name));
        law_diff(diff, config, config, name);
    }
    if diff.removed@.len() > 0 {
        let name = texts(diff.removed@)[0];
        assert(texts(diff.removed@).contains(name));
        law_diff(diff, config, config, name);
    }
    if diff.changed@.len() > 0 {
        let name = texts(diff.changed@)[0];
        assert(texts(diff.changed@).contains(name));
        law_diff(diff, config, config, name);
    }
}

/// Loading a configuration under one path leaves what stands under every other
/// path alone, and makes the new configuration's scripts, and no others, those
/// of its path.
pub proof fn law_load_is_local(
    before: ConfigManager,
    after: ConfigManager,
    path: Seq<char>,
    config: Config,
    other: Seq<char>,
    name: Seq<char>,
)
    requires
        before.wf(),
        after.wf(),
        after@ == before@.insert(key(path), config),
    ensures
        key(other) != key(path) ==> after.has(other, name) == before.has(other, name),
        after.has(path, name) == config.scripts@.contains_key(name),
{
}

/// A script that both configurations have is told to be changed just if
/// something that they say of it differs, whatever it is.
pub proof fn law_any_change_is_told(
    diff: ConfigDiff,
    before: Config,
    after: Config,
    name: Seq<char>,
)
    requires
        before.wf(),
        after.wf(),
        diff.tells(before, after),
        before.scripts@.contains_key(name),
        after.scripts@.contains_key(name),
    ensures
        texts(diff.changed@).contains(name) <==> {
            let a = before.scripts@[name];
            let b = after.scripts@[name];
            ||| a.command@ != b.command@
            ||| a.restart_policy != b.restart_policy
            ||| a.max_restarts != b.max_restarts
            ||| a.cron is Some != b.cron is Some
            ||| a.cron is Some && a.cron->0@ != b.cron->0@
            ||| a.context is Some != b.context is Some
            ||| a.context is Some && key(a.context->0@) != key(b.context->0@)
            ||| a.venv is Some != b.venv is Some
            ||| a.venv is Some && key(a.venv->0@) != key(b.venv->0@)
            ||| a.env_file is Some != b.env_file is Some
            ||| a.env_file is Some && key(a.env_file->0@) != key(b.env_file->0@)
            ||| a.env is Some != b.env is Some
            ||| a.env is Some && !same_values(a.env->0@, b.env->0@)
        },
{
    law_diff(diff, before, after, name);
    law_same_definition(before.scripts@[name], after.scripts@[name]);
}

/// What is told of a change is told once.
pub proof fn law_diff_tells_once(diff: ConfigDiff, before: Config, after: Config)
    requires
        before.wf(),
        after.wf(),
        diff.tells(before, after),
    ensures
        texts(diff.added@).no_duplicates(),
        texts(diff.removed@).no_duplicates(),
        texts(diff.changed@).no_duplicates(),
{
    lemma_absent_once(after.scripts.names(), before.scripts@);
    lemma_absent_once(before.scripts.names(), after.scripts@);
    lemma_differing_once(before.scripts.names(), before.scripts@, after.scripts@);
}

/// Distinct names that are absent from a map stay distinct.
proof fn lemma_absent_once(names: Seq<Seq<char>>, m: Map<Seq<char>, Script>)
    requires
        names.no_duplicates(),
    ensures
        absent_from(names, m).no_duplicates(),
    decreases names.len(),
{
    if names.len() > 0 {
        let front = names.drop_last();
        lemma_absent_once(front, m);
        lemma_absent(front, m, names.last());
        lemma_new_at_end(names);
        lemma_push_once(absent_from(front, m), names.last());
    }
}

/// Distinct names that differ between two maps stay distinct.
proof fn lemma_differing_once(
    names: Seq<Seq<char>>,
    a: Map<Seq<char>, Script>,
    b: Map<Seq<char>, Script>,
)
    requires
        names.no_duplicates(),
    ensures
        differing(names, a, b).no_duplicates(),
    decreases names.len(),
{
    if names.len() > 0 {
        let front = names.drop_last();
        lemma_differing_once(front, a, b);
        lemma_differing(front, a, b, names.last());
        lemma_new_at_end(names);
        lemma_push_once(differing(front, a, b), names.last());
    }
}

/// The last of distinct names does not stand before.
proof fn lemma_new_at_end(names: Seq<Seq<char>>)
    requires
        names.no_duplicates(),
        names.len() > 0,
    ensures
        !names.drop_last().contains(names.last()),
        names.drop_last().no_duplicates(),
{
    let front = names.drop_last();
    if front.contains(names.last()) {
        let i = front.index_of(names.last());
        assert(names[i] == names[names.len() - 1]);
    }
    assert forall|i: int, j: int| 0 <= i < front.len() && 0 <= j < front.len() && i
        != j implies front[i] != front[j] by {
        assert(names[i] != names[j]);
    }
}

/// A name that distinct names lack can be put behind them.
proof fn lemma_push_once(names: Seq<Seq<char>>, name: Seq<char>)
    requires
        names.no_duplicates(),
    ensures
        !names.contains(name) ==> names.push(name).no_duplicates(),
{
    if !names.contains(name) {
        let more = names.push(name);
        assert forall|i: int, j: int| 0 <= i < more.len() && 0 <= j < more.len() && i
            != j implies more[i] != more[j] by {
            if i < names.len() && j < names.len() {
                assert(names[i] != names[j]);
            } else if i < names.len() {
                assert(names.contains(names[i]));
            } else if j < names.len() {
                assert(names.contains(names[j]));
            }
        }
    }
}

/// A script is configured just if one of the loaded configurations has it; the
/// first one that does is the first in the order of loading.
pub proof fn law_configured(manager: ConfigManager, name: Seq<char>)
    requires
        manager.wf(),
    ensures
        manager.configured(name) <==> exists|path: Seq<char>| #[trigger] manager.has(path, name),
        manager.configured(name) ==> ({
            let i = first_with(manager.configs(), name);
            &&& 0 <= i < manager.paths().len()
            &&& manager.has(manager.paths()[i], name)
            &&& forall|j: int| 0 <= j < i ==> !manager.has(#[trigger] manager.paths()[j], name)
        }),
{
    if manager.configured(name) {
        let k = choose|i: int|
            0 <= i < manager.configs().len() && (
            #[trigger] manager.configs()[i]).scripts@.contains_key(name);
        lemma_first_with(manager.configs(), name);
        let i = first_with(manager.configs(), name);
        assert(manager.configs()[k].scripts@.contains_key(name));
        manager.lemma_at(i);
        assert(manager.has(manager.paths()[i], name));
        assert forall|j: int| 0 <= j < i implies !manager.has(
            #[trigger] manager.paths()[j],
            name,
        ) by {
            manager.lemma_at(j);
            assert(!manager.configs()[j].scripts@.contains_key(name));
        }
    }
    if exists|path: Seq<char>| #[trigger] manager.has(path, name) {
        let path = choose|path: Seq<char>| #[trigger] manager.has(path, name);
        let i = manager.lemma_loaded(key(path));
        assert(manager.configs()[i].scripts@.contains_key(name));
    }
}

/// Where a name first occurs has it, and none before does.
proof fn lemma_first_with(configs: Seq<Config>, name: Seq<char>)
    ensures
        0 <= first_with(configs, name) <= configs.len(),
        first_with(configs, name) < configs.len() ==> configs[first_with(
            configs,
            name,
        )].scripts@.contains_key(name),
        forall|j: int|
            0 <= j < first_with(configs, name) ==> !(
            #[trigger] configs[j]).scripts@.contains_key(name),
    decreases configs.len(),
{
    if configs.len() > 0 && !configs[0].scripts@.contains_key(name) {
        let rest = configs.drop_first();
        lemma_first_with(rest, name);
        assert forall|j: int| 0 <= j < first_with(configs, name) implies !(
        #[trigger] configs[j]).scripts@.contains_key(name) by {
            if j > 0 {
                assert(rest[j - 1] == configs[j]);
            }
        }
    }
}

/// The configuration under a path has a script just if there is one that does.
pub proof fn law_has(manager: ConfigManager, path: Seq<char>, name: Seq<char>)
    ensures
        manager.has(path, name) <==> manager@.contains_key(key(path)) && manager@[key(
            path,
        )].scripts@.contains_key(name),
{
}

} // verus!
