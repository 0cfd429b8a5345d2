//! The configuration of a project: its settings and its scripts.
use crate::common::error::Error;
use crate::names::NameMap;
use crate::path::{join, join_path, key, optional_key, same_optional_path, PathKey};
use crate::text::{
    blank, find_char, first_at, is_space, law_trim, lemma_first_at, lemma_first_at_is, line_ranges,
    lines, optional_text, pieces, same_optional_text, same_text, substring, tight, to_chars, trim,
    trim_end, trim_range, trim_start,
};
use vstd::prelude::*;
use vstd::utf8::encode_utf8;

verus! {

/// How often a failing script is restarted where its configuration does not say.
pub const DEFAULT_MAX_RESTARTS: u32 = 5;

/// How often a failing script with a schedule is restarted where its configuration does not say.
pub const DEFAULT_MAX_RESTARTS_CRON: u32 = 3;

/// A project's configuration.
#[derive(Debug)]
pub struct Config {
    pub settings: Settings,
    pub scripts: NameMap<Script>,
}

/// Where script output is shipped to.
#[derive(Debug)]
pub struct LokiConfig {
    pub url: String,
    pub labels: Option<NameMap<String>>,
}

/// What holds for all scripts of a configuration.
#[derive(Debug)]
pub struct Settings {
    pub log_dir: String,
    pub loki: Option<LokiConfig>,
}

/// One script of a configuration.
#[derive(Debug)]
pub struct Script {
    pub command: String,
    pub restart_policy: RestartPolicy,
    pub max_restarts: Option<u32>,
    pub cron: Option<String>,
    pub context: Option<String>,
    pub venv: Option<String>,
    pub env: Option<NameMap<String>>,
    pub env_file: Option<String>,
}

/// Whether a failed script is restarted.
#[derive(Clone, Copy, Debug, PartialEq, Eq, Structural)]
pub enum RestartPolicy {
    Always,
    Never,
}

/// What there is to compare two scripts by: paths component by component,
/// variables regardless of their order.
pub struct ScriptView {
    pub command: Seq<char>,
    pub restart_policy: RestartPolicy,
    pub max_restarts: Option<u32>,
    pub cron: Option<Seq<char>>,
    pub context: Option<PathKey>,
    pub venv: Option<PathKey>,
    pub env: Option<Map<Seq<char>, Seq<char>>>,
    pub env_file: Option<PathKey>,
}

/// The texts that a map holds.
pub open spec fn text_map(m: Map<Seq<char>, String>) -> Map<Seq<char>, Seq<char>> {
    m.map_values(|s: String| s@)
}

/// The texts that an optional map holds.
pub open spec fn optional_text_map(m: Option<NameMap<String>>) -> Option<
    Map<Seq<char>, Seq<char>>,
> {
    match m {
        Some(m) => Some(text_map(m@)),
        None => None,
    }
}

/// The bytes of the texts of a map.
pub open spec fn encoded(m: Map<Seq<char>, Seq<char>>) -> Map<Seq<char>, Seq<u8>> {
    m.map_values(|s: Seq<char>| encode_utf8(s))
}

/// The bytes that a map holds.
pub open spec fn byte_map(m: Map<Seq<char>, Vec<u8>>) -> Map<Seq<char>, Seq<u8>> {
    m.map_values(|v: Vec<u8>| v@)
}

impl Config {
    /// No script and no variable occurs twice.
    pub open spec fn wf(self) -> bool {
        &&& self.settings.wf()
        &&& self.scripts.wf()
        &&& forall|name: Seq<char>| #[trigger]
            self.scripts@.contains_key(name) ==> self.scripts@[name].wf()
    }
}

impl Settings {
    /// No label occurs twice.
    pub open spec fn wf(self) -> bool {
        self.loki is Some ==> self.loki->0.wf()
    }
}

impl LokiConfig {
    /// No label occurs twice.
    pub open spec fn wf(self) -> bool {
        self.labels is Some ==> self.labels->0.wf()
    }
}

/// What came of reading and parsing a configuration file.
#[derive(Debug)]
pub enum ConfigSource {
    Unreadable(String),
    Unparsable(String),
    Parsed(Config),
}

/// Whether `e` is the failure that comes of such a source.
pub open spec fn load_failure(path: Seq<char>, source: ConfigSource, e: Error) -> bool {
    match source {
        ConfigSource::Parsed(_) => false,
        ConfigSource::Unparsable(text) => e == Error::ConfigParse(text),
        ConfigSource::Unreadable(text) => e matches Error::ConfigRead { path: p, source: s } && p@
            == path && s@ == text@,
    }
}

impl Config {
    /// The configuration that was read from `path`, or why there is none.
    pub fn load(path: &str, source: ConfigSource) -> (r: Result<Config, Error>)
        ensures
            match r {
                Ok(config) => source == ConfigSource::Parsed(config),
                Err(e) => load_failure(path@, source, e),
            },
    {
        match source {
            ConfigSource::Parsed(config) => Ok(config),
            ConfigSource::Unparsable(e) => Err(Error::ConfigParse(e)),
            ConfigSource::Unreadable(e) => Err(
                Error::ConfigRead { path: path.to_owned(), source: e },
            ),
        }
    }
}

impl Script {
    /// No variable occurs twice.
    pub open spec fn wf(self) -> bool {
        self.env is Some ==> self.env->0.wf()
    }

    /// What there is to compare the script by.
    pub open spec fn view(self) -> ScriptView {
        ScriptView {
            command: self.command@,
            restart_policy: self.restart_policy,
            max_restarts: self.max_restarts,
            cron: optional_text(self.cron),
            context: optional_key(self.context),
            venv: optional_key(self.venv),
            env: optional_text_map(self.env),
            env_file: optional_key(self.env_file),
        }
    }

    /// How often the script is restarted before it is given up.
    pub open spec fn restart_limit(self) -> u32 {
        match self.max_restarts {
            Some(n) => n,
            None => if self.cron is Some {
                DEFAULT_MAX_RESTARTS_CRON
            } else {
                DEFAULT_MAX_RESTARTS
            },
        }
    }

    /// How often the script is restarted before it is given up.
    pub fn effective_max_restarts(&self) -> (r: u32)
        ensures
            r == self.restart_limit(),
    {
        match self.max_restarts {
            Some(n) => n,
            None => if self.cron.is_some() {
                DEFAULT_MAX_RESTARTS_CRON
            } else {
                DEFAULT_MAX_RESTARTS
            },
        }
    }

    /// The script's own directory, if its configuration names one.
    pub open spec fn context_dir(self, config_dir: Seq<char>) -> Option<Seq<char>> {
        match self.context {
            Some(p) => Some(join(config_dir, p@)),
            None => None,
        }
    }

    /// The directory in which the script runs: its own, or that of the configuration.
    pub open spec fn base_dir(self, config_dir: Seq<char>) -> Seq<char> {
        match self.context_dir(config_dir) {
            Some(dir) => dir,
            None => config_dir,
        }
    }

    /// The script's own directory, seen from the directory of the configuration.
    pub fn resolved_context(&self, config_dir: &str) -> (r: Option<String>)
        ensures
            optional_text(r) == self.context_dir(config_dir@),
    {
        match &self.context {
            Some(p) => Some(join_path(config_dir, p.as_str())),
            None => None,
        }
    }

    /// The directory in which the script runs.
    pub fn working_dir(&self, config_dir: &str) -> (r: String)
        ensures
            r@ == self.base_dir(config_dir@),
    {
        match self.resolved_context(config_dir) {
            Some(dir) => dir,
            None => config_dir.to_owned(),
        }
    }

    /// The file with further variables, if the configuration names one.
    pub fn env_file_path(&self, config_dir: &str) -> (r: Option<String>)
        ensures
            optional_text(r) == (match self.env_file {
                Some(p) => Some(join(self.base_dir(config_dir@), p@)),
                None => None,
            }),
    {
        match &self.env_file {
            Some(p) => {
                let base = self.working_dir(config_dir);
                Some(join_path(base.as_str(), p.as_str()))
            },
            None => None,
        }
    }

    /// The variables from the file, where the configuration names one.
    pub open spec fn file_layer(self, file: Option<Seq<char>>) -> Map<Seq<char>, Seq<char>> {
        match (self.env_file, file) {
            (Some(_), Some(content)) => env_vars(lines(content)),
            _ => Map::empty(),
        }
    }

    /// The variables that the configuration itself sets.
    pub open spec fn inline_layer(self) -> Map<Seq<char>, Seq<char>> {
        match self.env {
            Some(m) => text_map(m@),
            None => Map::empty(),
        }
    }

    /// The variables that the script's virtual environment needs.
    pub open spec fn venv_layer(self, config_dir: Seq<char>, current_path: Seq<u8>) -> Map<
        Seq<char>,
        Seq<u8>,
    > {
        match self.venv {
            Some(p) => {
                let venv = join(self.base_dir(config_dir), p@);
                Map::empty().insert(
                    "PATH"@,
                    encode_utf8(join(venv, "bin"@)) + seq![58u8] + current_path,
                ).insert("VIRTUAL_ENV"@, encode_utf8(venv))
            },
            None => Map::empty(),
        }
    }

    /// The variables that the script runs with: those of the file, over them
    /// those of the configuration, over these the ones of the virtual environment.
    pub open spec fn environment(
        self,
        config_dir: Seq<char>,
        file: Option<Seq<char>>,
        current_path: Seq<u8>,
    ) -> Map<Seq<char>, Seq<u8>> {
        encoded(self.file_layer(file)).union_prefer_right(
            encoded(self.inline_layer()),
        ).union_prefer_right(self.venv_layer(config_dir, current_path))
    }

    /// The variables that the script runs with. `env_file` is what the file
    /// with variables holds, if it could be read; `current_path` is the search
    /// path for programs that the daemon itself runs with.
    pub fn resolved_env(&self, config_dir: &str, env_file: Option<&str>, current_path: &[u8]) -> (r:
        NameMap<Vec<u8>>)
        requires
            self.wf(),
        ensures
            r.wf(),
            byte_map(r@) == self.environment(
                config_dir@,
                (match env_file {
                    Some(s) => Some(s@),
                    None => None,
                }),
                current_path@,
            ),
    {
        let ghost file: Option<Seq<char>> = match env_file {
            Some(s) => Some(s@),
            None => None,
        };
        let mut vars: NameMap<Vec<u8>> = NameMap::new();
        assert(byte_map(vars@) =~= Map::empty());
        if self.env_file.is_some() {
            let parsed = parse_env_file(env_file);
            add_encoded(&mut vars, &parsed);
        }
        assert(byte_map(vars@) =~= encoded(self.file_layer(file)));
        if let Some(inline) = &self.env {
            add_encoded(&mut vars, inline);
        }
        let ghost inner = encoded(self.file_layer(file)).union_prefer_right(
            encoded(self.inline_layer()),
        );
        assert(byte_map(vars@) =~= inner);
        if let Some(p) = &self.venv {
            let base = self.working_dir(config_dir);
            let venv = join_path(base.as_str(), p.as_str());
            let bin = join_path(venv.as_str(), "bin");
            let mut search: Vec<u8> = bin.as_str().as_bytes_vec();
            search.push(58u8);
            let mut i: usize = 0;
            let ghost head = search@;
            while i < current_path.len()
                invariant
                    i <= current_path@.len(),
                    search@ == head + current_path@.take(i as int),
                decreases current_path.len() - i,
            {
                search.push(current_path[i]);
                i = i + 1;
                assert(search@ =~= head + current_path@.take(i as int));
            }
            assert(search@ =~= encode_utf8(bin@) + seq![58u8] + current_path@);
            let ghost value = search@;
            vars.insert("PATH".to_owned(), search);
            vars.insert("VIRTUAL_ENV".to_owned(), venv.as_str().as_bytes_vec());
            assert(byte_map(vars@) =~= inner.insert("PATH"@, value).insert(
                "VIRTUAL_ENV"@,
                encode_utf8(venv@),
            ));
            assert(byte_map(vars@) =~= inner.union_prefer_right(
                self.venv_layer(config_dir@, current_path@),
            ));
        } else {
            assert(byte_map(vars@) =~= inner.union_prefer_right(
                self.venv_layer(config_dir@, current_path@),
            ));
        }
        vars
    }

    /// Whether two scripts have the same definition.
    pub fn same_definition(&self, other: &Script) -> (r: bool)
        requires
            self.wf(),
            other.wf(),
        ensures
            r == (self@ == other@),
    {
        let same_env = match (&self.env, &other.env) {
            (Some(a), Some(b)) => same_variables(a, b),
            (None, None) => true,
            _ => false,
        };
        same_env && same_text(self.command.as_str(), other.command.as_str())
            && self.restart_policy == other.restart_policy && same_limit(
            self.max_restarts,
            other.max_restarts,
        ) && same_optional_text(&self.cron, &other.cron) && same_optional_path(
            &self.context,
            &other.context,
        ) && same_optional_path(&self.venv, &other.venv) && same_optional_path(
            &self.env_file,
            &other.env_file,
        )
    }
}

fn same_limit(a: Option<u32>, b: Option<u32>) -> (r: bool)
    ensures
        r == (a == b),
{
    match (a, b) {
        (Some(x), Some(y)) => x == y,
        (None, None) => true,
        _ => false,
    }
}

/// Whether two sets of variables assign the same values to the same names.
fn same_variables(a: &NameMap<String>, b: &NameMap<String>) -> (r: bool)
    requires
        a.wf(),
        b.wf(),
    ensures
        r == (text_map(a@) == text_map(b@)),
{
    if !variables_within(a, b) {
        return false;
    }
    if !variables_within(b, a) {
        return false;
    }
    assert(text_map(a@) =~= text_map(b@)) by {
        assert forall|k: Seq<char>| a@.contains_key(k) == b@.contains_key(k) by {}
        assert forall|k: Seq<char>| #[trigger] text_map(a@).contains_key(k) implies text_map(
            a@,
        )[k] == text_map(b@)[k] by {
            assert(a@.contains_key(k));
        }
    }
    true
}

/// Whether `b` assigns to each name of `a` the same value.
fn variables_within(a: &NameMap<String>, b: &NameMap<String>) -> (r: bool)
    requires
        a.wf(),
        b.wf(),
    ensures
        r ==> forall|k: Seq<char>| #[trigger]
            a@.contains_key(k) ==> b@.contains_key(k) && a@[k]@ == b@[k]@,
        !r ==> text_map(a@) != text_map(b@),
{
    let mut i: usize = 0;
    let n = a.len();
    while i < n
        invariant
            a.wf(),
            b.wf(),
            n == a.names().len(),
            i <= n,
            forall|j: int|
                0 <= j < i ==> b@.contains_key(#[trigger] a.names()[j]) && a@[a.names()[j]]@
                    == b@[a.names()[j]]@,
        decreases n - i,
    {
        let name = a.name_at(i);
        proof {
            a.lemma_at(i as int);
        }
        match b.get(name.as_str()) {
            None => {
                proof {
                    assert(text_map(a@).contains_key(name@));
                    assert(!text_map(b@).contains_key(name@));
                }
                return false;
            },
            Some(v) => {
                if !same_text(a.value_at(i).as_str(), v.as_str()) {
                    proof {
                        assert(text_map(a@).contains_key(name@));
                        assert(text_map(a@)[name@] != text_map(b@)[name@]);
                    }
                    return false;
                }
            },
        }
        i = i + 1;
    }
    assert forall|k: Seq<char>| #[trigger] a@.contains_key(k) implies b@.contains_key(k)
        && a@[k]@ == b@[k]@ by {
        let j = a.names().index_of(k);
        assert(a.names()[j] == k);
    }
    true
}

/// Sets each variable of `added` in `vars`.
fn add_encoded(vars: &mut NameMap<Vec<u8>>, added: &NameMap<String>)
    requires
        old(vars).wf(),
        added.wf(),
    ensures
        final(vars).wf(),
        byte_map(final(vars)@) == byte_map(old(vars)@).union_prefer_right(
            encoded(text_map(added@)),
        ),
{
    let ghost base = byte_map(vars@);
    let ghost layer = encoded(text_map(added@));
    let ghost upto = |i: int| layer.restrict(Set::new(|k: Seq<char>| added.names().take(i).contains(k)));
    let mut i: usize = 0;
    let n = added.len();
    assert(base.union_prefer_right(upto(0)) =~= base);
    while i < n
        invariant
            vars.wf(),
            added.wf(),
            n == added.names().len(),
            i <= n,
            layer == encoded(text_map(added@)),
            forall|j: int| #[trigger]
                upto(j) == layer.restrict(
                    Set::new(|k: Seq<char>| added.names().take(j).contains(k)),
                ),
            byte_map(vars@) == base.union_prefer_right(upto(i as int)),
        decreases n - i,
    {
        let name = added.name_at(i);
        let value = added.value_at(i).as_str().as_bytes_vec();
        let ghost before = vars@;
        let ghost bytes = value@;
        vars.insert(name.clone(), value);
        proof {
            added.lemma_at(i as int);
            let taken = added.names().take(i as int);
            let more = added.names().take(i as int + 1);
            assert(more =~= taken.push(name@));
            assert(layer[name@] == bytes);
            assert forall|k: Seq<char>|
                more.contains(k) == (taken.contains(k) || k == name@) by {
                if taken.contains(k) {
                    let j = taken.index_of(k);
                    assert(more[j] == k);
                }
                if k == name@ {
                    assert(more[i as int] == k);
                }
                if more.contains(k) && k != name@ {
                    let j = more.index_of(k);
                    assert(taken[j] == k);
                }
            }
            assert(upto(i as int + 1) =~= upto(i as int).insert(name@, bytes));
            assert(byte_map(vars@) =~= byte_map(before).insert(name@, bytes));
            assert(byte_map(vars@) =~= base.union_prefer_right(upto(i as int + 1)));
        }
        i = i + 1;
    }
    proof {
        assert(added.names().take(n as int) =~= added.names());
        assert(upto(n as int) =~= layer);
    }
}

/// A value without the quotes around it.
pub open spec fn unquoted(v: Seq<char>) -> Seq<char> {
    if v.len() >= 2 && (v[0] == '"' && v.last() == '"' || v[0] == '\'' && v.last() == '\'') {
        v.subrange(1, v.len() - 1)
    } else {
        v
    }
}

/// The variable that a line of a file sets: none where the line is blank, a
/// comment, without an equals sign or without a name before it.
pub open spec fn env_entry(line: Seq<char>) -> Option<(Seq<char>, Seq<char>)> {
    let t = trim(line);
    let eq = first_at(t, '=');
    let name = trim(t.take(eq));
    if t.len() == 0 || t[0] == '#' || eq >= t.len() || name.len() == 0 {
        None
    } else {
        Some((name, unquoted(trim(t.skip(eq + 1)))))
    }
}

/// The variables that the lines of a file set, a later line over an earlier one.
pub open spec fn env_vars(file: Seq<Seq<char>>) -> Map<Seq<char>, Seq<char>>
    decreases file.len(),
{
    if file.len() == 0 {
        Map::empty()
    } else {
        match env_entry(file.last()) {
            Some((name, value)) => env_vars(file.drop_last()).insert(name, value),
            None => env_vars(file.drop_last()),
        }
    }
}

/// The variables that a file sets; none where it could not be read.
pub fn parse_env_file(content: Option<&str>) -> (r: NameMap<String>)
    ensures
        r.wf(),
        text_map(r@) == (match content {
            Some(s) => env_vars(lines(s@)),
            None => Map::empty(),
        }),
{
    let mut vars: NameMap<String> = NameMap::new();
    assert(text_map(vars@) =~= Map::empty());
    let text = match content {
        Some(s) => s,
        None => {
            return vars;
        },
    };
    let chars = to_chars(text);
    let ranges = line_ranges(&chars);
    let ghost all = lines(text@);
    let mut i: usize = 0;
    assert(all.take(0) =~= Seq::<Seq<char>>::empty());
    while i < ranges.len()
        invariant
            chars@ == text@,
            all == lines(text@),
            pieces(chars@, ranges@) == all,
            i <= ranges@.len(),
            forall|j: int|
                0 <= j < ranges@.len() ==> (#[trigger] ranges@[j]).0 <= ranges@[j].1
                    <= chars@.len(),
            vars.wf(),
            text_map(vars@) == env_vars(all.take(i as int)),
        decreases ranges.len() - i,
    {
        let (a, b) = ranges[i];
        let entry = parse_env_line(&chars, a, b);
        proof {
            assert(all[i as int] == chars@.subrange(a as int, b as int));
            assert(all.take(i as int + 1).drop_last() =~= all.take(i as int));
            assert(all.take(i as int + 1).last() == all[i as int]);
        }
        if let Some((name, value)) = entry {
            let ghost before = vars@;
            let ghost (k, v) = (name@, value);
            vars.insert(name, value);
            assert(text_map(vars@) =~= text_map(before).insert(k, v@));
        }
        i = i + 1;
    }
    assert(all.take(ranges@.len() as int) =~= all);
    vars
}

/// The variable that the line from `from` up to `to` sets.
fn parse_env_line(chars: &Vec<char>, from: usize, to: usize) -> (r: Option<(String, String)>)
    requires
        from <= to <= chars@.len(),
    ensures
        (match r {
            Some((name, value)) => Some((name@, value@)),
            None => None,
        }) == env_entry(chars@.subrange(from as int, to as int)),
{
    let (a, b) = trim_range(chars, from, to);
    let ghost t = trim(chars@.subrange(from as int, to as int));
    assert(t == chars@.subrange(a as int, b as int));
    if a == b || chars[a] == '#' {
        return None;
    }
    let eq = find_char(chars, a, b, '=');
    if eq == b {
        return None;
    }
    assert(t.take(eq - a) =~= chars@.subrange(a as int, eq as int));
    assert(t.skip(eq - a + 1) =~= chars@.subrange(eq as int + 1, b as int));
    let (ka, kb) = trim_range(chars, a, eq);
    if ka == kb {
        return None;
    }
    let (va, vb) = trim_range(chars, eq + 1, b);
    let ghost value = chars@.subrange(va as int, vb as int);
    let quoted = vb - va >= 2 && ((chars[va] == '"' && chars[vb - 1] == '"') || (chars[va] == '\''
        && chars[vb - 1] == '\''));
    let name = substring(chars, ka, kb);
    if quoted {
        assert(value.subrange(1, value.len() - 1) =~= chars@.subrange(va as int + 1, vb as int - 1));
        Some((name, substring(chars, va + 1, vb - 1)))
    } else {
        Some((name, substring(chars, va, vb)))
    }
}

/// Where several sources set a variable, the virtual environment wins over the
/// configuration, and the configuration over the file; and nothing else sets one.
pub proof fn law_env_precedence(
    script: Script,
    config_dir: Seq<char>,
    file: Option<Seq<char>>,
    current_path: Seq<u8>,
    name: Seq<char>,
)
    ensures
        ({
            let env = script.environment(config_dir, file, current_path);
            let from_venv = script.venv_layer(config_dir, current_path);
            let from_config = script.inline_layer();
            let from_file = script.file_layer(file);
            &&& from_venv.contains_key(name) == (script.venv is Some && (name == "PATH"@ || name
                == "VIRTUAL_ENV"@))
            &&& env.contains_key(name) == (from_venv.contains_key(name)
                || from_config.contains_key(name) || from_file.contains_key(name))
            &&& env.contains_key(name) ==> env[name] == (if from_venv.contains_key(name) {
                from_venv[name]
            } else if from_config.contains_key(name) {
                encode_utf8(from_config[name])
            } else {
                encode_utf8(from_file[name])
            })
        }),
{
}

/// A script's virtual environment comes first among the places where programs
/// are looked for, before those of the daemon, and is named as the current one.
pub proof fn law_venv(script: Script, config_dir: Seq<char>, current_path: Seq<u8>)
    requires
        script.venv is Some,
    ensures
        ({
            let venv = join(script.base_dir(config_dir), script.venv->0@);
            let layer = script.venv_layer(config_dir, current_path);
            &&& layer["PATH"@] == encode_utf8(join(venv, "bin"@)) + seq![58u8] + current_path
            &&& layer["VIRTUAL_ENV"@] == encode_utf8(venv)
        }),
{
    reveal_strlit("PATH");
    reveal_strlit("VIRTUAL_ENV");
    assert("PATH"@.len() != "VIRTUAL_ENV"@.len());
}

/// The last line of a file that sets a variable says what it is; a line that
/// sets none changes nothing.
pub proof fn law_later_line_wins(file: Seq<Seq<char>>, line: Seq<char>, name: Seq<char>)
    ensures
        ({
            let before = env_vars(file);
            let after = env_vars(file.push(line));
            match env_entry(line) {
                None => after == before,
                Some((k, v)) => after.contains_key(k) && after[k] == v && (name != k ==>
                    after.contains_key(name) == before.contains_key(name) && (
                before.contains_key(name) ==> after[name] == before[name])),
            }
        }),
{
    assert(file.push(line).drop_last() =~= file);
}

/// Two scripts count as the same just if all that their configurations say is
/// the same: texts by their characters, paths by their components, variables by
/// their names and values.
pub proof fn law_same_definition(a: Script, b: Script)
    ensures
        (a@ == b@) <==> {
            &&& a.command@ == b.command@
            &&& a.restart_policy == b.restart_policy
            &&& a.max_restarts == b.max_restarts
            &&& a.cron is Some == b.cron is Some
            &&& a.cron is Some ==> a.cron->0@ == b.cron->0@
            &&& a.context is Some == b.context is Some
            &&& a.context is Some ==> key(a.context->0@) == key(b.context->0@)
            &&& a.venv is Some == b.venv is Some
            &&& a.venv is Some ==> key(a.venv->0@) == key(b.venv->0@)
            &&& a.env_file is Some == b.env_file is Some
            &&& a.env_file is Some ==> key(a.env_file->0@) == key(b.env_file->0@)
            &&& a.env is Some == b.env is Some
            &&& a.env is Some ==> same_values(a.env->0@, b.env->0@)
        },
{
    if a.env is Some && b.env is Some {
        let x = a.env->0@;
        let y = b.env->0@;
        if text_map(x) == text_map(y) {
            assert forall|k: Seq<char>| #[trigger] x.contains_key(k) == y.contains_key(k) by {
                assert(text_map(x).contains_key(k) == text_map(y).contains_key(k));
            }
            assert forall|k: Seq<char>| #[trigger] x.contains_key(k) implies x[k]@ == y[k]@ by {
                assert(text_map(x)[k] == text_map(y)[k]);
            }
        }
        if same_values(x, y) {
            assert(text_map(x) =~= text_map(y));
        }
    }
}

/// Whether two maps have the same names and, under each, the same text.
pub open spec fn same_values(x: Map<Seq<char>, String>, y: Map<Seq<char>, String>) -> bool {
    &&& forall|k: Seq<char>| #[trigger] x.contains_key(k) == y.contains_key(k)
    &&& forall|k: Seq<char>| #[trigger] x.contains_key(k) ==> x[k]@ == y[k]@
}

/// A script is restarted as often as its configuration says; where it does not
/// say, three times if the script has a schedule, and otherwise five times.
pub proof fn law_restart_limit(script: Script)
    ensures
        script.max_restarts is Some ==> script.max_restarts == Some(script.restart_limit()),
        script.max_restarts is None && script.cron is Some ==> script.restart_limit() == 3,
        script.max_restarts is None && script.cron is None ==> script.restart_limit() == 5,
{
}

/// Whether a value stands in quotes.
pub open spec fn in_quotes(v: Seq<char>) -> bool {
    v.len() >= 2 && v[0] == v.last() && (v[0] == '"' || v[0] == '\'')
}

/// A line with a name, an equals sign and a value sets the variable of that name
/// to that value, all of it, whatever white space stands around the two; a value in
/// quotes stands for what is between them.
pub proof fn law_env_line(
    before: Seq<char>,
    name: Seq<char>,
    between: Seq<char>,
    behind: Seq<char>,
    value: Seq<char>,
    after: Seq<char>,
    inner: Seq<char>,
)
    requires
        name.len() > 0,
        !name.contains('='),
        name[0] != '#',
        tight(name),
        tight(value),
        blank(before),
        blank(between),
        blank(behind),
        blank(after),
    ensures
        ({
            let line = before + name + between + seq!['='] + behind + value + after;
            &&& !in_quotes(value) ==> env_entry(line) == Some((name, value))
            &&& value == seq!['"'] + inner + seq!['"'] ==> env_entry(line) == Some((name, inner))
            &&& value == seq!['\''] + inner + seq!['\''] ==> env_entry(line) == Some(
                (name, inner),
            )
        }),
{
    let line = before + name + between + seq!['='] + behind + value + after;
    let core = if value.len() > 0 {
        name + between + seq!['='] + behind + value
    } else {
        name + between + seq!['=']
    };
    let tail = if value.len() > 0 {
        after
    } else {
        behind + after
    };
    assert(blank(tail)) by {
        assert forall|i: int| 0 <= i < tail.len() implies is_space(#[trigger] tail[i]) by {
            if value.len() == 0 {
                if i < behind.len() {
                    assert(tail[i] == behind[i]);
                } else {
                    assert(tail[i] == after[i - behind.len()]);
                }
            }
        }
    }
    assert(line =~= before + core + tail);
    assert(core[0] == name[0]);
    if value.len() > 0 {
        assert(core.last() == value.last());
    } else {
        assert(core.last() == '=');
    }
    law_trim(before, core, tail);
    let eq = (name + between).len() as int;
    assert forall|j: int| 0 <= j < eq implies core[j] != '=' by {
        if j < name.len() {
            assert(core[j] == name[j]);
            assert(name.contains(name[j]));
        } else {
            assert(core[j] == between[j - name.len()]);
            assert(is_space(between[j - name.len()]));
        }
    }
    assert(core[eq] == '=');
    lemma_first_at_is(core, '=', eq);
    let none = Seq::<char>::empty();
    assert(core.take(eq) =~= none + name + between);
    law_trim(none, name, between);
    if value.len() > 0 {
        assert(core.skip(eq + 1) =~= behind + value + none);
        law_trim(behind, value, none);
    } else {
        assert(core.skip(eq + 1) =~= none + value + none);
        law_trim(none, value, none);
    }
    if value == seq!['"'] + inner + seq!['"'] {
        assert(value[0] == '"' && value.last() == '"');
        assert(value.subrange(1, value.len() - 1) =~= inner);
    }
    if value == seq!['\''] + inner + seq!['\''] {
        assert(value[0] == '\'' && value.last() == '\'');
        assert(value.subrange(1, value.len() - 1) =~= inner);
    }
}

/// A line sets no variable where it is blank, where a hash sign comes first in
/// it, where it has no equals sign, and where nothing but white space stands before
/// the first one.
pub proof fn law_env_line_without_variable(before: Seq<char>, rest: Seq<char>)
    requires
        blank(before),
    ensures
        env_entry(before) is None,
        env_entry(before + seq!['#'] + rest) is None,
        env_entry(before + seq!['='] + rest) is None,
        !rest.contains('=') ==> env_entry(rest) is None,
{
    let none = Seq::<char>::empty();
    assert(before =~= before + none + none);
    law_trim(before, none, none);
    lemma_trimmed_head(before, '#', rest);
    lemma_trimmed_head(before, '=', rest);
    let t = trim(before + seq!['='] + rest);
    assert(t[0] == '=');
    lemma_first_at_is(t, '=', 0);
    assert(t.take(0) =~= none + none + none);
    law_trim(none, none, none);
    if !rest.contains('=') {
        let u = trim(rest);
        lemma_first_at(u, '=');
        if first_at(u, '=') < u.len() {
            assert(u.contains(u[first_at(u, '=')]));
            lemma_trim_within(rest, '=');
        }
    }
}

/// A character that is no white space and comes first in a text stays first.
proof fn lemma_trimmed_head(before: Seq<char>, c: char, rest: Seq<char>)
    requires
        blank(before),
        !is_space(c),
    ensures
        trim(before + seq![c] + rest).len() > 0,
        trim(before + seq![c] + rest)[0] == c,
    decreases rest.len(),
{
    let s = seq![c] + rest;
    assert(before + seq![c] + rest =~= before + s);
    if rest.len() == 0 || !is_space(rest.last()) {
        assert(s.last() == (if rest.len() == 0 {
            c
        } else {
            rest.last()
        }));
        let none = Seq::<char>::empty();
        assert(before + s =~= before + s + none);
        law_trim(before, s, none);
    } else {
        let less = rest.drop_last();
        lemma_trimmed_head(before, c, less);
        lemma_trim_last(before + seq![c] + less, rest.last());
        assert(before + s =~= (before + seq![c] + less).push(rest.last()));
    }
}

/// White space at the end of a text does not change what is left of it.
proof fn lemma_trim_last(s: Seq<char>, c: char)
    requires
        is_space(c),
    ensures
        trim(s.push(c)) == trim(s),
    decreases s.len(),
{
    if s.len() > 0 && is_space(s[0]) {
        assert(s.push(c)[0] == s[0]);
        assert(s.push(c).drop_first() =~= s.drop_first().push(c));
        lemma_trim_last(s.drop_first(), c);
    } else if s.len() > 0 {
        assert(s.push(c)[0] == s[0]);
        assert(s.push(c).drop_last() =~= s);
    } else {
        let one = s.push(c);
        assert(one[0] == c);
        assert(one.drop_first() =~= s);
    }
}

/// What is left of a trimmed text was in it.
proof fn lemma_trim_within(s: Seq<char>, c: char)
    requires
        trim(s).contains(c),
    ensures
        s.contains(c),
    decreases s.len(),
{
    let t = trim_start(s);
    lemma_trim_end_within(t, c);
    if s.len() > 0 && is_space(s[0]) {
        let rest = s.drop_first();
        lemma_trim_within(rest, c);
        let i = rest.index_of(c);
        assert(s[i + 1] == c);
    }
}

/// What is left of a text without the white space at its end was in it.
proof fn lemma_trim_end_within(s: Seq<char>, c: char)
    requires
        trim_end(s).contains(c),
    ensures
        s.contains(c),
    decreases s.len(),
{
    if s.len() > 0 && is_space(s.last()) {
        let rest = s.drop_last();
        lemma_trim_end_within(rest, c);
        let i = rest.index_of(c);
        assert(s[i] == c);
    }
}

/// A variable that the configuration sets has the value that it gives, unless
/// the script's virtual environment needs it; a file adds the variables of its lines
/// where the configuration names it and sets no other value, and nothing otherwise.
pub proof fn law_environment(
    script: Script,
    config_dir: Seq<char>,
    content: Seq<char>,
    current_path: Seq<u8>,
    name: Seq<char>,
)
    requires
        script.venv is Some ==> name != "PATH"@ && name != "VIRTUAL_ENV"@,
    ensures
        ({
            let env = script.environment(config_dir, Some(content), current_path);
            let without_file = script.environment(config_dir, None, current_path);
            let inline = script.env is Some && script.env->0@.contains_key(name);
            let from_file = script.env_file is Some && env_vars(lines(content)).contains_key(name);
            &&& inline ==> env.contains_key(name) && env[name] == encode_utf8(
                script.env->0@[name]@,
            )
            &&& inline ==> without_file.contains_key(name) && without_file[name] == encode_utf8(
                script.env->0@[name]@,
            )
            &&& !inline && from_file ==> env.contains_key(name) && env[name] == encode_utf8(
                env_vars(lines(content))[name],
            )
            &&& !inline && !from_file ==> !env.contains_key(name)
            &&& !inline ==> !without_file.contains_key(name)
        }),
{
}

/// No line sets no variable.
pub proof fn law_no_lines()
    ensures
        env_vars(Seq::<Seq<char>>::empty()) == Map::<Seq<char>, Seq<char>>::empty(),
{
}

/// A script runs in the directory of its configuration; where it names another,
/// in that one, seen from there unless it starts at the root. What its virtual
/// environment holds is looked for from the directory in which it runs.
pub proof fn law_working_dir(script: Script, config_dir: Seq<char>, current_path: Seq<u8>)
    ensures
        script.context is None ==> script.base_dir(config_dir) == config_dir,
        script.context is Some && script.context->0@.len() > 0 && script.context->0@[0] == '/'
            ==> script.base_dir(config_dir) == script.context->0@,
        script.context is Some && !(script.context->0@.len() > 0 && script.context->0@[0] == '/')
            && config_dir.len() > 0 && config_dir.last() != '/' ==> script.base_dir(config_dir)
            == config_dir + seq!['/'] + script.context->0@,
        script.venv is Some ==> ({
            let venv = join(script.base_dir(config_dir), script.venv->0@);
            let env = script.environment(config_dir, None, current_path);
            &&& env.contains_key("PATH"@)
            &&& env["PATH"@] == encode_utf8(join(venv, "bin"@)) + seq![58u8] + current_path
            &&& env.contains_key("VIRTUAL_ENV"@)
            &&& env["VIRTUAL_ENV"@] == encode_utf8(venv)
        }),
{
    if script.venv is Some {
        law_venv(script, config_dir, current_path);
    }
}

/// A configuration that could be parsed does not fail to load; one that could
/// not be read or parsed fails with what was told of the cause.
pub proof fn law_load_failure(path: Seq<char>, source: ConfigSource, e: Error)
    requires
        load_failure(path, source, e),
    ensures
        !(source is Parsed),
        source matches ConfigSource::Unparsable(cause) ==> e == Error::ConfigParse(cause),
        source matches ConfigSource::Unreadable(cause) ==> e is ConfigRead && e->ConfigRead_path@
            == path && e->ConfigRead_source@ == cause@,
{
}

} // verus!
