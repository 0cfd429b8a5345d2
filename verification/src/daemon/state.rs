//! What the daemon remembers of its scripts across restarts.
use crate::common::error::{Error, IoFailure};
use crate::common::ipc::ProcessStatus;
use crate::path::{
    extension, file_name, key, lemma_other_extension, parent, parent_path, replace_extension,
    with_extension,
};
use crate::text::{copy_text, optional_text, same_text};
use crate::time::Timestamp;
use vstd::prelude::*;

verus! {

/// The version of the state that this daemon writes.
pub const STATE_VERSION: u32 = 3;

/// What is remembered of one script.
#[derive(Debug)]
pub struct ScriptState {
    pub name: String,
    pub config_path: Option<String>,
    pub status: ProcessStatus,
    pub last_started: Option<Timestamp>,
    pub last_stopped: Option<Timestamp>,
    pub exit_code: Option<i32>,
    pub explicitly_stopped: bool,
    pub restart_count: u32,
}

impl Clone for ScriptState {
    fn clone(&self) -> (r: Self)
        ensures
            r == *self,
    {
        ScriptState {
            name: self.name.clone(),
            config_path: copy_text(&self.config_path),
            status: self.status,
            last_started: self.last_started,
            last_stopped: self.last_stopped,
            exit_code: self.exit_code,
            explicitly_stopped: self.explicitly_stopped,
            restart_count: self.restart_count,
        }
    }
}

/// What is remembered of all scripts.
#[derive(Debug)]
pub struct RunningState {
    pub version: u32,
    pub scripts: Vec<ScriptState>,
    pub state_file: String,
    pub config_path: Option<String>,
}

/// What came of reading and parsing a state file.
#[derive(Debug)]
pub enum StateSource {
    Missing,
    Unreadable(IoFailure),
    Unparsable(String),
    Parsed(RunningState),
}

/// How a state is written: into a file of its own beside the state file,
/// which then takes the state file's place.
#[derive(Debug)]
pub struct SavePlan {
    pub directory: Option<String>,
    pub temporary: String,
    pub target: String,
}

/// Where a script stands first in a list, or the length of the list.
pub open spec fn first_named(list: Seq<ScriptState>, name: Seq<char>) -> int
    decreases list.len(),
{
    if list.len() == 0 {
        0
    } else if list[0].name@ == name {
        0
    } else {
        1 + first_named(list.drop_first(), name)
    }
}

/// Whether a list remembers a script.
pub open spec fn remembers(list: Seq<ScriptState>, name: Seq<char>) -> bool {
    first_named(list, name) < list.len()
}

/// What a list remembers of a script.
pub open spec fn recall(list: Seq<ScriptState>, name: Seq<char>) -> Option<ScriptState> {
    if remembers(list, name) {
        Some(list[first_named(list, name)])
    } else {
        None
    }
}

/// A list in which `script` stands where its name stood first, or at the end.
pub open spec fn updated(list: Seq<ScriptState>, script: ScriptState) -> Seq<ScriptState> {
    if remembers(list, script.name@) {
        list.update(first_named(list, script.name@), script)
    } else {
        list.push(script)
    }
}

/// A list without the entries of one name.
pub open spec fn removed(list: Seq<ScriptState>, name: Seq<char>) -> Seq<ScriptState>
    decreases list.len(),
{
    if list.len() == 0 {
        list
    } else if list.last().name@ == name {
        removed(list.drop_last(), name)
    } else {
        removed(list.drop_last(), name).push(list.last())
    }
}

/// No name stands twice in a list.
pub open spec fn distinct(list: Seq<ScriptState>) -> bool {
    forall|i: int, j: int|
        0 <= i < j < list.len() ==> (#[trigger] list[i]).name@ != (#[trigger] list[j]).name@
}

/// An entry that carries a configuration: its own, or else the given one.
pub open spec fn with_config(script: ScriptState, legacy: Option<String>) -> ScriptState {
    if script.config_path is None {
        ScriptState { config_path: legacy, ..script }
    } else {
        script
    }
}

/// A list in which each entry carries a configuration.
pub open spec fn migrated(list: Seq<ScriptState>, legacy: Option<String>) -> Seq<ScriptState> {
    Seq::new(list.len(), |i: int| with_config(list[i], legacy))
}

/// Where a name first stands is within the list, holds the name, and has none before it.
pub proof fn lemma_first_named(list: Seq<ScriptState>, name: Seq<char>)
    ensures
        0 <= first_named(list, name) <= list.len(),
        first_named(list, name) < list.len() ==> list[first_named(list, name)].name@ == name,
        forall|j: int|
            0 <= j < first_named(list, name) ==> (#[trigger] list[j]).name@ != name,
    decreases list.len(),
{
    if list.len() > 0 && list[0].name@ != name {
        let rest = list.drop_first();
        lemma_first_named(rest, name);
        assert forall|j: int|
            0 <= j < first_named(list, name) implies (#[trigger] list[j]).name@ != name by {
            if j > 0 {
                assert(rest[j - 1] == list[j]);
            }
        }
    }
}

/// A position that holds a name and has none before it is where the name first stands.
pub proof fn lemma_first_named_is(list: Seq<ScriptState>, name: Seq<char>, i: int)
    requires
        0 <= i <= list.len(),
        i < list.len() ==> list[i].name@ == name,
        forall|j: int| 0 <= j < i ==> (#[trigger] list[j]).name@ != name,
    ensures
        first_named(list, name) == i,
{
    lemma_first_named(list, name);
    let f = first_named(list, name);
    if f < i {
        assert(list[f].name@ != name);
    }
    if i < f {
        assert(list[i].name@ != name);
    }
}

impl RunningState {
    /// No script is remembered twice.
    pub open spec fn wf(self) -> bool {
        distinct(self.scripts@)
    }

    /// A state that remembers no script.
    pub fn new(state_file: String) -> (r: Self)
        ensures
            r.version == STATE_VERSION,
            r.scripts@.len() == 0,
            r.state_file == state_file,
            r.config_path is None,
            r.wf(),
    {
        RunningState {
            version: STATE_VERSION,
            scripts: Vec::new(),
            state_file,
            config_path: None,
        }
    }

    /// The state that was read from `state_file`: an empty one where there is
    /// no file; else each script that has no configuration of its own gets the
    /// one that the file gives for all.
    pub fn load(state_file: &str, source: StateSource) -> (r: Result<Self, Error>)
        ensures
            match source {
                StateSource::Missing => r is Ok && r->Ok_0.version == STATE_VERSION
                    && r->Ok_0.scripts@.len() == 0 && r->Ok_0.state_file@ == state_file@
                    && r->Ok_0.config_path is None,
                StateSource::Unreadable(e) => r == Err::<Self, Error>(Error::Io(e)),
                StateSource::Unparsable(e) => r == Err::<Self, Error>(Error::Json(e)),
                StateSource::Parsed(s) => r is Ok && r->Ok_0.version == s.version
                    && r->Ok_0.scripts@ == migrated(s.scripts@, s.config_path)
                    && r->Ok_0.state_file@ == state_file@ && r->Ok_0.config_path is None,
            },
    {
        match source {
            StateSource::Missing => Ok(RunningState::new(state_file.to_owned())),
            StateSource::Unreadable(e) => Err(Error::Io(e)),
            StateSource::Unparsable(e) => Err(Error::Json(e)),
            StateSource::Parsed(s) => {
                let legacy = s.config_path;
                let scripts = migrate(&s.scripts, &legacy);
                Ok(
                    RunningState {
                        version: s.version,
                        scripts,
                        state_file: state_file.to_owned(),
                        config_path: None,
                    },
                )
            },
        }
    }

    /// How the state is written to its file.
    pub fn save_plan(&self) -> (r: SavePlan)
        ensures
            optional_text(r.directory) == parent(self.state_file@),
            r.temporary@ == with_extension(self.state_file@, "tmp"@),
            r.target == self.state_file,
    {
        SavePlan {
            directory: parent_path(self.state_file.as_str()),
            temporary: replace_extension(self.state_file.as_str(), "tmp"),
            target: self.state_file.clone(),
        }
    }

    /// Where a script stands first, or the number of scripts.
    fn position(&self, name: &str) -> (r: usize)
        ensures
            r == first_named(self.scripts@, name@),
            r <= self.scripts@.len(),
    {
        let mut i: usize = 0;
        while i < self.scripts.len()
            invariant
                i <= self.scripts@.len(),
                forall|j: int| 0 <= j < i ==> (#[trigger] self.scripts@[j]).name@ != name@,
            decreases self.scripts.len() - i,
        {
            if same_text(self.scripts[i].name.as_str(), name) {
                proof {
                    lemma_first_named_is(self.scripts@, name@, i as int);
                }
                return i;
            }
            i = i + 1;
        }
        proof {
            lemma_first_named_is(self.scripts@, name@, i as int);
        }
        i
    }

    /// Whether a script is remembered.
    pub fn contains(&self, name: &str) -> (r: bool)
        ensures
            r == remembers(self.scripts@, name@),
    {
        self.position(name) < self.scripts.len()
    }

    /// What is remembered of a script.
    pub fn find(&self, name: &str) -> (r: Option<&ScriptState>)
        ensures
            r is Some == remembers(self.scripts@, name@),
            r is Some ==> Some(*r->0) == recall(self.scripts@, name@),
    {
        let i = self.position(name);
        if i < self.scripts.len() {
            Some(&self.scripts[i])
        } else {
            None
        }
    }

    /// Remembers `script` in place of what was remembered under its name.
    pub fn update_script(&mut self, script: ScriptState)
        ensures
            final(self).scripts@ == updated(old(self).scripts@, script),
            final(self).version == old(self).version,
            final(self).state_file == old(self).state_file,
            final(self).config_path == old(self).config_path,
            old(self).wf() ==> final(self).wf(),
    {
        proof {
            law_update_keeps_distinct(self.scripts@, script);
        }
        let i = self.position(script.name.as_str());
        if i < self.scripts.len() {
            let mut slot = script;
            std::mem::swap(&mut slot, &mut self.scripts[i]);
            assert(self.scripts@ =~= old(self).scripts@.update(i as int, script));
        } else {
            self.scripts.push(script);
        }
    }

    /// Forgets a script.
    pub fn remove_script(&mut self, name: &str)
        ensures
            final(self).scripts@ == removed(old(self).scripts@, name@),
            final(self).version == old(self).version,
            final(self).state_file == old(self).state_file,
            final(self).config_path == old(self).config_path,
            old(self).wf() ==> final(self).wf(),
    {
        let mut kept: Vec<ScriptState> = Vec::new();
        let ghost all = self.scripts@;
        let mut i: usize = 0;
        assert(all.take(0) =~= Seq::<ScriptState>::empty());
        while i < self.scripts.len()
            invariant
                all == self.scripts@,
                i <= all.len(),
                kept@ == removed(all.take(i as int), name@),
            decreases self.scripts.len() - i,
        {
            assert(all.take(i as int + 1).drop_last() =~= all.take(i as int));
            if !same_text(self.scripts[i].name.as_str(), name) {
                kept.push(self.scripts[i].clone());
            }
            i = i + 1;
        }
        assert(all.take(i as int) =~= all);
        self.scripts = kept;
        proof {
            lemma_removed_subset(all, name@);
            if distinct(all) {
                lemma_removed_distinct(all, name@);
            }
        }
    }
}

/// Gives each entry that has none a configuration.
fn migrate(list: &Vec<ScriptState>, legacy: &Option<String>) -> (r: Vec<ScriptState>)
    ensures
        r@ == migrated(list@, *legacy),
{
    let mut out: Vec<ScriptState> = Vec::new();
    let mut i: usize = 0;
    while i < list.len()
        invariant
            i <= list@.len(),
            out@ == migrated(list@.take(i as int), *legacy),
        decreases list.len() - i,
    {
        let mut script = list[i].clone();
        if script.config_path.is_none() {
            script.config_path = copy_text(legacy);
        }
        out.push(script);
        i = i + 1;
        assert(out@ =~= migrated(list@.take(i as int), *legacy));
    }
    assert(list@.take(i as int) =~= list@);
    out
}

/// What is left after a removal was there before, under another name.
pub proof fn lemma_removed_subset(list: Seq<ScriptState>, name: Seq<char>)
    ensures
        forall|i: int|
            0 <= i < removed(list, name).len() ==> (#[trigger] removed(list, name)[i]).name@ != name
                && list.contains(removed(list, name)[i]),
        forall|i: int|
            0 <= i < list.len() && (#[trigger] list[i]).name@ != name ==> removed(
                list,
                name,
            ).contains(list[i]),
    decreases list.len(),
{
    if list.len() > 0 {
        let front = list.drop_last();
        lemma_removed_subset(front, name);
        let left = removed(list, name);
        assert forall|i: int| 0 <= i < left.len() implies (#[trigger] left[i]).name@ != name
            && list.contains(left[i]) by {
            if i < removed(front, name).len() {
                assert(removed(front, name)[i] == left[i]);
                let j = front.index_of(left[i]);
                assert(front.contains(left[i]));
                assert(list[j] == left[i]);
            } else {
                assert(left[i] == list[list.len() - 1]);
            }
        }
        assert forall|i: int|
            0 <= i < list.len() && (#[trigger] list[i]).name@ != name implies left.contains(
            list[i],
        ) by {
            if i < front.len() {
                assert(front[i] == list[i]);
                let j = removed(front, name).index_of(list[i]);
                assert(left[j] == list[i]);
            } else {
                assert(left[left.len() - 1] == list[i]);
            }
        }
    }
}

/// A removal keeps names apart.
proof fn lemma_removed_distinct(list: Seq<ScriptState>, name: Seq<char>)
    requires
        distinct(list),
    ensures
        distinct(removed(list, name)),
    decreases list.len(),
{
    if list.len() > 0 {
        let front = list.drop_last();
        assert(distinct(front)) by {
            assert forall|i: int, j: int|
                0 <= i < j < front.len() implies (#[trigger] front[i]).name@ != (
            #[trigger] front[j]).name@ by {
                assert(front[i] == list[i] && front[j] == list[j]);
            }
        }
        lemma_removed_distinct(front, name);
        lemma_removed_subset(front, name);
        let left = removed(list, name);
        assert forall|i: int, j: int| 0 <= i < j < left.len() implies (#[trigger] left[i]).name@
            != (#[trigger] left[j]).name@ by {
            let inner = removed(front, name);
            if j < inner.len() {
                assert(inner[i] == left[i] && inner[j] == left[j]);
            } else {
                assert(inner[i] == left[i]);
                assert(front.contains(left[i]));
                let k = front.index_of(left[i]);
                assert(list[k] == left[i]);
                assert(left[j] == list[list.len() - 1]);
            }
        }
    }
}

/// An update keeps names apart.
pub proof fn law_update_keeps_distinct(list: Seq<ScriptState>, script: ScriptState)
    ensures
        distinct(list) ==> distinct(updated(list, script)),
{
    lemma_first_named(list, script.name@);
    let f = first_named(list, script.name@);
    let new = updated(list, script);
    if distinct(list) {
        assert forall|i: int, j: int| 0 <= i < j < new.len() implies (#[trigger] new[i]).name@ != (
        #[trigger] new[j]).name@ by {
            if f < list.len() {
                if i != f && j != f {
                    assert(list[i].name@ != list[j].name@);
                } else if i == f {
                    assert(list[f].name@ != list[j].name@);
                } else {
                    assert(list[i].name@ != list[f].name@);
                }
            } else if j < list.len() {
                assert(list[i].name@ != list[j].name@);
            } else {
                assert(list[i].name@ != script.name@);
            }
        }
    }
}

/// A removal keeps names apart.
pub proof fn law_removal_keeps_distinct(list: Seq<ScriptState>, name: Seq<char>)
    requires
        distinct(list),
    ensures
        distinct(removed(list, name)),
{
    lemma_removed_distinct(list, name);
}

/// After an update a script is remembered as the update said, and every other
/// script as before.
pub proof fn law_recall_after_update(list: Seq<ScriptState>, script: ScriptState, name: Seq<char>)
    ensures
        recall(updated(list, script), name) == (if name == script.name@ {
            Some(script)
        } else {
            recall(list, name)
        }),
{
    let new = updated(list, script);
    let f = first_named(list, script.name@);
    lemma_first_named(list, script.name@);
    lemma_first_named(list, name);
    if name == script.name@ {
        assert forall|j: int| 0 <= j < f implies (#[trigger] new[j]).name@ != name by {
            assert(new[j] == list[j]);
        }
        lemma_first_named_is(new, name, f);
    } else {
        let g = first_named(list, name);
        if g < list.len() {
            assert forall|j: int| 0 <= j < g implies (#[trigger] new[j]).name@ != name by {
                if j != f {
                    assert(new[j] == list[j]);
                }
            }
            assert(new[g] == list[g]);
            lemma_first_named_is(new, name, g);
        } else {
            assert forall|j: int| 0 <= j < new.len() implies (#[trigger] new[j]).name@
                != name by {
                if j != f {
                    assert(new[j] == list[j]);
                }
            }
            lemma_first_named_is(new, name, new.len() as int);
        }
    }
}

/// After a removal a script is not remembered, and every other script is as before.
pub proof fn law_recall_after_removal(list: Seq<ScriptState>, gone: Seq<char>, name: Seq<char>)
    ensures
        recall(removed(list, gone), name) == (if name == gone {
            None
        } else {
            recall(list, name)
        }),
    decreases list.len(),
{
    let left = removed(list, gone);
    lemma_removed_subset(list, gone);
    lemma_first_named(left, name);
    if name == gone {
        let f = first_named(left, name);
        if f < left.len() {
            assert(left[f].name@ != gone);
        }
    } else if list.len() > 0 {
        let front = list.drop_last();
        law_recall_after_removal(front, gone, name);
        lemma_recall_last(list, name);
        if list.last().name@ != gone {
            assert(left.drop_last() =~= removed(front, gone));
            lemma_recall_last(left, name);
        }
    }
}

/// What a list remembers of a script is what all but the last entry remember
/// of it, or else the last entry.
proof fn lemma_recall_last(list: Seq<ScriptState>, name: Seq<char>)
    requires
        list.len() > 0,
    ensures
        recall(list, name) == (if remembers(list.drop_last(), name) {
            recall(list.drop_last(), name)
        } else if list.last().name@ == name {
            Some(list.last())
        } else {
            None
        }),
{
    let front = list.drop_last();
    let g = first_named(front, name);
    lemma_first_named(front, name);
    assert forall|j: int| 0 <= j < g implies (#[trigger] list[j]).name@ != name by {
        assert(front[j] == list[j]);
    }
    if g < front.len() {
        assert(front[g] == list[g]);
        lemma_first_named_is(list, name, g);
    } else if list.last().name@ == name {
        lemma_first_named_is(list, name, g);
    } else {
        assert forall|j: int| 0 <= j < list.len() implies (#[trigger] list[j]).name@ != name by {
            if j < g {
                assert(front[j] == list[j]);
            }
        }
        lemma_first_named_is(list, name, list.len() as int);
    }
}

/// Migration keeps a configuration that a script has, gives each other script
/// the one of the whole state, and changes nothing else; and a state that was
/// migrated stays as it is when it is migrated once more.
pub proof fn law_migration(list: Seq<ScriptState>, legacy: Option<String>, i: int)
    requires
        0 <= i < list.len(),
    ensures
        migrated(list, legacy).len() == list.len(),
        migrated(list, legacy)[i].config_path == (if list[i].config_path is Some {
            list[i].config_path
        } else {
            legacy
        }),
        (ScriptState { config_path: list[i].config_path, ..migrated(list, legacy)[i] }) == list[i],
        migrated(migrated(list, legacy), None) == migrated(list, legacy),
        distinct(list) ==> distinct(migrated(list, legacy)),
{
    assert(migrated(migrated(list, legacy), None) =~= migrated(list, legacy)) by {
        assert forall|j: int| 0 <= j < list.len() implies with_config(
            with_config(list[j], legacy),
            None,
        ) == with_config(list[j], legacy) by {}
    }
}

/// The state is first written to another file in the directory of its own file,
/// which it then replaces, unless the extension of its file is that of the other one.
pub proof fn law_state_is_replaced(state_file: Seq<char>)
    requires
        file_name(state_file) is Some,
        extension(state_file) != Some("tmp"@),
    ensures
        key(with_extension(state_file, "tmp"@)) != key(state_file),
        parent(with_extension(state_file, "tmp"@)) == parent(state_file),
{
    reveal_strlit("tmp");
    lemma_other_extension(state_file, "tmp"@);
}

/// What is remembered of a script is the first entry of its name; where no entry
/// has the name, nothing is.
pub proof fn law_recall(list: Seq<ScriptState>, name: Seq<char>, i: int)
    ensures
        recall(list, name) is Some <==> exists|j: int|
            0 <= j < list.len() && (#[trigger] list[j]).name@ == name,
        0 <= i < list.len() && list[i].name@ == name && (forall|j: int|
            0 <= j < i ==> (#[trigger] list[j]).name@ != name) ==> recall(list, name) == Some(
            list[i],
        ),
{
    lemma_first_named(list, name);
    if recall(list, name) is Some {
        assert(list[first_named(list, name)].name@ == name);
    }
    if 0 <= i < list.len() && list[i].name@ == name && (forall|j: int|
        0 <= j < i ==> (#[trigger] list[j]).name@ != name) {
        lemma_first_named_is(list, name, i);
    }
}

/// An update of a script that is remembered keeps the order and the number of
/// the entries; of one that is not, it adds an entry behind the others.
pub proof fn law_update_keeps_order(list: Seq<ScriptState>, script: ScriptState, i: int)
    requires
        0 <= i < list.len(),
    ensures
        updated(list, script).len() == (if exists|j: int|
            0 <= j < list.len() && (#[trigger] list[j]).name@ == script.name@ {
            list.len()
        } else {
            list.len() + 1
        }),
        list[i].name@ != script.name@ ==> updated(list, script)[i] == list[i],
        updated(list, script)[i].name@ == list[i].name@,
{
    lemma_first_named(list, script.name@);
    let f = first_named(list, script.name@);
    if f < list.len() {
        assert(list[f].name@ == script.name@);
    }
}

} // verus!
