//! The health of scripts as it is told over HTTP.
use crate::daemon::health::{HealthSnapshot, ScriptHealth};
use crate::text::{concat3, decimal, decimal_u64};
use vstd::prelude::*;

verus! {

/// All is well.
pub const STATUS_OK: u16 = 200;

/// There is no such script.
pub const STATUS_NOT_FOUND: u16 = 404;

/// Something is not well.
pub const STATUS_UNAVAILABLE: u16 = 503;

/// The answer to a question for one script.
#[derive(Debug)]
pub enum HealthReply {
    /// The health of the script.
    Health(ScriptHealth),
    /// What is wrong with the question.
    Error(String),
}

/// The address on which questions are taken.
pub fn listen_address(bind: &str, port: u16) -> (r: String)
    ensures
        r@ == bind@ + ":"@ + decimal(port as nat),
{
    concat3(bind, ":", decimal_u64(port as u64).as_str())
}

/// The status of the answer to the question for all scripts.
pub open spec fn overall_status(scripts: Seq<ScriptHealth>) -> u16 {
    if exists|i: int| 0 <= i < scripts.len() && !(#[trigger] scripts[i]).healthy {
        STATUS_UNAVAILABLE
    } else {
        STATUS_OK
    }
}

/// The status of the answer to the question for one script.
pub open spec fn single_status(snapshot: HealthSnapshot, name: Seq<char>) -> u16 {
    if !snapshot@.contains_key(name) {
        STATUS_NOT_FOUND
    } else if snapshot@[name].healthy {
        STATUS_OK
    } else {
        STATUS_UNAVAILABLE
    }
}

/// The answer to the question for all scripts: the health of each, and that
/// all is well unless a script is not healthy.
pub fn all_health(snapshot: &HealthSnapshot) -> (r: (u16, Vec<ScriptHealth>))
    requires
        snapshot.wf(),
    ensures
        r.0 == (if exists|i: int|
            0 <= i < snapshot.values().len() && !(#[trigger] snapshot.values()[i]).healthy {
            STATUS_UNAVAILABLE
        } else {
            STATUS_OK
        }),
        r.0 == overall_status(snapshot.values()),
        r.1@ == snapshot.values(),
{
    let mut scripts: Vec<ScriptHealth> = Vec::new();
    let mut any_failed = false;
    let mut i: usize = 0;
    let n = snapshot.len();
    while i < n
        invariant
            n == snapshot.names().len(),
            n == snapshot.values().len(),
            i <= n,
            scripts@ == snapshot.values().take(i as int),
            any_failed == exists|j: int|
                0 <= j < i && !(#[trigger] snapshot.values()[j]).healthy,
        decreases n - i,
    {
        let script = snapshot.value_at(i);
        if !script.healthy {
            any_failed = true;
            assert(!snapshot.values()[i as int].healthy);
        }
        scripts.push(script.clone());
        i = i + 1;
        assert(scripts@ =~= snapshot.values().take(i as int));
    }
    assert(snapshot.values().take(n as int) =~= snapshot.values());
    let status: u16 = if any_failed {
        STATUS_UNAVAILABLE
    } else {
        STATUS_OK
    };
    (status, scripts)
}

/// The answer to the question for one script.
pub fn script_health(snapshot: &HealthSnapshot, name: &str) -> (r: (u16, HealthReply))
    requires
        snapshot.wf(),
    ensures
        r.0 == single_status(*snapshot, name@),
        if snapshot@.contains_key(name@) {
            &&& r.1 == HealthReply::Health(snapshot@[name@])
            &&& r.0 == (if snapshot@[name@].healthy {
                STATUS_OK
            } else {
                STATUS_UNAVAILABLE
            })
        } else {
            &&& r.0 == STATUS_NOT_FOUND
            &&& r.1 matches HealthReply::Error(text)
            &&& text@ == "script '"@ + name@ + "' not found"@
        },
{
    match snapshot.get(name) {
        None => (
            STATUS_NOT_FOUND,
            HealthReply::Error(concat3("script '", name, "' not found")),
        ),
        Some(script) => {
            let status: u16 = if script.healthy {
                STATUS_OK
            } else {
                STATUS_UNAVAILABLE
            };
            (status, HealthReply::Health(script.clone()))
        },
    }
}

/// Once no script that is not healthy is reported any more, all is well; and a
/// script that is not healthy keeps that from being so.
pub proof fn law_unhealthy_script_is_told(snapshot: HealthSnapshot, name: Seq<char>)
    requires
        snapshot.wf(),
        snapshot@.contains_key(name),
        !snapshot@[name].healthy,
    ensures
        exists|i: int|
            0 <= i < snapshot.values().len() && !(#[trigger] snapshot.values()[i]).healthy,
{
    let i = snapshot.names().index_of(name);
    assert(snapshot.names().contains(name));
    snapshot.lemma_at(i);
    assert(!snapshot.values()[i].healthy);
}

/// All is well just if every script is healthy; one that is not is enough to
/// keep that from being so, both for all scripts and for that one. Of a script of
/// which nothing is known, that is told.
pub proof fn law_statuses(snapshot: HealthSnapshot, name: Seq<char>)
    requires
        snapshot.wf(),
    ensures
        overall_status(snapshot.values()) == 200 || overall_status(snapshot.values()) == 503,
        overall_status(snapshot.values()) == 200 <==> forall|k: Seq<char>| #[trigger]
            snapshot@.contains_key(k) ==> snapshot@[k].healthy,
        snapshot@.contains_key(name) && snapshot@[name].healthy ==> single_status(snapshot, name)
            == 200,
        snapshot@.contains_key(name) && !snapshot@[name].healthy ==> single_status(snapshot, name)
            == 503 && overall_status(snapshot.values()) == 503,
        !snapshot@.contains_key(name) ==> single_status(snapshot, name) == 404,
{
    if snapshot@.contains_key(name) && !snapshot@[name].healthy {
        law_unhealthy_script_is_told(snapshot, name);
    }
    if overall_status(snapshot.values()) == 200 {
        assert forall|k: Seq<char>| #[trigger]
            snapshot@.contains_key(k) implies snapshot@[k].healthy by {
            if !snapshot@[k].healthy {
                law_unhealthy_script_is_told(snapshot, k);
            }
        }
    } else {
        let i = choose|i: int|
            0 <= i < snapshot.values().len() && !(#[trigger] snapshot.values()[i]).healthy;
        snapshot.lemma_lengths();
        snapshot.lemma_at(i);
        assert(snapshot@.contains_key(snapshot.names()[i]));
    }
}

} // verus!
