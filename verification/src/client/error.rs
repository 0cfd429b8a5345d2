//! How the client tells a failure.
use crate::common::error::{Error, IoKind};
use crate::text::{concat2, concat3, concat4, decimal, decimal_u64, holds, lemma_holds};
use vstd::prelude::*;

verus! {

/// How the client tells a failure.
pub open spec fn user_message(error: Error) -> Seq<char> {
    match error {
        Error::Io(e) => match e.kind {
            IoKind::NotFound => "Daemon is not running. Please start turtled first"@,
            IoKind::ConnectionRefused => "Daemon is not running. Please start turtled first"@,
            IoKind::Other => "IO error: "@ + e.message@,
        },
        Error::ConfigRead { path, source } => "Failed to read config "@ + path@ + ": "@ + source@,
        Error::ConfigParse(e) => "Configuration error: "@ + e@,
        Error::MessageTooLarge { size, max } => "Message too large: "@ + decimal(size as nat)
            + " bytes (max "@ + (decimal(max as nat) + ")"@),
        Error::CommandTimeout => "Command timed out waiting for daemon response"@,
        Error::ScriptNotFound { name } => "Script '"@ + name@ + "' not found"@,
        Error::ScriptNameConflict { name, existing_config } => "Script '"@ + name@
            + "' already exists in "@ + existing_config@,
        Error::ConfigNotLoaded => "No configuration loaded - run 'th up' first"@,
        Error::CronParse { expression, source } => "Invalid cron '"@ + expression@ + "': "@
            + source@,
        Error::Json(e) => "JSON error: "@ + e@,
    }
}

/// How the client tells a failure before it ends.
pub fn handle_error(error: &Error) -> (r: String)
    ensures
        r@ == user_message(*error),
{
    match error {
        Error::Io(e) => match e.kind {
            IoKind::NotFound => "Daemon is not running. Please start turtled first".to_owned(),
            IoKind::ConnectionRefused => {
                "Daemon is not running. Please start turtled first".to_owned()
            },
            IoKind::Other => concat2("IO error: ", e.message.as_str()),
        },
        Error::ConfigRead { path, source } => concat4(
            "Failed to read config ",
            path.as_str(),
            ": ",
            source.as_str(),
        ),
        Error::ConfigParse(e) => concat2("Configuration error: ", e.as_str()),
        Error::MessageTooLarge { size, max } => {
            let end = concat2(decimal_u64(*max as u64).as_str(), ")");
            concat4(
                "Message too large: ",
                decimal_u64(*size as u64).as_str(),
                " bytes (max ",
                end.as_str(),
            )
        },
        Error::CommandTimeout => "Command timed out waiting for daemon response".to_owned(),
        Error::ScriptNotFound { name } => concat3("Script '", name.as_str(), "' not found"),
        Error::ScriptNameConflict { name, existing_config } => concat4(
            "Script '",
            name.as_str(),
            "' already exists in ",
            existing_config.as_str(),
        ),
        Error::ConfigNotLoaded => "No configuration loaded - run 'th up' first".to_owned(),
        Error::CronParse { expression, source } => concat4(
            "Invalid cron '",
            expression.as_str(),
            "': ",
            source.as_str(),
        ),
        Error::Json(e) => concat2("JSON error: ", e.as_str()),
    }
}

/// What the client tells of a failure holds what it is about; where the daemon
/// cannot be reached, it tells just that, whatever the system said.
pub proof fn law_user_message(e: Error, other: Error)
    ensures
        match e {
            Error::Io(io) => io.kind is Other ==> holds(user_message(e), io.message@),
            Error::ConfigRead { path, source } => holds(user_message(e), path@) && holds(
                user_message(e),
                source@,
            ),
            Error::ConfigParse(cause) => holds(user_message(e), cause@),
            Error::MessageTooLarge { size, max } => holds(user_message(e), decimal(size as nat))
                && holds(user_message(e), decimal(max as nat)),
            Error::ScriptNotFound { name } => holds(user_message(e), name@),
            Error::ScriptNameConflict { name, existing_config } => holds(user_message(e), name@)
                && holds(user_message(e), existing_config@),
            Error::CronParse { expression, source } => holds(user_message(e), expression@)
                && holds(user_message(e), source@),
            Error::Json(cause) => holds(user_message(e), cause@),
            _ => user_message(e) != Seq::<char>::empty(),
        },
        ((e matches Error::Io(a) && !(a.kind is Other)) && (other matches Error::Io(b) && !(b.kind
            is Other))) ==> user_message(e) == user_message(other) && holds(
            user_message(e),
            "Daemon is not running"@,
        ),
{
    let none = Seq::<char>::empty();
    let t = user_message(e);
    match e {
        Error::Io(io) => {
            lemma_holds("IO error: "@, io.message@, none);
            assert("IO error: "@ + io.message@ + none =~= "IO error: "@ + io.message@);
            reveal_strlit("Daemon is not running. Please start turtled first");
            reveal_strlit("Daemon is not running");
            let whole = "Daemon is not running. Please start turtled first"@;
            let part = "Daemon is not running"@;
            assert(whole.subrange(0, 0int + part.len()) =~= part);
            assert(holds(whole, part));
        },
        Error::ConfigRead { path, source } => {
            lemma_holds("Failed to read config "@, path@, ": "@ + source@);
            assert("Failed to read config "@ + path@ + (": "@ + source@) =~= t);
            lemma_holds("Failed to read config "@ + path@ + ": "@, source@, none);
            assert("Failed to read config "@ + path@ + ": "@ + source@ + none =~= t);
        },
        Error::ConfigParse(cause) => {
            lemma_holds("Configuration error: "@, cause@, none);
            assert("Configuration error: "@ + cause@ + none =~= t);
        },
        Error::MessageTooLarge { size, max } => {
            let a = decimal(size as nat);
            let b = decimal(max as nat);
            lemma_holds("Message too large: "@, a, " bytes (max "@ + (b + ")"@));
            assert("Message too large: "@ + a + (" bytes (max "@ + (b + ")"@)) =~= t);
            lemma_holds("Message too large: "@ + a + " bytes (max "@, b, ")"@);
            assert("Message too large: "@ + a + " bytes (max "@ + b + ")"@ =~= t);
        },
        Error::ScriptNotFound { name } => {
            lemma_holds("Script '"@, name@, "' not found"@);
        },
        Error::ScriptNameConflict { name, existing_config } => {
            lemma_holds("Script '"@, name@, "' already exists in "@ + existing_config@);
            assert("Script '"@ + name@ + ("' already exists in "@ + existing_config@) =~= t);
            lemma_holds("Script '"@ + name@ + "' already exists in "@, existing_config@, none);
            assert("Script '"@ + name@ + "' already exists in "@ + existing_config@ + none =~= t);
        },
        Error::CronParse { expression, source } => {
            lemma_holds("Invalid cron '"@, expression@, "': "@ + source@);
            assert("Invalid cron '"@ + expression@ + ("': "@ + source@) =~= t);
            lemma_holds("Invalid cron '"@ + expression@ + "': "@, source@, none);
            assert("Invalid cron '"@ + expression@ + "': "@ + source@ + none =~= t);
        },
        Error::Json(cause) => {
            lemma_holds("JSON error: "@, cause@, none);
            assert("JSON error: "@ + cause@ + none =~= t);
        },
        _ => {
            reveal_strlit("Command timed out waiting for daemon response");
            reveal_strlit("No configuration loaded - run 'th up' first");
        },
    }
}

} // verus!
