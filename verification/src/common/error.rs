//! The ways in which an operation fails, and how each is put into words.
use crate::text::{concat2, concat3, concat4, decimal, decimal_u64, holds, lemma_holds};
use vstd::prelude::*;

verus! {

/// The kinds of input/output failure that the client tells apart.
#[derive(Clone, Copy, Debug, PartialEq, Eq, Structural)]
pub enum IoKind {
    NotFound,
    ConnectionRefused,
    Other,
}

/// A failed input or output operation.
#[derive(Debug)]
pub struct IoFailure {
    pub kind: IoKind,
    pub message: String,
}

/// The ways in which an operation fails.
#[derive(Debug)]
pub enum Error {
    Io(IoFailure),
    ConfigRead { path: String, source: String },
    ConfigParse(String),
    MessageTooLarge { size: u32, max: u32 },
    CommandTimeout,
    ScriptNotFound { name: String },
    ScriptNameConflict { name: String, existing_config: String },
    CronParse { expression: String, source: String },
    ConfigNotLoaded,
    Json(String),
}

impl Error {
    /// The failure in words.
    pub open spec fn text(self) -> Seq<char> {
        match self {
            Error::Io(e) => "IO error: "@ + e.message@,
            Error::ConfigRead { path, source } => "failed to read config file "@ + path@ + ": "@
                + source@,
            Error::ConfigParse(e) => "failed to parse config: "@ + e@,
            Error::MessageTooLarge { size, max } => "message size "@ + decimal(size as nat)
                + " exceeds maximum "@ + decimal(max as nat),
            Error::CommandTimeout => "command timed out"@,
            Error::ScriptNotFound { name } => "script '"@ + name@ + "' not found"@,
            Error::ScriptNameConflict { name, existing_config } => "script '"@ + name@
                + "' already exists in "@ + existing_config@,
            Error::CronParse { expression, source } => "invalid cron expression '"@ + expression@
                + "': "@ + source@,
            Error::ConfigNotLoaded => "no configuration loaded - run 'th up' first"@,
            Error::Json(e) => "JSON serialization error: "@ + e@,
        }
    }

    /// The failure in words.
    pub fn message(&self) -> (r: String)
        ensures
            r@ == self.text(),
    {
        match self {
            Error::Io(e) => concat2("IO error: ", e.message.as_str()),
            Error::ConfigRead { path, source } => concat4(
                "failed to read config file ",
                path.as_str(),
                ": ",
                source.as_str(),
            ),
            Error::ConfigParse(e) => concat2("failed to parse config: ", e.as_str()),
            Error::MessageTooLarge { size, max } => concat4(
                "message size ",
                decimal_u64(*size as u64).as_str(),
                " exceeds maximum ",
                decimal_u64(*max as u64).as_str(),
            ),
            Error::CommandTimeout => "command timed out".to_owned(),
            Error::ScriptNotFound { name } => concat3("script '", name.as_str(), "' not found"),
            Error::ScriptNameConflict { name, existing_config } => concat4(
                "script '",
                name.as_str(),
                "' already exists in ",
                existing_config.as_str(),
            ),
            Error::CronParse { expression, source } => concat4(
                "invalid cron expression '",
                expression.as_str(),
                "': ",
                source.as_str(),
            ),
            Error::ConfigNotLoaded => "no configuration loaded - run 'th up' first".to_owned(),
            Error::Json(e) => concat2("JSON serialization error: ", e.as_str()),
        }
    }
}

/// A failure in words holds what it is about: the path, the script, the
/// expression, the sizes, and what was told of the cause.
pub proof fn law_text(e: Error)
    ensures
        match e {
            Error::Io(io) => holds(e.text(), io.message@),
            Error::ConfigRead { path, source } => holds(e.text(), path@) && holds(
                e.text(),
                source@,
            ),
            Error::ConfigParse(cause) => holds(e.text(), cause@),
            Error::MessageTooLarge { size, max } => holds(e.text(), decimal(size as nat)) && holds(
                e.text(),
                decimal(max as nat),
            ),
            Error::ScriptNotFound { name } => holds(e.text(), name@),
            Error::ScriptNameConflict { name, existing_config } => holds(e.text(), name@) && holds(
                e.text(),
                existing_config@,
            ),
            Error::CronParse { expression, source } => holds(e.text(), expression@) && holds(
                e.text(),
                source@,
            ),
            Error::Json(cause) => holds(e.text(), cause@),
            _ => e.text() != Seq::<char>::empty(),
        },
{
    let none = Seq::<char>::empty();
    let t = e.text();
    match e {
        Error::Io(io) => {
            lemma_holds("IO error: "@, io.message@, none);
            assert("IO error: "@ + io.message@ + none =~= t);
        },
        Error::ConfigRead { path, source } => {
            lemma_holds("failed to read config file "@, path@, ": "@ + source@);
            assert("failed to read config file "@ + path@ + (": "@ + source@) =~= t);
            lemma_holds("failed to read config file "@ + path@ + ": "@, source@, none);
            assert("failed to read config file "@ + path@ + ": "@ + source@ + none =~= t);
        },
        Error::ConfigParse(cause) => {
            lemma_holds("failed to parse config: "@, cause@, none);
            assert("failed to parse config: "@ + cause@ + none =~= t);
        },
        Error::MessageTooLarge { size, max } => {
            let a = decimal(size as nat);
            let b = decimal(max as nat);
            lemma_holds("message size "@, a, " exceeds maximum "@ + b);
            assert("message size "@ + a + (" exceeds maximum "@ + b) =~= t);
            lemma_holds("message size "@ + a + " exceeds maximum "@, b, none);
            assert("message size "@ + a + " exceeds maximum "@ + b + none =~= t);
        },
        Error::ScriptNotFound { name } => {
            lemma_holds("script '"@, name@, "' not found"@);
        },
        Error::ScriptNameConflict { name, existing_config } => {
            lemma_holds("script '"@, name@, "' already exists in "@ + existing_config@);
            assert("script '"@ + name@ + ("' already exists in "@ + existing_config@) =~= t);
            lemma_holds("script '"@ + name@ + "' already exists in "@, existing_config@, none);
            assert("script '"@ + name@ + "' already exists in "@ + existing_config@ + none =~= t);
        },
        Error::CronParse { expression, source } => {
            lemma_holds("invalid cron expression '"@, expression@, "': "@ + source@);
            assert("invalid cron expression '"@ + expression@ + ("': "@ + source@) =~= t);
            lemma_holds("invalid cron expression '"@ + expression@ + "': "@, source@, none);
            assert("invalid cron expression '"@ + expression@ + "': "@ + source@ + none =~= t);
        },
        Error::Json(cause) => {
            lemma_holds("JSON serialization error: "@, cause@, none);
            assert("JSON serialization error: "@ + cause@ + none =~= t);
        },
        _ => {
            reveal_strlit("command timed out");
            reveal_strlit("no configuration loaded - run 'th up' first");
        },
    }
}

} // verus!
