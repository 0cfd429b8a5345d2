//! Where the daemon keeps its socket, its state and its logs.
use crate::common::ipc::Profile;
use crate::path::{join, join_path};
use vstd::pervasive::unreached;
use vstd::prelude::*;

verus! {

/// The operating systems that differ in where files are kept.
#[derive(Clone, Copy, Debug, PartialEq, Eq, Structural)]
pub enum Platform {
    MacOs,
    Linux,
    Other,
}

/// What a machine says about where files are kept.
#[derive(Debug)]
pub struct Directories {
    pub platform: Platform,
    pub data: Option<String>,
    pub home: Option<String>,
    pub runtime: Option<String>,
}

impl Directories {
    /// The project's own directory among the user's data.
    pub open spec fn project_data(self) -> Seq<char>
        recommends
            self.data is Some,
    {
        join(self.data->0@, "turtle-harbor"@)
    }
}

/// Where the daemon listens: on Linux among the user's runtime files, if there
/// is a place for them, and otherwise in the project's own directory.
pub open spec fn socket_location(profile: Profile, dirs: Directories) -> Seq<char> {
    match (profile, dirs.platform, dirs.runtime) {
        (Profile::Development, _, _) => "/tmp/turtle-harbor.sock"@,
        (Profile::Production, Platform::Linux, Some(runtime)) => join(
            runtime@,
            "turtle-harbor.sock"@,
        ),
        (Profile::Production, _, _) => join(dirs.project_data(), "daemon.sock"@),
    }
}

/// The project's own directory among the user's data.
fn data_dir(dirs: &Directories) -> (r: String)
    requires
        dirs.data is Some,
    ensures
        r@ == dirs.project_data(),
{
    match &dirs.data {
        Some(base) => join_path(base.as_str(), "turtle-harbor"),
        None => unreached(),
    }
}

/// The socket on which the daemon listens.
pub fn socket_path(profile: Profile, dirs: &Directories) -> (r: String)
    requires
        profile is Production && !(dirs.platform is Linux && dirs.runtime is Some) ==> dirs.data
            is Some,
    ensures
        r@ == socket_location(profile, *dirs),
{
    match profile {
        Profile::Development => "/tmp/turtle-harbor.sock".to_owned(),
        Profile::Production => {
            if let (Platform::Linux, Some(runtime)) = (dirs.platform, &dirs.runtime) {
                return join_path(runtime.as_str(), "turtle-harbor.sock");
            }
            join_path(data_dir(dirs).as_str(), "daemon.sock")
        },
    }
}

/// The file in which the daemon keeps its state.
pub fn state_file(profile: Profile, dirs: &Directories) -> (r: String)
    requires
        profile is Production ==> dirs.data is Some,
    ensures
        r@ == (match profile {
            Profile::Development => "/tmp/turtle-harbor-state.json"@,
            Profile::Production => join(dirs.project_data(), "state.json"@),
        }),
{
    match profile {
        Profile::Development => "/tmp/turtle-harbor-state.json".to_owned(),
        Profile::Production => join_path(data_dir(dirs).as_str(), "state.json"),
    }
}

/// The directory in which the daemon keeps its logs.
pub fn log_dir(profile: Profile, dirs: &Directories) -> (r: String)
    requires
        profile is Production && dirs.platform is MacOs ==> dirs.home is Some,
        profile is Production && !(dirs.platform is MacOs) ==> dirs.data is Some,
    ensures
        r@ == (match (profile, dirs.platform) {
            (Profile::Development, _) => "logs"@,
            (Profile::Production, Platform::MacOs) => join(
                dirs.home->0@,
                "Library/Logs/turtle-harbor"@,
            ),
            (Profile::Production, _) => join(dirs.project_data(), "logs"@),
        }),
{
    match profile {
        Profile::Development => "logs".to_owned(),
        Profile::Production => {
            if let (Platform::MacOs, Some(home)) = (dirs.platform, &dirs.home) {
                return join_path(home.as_str(), "Library/Logs/turtle-harbor");
            }
            join_path(data_dir(dirs).as_str(), "logs")
        },
    }
}

/// On Linux with a place for runtime files the daemon listens there; anywhere
/// else in production in the project's directory among the user's data, and in
/// development in the directory for temporary files, whatever the machine says.
pub proof fn law_socket_location(dirs: Directories)
    ensures
        socket_location(Profile::Development, dirs) == "/tmp/turtle-harbor.sock"@,
        dirs.platform == Platform::Linux && dirs.runtime is Some ==> socket_location(
            Profile::Production,
            dirs,
        ) == join(dirs.runtime->0@, "turtle-harbor.sock"@),
        (dirs.platform != Platform::Linux || dirs.runtime is None) && dirs.data is Some
            ==> socket_location(Profile::Production, dirs) == join(
            join(dirs.data->0@, "turtle-harbor"@),
            "daemon.sock"@,
        ),
{
}

} // verus!
