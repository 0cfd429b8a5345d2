//! How the client brings itself and the daemon up to date.
use crate::client::service::{command1, command2, command3, command4, CommandLine};
use crate::common::paths::Platform;
use crate::path::{file_name, file_name_of, join, join_path};
use crate::text::{
    concat2, concat3, concat4, holds, lemma_holds, same_text, substring, to_chars, trim, trimmed,
};
use std::io::Read;
use vstd::prelude::*;

verus! {

/// How often it is asked whether the daemon has ended.
pub const STOP_ATTEMPTS: u32 = 20;

/// How long it is waited before each such question, in milliseconds.
pub const STOP_POLL_MS: u64 = 250;

/// How long it is waited after the daemon was forced to end, in milliseconds.
pub const KILL_GRACE_MS: u64 = 500;

/// The processors for which there are programs.
#[derive(Clone, Copy, Debug, PartialEq, Eq, Structural)]
pub enum Architecture {
    Aarch64,
    X86_64,
}

/// A version that was released.
#[derive(Debug)]
pub struct Release {
    pub tag_name: String,
    pub assets: Vec<Asset>,
}

/// A file that belongs to a release.
#[derive(Debug)]
pub struct Asset {
    pub name: String,
    pub browser_download_url: String,
}

/// A version without the letter before it.
pub open spec fn normalized(v: Seq<char>) -> Seq<char> {
    if v.len() > 0 && v[0] == 'v' {
        v.drop_first()
    } else {
        v
    }
}

/// A version without the letter before it.
pub fn normalize_version(v: &str) -> (r: String)
    ensures
        r@ == normalized(v@),
{
    let chars = to_chars(v);
    if chars.len() > 0 && chars[0] == 'v' {
        let r = substring(&chars, 1, chars.len());
        assert(r@ =~= v@.drop_first());
        r
    } else {
        v.to_owned()
    }
}

/// Where the latest release is asked for.
pub fn latest_release_url() -> (r: String)
    ensures
        r@ == "https://api.github.com"@ + "/repos/"@ + "pkarpovich/turtle-harbor"@
            + "/releases/latest"@,
{
    concat4("https://api.github.com", "/repos/", "pkarpovich/turtle-harbor", "/releases/latest")
}

/// How the client names itself to others.
pub fn user_agent(current_version: &str) -> (r: String)
    ensures
        r@ == "turtle-harbor/"@ + current_version@,
{
    concat2("turtle-harbor/", current_version)
}

/// What programs for a machine are called.
pub open spec fn suffix_of(platform: Platform, architecture: Architecture) -> Option<Seq<char>> {
    match (platform, architecture) {
        (Platform::Linux, Architecture::Aarch64) => Some("aarch64-unknown-linux-gnu"@),
        (Platform::MacOs, Architecture::Aarch64) => Some("aarch64-apple-darwin"@),
        (Platform::MacOs, Architecture::X86_64) => Some("x86_64-apple-darwin"@),
        (Platform::Linux, Architecture::X86_64) => Some("x86_64-unknown-linux-gnu"@),
        (Platform::Other, _) => None,
    }
}

/// What programs for a machine are called.
pub fn asset_suffix(platform: Platform, architecture: Architecture) -> (r: Option<&'static str>)
    ensures
        (match r {
            Some(s) => Some(s@),
            None => None,
        }) == suffix_of(platform, architecture),
{
    match (platform, architecture) {
        (Platform::Linux, Architecture::Aarch64) => Some("aarch64-unknown-linux-gnu"),
        (Platform::MacOs, Architecture::Aarch64) => Some("aarch64-apple-darwin"),
        (Platform::MacOs, Architecture::X86_64) => Some("x86_64-apple-darwin"),
        (Platform::Linux, Architecture::X86_64) => Some("x86_64-unknown-linux-gnu"),
        (Platform::Other, _) => None,
    }
}

/// What is to be done about the latest release.
#[derive(Debug)]
pub enum UpdateDecision {
    /// It is the version that is there.
    UpToDate,
    /// It has no programs for this machine; in words.
    NoAsset(String),
    /// Load the file of this name from this address.
    Download { latest: String, name: String, url: String },
}

/// The file with the programs for a machine.
pub open spec fn asset_name(suffix: Seq<char>) -> Seq<char> {
    "turtle-harbor-"@ + suffix + ".tar.gz"@
}

/// The first file of a name among some, or the number of them where there is none.
pub open spec fn first_asset(assets: Seq<Asset>, name: Seq<char>) -> int
    decreases assets.len(),
{
    if assets.len() == 0 {
        0
    } else if assets[0].name@ == name {
        0
    } else {
        1 + first_asset(assets.drop_first(), name)
    }
}

/// A position that holds a name and has none before it is the first.
proof fn lemma_first_asset_is(assets: Seq<Asset>, name: Seq<char>, i: int)
    requires
        0 <= i <= assets.len(),
        i < assets.len() ==> assets[i].name@ == name,
        forall|j: int| 0 <= j < i ==> (#[trigger] assets[j]).name@ != name,
    ensures
        first_asset(assets, name) == i,
    decreases assets.len(),
{
    if assets.len() > 0 && i > 0 {
        assert(assets[0].name@ != name);
        let rest = assets.drop_first();
        assert forall|j: int| 0 <= j < i - 1 implies (#[trigger] rest[j]).name@ != name by {
            assert(rest[j] == assets[j + 1]);
        }
        if i < assets.len() {
            assert(rest[i - 1] == assets[i]);
        }
        lemma_first_asset_is(rest, name, i - 1);
    }
}

/// Whether this is to be done about the latest release.
pub open spec fn decides(
    decision: UpdateDecision,
    current_version: Seq<char>,
    release: Release,
    suffix: Seq<char>,
) -> bool {
    match decision {
        UpdateDecision::UpToDate => normalized(release.tag_name@) == current_version,
        UpdateDecision::NoAsset(_) => {
            &&& normalized(release.tag_name@) != current_version
            &&& forall|i: int|
                0 <= i < release.assets@.len() ==> (#[trigger] release.assets@[i]).name@
                    != asset_name(suffix)
        },
        UpdateDecision::Download { latest, name, url } => {
            &&& normalized(release.tag_name@) != current_version
            &&& latest@ == normalized(release.tag_name@)
            &&& exists|i: int|
                0 <= i < release.assets@.len() && (#[trigger] release.assets@[i]).name@
                    == asset_name(suffix) && name == release.assets@[i].name && url
                    == release.assets@[i].browser_download_url
        },
    }
}

/// What is to be done about the latest release: nothing where it is the
/// version that is there; else its programs for this machine are loaded, if it has any.
pub fn decide_update(current_version: &str, release: &Release, suffix: &str) -> (r: UpdateDecision)
    ensures
        ({
            let latest = normalized(release.tag_name@);
            let i = first_asset(release.assets@, asset_name(suffix@));
            if latest == current_version@ {
                r is UpToDate
            } else if i < release.assets@.len() {
                &&& 0 <= i
                &&& r matches UpdateDecision::Download { latest: l, name, url }
                &&& l@ == latest
                &&& name == release.assets@[i].name
                &&& url == release.assets@[i].browser_download_url
            } else {
                &&& r matches UpdateDecision::NoAsset(text)
                &&& text@ == "no binary found for this platform ("@ + suffix@ + ")"@
            }
        }),
        decides(r, current_version@, *release, suffix@),
{
    proof {
        law_first_asset(release.assets@, asset_name(suffix@));
    }
    let latest = normalize_version(release.tag_name.as_str());
    if same_text(latest.as_str(), current_version) {
        return UpdateDecision::UpToDate;
    }
    let expected = concat3("turtle-harbor-", suffix, ".tar.gz");
    let mut i: usize = 0;
    while i < release.assets.len()
        invariant
            expected@ == asset_name(suffix@),
            i <= release.assets@.len(),
            latest@ == normalized(release.tag_name@),
            latest@ != current_version@,
            forall|j: int| 0 <= j < i ==> (#[trigger] release.assets@[j]).name@ != expected@,
        decreases release.assets.len() - i,
    {
        if same_text(release.assets[i].name.as_str(), expected.as_str()) {
            proof {
                lemma_first_asset_is(release.assets@, expected@, i as int);
            }
            return UpdateDecision::Download {
                latest,
                name: release.assets[i].name.clone(),
                url: release.assets[i].browser_download_url.clone(),
            };
        }
        i = i + 1;
    }
    proof {
        lemma_first_asset_is(release.assets@, expected@, i as int);
    }
    UpdateDecision::NoAsset(concat3("no binary found for this platform (", suffix, ")"))
}

/// What the client says of the versions.
pub fn new_version_message(current_version: &str, latest: &str) -> (r: String)
    ensures
        r@ == "New version available: "@ + current_version@ + " -> "@ + latest@,
{
    concat4("New version available: ", current_version, " -> ", latest)
}

/// The members of a compressed archive, each with its path and its content, as
/// `tar::Archive` tells them over `flate2::read::GzDecoder`; or the words of the
/// first error that comes of reading them.
pub uninterp spec fn archive_members(data: Seq<u8>) -> Result<
    Seq<(Seq<u8>, Seq<u8>)>,
    Seq<char>,
>;

/// The bytes of a list of pairs.
pub open spec fn member_bytes(v: Seq<(Vec<u8>, Vec<u8>)>) -> Seq<(Seq<u8>, Seq<u8>)> {
    v.map_values(|m: (Vec<u8>, Vec<u8>)| (m.0@, m.1@))
}

/// Hands the members of a compressed archive out one by one: calls
/// `tar::Archive::entries` over a `flate2::read::GzDecoder`, and for each entry
/// `tar::Entry::path_bytes` and, for its content, `read_to_end`. The result is a
/// function of the data; which members an archive has is left unsaid.
#[verifier::external_body]
fn read_archive(data: &[u8]) -> (r: Result<Vec<(Vec<u8>, Vec<u8>)>, String>)
    ensures
        (match r {
            Ok(v) => Ok(member_bytes(v@)),
            Err(e) => Err(e@),
        }) == archive_members(data@),
{
    let mut archive = tar::Archive::new(flate2::read::GzDecoder::new(data));
    let mut out = Vec::new();
    for entry in archive.entries().map_err(|e| e.to_string())? {
        let mut entry = entry.map_err(|e| e.to_string())?;
        let path = entry.path_bytes().into_owned();
        let mut content = Vec::new();
        entry.read_to_end(&mut content).map_err(|e| e.to_string())?;
        out.push((path, content));
    }
    Ok(out)
}

/// A program that was taken out of an archive.
#[derive(Debug)]
pub struct Binary {
    pub name: String,
    pub content: Vec<u8>,
}

/// Bytes as characters, one for one.
pub open spec fn byte_chars(bytes: Seq<u8>) -> Seq<char> {
    bytes.map_values(|b: u8| b as char)
}

/// The program that a member of an archive is, if it is one: the last
/// component of its path is the name of a program.
pub open spec fn binary_name(path: Seq<u8>) -> Option<Seq<char>> {
    match file_name(byte_chars(path)) {
        Some(name) => if name == "th"@ || name == "turtled"@ {
            Some(name)
        } else {
            None
        },
        None => None,
    }
}

/// The programs among some members, each with its content.
pub open spec fn binaries(members: Seq<(Seq<u8>, Seq<u8>)>) -> Seq<(Seq<char>, Seq<u8>)>
    decreases members.len(),
{
    if members.len() == 0 {
        Seq::empty()
    } else {
        let front = binaries(members.drop_last());
        match binary_name(members.last().0) {
            Some(name) => front.push((name, members.last().1)),
            None => front,
        }
    }
}

/// Names and contents of some programs.
pub open spec fn binary_views(v: Seq<Binary>) -> Seq<(Seq<char>, Seq<u8>)> {
    v.map_values(|b: Binary| (b.name@, b.content@))
}

/// The program that a member of an archive is, if it is one.
fn program_of(path: &Vec<u8>) -> (r: Option<String>)
    ensures
        (match r {
            Some(name) => Some(name@),
            None => None,
        }) == binary_name(path@),
{
    let mut chars: Vec<char> = Vec::new();
    let mut i: usize = 0;
    while i < path.len()
        invariant
            i <= path@.len(),
            chars@ == byte_chars(path@.take(i as int)),
        decreases path.len() - i,
    {
        chars.push(path[i] as char);
        i = i + 1;
        assert(chars@ =~= byte_chars(path@.take(i as int)));
    }
    assert(path@.take(i as int) =~= path@);
    match file_name_of(&chars) {
        None => None,
        Some(name) => if same_text(name.as_str(), "th") || same_text(name.as_str(), "turtled") {
            Some(name)
        } else {
            None
        },
    }
}

/// The programs among the members of an archive, in order. One that comes
/// later takes the place of an earlier one of the same name when they are written.
pub fn pick_binaries(members: Vec<(Vec<u8>, Vec<u8>)>) -> (r: Vec<Binary>)
    ensures
        binary_views(r@) == binaries(member_bytes(members@)),
{
    let mut pending = members;
    let ghost all = member_bytes(members@);
    let ghost total = members@;
    let mut done: usize = 0;
    let n = pending.len();
    let mut out: Vec<Binary> = Vec::new();
    assert(total.skip(0) =~= total);
    assert(binary_views(out@) =~= binaries(all.take(0)));
    while done < n
        invariant
            n == total.len(),
            all == member_bytes(total),
            done <= n,
            pending@ == total.skip(done as int),
            binary_views(out@) == binaries(all.take(done as int)),
        decreases n - done,
    {
        let (path, content) = pending.remove(0);
        proof {
            assert(all.take(done as int + 1).drop_last() =~= all.take(done as int));
            assert(all[done as int] == (path@, content@));
            assert(pending@ =~= total.skip(done as int + 1));
        }
        if let Some(name) = program_of(&path) {
            let ghost before = out@;
            let ghost view = (name@, content@);
            out.push(Binary { name, content });
            assert(binary_views(out@) =~= binary_views(before).push(view));
        }
        done = done + 1;
    }
    assert(all.take(n as int) =~= all);
    out
}

/// The programs in a compressed archive, or why it cannot be read.
pub fn extract_binaries(tar_gz_data: &[u8]) -> (r: Result<Vec<Binary>, String>)
    ensures
        match archive_members(tar_gz_data@) {
            Ok(members) => r is Ok && binary_views(r->Ok_0@) == binaries(members),
            Err(e) => r is Err && r->Err_0@ == e,
        },
{
    match read_archive(tar_gz_data) {
        Ok(members) => Ok(pick_binaries(members)),
        Err(e) => Err(e),
    }
}

/// The first thing to be done to stop the daemon.
#[derive(Debug)]
pub enum StopDaemon {
    /// There is no socket: the daemon does not run.
    NotRunning,
    /// Stop the scripts, then ask the daemon to end.
    Stop { scripts: CommandLine, daemon: CommandLine },
}

/// The first thing to be done to stop the daemon.
pub fn stop_daemon(socket_exists: bool, bin_dir: &str) -> (r: StopDaemon)
    ensures
        match r {
            StopDaemon::NotRunning => !socket_exists,
            StopDaemon::Stop { scripts, daemon } => socket_exists && scripts.words() == seq![
                join(bin_dir@, "th"@),
                "down"@,
            ] && daemon.words() == seq!["pkill"@, "turtled"@],
        },
{
    if !socket_exists {
        return StopDaemon::NotRunning;
    }
    let client = join_path(bin_dir, "th");
    StopDaemon::Stop {
        scripts: command1(client.as_str(), "down"),
        daemon: command1("pkill", "turtled"),
    }
}

/// What is done once it was asked whether the daemon has ended.
#[derive(Debug)]
pub enum StopPoll {
    /// It has ended.
    Stopped,
    /// Wait, and ask again.
    AskAgain,
    /// Force it to end.
    Kill(CommandLine),
}

/// What is done once it was asked, for the given time, counted from one,
/// whether the daemon has ended.
pub fn poll_stop(attempt: u32, alive: bool) -> (r: StopPoll)
    ensures
        r is Stopped == !alive,
        r is AskAgain == (alive && attempt < STOP_ATTEMPTS),
        r matches StopPoll::Kill(command) ==> command.words() == seq![
            "pkill"@,
            "-9"@,
            "turtled"@,
        ],
{
    if !alive {
        StopPoll::Stopped
    } else if attempt < STOP_ATTEMPTS {
        StopPoll::AskAgain
    } else {
        StopPoll::Kill(command2("pkill", "-9", "turtled"))
    }
}

/// A program that is put in its place.
#[derive(Debug)]
pub struct Replacement {
    pub message: String,
    pub command: CommandLine,
    pub failure: String,
}

/// How a program is put in its place, or why it cannot be: it was not in the archive.
pub fn replace_binary(name: &str, temp_dir: &str, target_dir: &str, extracted: bool) -> (r: Result<
    Replacement,
    String,
>)
    ensures
        match r {
            Ok(step) => {
                &&& extracted
                &&& step.message@ == "Installing "@ + name@ + " -> "@ + join(target_dir@, name@)
                &&& step.command.words() == seq![
                    "sudo"@,
                    "cp"@,
                    "-f"@,
                    join(temp_dir@, name@),
                    join(target_dir@, name@),
                ]
                &&& step.failure@ == "sudo cp failed for "@ + name@
            },
            Err(e) => !extracted && e@ == "extracted archive missing "@ + name@,
        },
{
    if !extracted {
        return Err(concat2("extracted archive missing ", name));
    }
    let src = join_path(temp_dir, name);
    let dest = join_path(target_dir, name);
    Ok(
        Replacement {
            message: concat4("Installing ", name, " -> ", dest.as_str()),
            command: command4("sudo", "cp", "-f", src.as_str(), dest.as_str()),
            failure: concat2("sudo cp failed for ", name),
        },
    )
}

/// The programs that are put in their places, in order.
pub fn binaries_to_replace() -> (r: [&'static str; 2])
    ensures
        r@[0]@ == "th"@,
        r@[1]@ == "turtled"@,
{
    ["th", "turtled"]
}

/// The command that restarts the daemon as a service, on systems that have one for it.
pub fn restart_service(platform: Platform) -> (r: Option<CommandLine>)
    ensures
        r is Some == platform is Linux,
        r is Some ==> r->0.words() == seq!["systemctl"@, "--user"@, "restart"@, "turtle-harbor"@],
{
    match platform {
        Platform::Linux => Some(command3("systemctl", "--user", "restart", "turtle-harbor")),
        _ => None,
    }
}

/// The daemon's program, where it has to be started directly: the service
/// was not restarted.
pub fn restart_daemon(service_restarted: Option<bool>, bin_dir: &str) -> (r: Option<String>)
    ensures
        match r {
            Some(program) => service_restarted != Some(true) && program@ == join(
                bin_dir@,
                "turtled"@,
            ),
            None => service_restarted == Some(true),
        },
{
    if let Some(done) = service_restarted {
        if done {
            return None;
        }
    }
    Some(join_path(bin_dir, "turtled"))
}

/// What the client says in the end: the version that the daemon tells, or else
/// the one that was loaded.
pub fn updated_message(told: Option<&str>, latest: &str) -> (r: String)
    ensures
        r@ == (match told {
            Some(output) => "Updated successfully: "@ + trim(output@),
            None => "Updated to "@ + latest@,
        }),
{
    match told {
        Some(output) => concat2("Updated successfully: ", trimmed(output).as_str()),
        None => concat2("Updated to ", latest),
    }
}

/// Only programs come out of an archive.
pub proof fn law_only_programs_come_out(members: Seq<(Seq<u8>, Seq<u8>)>, i: int)
    requires
        0 <= i < binaries(members).len(),
    ensures
        binaries(members)[i].0 == "th"@ || binaries(members)[i].0 == "turtled"@,
    decreases members.len(),
{
    if members.len() > 0 && i < binaries(members.drop_last()).len() {
        law_only_programs_come_out(members.drop_last(), i);
    }
}

/// A version is the same with and without its letter.
pub proof fn law_normalized(v: Seq<char>)
    requires
        v.len() == 0 || v[0] != 'v',
    ensures
        normalized(seq!['v'] + v) == v,
        normalized(v) == v,
{
    assert((seq!['v'] + v).drop_first() =~= v);
}

/// The first file of a name is one of that name with none before it; it is
/// missed just if there is none.
pub proof fn law_first_asset(assets: Seq<Asset>, name: Seq<char>)
    ensures
        0 <= first_asset(assets, name) <= assets.len(),
        first_asset(assets, name) < assets.len() ==> assets[first_asset(assets, name)].name@
            == name,
        first_asset(assets, name) == assets.len() ==> forall|i: int|
            0 <= i < assets.len() ==> (#[trigger] assets[i]).name@ != name,
        forall|i: int|
            0 <= i < first_asset(assets, name) ==> (#[trigger] assets[i]).name@ != name,
    decreases assets.len(),
{
    if assets.len() > 0 && assets[0].name@ != name {
        let rest = assets.drop_first();
        law_first_asset(rest, name);
        assert forall|i: int| 0 <= i < first_asset(assets, name) implies (
        #[trigger] assets[i]).name@ != name by {
            if i > 0 {
                assert(rest[i - 1] == assets[i]);
            }
        }
    }
}

/// Each machine for which there are programs has its own.
pub proof fn law_suffixes_differ(
    a: Platform,
    b: Platform,
    x: Architecture,
    y: Architecture,
)
    ensures
        suffix_of(a, x) is None <==> a is Other,
        !(a is Other) && suffix_of(a, x) == suffix_of(b, y) ==> a == b && x == y,
        a is Linux && x is X86_64 ==> suffix_of(a, x) == Some("x86_64-unknown-linux-gnu"@),
        a is Linux && x is Aarch64 ==> suffix_of(a, x) == Some("aarch64-unknown-linux-gnu"@),
        a is MacOs && x is X86_64 ==> suffix_of(a, x) == Some("x86_64-apple-darwin"@),
        a is MacOs && x is Aarch64 ==> suffix_of(a, x) == Some("aarch64-apple-darwin"@),
{
    reveal_strlit("x86_64-unknown-linux-gnu");
    reveal_strlit("aarch64-unknown-linux-gnu");
    reveal_strlit("x86_64-apple-darwin");
    reveal_strlit("aarch64-apple-darwin");
    assert("x86_64-unknown-linux-gnu"@.len() == 24);
    assert("aarch64-unknown-linux-gnu"@.len() == 25);
    assert("x86_64-apple-darwin"@.len() == 19);
    assert("aarch64-apple-darwin"@.len() == 20);
}

/// Each member of an archive whose file name is that of a program comes out with
/// its content, behind those before it; any other stays in.
pub proof fn law_programs_come_out(
    members: Seq<(Seq<u8>, Seq<u8>)>,
    path: Seq<u8>,
    content: Seq<u8>,
)
    ensures
        ({
            let before = binaries(members);
            let after = binaries(members.push((path, content)));
            let name = file_name(byte_chars(path));
            let program = name is Some && (name->0 == "th"@ || name->0 == "turtled"@);
            &&& program ==> after == before.push((name->0, content))
            &&& !program ==> after == before
        }),
        binaries(Seq::empty()).len() == 0,
{
    let more = members.push((path, content));
    assert(more.drop_last() =~= members);
    assert(more.last() == (path, content));
}

/// The file with the programs for a machine is named after the machine, so that
/// different machines have different files.
pub proof fn law_asset_name(a: Seq<char>, b: Seq<char>)
    ensures
        asset_name(a) == asset_name(b) ==> a == b,
        holds(asset_name(a), a),
{
    let head = "turtle-harbor-"@;
    let tail = ".tar.gz"@;
    lemma_holds(head, a, tail);
    if asset_name(a) == asset_name(b) {
        let n = head.len() as int;
        assert(asset_name(a).len() == n + a.len() + tail.len());
        assert(asset_name(b).len() == n + b.len() + tail.len());
        assert(asset_name(a).subrange(n, n + a.len()) =~= a);
        assert(asset_name(b).subrange(n, n + b.len()) =~= b);
    }
}

/// A release is loaded just if it is another version, letter or not, than the
/// one that is there and has the programs for this machine; then it is that file of
/// it that is loaded.
pub proof fn law_decision(
    decision: UpdateDecision,
    current_version: Seq<char>,
    release: Release,
    suffix: Seq<char>,
)
    requires
        decides(decision, current_version, release, suffix),
        current_version.len() == 0 || current_version[0] != 'v',
    ensures
        release.tag_name@ == current_version || release.tag_name@ == seq!['v'] + current_version
            ==> decision is UpToDate,
        decision is UpToDate ==> release.tag_name@ == current_version || release.tag_name@
            == seq!['v'] + current_version,
        !(decision is UpToDate) ==> (decision is Download <==> exists|i: int|
            0 <= i < release.assets@.len() && (#[trigger] release.assets@[i]).name@ == asset_name(
                suffix,
            )),
        decision is Download ==> exists|i: int|
            0 <= i < release.assets@.len() && (#[trigger] release.assets@[i]).name@ == asset_name(
                suffix,
            ) && decision->url == release.assets@[i].browser_download_url,
{
    law_normalized(current_version);
    let tag = release.tag_name@;
    if tag.len() > 0 && tag[0] == 'v' {
        assert(tag =~= seq!['v'] + tag.drop_first());
    }
    if decision is Download {
        let i = choose|i: int|
            0 <= i < release.assets@.len() && (#[trigger] release.assets@[i]).name@ == asset_name(
                suffix,
            ) && decision->Download_name == release.assets@[i].name && decision->url
                == release.assets@[i].browser_download_url;
        assert(release.assets@[i].name@ == asset_name(suffix));
    }
}

} // verus!
