//! The daemon as a service of the system: what is written, and what is run.
use crate::common::paths::Platform;
use crate::path::{join, join_path, parent, parent_path};
use crate::text::{
    concat2, concat3, concat4, decimal, decimal_u64, holds, lemma_holds, texts,
};
use vstd::pervasive::unreached;
use vstd::prelude::*;

verus! {

/// A program with its arguments.
#[derive(Debug)]
pub struct CommandLine {
    pub program: String,
    pub arguments: Vec<String>,
}

impl CommandLine {
    /// The program and its arguments.
    pub open spec fn words(self) -> Seq<Seq<char>> {
        seq![self.program@] + texts(self.arguments@)
    }
}

/// A program that must succeed, and what is said where it does not.
#[derive(Debug)]
pub struct RequiredCommand {
    pub command: CommandLine,
    pub failure: String,
}

/// How a service is installed.
#[derive(Debug)]
pub struct InstallPlan {
    /// The directory that must be there.
    pub directory: String,
    /// Succeeds just if the service is loaded already.
    pub probe: Option<CommandLine>,
    /// Run where the service is loaded already, whether it succeeds or not.
    pub unload: Option<CommandLine>,
    /// The file that is written, and what it holds.
    pub file: String,
    pub content: String,
    /// Run in order, once the file is written.
    pub commands: Vec<RequiredCommand>,
    /// What is said in the end.
    pub report: Vec<String>,
}

/// How a service is removed.
#[derive(Debug)]
pub struct UninstallPlan {
    /// Run before the file is removed, whether it succeeds or not.
    pub stop: Option<CommandLine>,
    /// The file that is removed.
    pub file: Option<String>,
    /// Run once the file is removed, whether it succeeds or not.
    pub reload: Option<CommandLine>,
    /// What is said in the end.
    pub report: String,
}

/// A program with one argument.
pub(crate) fn command1(program: &str, a: &str) -> (r: CommandLine)
    ensures
        r.words() == seq![program@, a@],
{
    let mut arguments: Vec<String> = Vec::new();
    arguments.push(a.to_owned());
    let r = CommandLine { program: program.to_owned(), arguments };
    assert(r.words() =~= seq![program@, a@]);
    r
}

/// A program with two arguments.
pub(crate) fn command2(program: &str, a: &str, b: &str) -> (r: CommandLine)
    ensures
        r.words() == seq![program@, a@, b@],
{
    let mut r = command1(program, a);
    let ghost before = r.arguments@;
    r.arguments.push(b.to_owned());
    assert(texts(r.arguments@) =~= texts(before).push(b@));
    assert(r.words() =~= seq![program@, a@, b@]) by {
        assert(texts(before) =~= (seq![program@] + texts(before)).skip(1));
        assert(seq![program@, a@].skip(1) =~= seq![a@]);
    }
    r
}

/// A program with three arguments.
pub(crate) fn command3(program: &str, a: &str, b: &str, c: &str) -> (r: CommandLine)
    ensures
        r.words() == seq![program@, a@, b@, c@],
{
    let mut r = command2(program, a, b);
    let ghost before = r.arguments@;
    r.arguments.push(c.to_owned());
    assert(texts(r.arguments@) =~= texts(before).push(c@));
    assert(r.words() =~= seq![program@, a@, b@, c@]) by {
        assert(texts(before) =~= (seq![program@] + texts(before)).skip(1));
        assert(seq![program@, a@, b@].skip(1) =~= seq![a@, b@]);
    }
    r
}

/// A program with four arguments.
pub(crate) fn command4(program: &str, a: &str, b: &str, c: &str, d: &str) -> (r: CommandLine)
    ensures
        r.words() == seq![program@, a@, b@, c@, d@],
{
    let mut r = command3(program, a, b, c);
    let ghost before = r.arguments@;
    r.arguments.push(d.to_owned());
    assert(texts(r.arguments@) =~= texts(before).push(d@));
    assert(r.words() =~= seq![program@, a@, b@, c@, d@]) by {
        assert(texts(before) =~= (seq![program@] + texts(before)).skip(1));
        assert(seq![program@, a@, b@, c@].skip(1) =~= seq![a@, b@, c@]);
    }
    r
}

/// The daemon beside the client's own program.
pub fn turtled_bin_path(current_exe: &str) -> (r: String)
    requires
        parent(current_exe@) is Some,
    ensures
        r@ == join(parent(current_exe@)->0, "turtled"@),
{
    match parent_path(current_exe) {
        Some(dir) => join_path(dir.as_str(), "turtled"),
        None => unreached(),
    }
}

/// The directory of service files on macOS.
pub open spec fn agents_dir(home: Seq<char>) -> Seq<char> {
    join(home, "Library/LaunchAgents"@)
}

/// The service file on macOS.
pub open spec fn plist_file(home: Seq<char>) -> Seq<char> {
    join(agents_dir(home), "com.turtle-harbor.daemon"@ + ".plist"@)
}

/// The directory of service files on Linux.
pub open spec fn units_dir(home: Seq<char>) -> Seq<char> {
    join(home, ".config/systemd/user"@)
}

/// The service file on Linux.
pub open spec fn unit_file(home: Seq<char>) -> Seq<char> {
    join(units_dir(home), "turtle-harbor"@ + ".service"@)
}

/// The service file on macOS.
pub fn plist_path(home: &str) -> (r: String)
    ensures
        r@ == plist_file(home@),
{
    let dir = join_path(home, "Library/LaunchAgents");
    join_path(dir.as_str(), concat2("com.turtle-harbor.daemon", ".plist").as_str())
}

/// The service file on Linux.
pub fn unit_path(home: &str) -> (r: String)
    ensures
        r@ == unit_file(home@),
{
    let dir = join_path(home, ".config/systemd/user");
    join_path(dir.as_str(), concat2("turtle-harbor", ".service").as_str())
}

/// The arguments of the daemon in a service file of macOS.
pub open spec fn plist_arguments(turtled: Seq<char>, http_port: Option<u16>) -> Seq<char> {
    let program = "        <string>"@ + turtled + "</string>"@;
    match http_port {
        Some(port) => program
            + "\n        <string>--http-port</string>\n        <string>"@ + decimal(port as nat)
            + "</string>"@,
        None => program,
    }
}

/// What a service file of macOS holds.
pub open spec fn plist_content(
    turtled: Seq<char>,
    http_port: Option<u16>,
    log_dir: Seq<char>,
) -> Seq<char> {
    "<?xml version=\"1.0\" encoding=\"UTF-8\"?>\n<!DOCTYPE plist PUBLIC \"-//Apple//DTD PLIST 1.0//EN\" \"http://www.apple.com/DTDs/PropertyList-1.0.dtd\">\n<plist version=\"1.0\">\n<dict>\n    <key>Label</key>\n    <string>"@
        + "com.turtle-harbor.daemon"@
        + "</string>\n    <key>ProgramArguments</key>\n    <array>\n"@ + plist_arguments(
        turtled,
        http_port,
    ) + ("\n    </array>\n    <key>RunAtLoad</key>\n    <true/>\n    <key>KeepAlive</key>\n    <true/>\n    <key>StandardOutPath</key>\n    <string>"@
        + log_dir
        + "/daemon.stdout.log</string>\n    <key>StandardErrorPath</key>\n    <string>"@ + (log_dir
        + "/daemon.stderr.log</string>\n</dict>\n</plist>\n"@))
}

/// What a service file of macOS holds.
pub fn generate_plist(turtled: &str, http_port: Option<u16>, log_dir: &str) -> (r: String)
    ensures
        r@ == plist_content(turtled@, http_port, log_dir@),
{
    let program = concat3("        <string>", turtled, "</string>");
    let args = match http_port {
        Some(port) => concat4(
            program.as_str(),
            "\n        <string>--http-port</string>\n        <string>",
            decimal_u64(port as u64).as_str(),
            "</string>",
        ),
        None => program,
    };
    let head = concat4(
        "<?xml version=\"1.0\" encoding=\"UTF-8\"?>\n<!DOCTYPE plist PUBLIC \"-//Apple//DTD PLIST 1.0//EN\" \"http://www.apple.com/DTDs/PropertyList-1.0.dtd\">\n<plist version=\"1.0\">\n<dict>\n    <key>Label</key>\n    <string>",
        "com.turtle-harbor.daemon",
        "</string>\n    <key>ProgramArguments</key>\n    <array>\n",
        args.as_str(),
    );
    let end = concat2(log_dir, "/daemon.stderr.log</string>\n</dict>\n</plist>\n");
    let tail = concat4(
        "\n    </array>\n    <key>RunAtLoad</key>\n    <true/>\n    <key>KeepAlive</key>\n    <true/>\n    <key>StandardOutPath</key>\n    <string>",
        log_dir,
        "/daemon.stdout.log</string>\n    <key>StandardErrorPath</key>\n    <string>",
        end.as_str(),
    );
    concat2(head.as_str(), tail.as_str())
}

/// The command of the daemon in a service file of Linux.
pub open spec fn exec_start(turtled: Seq<char>, http_port: Option<u16>) -> Seq<char> {
    match http_port {
        Some(port) => turtled + " --http-port "@ + decimal(port as nat),
        None => turtled,
    }
}

/// What a service file of Linux holds.
pub open spec fn unit_content(turtled: Seq<char>, http_port: Option<u16>) -> Seq<char> {
    "[Unit]\nDescription=Turtle Harbor daemon\nAfter=network.target\n\n[Service]\nType=simple\nExecStart="@
        + exec_start(turtled, http_port)
        + "\nRestart=on-failure\nRestartSec=5\n\n[Install]\nWantedBy=default.target\n"@
}

/// What a service file of Linux holds.
pub fn generate_unit(turtled: &str, http_port: Option<u16>) -> (r: String)
    ensures
        r@ == unit_content(turtled@, http_port),
{
    let start = match http_port {
        Some(port) => concat3(turtled, " --http-port ", decimal_u64(port as u64).as_str()),
        None => turtled.to_owned(),
    };
    concat3(
        "[Unit]\nDescription=Turtle Harbor daemon\nAfter=network.target\n\n[Service]\nType=simple\nExecStart=",
        start.as_str(),
        "\nRestart=on-failure\nRestartSec=5\n\n[Install]\nWantedBy=default.target\n",
    )
}

/// The domain of a user's services on macOS.
pub open spec fn gui_domain(uid: u32) -> Seq<char> {
    "gui/"@ + decimal(uid as nat)
}

/// Whether a plan installs the service on macOS.
pub open spec fn installs_on_macos(
    plan: InstallPlan,
    home: Seq<char>,
    uid: u32,
    turtled: Seq<char>,
    http_port: Option<u16>,
    log_dir: Seq<char>,
) -> bool {
    &&& plan.directory@ == agents_dir(home)
    &&& plan.probe is Some
    &&& plan.probe->0.words() == seq!["launchctl"@, "list"@, "com.turtle-harbor.daemon"@]
    &&& plan.unload is Some
    &&& plan.unload->0.words() == seq!["launchctl"@, "bootout"@, gui_domain(uid), plist_file(home)]
    &&& plan.file@ == plist_file(home)
    &&& plan.content@ == plist_content(turtled, http_port, log_dir)
    &&& plan.commands@.len() == 1
    &&& plan.commands@[0].command.words() == seq![
        "launchctl"@,
        "bootstrap"@,
        gui_domain(uid),
        plist_file(home),
    ]
    &&& plan.commands@[0].failure@ == "launchctl bootstrap failed"@
    &&& texts(plan.report@) == seq![
        "Service installed and started."@,
        "  Stop:      launchctl bootout gui/$(id -u) "@ + plist_file(home),
        "  Uninstall: th uninstall"@,
    ]
}

/// Whether a plan installs the service on Linux.
pub open spec fn installs_on_linux(
    plan: InstallPlan,
    home: Seq<char>,
    turtled: Seq<char>,
    http_port: Option<u16>,
) -> bool {
    &&& plan.directory@ == units_dir(home)
    &&& plan.probe is None
    &&& plan.unload is None
    &&& plan.file@ == unit_file(home)
    &&& plan.content@ == unit_content(turtled, http_port)
    &&& plan.commands@.len() == 2
    &&& plan.commands@[0].command.words() == seq!["systemctl"@, "--user"@, "daemon-reload"@]
    &&& plan.commands@[0].failure@ == "systemctl daemon-reload failed"@
    &&& plan.commands@[1].command.words() == seq![
        "systemctl"@,
        "--user"@,
        "enable"@,
        "--now"@,
        "turtle-harbor"@,
    ]
    &&& plan.commands@[1].failure@ == "systemctl enable failed"@
    &&& texts(plan.report@) == seq![
        "Service installed and started."@,
        "  Status:    systemctl --user status "@ + "turtle-harbor"@,
        "  Uninstall: th uninstall"@,
    ]
}

/// Three texts in a list.
fn list3(a: String, b: String, c: String) -> (r: Vec<String>)
    ensures
        texts(r@) == seq![a@, b@, c@],
{
    let mut v: Vec<String> = Vec::new();
    v.push(a);
    v.push(b);
    v.push(c);
    assert(texts(v@) =~= seq![a@, b@, c@]);
    v
}

/// How the service is installed on macOS.
fn install_on_macos(
    home: &str,
    uid: u32,
    turtled: &str,
    http_port: Option<u16>,
    log_dir: &str,
) -> (r: InstallPlan)
    ensures
        installs_on_macos(r, home@, uid, turtled@, http_port, log_dir@),
{
    let file = plist_path(home);
    let domain = concat2("gui/", decimal_u64(uid as u64).as_str());
    let mut commands: Vec<RequiredCommand> = Vec::new();
    commands.push(
        RequiredCommand {
            command: command3("launchctl", "bootstrap", domain.as_str(), file.as_str()),
            failure: "launchctl bootstrap failed".to_owned(),
        },
    );
    InstallPlan {
        directory: join_path(home, "Library/LaunchAgents"),
        probe: Some(command2("launchctl", "list", "com.turtle-harbor.daemon")),
        unload: Some(command3("launchctl", "bootout", domain.as_str(), file.as_str())),
        content: generate_plist(turtled, http_port, log_dir),
        commands,
        report: list3(
            "Service installed and started.".to_owned(),
            concat2("  Stop:      launchctl bootout gui/$(id -u) ", file.as_str()),
            "  Uninstall: th uninstall".to_owned(),
        ),
        file,
    }
}

/// How the service is installed on Linux.
fn install_on_linux(home: &str, turtled: &str, http_port: Option<u16>) -> (r: InstallPlan)
    ensures
        installs_on_linux(r, home@, turtled@, http_port),
{
    let mut commands: Vec<RequiredCommand> = Vec::new();
    commands.push(
        RequiredCommand {
            command: command2("systemctl", "--user", "daemon-reload"),
            failure: "systemctl daemon-reload failed".to_owned(),
        },
    );
    commands.push(
        RequiredCommand {
            command: command4("systemctl", "--user", "enable", "--now", "turtle-harbor"),
            failure: "systemctl enable failed".to_owned(),
        },
    );
    InstallPlan {
        directory: join_path(home, ".config/systemd/user"),
        probe: None,
        unload: None,
        file: unit_path(home),
        content: generate_unit(turtled, http_port),
        commands,
        report: list3(
            "Service installed and started.".to_owned(),
            concat2("  Status:    systemctl --user status ", "turtle-harbor"),
            "  Uninstall: th uninstall".to_owned(),
        ),
    }
}

/// How the daemon is installed as a service, or why it cannot be: its program
/// is not beside the client's.
pub fn install(
    platform: Platform,
    home: &str,
    uid: u32,
    turtled: &str,
    turtled_exists: bool,
    http_port: Option<u16>,
    log_dir: &str,
) -> (r: Result<InstallPlan, String>)
    requires
        !(platform is Other),
    ensures
        match r {
            Ok(plan) => turtled_exists && (if platform is MacOs {
                installs_on_macos(plan, home@, uid, turtled@, http_port, log_dir@)
            } else {
                installs_on_linux(plan, home@, turtled@, http_port)
            }),
            Err(e) => !turtled_exists && e@ == "turtled binary not found at "@ + turtled@
                + ". Ensure it's in the same directory as th."@,
        },
{
    if !turtled_exists {
        return Err(
            concat3(
                "turtled binary not found at ",
                turtled,
                ". Ensure it's in the same directory as th.",
            ),
        );
    }
    match platform {
        Platform::MacOs => Ok(install_on_macos(home, uid, turtled, http_port, log_dir)),
        _ => Ok(install_on_linux(home, turtled, http_port)),
    }
}

/// The service file.
pub open spec fn service_file(platform: Platform, home: Seq<char>) -> Seq<char> {
    if platform is MacOs {
        plist_file(home)
    } else {
        unit_file(home)
    }
}

/// The service file.
pub fn service_path(platform: Platform, home: &str) -> (r: String)
    requires
        !(platform is Other),
    ensures
        r@ == service_file(platform, home@),
{
    match platform {
        Platform::MacOs => plist_path(home),
        _ => unit_path(home),
    }
}

/// How the service is removed; nothing is done where there is no service file.
pub fn uninstall(platform: Platform, home: &str, uid: u32, installed: bool) -> (r: UninstallPlan)
    requires
        !(platform is Other),
    ensures
        if !installed {
            &&& r.stop is None
            &&& r.file is None
            &&& r.reload is None
            &&& r.report@ == "Service is not installed."@
        } else {
            &&& r.stop is Some
            &&& r.stop->0.words() == (if platform is MacOs {
                seq!["launchctl"@, "bootout"@, gui_domain(uid), plist_file(home@)]
            } else {
                seq!["systemctl"@, "--user"@, "disable"@, "--now"@, "turtle-harbor"@]
            })
            &&& r.file is Some
            &&& r.file->0@ == service_file(platform, home@)
            &&& r.reload is Some == !(platform is MacOs)
            &&& r.reload is Some ==> r.reload->0.words() == seq![
                "systemctl"@,
                "--user"@,
                "daemon-reload"@,
            ]
            &&& r.report@ == "Service stopped and removed."@
        },
{
    if !installed {
        return UninstallPlan {
            stop: None,
            file: None,
            reload: None,
            report: "Service is not installed.".to_owned(),
        };
    }
    let report = "Service stopped and removed.".to_owned();
    match platform {
        Platform::MacOs => {
            let file = plist_path(home);
            let domain = concat2("gui/", decimal_u64(uid as u64).as_str());
            UninstallPlan {
                stop: Some(command3("launchctl", "bootout", domain.as_str(), file.as_str())),
                file: Some(file),
                reload: None,
                report,
            }
        },
        _ => UninstallPlan {
            stop: Some(command4("systemctl", "--user", "disable", "--now", "turtle-harbor")),
            file: Some(unit_path(home)),
            reload: Some(command2("systemctl", "--user", "daemon-reload")),
            report,
        },
    }
}

/// A service is removed from where it was installed to.
pub proof fn law_uninstall_undoes_install(
    plan: InstallPlan,
    platform: Platform,
    home: Seq<char>,
    uid: u32,
    turtled: Seq<char>,
    http_port: Option<u16>,
    log_dir: Seq<char>,
)
    requires
        platform is MacOs ==> installs_on_macos(plan, home, uid, turtled, http_port, log_dir),
        !(platform is MacOs) ==> installs_on_linux(plan, home, turtled, http_port),
    ensures
        plan.file@ == service_file(platform, home),
{
}

/// The service file of Linux starts the daemon from where it lies; where a port
/// is given for questions over HTTP, it is named behind that.
pub proof fn law_unit_starts_the_daemon(turtled: Seq<char>, port: u16)
    ensures
        holds(unit_content(turtled, None), "ExecStart="@ + turtled + "\n"@),
        holds(
            unit_content(turtled, Some(port)),
            "ExecStart="@ + turtled + " --http-port "@ + decimal(port as nat) + "\n"@,
        ),
{
    lemma_unit(turtled, None);
    lemma_unit(turtled, Some(port));
    assert("ExecStart="@ + (turtled + " --http-port "@ + decimal(port as nat)) + "\n"@
        =~= "ExecStart="@ + turtled + " --http-port "@ + decimal(port as nat) + "\n"@);
}

/// The command of the daemon stands on a line of its own in the service file.
proof fn lemma_unit(turtled: Seq<char>, http_port: Option<u16>)
    ensures
        holds(
            unit_content(turtled, http_port),
            "ExecStart="@ + exec_start(turtled, http_port) + "\n"@,
        ),
{
    reveal_strlit(
        "[Unit]\nDescription=Turtle Harbor daemon\nAfter=network.target\n\n[Service]\nType=simple\nExecStart=",
    );
    reveal_strlit("ExecStart=");
    reveal_strlit("\n");
    reveal_strlit("\nRestart=on-failure\nRestartSec=5\n\n[Install]\nWantedBy=default.target\n");
    let head =
        "[Unit]\nDescription=Turtle Harbor daemon\nAfter=network.target\n\n[Service]\nType=simple\nExecStart="@;
    let tail = "\nRestart=on-failure\nRestartSec=5\n\n[Install]\nWantedBy=default.target\n"@;
    let start = exec_start(turtled, http_port);
    let n = head.len() - 10;
    assert(head.skip(n) =~= "ExecStart="@);
    assert(tail.take(1) =~= "\n"@);
    lemma_holds(head.take(n), "ExecStart="@ + start + "\n"@, tail.skip(1));
    assert(head.take(n) + ("ExecStart="@ + start + "\n"@) + tail.skip(1) =~= unit_content(
        turtled,
        http_port,
    ));
}

/// The service file of macOS holds where the daemon lies, the port for questions
/// over HTTP, if one is given, and the directory for the daemon's own logs.
pub proof fn law_plist_starts_the_daemon(turtled: Seq<char>, port: u16, log_dir: Seq<char>)
    ensures
        holds(plist_content(turtled, None, log_dir), turtled),
        holds(plist_content(turtled, Some(port), log_dir), turtled),
        holds(plist_content(turtled, Some(port), log_dir), decimal(port as nat)),
        holds(plist_content(turtled, None, log_dir), log_dir),
        holds(plist_content(turtled, Some(port), log_dir), log_dir),
{
    lemma_plist(turtled, None, log_dir);
    lemma_plist(turtled, Some(port), log_dir);
    let open = "        <string>"@;
    let close = "</string>"@;
    let middle = "\n        <string>--http-port</string>\n        <string>"@;
    lemma_holds(open, turtled, close);
    lemma_holds(open, turtled, close + middle + decimal(port as nat) + close);
    assert(open + turtled + (close + middle + decimal(port as nat) + close) =~= plist_arguments(
        turtled,
        Some(port),
    ));
    lemma_holds(open + turtled + close + middle, decimal(port as nat), close);
    lemma_holds_within(
        plist_content(turtled, None, log_dir),
        plist_arguments(turtled, None),
        turtled,
    );
    lemma_holds_within(
        plist_content(turtled, Some(port), log_dir),
        plist_arguments(turtled, Some(port)),
        turtled,
    );
    lemma_holds_within(
        plist_content(turtled, Some(port), log_dir),
        plist_arguments(turtled, Some(port)),
        decimal(port as nat),
    );
}

/// The service file of macOS holds the arguments of the daemon and the directory
/// for its logs.
proof fn lemma_plist(turtled: Seq<char>, http_port: Option<u16>, log_dir: Seq<char>)
    ensures
        holds(plist_content(turtled, http_port, log_dir), plist_arguments(turtled, http_port)),
        holds(plist_content(turtled, http_port, log_dir), log_dir),
{
    let head =
        "<?xml version=\"1.0\" encoding=\"UTF-8\"?>\n<!DOCTYPE plist PUBLIC \"-//Apple//DTD PLIST 1.0//EN\" \"http://www.apple.com/DTDs/PropertyList-1.0.dtd\">\n<plist version=\"1.0\">\n<dict>\n    <key>Label</key>\n    <string>"@
        + "com.turtle-harbor.daemon"@
        + "</string>\n    <key>ProgramArguments</key>\n    <array>\n"@;
    let arguments = plist_arguments(turtled, http_port);
    let before =
        "\n    </array>\n    <key>RunAtLoad</key>\n    <true/>\n    <key>KeepAlive</key>\n    <true/>\n    <key>StandardOutPath</key>\n    <string>"@;
    let after = "/daemon.stdout.log</string>\n    <key>StandardErrorPath</key>\n    <string>"@ + (
    log_dir + "/daemon.stderr.log</string>\n</dict>\n</plist>\n"@);
    let whole = plist_content(turtled, http_port, log_dir);
    lemma_holds(head, arguments, before + log_dir + after);
    assert(head + arguments + (before + log_dir + after) =~= whole);
    lemma_holds(head + arguments + before, log_dir, after);
    assert(head + arguments + before + log_dir + after =~= whole);
}

/// What a piece of a text holds, the text holds.
proof fn lemma_holds_within(s: Seq<char>, piece: Seq<char>, part: Seq<char>)
    requires
        holds(s, piece),
        holds(piece, part),
    ensures
        holds(s, part),
{
    let i = choose|i: int|
        0 <= i <= s.len() - piece.len() && #[trigger] s.subrange(i, i + piece.len()) == piece;
    let j = choose|j: int|
        0 <= j <= piece.len() - part.len() && #[trigger] piece.subrange(j, j + part.len()) == part;
    assert(s.subrange(i + j, i + j + part.len()) =~= piece.subrange(j, j + part.len()));
}

/// The service file lies where the system looks for it, among the user's files.
pub proof fn law_service_file(home: Seq<char>)
    ensures
        service_file(Platform::MacOs, home) == join(
            join(home, "Library/LaunchAgents"@),
            "com.turtle-harbor.daemon"@ + ".plist"@,
        ),
        service_file(Platform::Linux, home) == join(
            join(home, ".config/systemd/user"@),
            "turtle-harbor"@ + ".service"@,
        ),
{
}

/// To install the service writes its file and then makes the system start it
/// with that file, at once.
pub proof fn law_install_starts_the_service(
    plan: InstallPlan,
    home: Seq<char>,
    uid: u32,
    turtled: Seq<char>,
    http_port: Option<u16>,
    log_dir: Seq<char>,
)
    ensures
        installs_on_macos(plan, home, uid, turtled, http_port, log_dir) ==> {
            let last = plan.commands@.last().command.words();
            &&& plan.commands@.len() > 0
            &&& last[0] == "launchctl"@
            &&& last[1] == "bootstrap"@
            &&& last[2] == "gui/"@ + decimal(uid as nat)
            &&& last[3] == plan.file@
            &&& plan.content@ == plist_content(turtled, http_port, log_dir)
            &&& plan.unload is Some && plan.unload->0.words()[1] == "bootout"@
        },
        installs_on_linux(plan, home, turtled, http_port) ==> {
            let last = plan.commands@.last().command.words();
            &&& plan.commands@.len() > 1
            &&& plan.commands@[0].command.words().last() == "daemon-reload"@
            &&& last[0] == "systemctl"@
            &&& last.contains("enable"@)
            &&& last.contains("--now"@)
            &&& last.last() == "turtle-harbor"@
            &&& plan.content@ == unit_content(turtled, http_port)
        },
{
    if installs_on_linux(plan, home, turtled, http_port) {
        let last = plan.commands@.last().command.words();
        assert(last[2] == "enable"@);
        assert(last[3] == "--now"@);
    }
}

} // verus!
