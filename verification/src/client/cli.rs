//! What the client asks of the daemon, and how it shows the answers.
use crate::common::ipc::{Command, ProcessInfo, ProcessStatus, Response};
use crate::path::{
    components_until, join, key, law_parent, lemma_last_component, parent, parent_path,
    path_components, plain,
};
use crate::text::{
    concat2, concat3, copy_text, decimal, decimal_i64, decimal_u64, joined, law_decimal,
    law_joined, law_padded, pad_right, padded, repeat_char, repeated, signed_decimal,
};
use crate::time::Duration;
use vstd::prelude::*;

verus! {

/// How many lines of a log are shown where the user does not say.
pub const DEFAULT_TAIL: u32 = 100;

/// What the user asks for.
#[derive(Debug)]
pub enum Request {
    Up { script_name: Option<String> },
    Down { script_name: Option<String> },
    Ps,
    List,
    Logs { script_name: Option<String>, tail: u32, follow: bool },
    Reload,
}

/// How a text is set off from others.
#[derive(Clone, Copy, Debug, PartialEq, Eq, Structural)]
pub enum Style {
    Plain,
    Bold,
    Green,
    Red,
    RedBold,
}

/// A cell of a table.
#[derive(Debug)]
pub struct Cell {
    pub text: String,
    pub style: Style,
}

/// A table: a line of titles, a line of dashes, and a line for each script. The
/// cells of a line stand one space apart.
#[derive(Debug)]
pub struct Table {
    pub header: Vec<Cell>,
    pub rule: String,
    pub rows: Vec<Vec<Cell>>,
}

/// A number with at least two digits.
pub open spec fn two_digits(n: nat) -> Seq<char> {
    if n < 10 {
        "0"@ + decimal(n)
    } else {
        decimal(n)
    }
}

/// A span as hours, minutes and seconds.
pub open spec fn clock(duration: Duration) -> Seq<char> {
    let secs = duration.secs as nat;
    two_digits(secs / 3600) + ":"@ + two_digits(secs % 3600 / 60) + ":"@ + two_digits(secs % 60)
}

fn write_two_digits(n: u64) -> (r: String)
    ensures
        r@ == two_digits(n as nat),
{
    if n < 10 {
        concat2("0", decimal_u64(n).as_str())
    } else {
        decimal_u64(n)
    }
}

/// A span as hours, minutes and seconds.
pub fn format_duration(duration: Duration) -> (r: String)
    ensures
        r@ == clock(duration),
{
    let hours = write_two_digits(duration.secs / 3600);
    let minutes = write_two_digits(duration.secs % 3600 / 60);
    let seconds = write_two_digits(duration.secs % 60);
    let head = concat3(hours.as_str(), ":", minutes.as_str());
    concat3(head.as_str(), ":", seconds.as_str())
}

/// A status in words.
pub open spec fn status_text(status: ProcessStatus) -> Seq<char> {
    match status {
        ProcessStatus::Running => "running"@,
        ProcessStatus::Stopped => "stopped"@,
        ProcessStatus::Failed => "failed"@,
    }
}

/// How a status is set off.
pub open spec fn status_style(status: ProcessStatus) -> Style {
    match status {
        ProcessStatus::Running => Style::Green,
        ProcessStatus::Stopped => Style::Red,
        ProcessStatus::Failed => Style::RedBold,
    }
}

/// A status in words, and how it is set off.
pub fn format_status(status: ProcessStatus) -> (r: (&'static str, Style))
    ensures
        r.0@ == status_text(status),
        r.1 == status_style(status),
{
    match status {
        ProcessStatus::Running => ("running", Style::Green),
        ProcessStatus::Stopped => ("stopped", Style::Red),
        ProcessStatus::Failed => ("failed", Style::RedBold),
    }
}

/// The texts and styles of some cells.
pub open spec fn cells(v: Seq<Cell>) -> Seq<(Seq<char>, Style)> {
    v.map_values(|c: Cell| (c.text@, c.style))
}

/// A cell of a certain width.
fn cell(text: &str, width: usize, style: Style) -> (r: Cell)
    ensures
        r.text@ == padded(text@, width as nat),
        r.style == style,
{
    Cell { text: pad_right(text, width), style }
}

/// What the table of a configuration's scripts shows of a script.
pub open spec fn ps_row(p: ProcessInfo) -> Seq<(Seq<char>, Style)> {
    seq![
        (padded(p.name@, 20), Style::Plain),
        (padded(decimal(p.pid as nat), 6), Style::Plain),
        (padded(status_text(p.status), 10), status_style(p.status)),
        (padded(clock(p.uptime), 10), Style::Plain),
        (padded(decimal(p.restart_count as nat), 8), Style::Plain),
    ]
}

/// The titles of the table of a configuration's scripts.
pub open spec fn ps_header() -> Seq<(Seq<char>, Style)> {
    seq![
        (padded("NAME"@, 20), Style::Bold),
        (padded("PID"@, 6), Style::Bold),
        (padded("STATUS"@, 10), Style::Bold),
        (padded("UPTIME"@, 10), Style::Bold),
        (padded("RESTARTS"@, 8), Style::Bold),
    ]
}

/// Five cells in a line.
fn line5(a: Cell, b: Cell, c: Cell, d: Cell, e: Cell) -> (r: Vec<Cell>)
    ensures
        cells(r@) == seq![
            (a.text@, a.style),
            (b.text@, b.style),
            (c.text@, c.style),
            (d.text@, d.style),
            (e.text@, e.style),
        ],
{
    let mut v: Vec<Cell> = Vec::new();
    v.push(a);
    v.push(b);
    v.push(c);
    v.push(d);
    v.push(e);
    assert(cells(v@) =~= seq![
        (a.text@, a.style),
        (b.text@, b.style),
        (c.text@, c.style),
        (d.text@, d.style),
        (e.text@, e.style),
    ]);
    v
}

/// Whether a table is the one of a configuration's scripts.
pub open spec fn is_ps_table(table: Table, processes: Seq<ProcessInfo>) -> bool {
    &&& cells(table.header@) == ps_header()
    &&& table.rule@ == repeated('-', 60)
    &&& table.rows@.len() == processes.len()
    &&& forall|i: int|
        0 <= i < processes.len() ==> cells(#[trigger] table.rows@[i]@) == ps_row(processes[i])
}

/// The table of a configuration's scripts.
pub fn process_list_table(processes: &Vec<ProcessInfo>) -> (r: Table)
    ensures
        is_ps_table(r, processes@),
{
    let header = line5(
        cell("NAME", 20, Style::Bold),
        cell("PID", 6, Style::Bold),
        cell("STATUS", 10, Style::Bold),
        cell("UPTIME", 10, Style::Bold),
        cell("RESTARTS", 8, Style::Bold),
    );
    let mut rows: Vec<Vec<Cell>> = Vec::new();
    let mut i: usize = 0;
    while i < processes.len()
        invariant
            i <= processes@.len(),
            rows@.len() == i,
            forall|j: int| 0 <= j < i ==> cells(#[trigger] rows@[j]@) == ps_row(processes@[j]),
        decreases processes.len() - i,
    {
        let p = &processes[i];
        let (status, style) = format_status(p.status);
        rows.push(
            line5(
                cell(p.name.as_str(), 20, Style::Plain),
                cell(decimal_u64(p.pid as u64).as_str(), 6, Style::Plain),
                cell(status, 10, style),
                cell(format_duration(p.uptime).as_str(), 10, Style::Plain),
                cell(decimal_u64(p.restart_count as u64).as_str(), 8, Style::Plain),
            ),
        );
        i = i + 1;
    }
    Table { header, rule: repeat_char('-', 60), rows }
}

/// The status of a script among those of all configurations: how it ended,
/// where it does not run and that is known.
pub open spec fn list_status(p: ProcessInfo) -> Seq<char> {
    if !(p.status is Running) && p.exit_code is Some {
        "exited ("@ + signed_decimal(p.exit_code->0 as int) + ")"@
    } else {
        status_text(p.status)
    }
}

/// The last two components of the directory of a configuration.
pub open spec fn short_config(config_path: Option<String>) -> Seq<char> {
    match config_path {
        None => Seq::empty(),
        Some(path) => match parent(path@) {
            None => Seq::empty(),
            Some(dir) => {
                let all = components_until(dir, dir.len());
                let from = if all.len() > 2 {
                    all.len() - 2
                } else {
                    0
                };
                joined(all.skip(from), "/"@)
            },
        },
    }
}

/// What the table of all scripts shows of a script.
pub open spec fn list_row(p: ProcessInfo) -> Seq<(Seq<char>, Style)> {
    seq![
        (padded(p.name@, 20), Style::Plain),
        (
            padded(
                if p.pid == 0 {
                    "-"@
                } else {
                    decimal(p.pid as nat)
                },
                8,
            ),
            Style::Plain,
        ),
        (padded(list_status(p), 16), status_style(p.status)),
        (padded(clock(p.uptime), 10), Style::Plain),
        (padded(decimal(p.restart_count as nat), 9), Style::Plain),
        (short_config(p.config_path), Style::Plain),
    ]
}

/// The titles of the table of all scripts.
pub open spec fn list_header() -> Seq<(Seq<char>, Style)> {
    seq![
        (padded("NAME"@, 20), Style::Bold),
        (padded("PID"@, 8), Style::Bold),
        (padded("STATUS"@, 16), Style::Bold),
        (padded("UPTIME"@, 10), Style::Bold),
        (padded("RESTARTS"@, 9), Style::Bold),
        ("CONFIG"@, Style::Bold),
    ]
}

/// Whether a table is the one of all scripts.
pub open spec fn is_list_table(table: Table, processes: Seq<ProcessInfo>) -> bool {
    &&& cells(table.header@) == list_header()
    &&& table.rule@ == repeated('-', 82)
    &&& table.rows@.len() == processes.len()
    &&& forall|i: int|
        0 <= i < processes.len() ==> cells(#[trigger] table.rows@[i]@) == list_row(processes[i])
}

/// The last two components of the directory of a configuration.
fn write_short_config(config_path: &Option<String>) -> (r: String)
    ensures
        r@ == short_config(*config_path),
{
    let empty = String::new();
    assert(empty@ =~= Seq::<char>::empty());
    let dir = match config_path {
        None => {
            return empty;
        },
        Some(path) => match parent_path(path.as_str()) {
            None => {
                return empty;
            },
            Some(dir) => dir,
        },
    };
    let all = path_components(dir.as_str());
    let ghost whole = components_until(dir@, dir@.len());
    let n = all.len();
    if n == 0 {
        assert(whole.skip(0) =~= Seq::<Seq<char>>::empty());
        return empty;
    }
    if n == 1 {
        let r = all[0].clone();
        assert(joined(whole.skip(0), "/"@) == r@) by {
            assert(whole.skip(0) =~= whole);
        }
        return r;
    }
    let r = concat3(all[n - 2].as_str(), "/", all[n - 1].as_str());
    proof {
        let last = whole.skip(n - 2);
        assert(last =~= seq![all@[n - 2]@, all@[n - 1]@]);
        assert(last.drop_first() =~= seq![all@[n - 1]@]);
        reveal_with_fuel(joined, 2);
        assert(joined(last.drop_first(), "/"@) == all@[n - 1]@);
    }
    r
}

/// Adds a cell to a line.
fn with_cell(line: Vec<Cell>, last: Cell) -> (r: Vec<Cell>)
    ensures
        cells(r@) == cells(line@).push((last.text@, last.style)),
{
    let mut v = line;
    v.push(last);
    assert(cells(v@) =~= cells(line@).push((last.text@, last.style)));
    v
}

/// What the table of all scripts shows of a script.
fn write_list_row(p: &ProcessInfo) -> (r: Vec<Cell>)
    ensures
        cells(r@) == list_row(*p),
{
    let (status, style) = format_status(p.status);
    let told = match (p.status, p.exit_code) {
        (ProcessStatus::Running, _) => status.to_owned(),
        (_, Some(code)) => concat3("exited (", decimal_i64(code as i64).as_str(), ")"),
        (_, None) => status.to_owned(),
    };
    let pid = if p.pid == 0 {
        "-".to_owned()
    } else {
        decimal_u64(p.pid as u64)
    };
    let head = line5(
        cell(p.name.as_str(), 20, Style::Plain),
        cell(pid.as_str(), 8, Style::Plain),
        cell(told.as_str(), 16, style),
        cell(format_duration(p.uptime).as_str(), 10, Style::Plain),
        cell(decimal_u64(p.restart_count as u64).as_str(), 9, Style::Plain),
    );
    let r = with_cell(
        head,
        Cell { text: write_short_config(&p.config_path), style: Style::Plain },
    );
    assert(cells(r@) =~= list_row(*p));
    r
}

/// The table of all scripts.
pub fn process_list_table_with_config(processes: &Vec<ProcessInfo>) -> (r: Table)
    ensures
        is_list_table(r, processes@),
{
    let titles = line5(
        cell("NAME", 20, Style::Bold),
        cell("PID", 8, Style::Bold),
        cell("STATUS", 16, Style::Bold),
        cell("UPTIME", 10, Style::Bold),
        cell("RESTARTS", 9, Style::Bold),
    );
    let header = with_cell(titles, Cell { text: "CONFIG".to_owned(), style: Style::Bold });
    assert(cells(header@) =~= list_header());
    let mut rows: Vec<Vec<Cell>> = Vec::new();
    let mut i: usize = 0;
    while i < processes.len()
        invariant
            i <= processes@.len(),
            rows@.len() == i,
            forall|j: int| 0 <= j < i ==> cells(#[trigger] rows@[j]@) == list_row(processes@[j]),
        decreases processes.len() - i,
    {
        rows.push(write_list_row(&processes[i]));
        i = i + 1;
    }
    Table { header, rule: repeat_char('-', 82), rows }
}

/// What the client does about what the user asks for.
#[derive(Debug)]
pub enum Action {
    /// Send a command, and show the answer.
    Send(Command),
    /// Send a command, and show output until there is no more.
    Follow(Command),
    /// Say what is wrong, and fail.
    Fail(String),
}

/// Whether an action carries out what the user asks for.
pub open spec fn carries_out(action: Action, request: Request, config_path: String) -> bool {
    match request {
        Request::Up { script_name } => action == Action::Send(
            Command::Up { name: script_name, config_path },
        ),
        Request::Down { script_name } => action == Action::Send(
            Command::Down { name: script_name, config_path },
        ),
        Request::Ps => action == Action::Send(Command::Ps { config_path: Some(config_path) }),
        Request::List => action == Action::Send(Command::Ps { config_path: None }),
        Request::Logs { script_name, tail, follow } => {
            let command = Command::Logs { name: script_name, tail, follow };
            if !follow {
                action == Action::Send(command)
            } else if script_name is Some {
                action == Action::Follow(command)
            } else {
                action is Fail
            }
        },
        Request::Reload => action == Action::Send(Command::Reload { config_path }),
    }
}

/// What the client does about what the user asks for.
pub fn plan(request: &Request, config_path: String) -> (r: Action)
    ensures
        match *request {
            Request::Up { script_name } => r == Action::Send(
                Command::Up { name: script_name, config_path },
            ),
            Request::Down { script_name } => r == Action::Send(
                Command::Down { name: script_name, config_path },
            ),
            Request::Ps => r == Action::Send(Command::Ps { config_path: Some(config_path) }),
            Request::List => r == Action::Send(Command::Ps { config_path: None }),
            Request::Logs { script_name, tail, follow } => {
                let command = Command::Logs { name: script_name, tail, follow };
                if follow && script_name is None {
                    r matches Action::Fail(text) && text@
                        == "Error: --follow requires a script name"@
                } else if follow {
                    r == Action::Follow(command)
                } else {
                    r == Action::Send(command)
                }
            },
            Request::Reload => r == Action::Send(Command::Reload { config_path }),
        },
        carries_out(r, *request, config_path),
{
    match request {
        Request::Up { script_name } => Action::Send(
            Command::Up { name: copy_text(script_name), config_path },
        ),
        Request::Down { script_name } => Action::Send(
            Command::Down { name: copy_text(script_name), config_path },
        ),
        Request::Ps => Action::Send(Command::Ps { config_path: Some(config_path) }),
        Request::List => Action::Send(Command::Ps { config_path: None }),
        Request::Logs { script_name, tail, follow } => {
            if *follow && script_name.is_none() {
                return Action::Fail("Error: --follow requires a script name".to_owned());
            }
            let command = Command::Logs {
                name: copy_text(script_name),
                tail: *tail,
                follow: *follow,
            };
            if *follow {
                Action::Follow(command)
            } else {
                Action::Send(command)
            }
        },
        Request::Reload => Action::Send(Command::Reload { config_path }),
    }
}

/// What the client shows.
#[derive(Debug)]
pub enum Output {
    /// A line on the standard output.
    Line(String),
    /// A line on the standard error.
    ErrorLine(String),
    /// A table on the standard output.
    Table(Table),
}

/// What the client shows, but for tables.
pub enum OutputView {
    Line(Seq<char>),
    ErrorLine(Seq<char>),
}

/// Whether a line is shown.
pub open spec fn shows(output: Output, view: OutputView) -> bool {
    match view {
        OutputView::Line(text) => output matches Output::Line(s) && s@ == text,
        OutputView::ErrorLine(text) => output matches Output::ErrorLine(s) && s@ == text,
    }
}

/// What is shown of an answer to a command that only succeeds or fails.
pub open spec fn plain_answer(
    response: Response,
    success: Seq<char>,
    failure: Seq<char>,
) -> OutputView {
    match response {
        Response::Success => OutputView::Line(success),
        Response::Error(e) => OutputView::ErrorLine(failure + e@),
        _ => OutputView::ErrorLine("Unexpected response"@),
    }
}

/// What is shown of logs.
pub open spec fn logs_answer(script_name: Option<String>, logs: Seq<char>) -> OutputView {
    match script_name {
        Some(name) => if logs.len() == 0 {
            OutputView::Line("No logs available for "@ + name@)
        } else {
            OutputView::Line("=== Logs for "@ + name@ + " ===\n"@ + logs)
        },
        None => if logs.len() == 0 {
            OutputView::Line("No logs available for "@ + "all scripts"@)
        } else {
            OutputView::Line(logs)
        },
    }
}

/// Whether an output is what is shown of an answer.
pub open spec fn answers(output: Output, request: Request, response: Response) -> bool {
    match request {
        Request::Up { script_name } => shows(
            output,
            plain_answer(response, "Scripts started successfully"@, "Error: "@),
        ),
        Request::Down { script_name } => shows(
            output,
            plain_answer(response, "Scripts stopped successfully"@, "Error: "@),
        ),
        Request::Reload => shows(
            output,
            plain_answer(response, "Configuration reloaded"@, "Reload error: "@),
        ),
        Request::Ps => match response {
            Response::ProcessList(list) => output matches Output::Table(t) && is_ps_table(t, list@),
            Response::Error(e) => shows(
                output,
                OutputView::ErrorLine("Error retrieving process list: "@ + e@),
            ),
            _ => shows(output, OutputView::ErrorLine("Unexpected response for ps command"@)),
        },
        Request::List => match response {
            Response::ProcessList(list) => output matches Output::Table(t) && is_list_table(
                t,
                list@,
            ),
            Response::Error(e) => shows(
                output,
                OutputView::ErrorLine("Error retrieving process list: "@ + e@),
            ),
            _ => shows(output, OutputView::ErrorLine("Unexpected response for ps command"@)),
        },
        Request::Logs { script_name, tail, follow } => match response {
            Response::Logs(logs) => shows(output, logs_answer(script_name, logs@)),
            Response::Error(e) => shows(output, OutputView::ErrorLine("Error: "@ + e@)),
            _ => shows(output, OutputView::ErrorLine("Unexpected response"@)),
        },
    }
}

/// What is shown of an answer to a command that only succeeds or fails.
fn render_plain(response: &Response, success: &str, failure: &str) -> (r: Output)
    ensures
        shows(r, plain_answer(*response, success@, failure@)),
{
    match response {
        Response::Success => Output::Line(success.to_owned()),
        Response::Error(e) => Output::ErrorLine(concat2(failure, e.as_str())),
        _ => Output::ErrorLine("Unexpected response".to_owned()),
    }
}

/// What is shown of logs.
fn render_logs(script_name: &Option<String>, logs: &String) -> (r: Output)
    ensures
        shows(r, logs_answer(*script_name, logs@)),
{
    let label = match script_name {
        Some(name) => name.as_str(),
        None => "all scripts",
    };
    if logs.as_str().is_empty() {
        return Output::Line(concat2("No logs available for ", label));
    }
    match script_name {
        Some(name) => {
            let title = concat3("=== Logs for ", name.as_str(), " ===\n");
            Output::Line(concat2(title.as_str(), logs.as_str()))
        },
        None => Output::Line(logs.clone()),
    }
}

/// What is shown of the daemon's answer to what the user asked for.
pub fn render(request: &Request, response: &Response) -> (r: Output)
    ensures
        answers(r, *request, *response),
{
    match request {
        Request::Up { script_name: _ } => render_plain(
            response,
            "Scripts started successfully",
            "Error: ",
        ),
        Request::Down { script_name: _ } => render_plain(
            response,
            "Scripts stopped successfully",
            "Error: ",
        ),
        Request::Reload => render_plain(response, "Configuration reloaded", "Reload error: "),
        Request::Ps => match response {
            Response::ProcessList(list) => Output::Table(process_list_table(list)),
            Response::Error(e) => Output::ErrorLine(
                concat2("Error retrieving process list: ", e.as_str()),
            ),
            _ => Output::ErrorLine("Unexpected response for ps command".to_owned()),
        },
        Request::List => match response {
            Response::ProcessList(list) => Output::Table(process_list_table_with_config(list)),
            Response::Error(e) => Output::ErrorLine(
                concat2("Error retrieving process list: ", e.as_str()),
            ),
            _ => Output::ErrorLine("Unexpected response for ps command".to_owned()),
        },
        Request::Logs { script_name, tail: _, follow: _ } => match response {
            Response::Logs(logs) => render_logs(script_name, logs),
            Response::Error(e) => Output::ErrorLine(concat2("Error: ", e.as_str())),
            _ => Output::ErrorLine("Unexpected response".to_owned()),
        },
    }
}

/// A span of hours, minutes and seconds is written as these, the last two with
/// two digits each and the first with at least two.
pub proof fn law_clock(hours: nat, minutes: nat, seconds: nat, duration: Duration)
    requires
        minutes < 60,
        seconds < 60,
        duration.secs == hours * 3600 + minutes * 60 + seconds,
    ensures
        ({
            let head = if hours < 10 {
                seq!['0', ('0' as u32 + hours) as char]
            } else {
                decimal(hours)
            };
            clock(duration) == head + seq![
                ':',
                ('0' as u32 + minutes / 10) as char,
                ('0' as u32 + minutes % 10) as char,
                ':',
                ('0' as u32 + seconds / 10) as char,
                ('0' as u32 + seconds % 10) as char,
            ]
        }),
{
    let secs = duration.secs as nat;
    assert(secs / 3600 == hours && secs % 3600 == minutes * 60 + seconds) by {
        vstd::arithmetic::div_mod::lemma_fundamental_div_mod_converse(
            secs as int,
            3600,
            hours as int,
            (minutes * 60 + seconds) as int,
        );
    }
    assert(secs % 60 == seconds) by {
        vstd::arithmetic::div_mod::lemma_fundamental_div_mod_converse(
            secs as int,
            60,
            (hours * 60 + minutes) as int,
            seconds as int,
        );
    }
    assert((minutes * 60 + seconds) / 60 == minutes);
    reveal_strlit(":");
    reveal_strlit("0");
    lemma_two_digits(minutes);
    lemma_two_digits(seconds);
    if hours < 10 {
        lemma_two_digits(hours);
        assert(hours / 10 == 0 && hours % 10 == hours);
    }
    let head = if hours < 10 {
        seq!['0', ('0' as u32 + hours) as char]
    } else {
        decimal(hours)
    };
    assert(clock(duration) =~= head + seq![
        ':',
        ('0' as u32 + minutes / 10) as char,
        ('0' as u32 + minutes % 10) as char,
        ':',
        ('0' as u32 + seconds / 10) as char,
        ('0' as u32 + seconds % 10) as char,
    ]);
}

/// A number below a hundred has two digits.
proof fn lemma_two_digits(n: nat)
    requires
        n < 100,
    ensures
        two_digits(n) == seq![('0' as u32 + n / 10) as char, ('0' as u32 + n % 10) as char],
{
    reveal_strlit("0");
    law_decimal(n / 10, n % 10);
    if n >= 10 {
        law_decimal(0, n / 10);
        assert(10 * (n / 10) + n % 10 == n);
    } else {
        law_decimal(0, n);
    }
    assert(two_digits(n) =~= seq![
        ('0' as u32 + n / 10) as char,
        ('0' as u32 + n % 10) as char,
    ]);
}

/// Each row of a table shows its script: the name, the number of the process,
/// the status, the time that it has run and how often it was restarted, each filled
/// up to the width of its column.
pub proof fn law_rows(p: ProcessInfo, table: Table, processes: Seq<ProcessInfo>, i: int)
    requires
        0 <= i < processes.len(),
        p == processes[i],
    ensures
        is_ps_table(table, processes) ==> {
            let row = cells(table.rows@[i]@);
            &&& table.rows@.len() == processes.len()
            &&& table.header@.len() == row.len()
            &&& row.len() == 5
            &&& row[0].0.take(p.name@.len() as int) == p.name@
            &&& row[1].0.take(decimal(p.pid as nat).len() as int) == decimal(p.pid as nat)
            &&& p.status is Running ==> row[2].0.take(7) == "running"@ && row[2].1 is Green
            &&& p.status is Stopped ==> row[2].0.take(7) == "stopped"@ && row[2].1 is Red
            &&& p.status is Failed ==> row[2].0.take(6) == "failed"@ && row[2].1 is RedBold
            &&& row[3].0.take(clock(p.uptime).len() as int) == clock(p.uptime)
            &&& row[4].0.take(decimal(p.restart_count as nat).len() as int) == decimal(
                p.restart_count as nat,
            )
        },
        is_list_table(table, processes) ==> {
            let row = cells(table.rows@[i]@);
            let status = list_status(p);
            &&& table.rows@.len() == processes.len()
            &&& table.header@.len() == row.len()
            &&& row.len() == 6
            &&& row[0].0.take(p.name@.len() as int) == p.name@
            &&& p.pid == 0 ==> row[1].0[0] == '-'
            &&& p.pid != 0 ==> row[1].0.take(decimal(p.pid as nat).len() as int) == decimal(
                p.pid as nat,
            )
            &&& row[2].0.take(status.len() as int) == status
            &&& p.status is Running ==> status == "running"@
            &&& !(p.status is Running) && p.exit_code is Some ==> status == "exited ("@
                + signed_decimal(p.exit_code->0 as int) + ")"@
            &&& p.status is Failed && p.exit_code is None ==> status == "failed"@
            &&& p.status is Stopped && p.exit_code is None ==> status == "stopped"@
            &&& row[5].0 == short_config(p.config_path)
        },
{
    reveal_strlit("running");
    reveal_strlit("stopped");
    reveal_strlit("failed");
    reveal_strlit("-");
    law_padded(p.name@, 20);
    law_padded(decimal(p.pid as nat), 6);
    law_padded(decimal(p.pid as nat), 8);
    law_padded(status_text(p.status), 10);
    law_padded(clock(p.uptime), 10);
    law_padded(decimal(p.restart_count as nat), 8);
    law_padded(list_status(p), 16);
    law_padded("-"@, 8);
    assert(cells(table.header@).len() == table.header@.len());
    if is_list_table(table, processes) && p.pid == 0 {
        assert(cells(table.rows@[i]@)[1].0 == padded("-"@, 8));
        assert(padded("-"@, 8)[0] == padded("-"@, 8).take(1)[0]);
    }
}

/// Of a configuration the two directories are shown in which it lies.
#[verifier::spinoff_prover]
pub proof fn law_short_config(
    path: String,
    dir: Seq<char>,
    a: Seq<char>,
    b: Seq<char>,
    file: Seq<char>,
)
    requires
        plain(a),
        plain(b),
        plain(file),
        path@ == join(join(join(dir, a), b), file),
    ensures
        short_config(Some(path)) == a + seq!['/'] + b,
        short_config(None).len() == 0,
{
    let d = join(join(dir, a), b);
    law_parent(join(dir, a), b, file);
    law_parent(dir, a, b);
    lemma_last_component(dir, a);
    let all = key(d).components;
    let rest = key(join(dir, a)).components;
    assert(all == rest.push(b));
    assert(all[all.len() - 2] == rest.last());
    lemma_short_config(path, d, all, a, b);
}

/// The last two components of a configuration's directory are shown.
proof fn lemma_short_config(
    path: String,
    d: Seq<char>,
    all: Seq<Seq<char>>,
    a: Seq<char>,
    b: Seq<char>,
)
    requires
        parent(path@) == Some(d),
        components_until(d, d.len()) == all,
        all.len() >= 2,
        all[all.len() - 2] == a,
        all.last() == b,
    ensures
        short_config(Some(path)) == a + seq!['/'] + b,
{
    reveal_strlit("/");
    assert("/"@ =~= seq!['/']);
    let two = all.skip(all.len() - 2);
    assert(two =~= seq![a].push(b));
    law_joined(seq![a], b, "/"@);
    assert(joined(seq![a], "/"@) == a);
}

/// A command that succeeded is told on the standard output, and one that failed
/// with the daemon's own words on the standard error.
pub proof fn law_answers(output: Output, request: Request, response: Response)
    requires
        answers(output, request, response),
    ensures
        response is Success && (request is Up || request is Down || request is Reload)
            ==> output is Line,
        response matches Response::Error(e) ==> (output matches Output::ErrorLine(s) && s@.len()
            >= e@.len() && s@.skip(s@.len() - e@.len()) == e@),
        request is Ps && (response matches Response::ProcessList(list)) ==> output is Table,
        request is List && (response matches Response::ProcessList(list)) ==> output is Table,
        request is Logs && (response matches Response::Logs(logs)) ==> (output matches Output::Line(
            s,
        )),
        request is Logs && response is Logs && output is Line && response->Logs_0@.len() > 0 ==> {
            let shown = output->Line_0@;
            let logs = response->Logs_0@;
            &&& shown.len() >= logs.len()
            &&& shown.skip(shown.len() - logs.len()) == logs
        },
{
    if response is Logs && output is Line && request is Logs && response->Logs_0@.len() > 0 {
        let shown = output->Line_0@;
        let logs = response->Logs_0@;
        assert(shown.skip(shown.len() - logs.len()) =~= logs);
    }
    if let Response::Error(e) = response {
        if let Output::ErrorLine(s) = output {
            assert(s@.skip(s@.len() - e@.len()) =~= e@);
        }
    }
}

/// What the user asks of the scripts of a project is asked of the daemon for
/// that project's configuration, and for the script that the user names; only the
/// list goes over all configurations. Output is followed just where the user wants
/// that of a script that is named, and what cannot be done is not sent.
pub proof fn law_requests(action: Action, request: Request, config_path: String)
    requires
        carries_out(action, request, config_path),
    ensures
        request is Up ==> action is Send && action->Send_0 is Up && action->Send_0->Up_name
            == request->Up_script_name && action->Send_0->Up_config_path == config_path,
        request is Down ==> action is Send && action->Send_0 is Down && action->Send_0->Down_name
            == request->Down_script_name && action->Send_0->Down_config_path == config_path,
        request is Reload ==> action is Send && action->Send_0 is Reload
            && action->Send_0->Reload_config_path == config_path,
        request is Ps ==> action is Send && action->Send_0 is Ps && action->Send_0->Ps_config_path
            == Some(config_path),
        request is List ==> action is Send && action->Send_0 is Ps
            && action->Send_0->Ps_config_path is None,
        action is Follow <==> request is Logs && request->follow && request->Logs_script_name
            is Some,
        action is Fail <==> request is Logs && request->follow && request->Logs_script_name
            is None,
        request is Logs && !request->follow ==> action->Send_0 is Logs && action->Send_0->Logs_name
            == request->Logs_script_name && action->Send_0->tail == request->tail,
        action is Follow ==> action->Follow_0 is Logs && action->Follow_0->Logs_name
            == request->Logs_script_name && action->Follow_0->tail == request->tail
            && action->Follow_0->follow,
{
}

} // verus!
