//! The logs of scripts: what a line looks like, when a file is rotated, and
//! what of the files a client is shown.
use crate::path::{
    extension_dot, file_stem, file_stem_of, join, join_path, key, lemma_beside,
    lemma_in_one_directory, parent, parent_path, plain, stem,
};
use crate::text::{
    concat2, concat3, concat4, decimal, decimal_u64, joined, law_joined, lemma_decimal,
    lemma_decimal_injective, line_ranges, lines, pieces, substring, to_chars, trim_end, trimmed_end,
};
use vstd::prelude::*;
use vstd::utf8::{
    decode_utf8, decode_utf8_encode_utf8, encode_utf8, encode_utf8_decode_utf8,
    encode_utf8_valid_utf8, is_char_boundary, valid_utf8_split,
};

verus! {

/// How many bytes of a line are logged.
pub const MAX_LINE_LENGTH: usize = 8192;

/// The size from which on a file is rotated, in bytes.
pub const MAX_FILE_SIZE: u64 = 10_485_760;

/// How many rotated files are kept.
pub const MAX_ROTATED_FILES: u32 = 5;

/// How often logged lines are brought to disk, in milliseconds.
pub const FLUSH_INTERVAL_MS: u64 = 500;

/// How many lines may wait to be logged.
pub const CHANNEL_BUFFER: usize = 1024;

/// A line that a script put out.
#[derive(Debug)]
pub enum LogLine {
    Stdout(String),
    Stderr(String),
}

impl LogLine {
    /// The name of the stream that the line came on.
    pub open spec fn stream_name(self) -> Seq<char> {
        match self {
            LogLine::Stdout(_) => "stdout"@,
            LogLine::Stderr(_) => "stderr"@,
        }
    }

    /// What the line says.
    pub open spec fn text(self) -> Seq<char> {
        match self {
            LogLine::Stdout(s) => s@,
            LogLine::Stderr(s) => s@,
        }
    }

    /// The line, as it was read, without the white space at its end.
    pub fn read(raw: &str, stderr: bool) -> (r: Self)
        ensures
            r is Stderr == stderr,
            r.text() == trim_end(raw@),
    {
        if stderr {
            LogLine::Stderr(trimmed_end(raw))
        } else {
            LogLine::Stdout(trimmed_end(raw))
        }
    }

    /// The name of the stream that the line came on.
    pub fn stream(&self) -> (r: &'static str)
        ensures
            r@ == self.stream_name(),
    {
        match self {
            LogLine::Stdout(_) => "stdout",
            LogLine::Stderr(_) => "stderr",
        }
    }

    /// What the line says.
    pub fn content(&self) -> (r: &str)
        ensures
            r@ == self.text(),
    {
        match self {
            LogLine::Stdout(s) => s.as_str(),
            LogLine::Stderr(s) => s.as_str(),
        }
    }
}

/// Whether a text can be cut at the limit: no character stands across it.
pub open spec fn can_be_cut(content: Seq<char>) -> bool {
    encode_utf8(content).len() > MAX_LINE_LENGTH ==> is_char_boundary(
        encode_utf8(content),
        MAX_LINE_LENGTH as int,
    )
}

/// What of a text is logged.
pub open spec fn cut(content: Seq<char>) -> Seq<char> {
    if encode_utf8(content).len() > MAX_LINE_LENGTH {
        decode_utf8(encode_utf8(content).take(MAX_LINE_LENGTH as int))
    } else {
        content
    }
}

/// A line as it stands in a log.
pub open spec fn logged(timestamp: Seq<char>, stream: Seq<char>, content: Seq<char>) -> Seq<char> {
    "["@ + timestamp + "] ["@ + (stream + "] "@ + cut(content) + "\n"@)
}

/// What of a text is logged.
fn cut_line(content: &str) -> (r: &str)
    requires
        can_be_cut(content@),
    ensures
        r@ == cut(content@),
{
    if content.as_bytes().len() > MAX_LINE_LENGTH {
        let (head, _tail) = content.split_at(MAX_LINE_LENGTH);
        proof {
            encode_utf8_decode_utf8(head@);
            assert(encode_utf8(head@) =~= encode_utf8(content@).take(MAX_LINE_LENGTH as int));
        }
        head
    } else {
        content
    }
}

/// A line as it stands in a log.
pub fn format_line(timestamp: &str, line: &LogLine) -> (r: String)
    requires
        can_be_cut(line.text()),
    ensures
        r@ == logged(timestamp@, line.stream_name(), line.text()),
{
    let tail = concat4(line.stream(), "] ", cut_line(line.content()), "\n");
    concat4("[", timestamp, "] [", tail.as_str())
}

/// A file that lines are written to, and that is rotated when it is full.
#[derive(Debug)]
pub struct RotatingWriter {
    pub path: String,
    pub bytes_written: u64,
}

/// A file that takes the place of another.
#[derive(Debug)]
pub struct Rename {
    pub from: String,
    pub to: String,
    /// Whether nothing is to be done where there is no such file.
    pub optional: bool,
}

/// Whether a step renames one file to another.
pub open spec fn renames(
    step: Rename,
    from: Seq<char>,
    to: Seq<char>,
    optional: bool,
) -> bool {
    &&& step.from@ == from
    &&& step.to@ == to
    &&& step.optional == optional
}

impl RotatingWriter {
    /// A writer that goes on where a file ends. There is no size where there is no file yet.
    pub fn new(path: &str, size: Option<u64>) -> (r: Self)
        ensures
            r.path@ == path@,
            r.bytes_written == (match size {
                Some(n) => n,
                None => 0,
            }),
    {
        RotatingWriter {
            path: path.to_owned(),
            bytes_written: match size {
                Some(n) => n,
                None => 0,
            },
        }
    }

    /// Whether a line makes the file full.
    pub open spec fn filled_by(self, line: Seq<char>) -> bool {
        self.bytes_written + encode_utf8(line).len() >= MAX_FILE_SIZE
    }

    /// Notes that a line was written; tells whether the file is full.
    pub fn write_line(&mut self, line: &str) -> (r: bool)
        ensures
            final(self).path == old(self).path,
            final(self).bytes_written == (if old(self).bytes_written + encode_utf8(line@).len()
                <= u64::MAX {
                old(self).bytes_written + encode_utf8(line@).len()
            } else {
                u64::MAX as int
            }),
            r == (old(self).bytes_written + encode_utf8(line@).len() >= MAX_FILE_SIZE),
            r == old(self).filled_by(line@),
    {
        let size: u64 = line.as_bytes().len() as u64;
        if size > u64::MAX - self.bytes_written {
            self.bytes_written = u64::MAX;
        } else {
            self.bytes_written = self.bytes_written + size;
        }
        self.bytes_written >= MAX_FILE_SIZE
    }

    /// The files that are renamed when the file is full: from the oldest on,
    /// each takes the place of the next older one.
    pub fn rotation(&self) -> (r: Vec<Rename>)
        ensures
            r@.len() == MAX_ROTATED_FILES,
            forall|k: int|
                0 <= k < MAX_ROTATED_FILES - 1 ==> renames(
                    #[trigger] r@[k],
                    rotated(self.path@, (MAX_ROTATED_FILES - 1 - k) as nat),
                    rotated(self.path@, (MAX_ROTATED_FILES - k) as nat),
                    true,
                ),
            renames(r@[MAX_ROTATED_FILES - 1], self.path@, rotated(self.path@, 1), false),
    {
        let mut steps: Vec<Rename> = Vec::new();
        let mut i: u32 = MAX_ROTATED_FILES - 1;
        while i >= 1
            invariant
                i <= MAX_ROTATED_FILES - 1,
                steps@.len() == MAX_ROTATED_FILES - 1 - i,
                forall|k: int|
                    0 <= k < steps@.len() ==> renames(
                        #[trigger] steps@[k],
                        rotated(self.path@, (MAX_ROTATED_FILES - 1 - k) as nat),
                        rotated(self.path@, (MAX_ROTATED_FILES - k) as nat),
                        true,
                    ),
            decreases i,
        {
            steps.push(
                Rename {
                    from: rotated_path(self.path.as_str(), i),
                    to: rotated_path(self.path.as_str(), i + 1),
                    optional: true,
                },
            );
            i = i - 1;
        }
        steps.push(
            Rename {
                from: self.path.clone(),
                to: rotated_path(self.path.as_str(), 1),
                optional: false,
            },
        );
        steps
    }

    /// Notes that the file was rotated and is empty.
    pub fn rotate(&mut self)
        ensures
            final(self).path == old(self).path,
            final(self).bytes_written == 0,
    {
        self.bytes_written = 0;
    }
}

/// A file that is rotated whenever a line makes it full is below the limit of
/// ten mebibytes before each line, and is not rotated before it reaches that.
pub proof fn law_rotation_bounds_the_file(writer: RotatingWriter, line: Seq<char>)
    requires
        writer.bytes_written < 10_485_760,
    ensures
        ({
            let after = if writer.filled_by(line) {
                0
            } else {
                writer.bytes_written + encode_utf8(line).len()
            };
            after < 10_485_760
        }),
        writer.filled_by(line) ==> writer.bytes_written + encode_utf8(line).len() >= 10_485_760,
{
}

/// The path of a rotated file.
pub open spec fn rotated(base: Seq<char>, index: nat) -> Seq<char> {
    let stem = match file_stem(base) {
        Some(s) => s,
        None => Seq::empty(),
    };
    let dir = match parent(base) {
        Some(d) => d,
        None => "."@,
    };
    join(dir, stem + ".log."@ + decimal(index))
}

/// The path of a rotated file.
pub fn rotated_path(base: &str, index: u32) -> (r: String)
    ensures
        r@ == rotated(base@, index as nat),
{
    let stem = match file_stem_of(base) {
        Some(s) => s,
        None => {
            let empty = String::new();
            assert(empty@ =~= Seq::<char>::empty());
            empty
        },
    };
    let dir = match parent_path(base) {
        Some(d) => d,
        None => ".".to_owned(),
    };
    let name = concat3(stem.as_str(), ".log.", decimal_u64(index as u64).as_str());
    join_path(dir.as_str(), name.as_str())
}

/// The path of a script's log.
pub open spec fn log_path(log_dir: Seq<char>, name: Seq<char>) -> Seq<char> {
    join(log_dir, name + ".log"@)
}

/// The path of a script's log.
pub fn get_log_path(log_dir: &str, name: &str) -> (r: String)
    ensures
        r@ == log_path(log_dir@, name@),
{
    join_path(log_dir, concat2(name, ".log").as_str())
}

/// The rotated logs of a script lie beside its log, under its whole name: none
/// is the log itself, and no two are the same.
#[verifier::spinoff_prover]
pub proof fn law_rotated_logs_lie_beside(
    log_dir: Seq<char>,
    name: Seq<char>,
    index: nat,
    other: nat,
)
    requires
        name.len() > 0,
        !name.contains('/'),
    ensures
        key(rotated(log_path(log_dir, name), index)) == key(
            join(log_dir, name + ".log."@ + decimal(index)),
        ),
        key(rotated(log_path(log_dir, name), index)) != key(log_path(log_dir, name)),
        index != other ==> key(rotated(log_path(log_dir, name), index)) != key(
            rotated(log_path(log_dir, name), other),
        ),
{
    let one = rotated_name(name, index);
    let two = rotated_name(name, other);
    lemma_rotated(log_dir, name, index);
    lemma_rotated(log_dir, name, other);
    lemma_log_name(name);
    lemma_rotated_name(name, index);
    lemma_rotated_name(name, other);
    lemma_in_one_directory(log_dir, one, name + ".log"@);
    lemma_in_one_directory(log_dir, one, two);
    if one == two {
        lemma_rotated_name_injective(name, index, other);
    }
}

/// What a rotated log of a script is called.
spec fn rotated_name(name: Seq<char>, index: nat) -> Seq<char> {
    name + ".log."@ + decimal(index)
}

/// A rotated log of a script lies beside its log.
#[verifier::spinoff_prover]
proof fn lemma_rotated(log_dir: Seq<char>, name: Seq<char>, index: nat)
    requires
        name.len() > 0,
        !name.contains('/'),
    ensures
        key(rotated(log_path(log_dir, name), index)) == key(
            join(log_dir, rotated_name(name, index)),
        ),
{
    lemma_log_name(name);
    lemma_rotated_name(name, index);
    lemma_beside(log_dir, name + ".log"@, rotated_name(name, index));
}

/// The log of a script has the script's whole name.
#[verifier::spinoff_prover]
proof fn lemma_log_name(name: Seq<char>)
    requires
        name.len() > 0,
        !name.contains('/'),
    ensures
        plain(name + ".log"@),
        name + ".log"@ != seq!['.', '.'],
        stem(name + ".log"@) == name,
{
    reveal_strlit(".log");
    let log = name + ".log"@;
    assert(log.len() == name.len() + 4);
    assert forall|i: int| 0 <= i < log.len() implies log[i] != '/' by {
        if i < name.len() {
            assert(name.contains(name[i]));
        }
    }
    assert(log.take(name.len() as int) =~= name);
    let three = log.drop_last();
    let two = three.drop_last();
    let one = two.drop_last();
    assert(log.last() == 'g' && three.last() == 'o' && two.last() == 'l' && one.last() == '.');
    assert(extension_dot(one) == Some(name.len()));
    assert(extension_dot(two) == extension_dot(one));
    assert(extension_dot(three) == extension_dot(two));
}

/// The name of a rotated log is one, and longer than that of the log.
#[verifier::spinoff_prover]
proof fn lemma_rotated_name(name: Seq<char>, index: nat)
    requires
        name.len() > 0,
        !name.contains('/'),
    ensures
        plain(rotated_name(name, index)),
        rotated_name(name, index) != name + ".log"@,
{
    reveal_strlit(".log");
    reveal_strlit(".log.");
    lemma_decimal(index);
    let rotated = rotated_name(name, index);
    assert(rotated.len() == name.len() + 5 + decimal(index).len());
    assert((name + ".log"@).len() == name.len() + 4);
    assert forall|i: int| 0 <= i < rotated.len() implies rotated[i] != '/' by {
        if i < name.len() {
            assert(name.contains(name[i]));
        } else if i >= name.len() + 5 {
            assert(rotated[i] == decimal(index)[i - name.len() - 5]);
        }
    }
}

/// Logs that were rotated differently often are called differently.
proof fn lemma_rotated_name_injective(name: Seq<char>, a: nat, b: nat)
    requires
        rotated_name(name, a) == rotated_name(name, b),
    ensures
        a == b,
{
    let n = (name + ".log."@).len();
    assert(rotated_name(name, a).skip(n as int) =~= decimal(a));
    assert(rotated_name(name, b).skip(n as int) =~= decimal(b));
    lemma_decimal_injective(a, b);
}

/// The name of the script whose log has the given name, if it is the name of a log.
pub fn script_name_of_log(file_name: &str) -> (r: Option<String>)
    ensures
        match r {
            Some(name) => name@.len() > 0 && file_name@ == name@ + ".log"@,
            None => forall|name: Seq<char>| name.len() > 0 ==> file_name@ != #[trigger] (name
                + ".log"@),
        },
{
    proof {
        reveal_strlit(".log");
    }
    let chars = to_chars(file_name);
    let n = chars.len();
    if n > 4 && chars[n - 4] == '.' && chars[n - 3] == 'l' && chars[n - 2] == 'o' && chars[n - 1]
        == 'g' {
        let name = substring(&chars, 0, n - 4);
        assert(name@ + ".log"@ =~= file_name@);
        return Some(name);
    }
    assert forall|name: Seq<char>| name.len() > 0 implies file_name@ != #[trigger] (name
        + ".log"@) by {
        let whole = name + ".log"@;
        assert(whole.len() == name.len() + 4);
        assert(whole[name.len() as int] == '.');
        assert(whole[name.len() as int + 1] == 'l');
        assert(whole[name.len() as int + 2] == 'o');
        assert(whole[name.len() as int + 3] == 'g');
    }
    None
}

/// The last `n` of some lines, joined.
pub open spec fn tail_of(content: Seq<char>, n: nat) -> Seq<char> {
    let all = lines(content);
    let from = if n < all.len() {
        all.len() - n
    } else {
        0
    };
    joined(all.skip(from), "\n"@)
}

/// The last `n` lines of a log.
pub fn last_lines(content: &str, n: u32) -> (r: String)
    ensures
        r@ == tail_of(content@, n as nat),
{
    let chars = to_chars(content);
    let ranges = line_ranges(&chars);
    let ghost all = lines(content@);
    let count = ranges.len();
    let from: usize = if (n as u64) < count as u64 {
        count - n as usize
    } else {
        0
    };
    let mut out = String::new();
    let mut i: usize = count;
    assert(all.skip(count as int) =~= Seq::<Seq<char>>::empty());
    assert(out@ =~= joined(all.skip(count as int), "\n"@));
    while i > from
        invariant
            chars@ == content@,
            all == lines(content@),
            pieces(chars@, ranges@) == all,
            count == ranges@.len(),
            from <= i <= count,
            forall|j: int|
                0 <= j < ranges@.len() ==> (#[trigger] ranges@[j]).0 <= ranges@[j].1
                    <= chars@.len(),
            out@ == joined(all.skip(i as int), "\n"@),
        decreases i,
    {
        i = i - 1;
        let (a, b) = ranges[i];
        let line = substring(&chars, a, b);
        proof {
            assert(all[i as int] == chars@.subrange(a as int, b as int));
            assert(all.skip(i as int).drop_first() =~= all.skip(i as int + 1));
            assert(all.skip(i as int)[0] == all[i as int]);
        }
        out = if i + 1 < count {
            concat3(line.as_str(), "\n", out.as_str())
        } else {
            line
        };
    }
    out
}

/// The log of a script: its last lines, or nothing where it has no log.
#[derive(Debug)]
pub struct ScriptLog {
    pub name: String,
    pub content: Option<String>,
}

/// What is shown of the logs of several scripts, or of one.
pub open spec fn shown(logs: Seq<ScriptLog>, total: nat) -> Seq<char>
    decreases logs.len(),
{
    if logs.len() == 0 {
        Seq::empty()
    } else {
        let before = shown(logs.drop_last(), total);
        let log = logs.last();
        match log.content {
            None => before,
            Some(content) => if total > 1 {
                before + (if logs.len() > 1 {
                    "\n"@
                } else {
                    Seq::empty()
                }) + ("=== "@ + log.name@ + " ===\n"@) + content@
            } else {
                before + content@
            },
        }
    }
}

/// What a client is shown of the logs of some scripts.
pub fn read_logs(logs: &Vec<ScriptLog>) -> (r: String)
    ensures
        r@ == (if shown(logs@, logs@.len()).len() == 0 {
            "No logs available yet."@
        } else {
            shown(logs@, logs@.len())
        }),
{
    let mut out = String::new();
    let mut i: usize = 0;
    assert(out@ =~= shown(logs@.take(0), logs@.len()));
    while i < logs.len()
        invariant
            i <= logs@.len(),
            out@ == shown(logs@.take(i as int), logs@.len()),
        decreases logs.len() - i,
    {
        proof {
            assert(logs@.take(i as int + 1).drop_last() =~= logs@.take(i as int));
        }
        if let Some(content) = &logs[i].content {
            if logs.len() > 1 {
                let ghost before = out@;
                if i > 0 {
                    out.append("\n");
                } else {
                    assert(before + Seq::<char>::empty() =~= before);
                }
                let title = concat3("=== ", logs[i].name.as_str(), " ===\n");
                out.append(title.as_str());
            }
            out.append(content.as_str());
        }
        i = i + 1;
    }
    assert(logs@.take(i as int) =~= logs@);
    if out.as_str().is_empty() {
        return "No logs available yet.".to_owned();
    }
    out
}

/// The tail of a log has at most as many lines as were asked for, and with the
/// lines before it makes up the whole log.
pub proof fn law_tail(content: Seq<char>, n: nat)
    ensures
        n >= lines(content).len() ==> tail_of(content, n) == joined(lines(content), "\n"@),
        n < lines(content).len() ==> exists|from: int|
            0 <= from <= lines(content).len() && lines(content).len() - from == n && tail_of(
                content,
                n,
            ) == joined(#[trigger] lines(content).skip(from), "\n"@),
{
    let all = lines(content);
    if n >= all.len() {
        assert(all.skip(0) =~= all);
    } else {
        assert(tail_of(content, n) == joined(all.skip(all.len() - n), "\n"@));
    }
}

/// A line is logged whole, unless it has too many bytes; then as many of its
/// characters as these limits hold.
pub proof fn law_cut(content: Seq<char>)
    requires
        can_be_cut(content),
    ensures
        encode_utf8(content).len() <= 8192 ==> cut(content) == content,
        encode_utf8(content).len() > 8192 ==> encode_utf8(cut(content)) == encode_utf8(
            content,
        ).take(8192),
{
    if encode_utf8(content).len() > 8192 {
        encode_utf8_valid_utf8(content);
        let bytes = encode_utf8(content);
        valid_utf8_split(bytes, 8192);
        decode_utf8_encode_utf8(bytes.take(8192));
    }
}

/// A logged line holds its time, its stream and what it says, in this order, and
/// ends with a line feed, which is the only thing behind what it says.
pub proof fn law_logged(timestamp: Seq<char>, line: LogLine)
    requires
        encode_utf8(line.text()).len() <= 8192,
    ensures
        ({
            let whole = logged(timestamp, line.stream_name(), line.text());
            let n = timestamp.len() as int;
            &&& whole.len() == n + line.text().len() + 13
            &&& whole[0] == '['
            &&& whole.subrange(1, n + 1) == timestamp
            &&& whole[n + 1] == ']'
            &&& whole[n + 3] == '['
            &&& whole.subrange(n + 4, n + 10) == line.stream_name()
            &&& whole[n + 10] == ']'
            &&& whole.subrange(n + 12, whole.len() - 1) == line.text()
            &&& whole.last() == '\n'
        }),
        line is Stdout ==> line.stream_name() == "stdout"@,
        line is Stderr ==> line.stream_name() == "stderr"@,
        line matches LogLine::Stdout(s) ==> line.text() == s@,
        line matches LogLine::Stderr(s) ==> line.text() == s@,
{
    reveal_strlit("[");
    reveal_strlit("] [");
    reveal_strlit("] ");
    reveal_strlit("\n");
    reveal_strlit("stdout");
    reveal_strlit("stderr");
    let whole = logged(timestamp, line.stream_name(), line.text());
    let n = timestamp.len() as int;
    assert(whole.subrange(1, n + 1) =~= timestamp);
    assert(whole.subrange(n + 4, n + 10) =~= line.stream_name());
    assert(whole.subrange(n + 12, whole.len() - 1) =~= line.text());
}

/// The log of a script lies in the directory for logs under the script's name,
/// and different scripts have different logs.
pub proof fn law_log_path(log_dir: Seq<char>, name: Seq<char>, other: Seq<char>)
    requires
        name.len() > 0,
        !name.contains('/'),
        other.len() > 0,
        !other.contains('/'),
    ensures
        log_path(log_dir, name) == join(log_dir, name + seq!['.', 'l', 'o', 'g']),
        name != other ==> key(log_path(log_dir, name)) != key(log_path(log_dir, other)),
{
    reveal_strlit(".log");
    assert(".log"@ =~= seq!['.', 'l', 'o', 'g']);
    lemma_log_name(name);
    lemma_log_name(other);
    lemma_in_one_directory(log_dir, name + ".log"@, other + ".log"@);
    if name + ".log"@ == other + ".log"@ {
        assert((name + ".log"@).len() == name.len() + 4);
        assert((other + ".log"@).len() == other.len() + 4);
        assert((name + ".log"@).take(name.len() as int) =~= name);
        assert((other + ".log"@).take(name.len() as int) =~= other);
    }
}

/// What is shown of the only log is the log; of several, each that there is is
/// shown behind the ones before it, under its name.
pub proof fn law_shown(logs: Seq<ScriptLog>, log: ScriptLog, total: nat)
    ensures
        shown(Seq::empty(), total).len() == 0,
        log.content is None ==> shown(logs.push(log), total) == shown(logs, total),
        log.content is Some && total <= 1 ==> shown(logs.push(log), total) == shown(logs, total)
            + log.content->0@,
        log.content is Some && total > 1 ==> ({
            let before = shown(logs, total);
            let after = shown(logs.push(log), total);
            let added = after.skip(before.len() as int);
            let titled = "=== "@ + log.name@ + " ===\n"@ + log.content->0@;
            &&& after.take(before.len() as int) == before
            &&& logs.len() == 0 ==> added == titled
            &&& logs.len() > 0 ==> added == seq!['\n'] + titled
        }),
{
    reveal_strlit("\n");
    let more = logs.push(log);
    assert(more.drop_last() =~= logs);
    assert(more.last() == log);
    if log.content is Some && total > 1 {
        let before = shown(logs, total);
        let after = shown(more, total);
        let titled = "=== "@ + log.name@ + " ===\n"@ + log.content->0@;
        assert("\n"@ =~= seq!['\n']);
        assert(after.take(before.len() as int) =~= before);
        if logs.len() == 0 {
            assert(after.skip(before.len() as int) =~= titled);
        } else {
            assert(after.skip(before.len() as int) =~= seq!['\n'] + titled);
        }
    }
}

/// The tail of a log is the last lines of it: one more line at the end of the
/// log is the last one of the tail.
pub proof fn law_tail_ends_with_the_log(content: Seq<char>, n: nat)
    requires
        n > 0,
        lines(content).len() > 0,
    ensures
        n == 1 ==> tail_of(content, n) == lines(content).last(),
        n > 1 && lines(content).len() > 1 ==> exists|head: Seq<char>|
            tail_of(content, n) == #[trigger] (head + "\n"@) + lines(content).last(),
{
    let all = lines(content);
    let from = if n < all.len() {
        all.len() - n
    } else {
        0
    };
    let tail = all.skip(from);
    law_joined(tail.drop_last(), tail.last(), "\n"@);
    assert(tail.drop_last().push(tail.last()) =~= tail);
    if n > 1 && all.len() > 1 {
        let head = joined(tail.drop_last(), "\n"@);
        assert(tail_of(content, n) == head + "\n"@ + all.last());
    }
}

} // verus!
