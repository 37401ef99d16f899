//! The lines between the one-shot evaluator and its worker processes, and what a worker decides.
//!
//! A worker reads its configuration as one line and answers `ready`. The evaluator then sends one
//! command per line; the worker answers each with the line of an event and a status line.

use vstd::prelude::*;
use vstd::string::*;
use vstd::utf8::{decode_utf8, valid_utf8};

use crate::json::{texts_json, texts_value};
use crate::json_value::{
    json_text, nests_within, read_texts, read_texts_of, reads_back, texts_of, whole_numbers,
    write_json,
};
use crate::text::{
    chars_of, dropped_back, dropped_front, is_line_padding, is_space, line_trimmed, same,
    starts_with, text_between, trim, trim_line, trimmed,
};

verus! {

broadcast use vstd::string::group_string_axioms;

/// What a worker is told.
#[derive(Debug)]
pub enum WorkerCommand {
    /// Evaluate an attribute path.
    Do(Vec<String>),
    /// Exit.
    Exit,
}

pub enum WorkerCommandView {
    Do(Seq<Seq<char>>),
    Exit,
}

impl View for WorkerCommand {
    type V = WorkerCommandView;

    open spec fn view(&self) -> WorkerCommandView {
        match self {
            WorkerCommand::Do(path) => WorkerCommandView::Do(path.deep_view()),
            WorkerCommand::Exit => WorkerCommandView::Exit,
        }
    }
}

/// Why a line is no command.
#[derive(Debug)]
pub enum CommandError {
    /// The line names no command.
    Invalid(String),
    /// The attribute path is not a list of strings; why.
    BadPath(String),
}

pub enum CommandErrorView {
    Invalid(Seq<char>),
    BadPath(Seq<char>),
}

impl View for CommandError {
    type V = CommandErrorView;

    open spec fn view(&self) -> CommandErrorView {
        match self {
            CommandError::Invalid(command) => CommandErrorView::Invalid(command@),
            CommandError::BadPath(cause) => CommandErrorView::BadPath(cause@),
        }
    }
}

impl CommandErrorView {
    /// The error in words.
    pub open spec fn message(self) -> Seq<char> {
        match self {
            CommandErrorView::Invalid(command) => "invalid worker command: "@ + command,
            CommandErrorView::BadPath(_) => "parsing attr path from master"@,
        }
    }

    /// What is behind the error, where it is not the first cause itself.
    pub open spec fn cause(self) -> Option<Seq<char>> {
        match self {
            CommandErrorView::Invalid(_) => None,
            CommandErrorView::BadPath(cause) => Some(cause),
        }
    }
}

impl CommandError {
    /// The error in words.
    pub fn message(&self) -> (text: String)
        ensures
            text@ == self@.message(),
    {
        match self {
            CommandError::Invalid(command) => {
                "invalid worker command: ".to_owned().concat(command.as_str())
            },
            CommandError::BadPath(_) => "parsing attr path from master".to_owned(),
        }
    }

    /// What is behind the error, where it is not the first cause itself.
    pub fn cause(&self) -> (cause: Option<String>)
        ensures
            cause.deep_view() == self@.cause(),
    {
        match self {
            CommandError::Invalid(_) => None,
            CommandError::BadPath(cause) => Some(cause.clone()),
        }
    }
}

/// The command of a line, or why the line is none. The end of the lines tells the worker to exit.
pub open spec fn command_of(line: Option<Seq<char>>) -> Result<
    WorkerCommandView,
    CommandErrorView,
> {
    match line {
        None => Ok(WorkerCommandView::Exit),
        Some(line) => {
            let command = line_trimmed(line);
            if command == "exit"@ {
                Ok(WorkerCommandView::Exit)
            } else if !("do "@.is_prefix_of(command)) {
                Err(CommandErrorView::Invalid(command))
            } else {
                match read_texts_of(trimmed(command.skip(3))) {
                    Ok(path) => Ok(WorkerCommandView::Do(path)),
                    Err(cause) => Err(CommandErrorView::BadPath(cause)),
                }
            }
        },
    }
}

/// Reads the command of a line.
pub fn worker_command(line: &Option<String>) -> (result: Result<WorkerCommand, CommandError>)
    ensures
        match result {
            Ok(command) => command_of(line.deep_view()) == Ok::<_, CommandErrorView>(command@),
            Err(error) => command_of(line.deep_view()) == Err::<WorkerCommandView, _>(error@),
        },
{
    let line = match line {
        Some(line) => line,
        None => return Ok(WorkerCommand::Exit),
    };
    let command = trim_line(line.as_str());
    if same(command.as_str(), "exit") {
        return Ok(WorkerCommand::Exit);
    }
    if !starts_with(command.as_str(), "do ") {
        return Err(CommandError::Invalid(command));
    }
    let chars = chars_of(command.as_str());
    proof {
        reveal_strlit("do ");
        assert(chars@.subrange(3, chars@.len() as int) =~= chars@.skip(3));
    }
    let body = trim(text_between(&chars, 3, chars.len()).as_str());
    match read_texts(body.as_str()) {
        Ok(path) => Ok(WorkerCommand::Do(path)),
        Err(cause) => Err(CommandError::BadPath(cause)),
    }
}

proof fn lemma_path_reads_back(path: Seq<Seq<char>>)
    ensures
        reads_back(texts_json(path)),
        texts_of(texts_json(path)) == Some(path),
{
    let value = texts_json(path);
    let items = value->Array_0;
    assert forall|i: int| 0 <= i < items.len() implies nests_within(#[trigger] items[i], 126)
        && whole_numbers(items[i], 126) && items[i] is Text by {}
    assert(items.map_values(|item: crate::json_value::JsonView| item->Text_0) =~= path);
}

/// The line that tells a worker to evaluate a path, without its newline. Whatever the path, a
/// worker reads it back from the line.
pub fn do_line(path: &Vec<String>) -> (line: String)
    ensures
        line@ == "do "@ + json_text(texts_json(path.deep_view())),
        !line@.contains('\n'),
        command_of(Some(line@.push('\n'))) == Ok::<_, CommandErrorView>(
            WorkerCommandView::Do(path.deep_view()),
        ),
{
    let text = write_json(&texts_value(path));
    let line = "do ".to_owned().concat(text.as_str());
    proof {
        lemma_path_reads_back(path.deep_view());
        reveal_strlit("do ");
        reveal_strlit("exit");
        let padding = |c: char| is_line_padding(c);
        let space = |c: char| is_space(c);
        let whole = line@.push('\n');
        assert(whole[0] == 'd');
        assert(dropped_front(whole, padding) == whole);
        assert(whole.drop_last() =~= line@);
        assert(line@.last() == text@.last());
        assert(dropped_back(line@, padding) == line@);
        assert(dropped_back(whole, padding) == dropped_back(line@, padding));
        assert(line_trimmed(whole) == line@);
        assert(line@[0] != 'e');
        assert("do "@ =~= line@.subrange(0, 3));
        assert(line@.skip(3) =~= text@);
        if line@.contains('\n') {
            let i = choose|i: int| 0 <= i < line@.len() && line@[i] == '\n';
            assert(text@[i - 3] == '\n');
        }
        assert(dropped_front(text@, space) == text@);
        assert(dropped_back(text@, space) == text@);
        assert(trimmed(text@) == text@);
    }
    line
}

/// A line that was read, without its padding; nothing at the end.
pub fn read_line(raw: &Option<String>) -> (line: Option<String>)
    ensures
        match (raw, line) {
            (Some(text), Some(line)) => line@ == line_trimmed(text@),
            (None, None) => true,
            _ => false,
        },
{
    match raw {
        Some(text) => Some(trim_line(text.as_str())),
        None => None,
    }
}

/// The message about a worker whose output ended early.
pub open spec fn closed_stdout(
    phase: Seq<char>,
    attr: Seq<char>,
    status: Seq<char>,
    stderr: Seq<char>,
) -> Seq<char> {
    "evix worker closed stdout while reading "@ + phase + " for "@ + attr + "; worker status: "@
        + status + if stderr.len() == 0 {
        "; worker stderr was empty"@
    } else {
        "; worker stderr:\n"@ + stderr
    }
}

/// The message about a worker whose output ended early.
pub fn format_worker_closed_stdout_error(
    phase: &str,
    attr: &str,
    status: &str,
    stderr: &str,
) -> (message: String)
    ensures
        message@ == closed_stdout(phase@, attr@, status@, stderr@),
{
    let head = "evix worker closed stdout while reading ".to_owned().concat(phase).concat(
        " for ",
    ).concat(attr).concat("; worker status: ").concat(status);
    proof {
        reveal_strlit("");
        assert(stderr@.len() == 0 ==> stderr@ =~= ""@);
    }
    let tail = if same(stderr, "") {
        "; worker stderr was empty".to_owned()
    } else {
        "; worker stderr:\n".to_owned().concat(stderr)
    };
    head.concat(tail.as_str())
}

/// How many bytes of a worker's error output are kept.
pub const STDERR_CAPTURE_LIMIT: usize = 16384;

/// The last bytes of a worker's error output.
pub struct WorkerStderr {
    pub bytes: Vec<u8>,
}

/// The last `limit` bytes.
pub open spec fn tail_of(bytes: Seq<u8>, limit: nat) -> Seq<u8> {
    if bytes.len() > limit {
        bytes.skip(bytes.len() - limit)
    } else {
        bytes
    }
}

/// The text that `String::from_utf8_lossy` gives for bytes.
pub uninterp spec fn lossy_text(bytes: Seq<u8>) -> Seq<char>;

/// Calls `String::from_utf8_lossy`: the text that UTF-8 bytes encode; bytes that are no UTF-8 become
/// replacement characters. The text depends on the bytes alone.
#[verifier::external_body]
fn text_of_bytes(bytes: &Vec<u8>) -> (text: String)
    ensures
        text@ == lossy_text(bytes@),
        valid_utf8(bytes@) ==> text@ == decode_utf8(bytes@),
{
    String::from_utf8_lossy(bytes).into_owned()
}

impl WorkerStderr {
    /// Nothing written yet.
    pub fn new() -> (stderr: Self)
        ensures
            stderr.bytes@ == Seq::<u8>::empty(),
    {
        WorkerStderr { bytes: Vec::new() }
    }

    /// Takes in what a worker wrote.
    pub fn capture_stderr(&mut self, chunk: &Vec<u8>)
        requires
            old(self).bytes@.len() + chunk@.len() <= usize::MAX,
        ensures
            final(self).bytes@ == tail_of(
                old(self).bytes@ + chunk@,
                STDERR_CAPTURE_LIMIT as nat,
            ),
    {
        let ghost before = self.bytes@;
        let total: usize = self.bytes.len() + chunk.len();
        let drop: usize = if total > STDERR_CAPTURE_LIMIT {
            total - STDERR_CAPTURE_LIMIT
        } else {
            0
        };
        let ghost all = before + chunk@;
        let mut kept: Vec<u8> = Vec::new();
        let mut i: usize = drop;
        while i < total
            invariant
                self.bytes@ == before,
                all == before + chunk@,
                total == all.len(),
                drop <= i <= total,
                kept@ == all.subrange(drop as int, i as int),
            decreases total - i,
        {
            let byte: u8 = if i < self.bytes.len() {
                self.bytes[i]
            } else {
                chunk[i - self.bytes.len()]
            };
            kept.push(byte);
            assert(all.subrange(drop as int, i as int).push(byte) =~= all.subrange(
                drop as int,
                i + 1,
            ));
            i += 1;
        }
        proof {
            assert(all.subrange(drop as int, total as int) =~= tail_of(
                all,
                STDERR_CAPTURE_LIMIT as nat,
            ));
        }
        self.bytes = kept;
    }

    /// What was written, as text without surrounding whitespace.
    pub fn snapshot(&self) -> (text: String)
        ensures
            text@ == trimmed(lossy_text(self.bytes@)),
            valid_utf8(self.bytes@) ==> text@ == trimmed(decode_utf8(self.bytes@)),
    {
        trim(text_of_bytes(&self.bytes).as_str())
    }
}

/// Taking in error output piece by piece keeps the same bytes as taking it in at once.
pub proof fn law_captured_stderr_is_the_tail(before: Seq<u8>, one: Seq<u8>, two: Seq<u8>, limit: nat)
    ensures
        tail_of(tail_of(before + one, limit) + two, limit) == tail_of(before + one + two, limit),
{
    let once = tail_of(before + one, limit);
    let whole = before + one + two;
    assert(tail_of(once + two, limit) =~= tail_of(whole, limit));
}

/// Whether a worker exits at its memory limit, given in megabytes: it used more kilobytes.
pub fn should_restart(max_rss_kb: usize, max_memory_mb: usize) -> (yes: bool)
    requires
        max_memory_mb * 1024 <= usize::MAX,
    ensures
        yes == (max_rss_kb > max_memory_mb * 1024),
{
    max_rss_kb > max_memory_mb * 1024
}

/// The status line of a worker after an event.
pub fn status_line(restart: bool) -> (line: &'static str)
    ensures
        line@ == (if restart {
            "restart"@
        } else {
            "ready"@
        }),
{
    if restart {
        "restart"
    } else {
        "ready"
    }
}

/// The lines of a settings file.
pub open spec fn option_lines(options: Seq<(Seq<char>, Seq<char>)>) -> Seq<char>
    decreases options.len(),
{
    if options.len() == 0 {
        Seq::empty()
    } else {
        option_lines(options.drop_last()) + options.last().0 + " = "@ + options.last().1 + "\n"@
    }
}

/// The settings file that applies Nix options, where there are any.
pub fn nix_options_file(options: &Vec<(String, String)>) -> (contents: Option<String>)
    ensures
        match contents {
            Some(text) => options@.len() > 0 && text@ == option_lines(options.deep_view()),
            None => options@.len() == 0,
        },
{
    if options.len() == 0 {
        return None;
    }
    let ghost all = options.deep_view();
    let mut contents = String::new();
    let mut i: usize = 0;
    while i < options.len()
        invariant
            all == options.deep_view(),
            i <= options@.len(),
            contents@ == option_lines(all.take(i as int)),
        decreases options@.len() - i,
    {
        assert(all.take(i + 1).drop_last() =~= all.take(i as int));
        assert(all[i as int] == options@[i as int].deep_view());
        contents.append(options[i].0.as_str());
        contents.append(" = ");
        contents.append(options[i].1.as_str());
        contents.append("\n");
        i += 1;
    }
    assert(all.take(all.len() as int) =~= all);
    Some(contents)
}

/// The line that holds a worker's configuration, or the message where there is none.
pub fn read_config(line: &Option<String>) -> (result: Result<String, String>)
    ensures
        match (line, result) {
            (Some(text), Ok(body)) => body@ == trimmed(text@),
            (None, Err(message)) => message@ == "worker received no configuration line"@,
            _ => false,
        },
{
    match line {
        Some(text) => Ok(trim(text.as_str())),
        None => Err("worker received no configuration line".to_owned()),
    }
}

/// A worker exits at the end of its input and at `exit`, whatever padding is around it; a line that
/// does not begin with `do` and a blank is refused by name.
pub proof fn law_commands(line: Seq<char>)
    ensures
        command_of(None) == Ok::<_, CommandErrorView>(WorkerCommandView::Exit),
        line_trimmed(line) == "exit"@ ==> command_of(Some(line)) == Ok::<_, CommandErrorView>(
            WorkerCommandView::Exit,
        ),
        line_trimmed(line) != "exit"@ && !("do "@.is_prefix_of(line_trimmed(line))) ==> command_of(
            Some(line),
        ) == Err::<WorkerCommandView, _>(CommandErrorView::Invalid(line_trimmed(line))),
{
}

/// A line that begins with `do` asks for the path that is written behind it as a list of strings;
/// where there is no such list, why is told.
pub proof fn law_work_commands(body: Seq<char>)
    requires
        line_trimmed("do "@ + body) == "do "@ + body,
    ensures
        match read_texts_of(trimmed(body)) {
            Ok(path) => command_of(Some("do "@ + body)) == Ok::<_, CommandErrorView>(
                WorkerCommandView::Do(path),
            ),
            Err(cause) => command_of(Some("do "@ + body)) == Err::<WorkerCommandView, _>(
                CommandErrorView::BadPath(cause),
            ),
        },
{
    reveal_strlit("do ");
    reveal_strlit("exit");
    let line = "do "@ + body;
    assert("do "@ =~= line.subrange(0, 3));
    assert(line.skip(3) =~= body);
    assert(line[0] != 'e');
}

/// Of error output that is longer than the limit just the last bytes are kept; shorter output is
/// kept whole.
pub proof fn law_kept_bytes(bytes: Seq<u8>, limit: nat, i: int)
    ensures
        bytes.len() <= limit ==> tail_of(bytes, limit) == bytes,
        bytes.len() > limit ==> tail_of(bytes, limit).len() == limit,
        0 <= i < tail_of(bytes, limit).len() ==> tail_of(bytes, limit)[i] == bytes[bytes.len()
            - tail_of(bytes, limit).len() + i],
{
}

/// The settings file has one line for each option, in order: the name, an equals sign between
/// blanks, and the value.
pub proof fn law_option_lines(
    one: Seq<(Seq<char>, Seq<char>)>,
    two: Seq<(Seq<char>, Seq<char>)>,
    key: Seq<char>,
    value: Seq<char>,
)
    ensures
        option_lines(one + two) == option_lines(one) + option_lines(two),
        option_lines(seq![(key, value)]) == key + " = "@ + value + "\n"@,
        option_lines(Seq::empty()).len() == 0,
    decreases two.len(),
{
    let single = seq![(key, value)];
    assert(single.drop_last() =~= Seq::empty());
    assert(option_lines(single.drop_last()) =~= Seq::empty());
    assert(option_lines(single) =~= key + " = "@ + value + "\n"@);
    if two.len() == 0 {
        assert(one + two =~= one);
        assert(option_lines(one) + option_lines(two) =~= option_lines(one));
    } else {
        law_option_lines(one, two.drop_last(), key, value);
        assert((one + two).drop_last() =~= one + two.drop_last());
        assert(option_lines(one + two) =~= option_lines(one) + option_lines(two));
    }
}

/// The message about a worker whose output ended early tells what was being read and for which
/// attribute, how the worker exited, and what it wrote on its error output, if anything.
pub proof fn law_early_end_is_explained(
    phase: Seq<char>,
    attr: Seq<char>,
    status: Seq<char>,
    stderr: Seq<char>,
)
    ensures
        ({
            let told = "evix worker closed stdout while reading "@ + phase + " for "@ + attr
                + "; worker status: "@ + status;
            &&& stderr.len() == 0 ==> closed_stdout(phase, attr, status, stderr) == told
                + "; worker stderr was empty"@
            &&& stderr.len() > 0 ==> closed_stdout(phase, attr, status, stderr) == told
                + ("; worker stderr:\n"@ + stderr)
        }),
{
}

/// Why a command is refused is told in words, with what is behind it.
pub proof fn law_command_errors_are_told(text: Seq<char>)
    ensures
        CommandErrorView::Invalid(text).message() == "invalid worker command: "@ + text,
        CommandErrorView::Invalid(text).cause() is None,
        CommandErrorView::BadPath(text).message() == "parsing attr path from master"@,
        CommandErrorView::BadPath(text).cause() == Some(text),
{
}

} // verus!
