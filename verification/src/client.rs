//! The decisions of the interactive client: how a typed line is read as a
//! command, the bytes of its requests, and how a downloaded file is received.
use vstd::prelude::*;
use vstd::utf8::*;
use crate::commands::{Commands, command_byte};
use crate::text::{chars_equal, chars_of, lowercase, split_words, to_lowercase, views, words};
use crate::wire::{encode_text, frame, ReadEvent};

verus! {

/// What a line typed at the client prompt asks for.
#[derive(Debug, Clone, Copy, PartialEq, Eq, Structural)]
pub enum ClientCommand {
    /// `ls`: list the local files.
    LocalFiles,
    /// `list`: list the files on the server.
    List,
    /// `upload`: send a file to the server.
    Upload,
    /// `download`: fetch a file from the server.
    Download,
    /// `delete`: remove a file on the server.
    Delete,
    /// `help`: show the available commands.
    Help,
    /// `exit`: end the session.
    Exit,
    /// A first word that names no command.
    Unrecognized,
    /// A line with no word at all.
    Blank,
}

/// The command that a lower-cased first word names.
pub open spec fn keyword_command(w: Seq<char>) -> ClientCommand {
    if w == "ls"@ {
        ClientCommand::LocalFiles
    } else if w == "list"@ {
        ClientCommand::List
    } else if w == "upload"@ {
        ClientCommand::Upload
    } else if w == "download"@ {
        ClientCommand::Download
    } else if w == "delete"@ {
        ClientCommand::Delete
    } else if w == "help"@ {
        ClientCommand::Help
    } else if w == "exit"@ {
        ClientCommand::Exit
    } else {
        ClientCommand::Unrecognized
    }
}

/// The command of a typed line: the first word, in lower case, names it.
pub open spec fn line_command(line: Seq<char>) -> ClientCommand {
    if words(line).len() == 0 {
        ClientCommand::Blank
    } else {
        keyword_command(lowercase(words(line)[0]))
    }
}

/// The argument of a typed line: its second word, if it has one.
pub open spec fn line_argument(line: Seq<char>) -> Option<Seq<char>> {
    if words(line).len() >= 2 {
        Some(words(line)[1])
    } else {
        None
    }
}

/// A typed line, read: the command and the file name that follows it.
pub struct CommandLine {
    pub command: ClientCommand,
    pub argument: Option<String>,
}

/// The command that a first word, already in lower case, names.
pub fn command_of_keyword(lowered: &str) -> (c: ClientCommand)
    ensures
        c == keyword_command(lowered@),
{
    let w = chars_of(lowered);
    if chars_equal(w.as_slice(), "ls") {
        ClientCommand::LocalFiles
    } else if chars_equal(w.as_slice(), "list") {
        ClientCommand::List
    } else if chars_equal(w.as_slice(), "upload") {
        ClientCommand::Upload
    } else if chars_equal(w.as_slice(), "download") {
        ClientCommand::Download
    } else if chars_equal(w.as_slice(), "delete") {
        ClientCommand::Delete
    } else if chars_equal(w.as_slice(), "help") {
        ClientCommand::Help
    } else if chars_equal(w.as_slice(), "exit") {
        ClientCommand::Exit
    } else {
        ClientCommand::Unrecognized
    }
}

/// Reads a typed line: its first word, lower-cased, names the command, and its
/// second word, if any, is the argument.
pub fn parse_command(line: &str) -> (r: CommandLine)
    ensures
        r.command == line_command(line@),
        r.argument is None <==> line_argument(line@) is None,
        r.argument matches Some(a) ==> line_argument(line@) == Some(a@),
{
    let ws = split_words(line);
    assert(views(ws@).len() == ws@.len());
    if ws.len() == 0 {
        return CommandLine { command: ClientCommand::Blank, argument: None };
    }
    assert(views(ws@)[0] == ws@[0]@);
    let lowered = to_lowercase(ws[0].as_str());
    let command = command_of_keyword(lowered.as_str());
    let argument = if ws.len() >= 2 {
        assert(views(ws@)[1] == ws@[1]@);
        Some(ws[1].clone())
    } else {
        None
    };
    CommandLine { command, argument }
}

/// The start of a request about a file: the command byte, then the frame of
/// the file name.
pub fn request_header(c: Commands, name: &str) -> (r: Vec<u8>)
    ensures
        r@ == seq![command_byte(c)] + frame(encode_utf8(name@)),
{
    let mut r: Vec<u8> = Vec::new();
    r.push(u8::from(c));
    let body = encode_text(name);
    let mut i: usize = 0;
    while i < body.len()
        invariant
            0 <= i <= body.len(),
            r@ == seq![command_byte(c)] + body@.subrange(0, i as int),
        decreases body.len() - i,
    {
        r.push(body[i]);
        assert(body@.subrange(0, i + 1) =~= body@.subrange(0, i as int).push(body@[i as int]));
        i = i + 1;
    }
    assert(body@.subrange(0, body@.len() as int) =~= body@);
    r
}

/// Whether the status byte that answers a download says that a file follows.
pub fn file_follows(status: u8) -> (r: bool)
    ensures
        r == (status == 1),
{
    status == 1
}

/// What the client does after a read while it receives a file.
#[derive(Debug, Clone, Copy, PartialEq, Eq, Structural)]
pub enum DownloadStep {
    /// Write the bytes just read to the local file and go on.
    Write(usize),
    /// The server closed the connection: stop.
    Stop,
    /// The read failed: report it and stop.
    Fail,
}

/// A file being received: how many of its announced bytes are still due.
pub struct DownloadProgress {
    pub remaining: u64,
}

impl DownloadProgress {
    /// A download of a file of `size` bytes, none received yet.
    pub fn new(size: u64) -> (p: DownloadProgress)
        ensures
            p.remaining == size,
    {
        DownloadProgress { remaining: size }
    }

    /// Whether every announced byte has arrived, so that the download is done.
    pub fn is_complete(&self) -> (r: bool)
        ensures
            r == (self.remaining == 0),
    {
        self.remaining == 0
    }

    /// Takes the outcome of a read into account.
    pub fn on_read(&mut self, event: ReadEvent) -> (step: DownloadStep)
        requires
            old(self).remaining > 0,
            event matches ReadEvent::Received(n) ==> n <= old(self).remaining,
        ensures
            match event {
                ReadEvent::Received(n) => if n == 0 {
                    step == DownloadStep::Stop && final(self).remaining == old(self).remaining
                } else {
                    step == DownloadStep::Write(n) && final(self).remaining == old(self).remaining - n
                },
                ReadEvent::Failed => step == DownloadStep::Fail && final(self).remaining
                    == old(self).remaining,
            },
    {
        match event {
            ReadEvent::Received(n) => {
                if n == 0 {
                    DownloadStep::Stop
                } else {
                    self.remaining = self.remaining - n as u64;
                    DownloadStep::Write(n)
                }
            },
            ReadEvent::Failed => DownloadStep::Fail,
        }
    }
}

/// What a typed line asks for: with no word it is blank; otherwise its
/// first word, lower-cased, names the command (`ls`, `list`, `upload`,
/// `download`, `delete`, `help`, `exit`), and any other first word is not
/// recognized. The second word, if any, is the argument.
pub proof fn lemma_typed_line_meaning(line: Seq<char>)
    ensures
        words(line).len() == 0 <==> line_command(line) == ClientCommand::Blank,
        words(line).len() > 0 ==> {
            let w = lowercase(words(line)[0]);
            &&& (w == "ls"@ <==> line_command(line) == ClientCommand::LocalFiles)
            &&& (w == "list"@ <==> line_command(line) == ClientCommand::List)
            &&& (w == "upload"@ <==> line_command(line) == ClientCommand::Upload)
            &&& (w == "download"@ <==> line_command(line) == ClientCommand::Download)
            &&& (w == "delete"@ <==> line_command(line) == ClientCommand::Delete)
            &&& (w == "help"@ <==> line_command(line) == ClientCommand::Help)
            &&& (w == "exit"@ <==> line_command(line) == ClientCommand::Exit)
        },
        words(line).len() >= 2 ==> line_argument(line) == Some(words(line)[1]),
        words(line).len() < 2 ==> line_argument(line) is None,
{
    reveal_strlit("ls");
    reveal_strlit("list");
    reveal_strlit("upload");
    reveal_strlit("download");
    reveal_strlit("delete");
    reveal_strlit("help");
    reveal_strlit("exit");
    let ks = seq!["ls"@, "list"@, "upload"@, "download"@, "delete"@, "help"@, "exit"@];
    assert forall|i: int, j: int| 0 <= i < j < 7 implies ks[i] != ks[j] by {
        if ks[i].len() == ks[j].len() {
            assert(ks[i][0] != ks[j][0]);
        }
    }
    assert(ks[0] != ks[1] && ks[0] != ks[2] && ks[0] != ks[3] && ks[0] != ks[4] && ks[0] != ks[5]
        && ks[0] != ks[6]);
    assert(ks[1] != ks[2] && ks[1] != ks[3] && ks[1] != ks[4] && ks[1] != ks[5] && ks[1] != ks[6]);
    assert(ks[2] != ks[3] && ks[2] != ks[4] && ks[2] != ks[5] && ks[2] != ks[6]);
    assert(ks[3] != ks[4] && ks[3] != ks[5] && ks[3] != ks[6]);
    assert(ks[4] != ks[5] && ks[4] != ks[6]);
    assert(ks[5] != ks[6]);
}

} // verus!
