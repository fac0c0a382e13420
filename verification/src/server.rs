//! The decisions of the file server: what it answers, where it keeps files,
//! how it reads the names in requests and how it serves a connection.
use vstd::prelude::*;
use vstd::utf8::*;
use vstd::string::*;
use crate::commands::{Commands, command_of_byte};
use crate::text::{lines, line_len, lemma_line_len_bound, push_char, strip_cr, views, first_line};
use crate::wire::{decode_payload, FrameError, ReadEvent};

verus! {

/// The messages that the server sends back as plain text.
#[derive(Debug, Clone, Copy, PartialEq, Eq, Structural)]
pub enum Reply {
    ListingFailed,
    FileMissing,
    NameUnreadable,
    UploadStored,
    UploadFailed,
    UploadReceived,
    Deleted,
    DeleteFailed,
    InvalidCommand,
    ServerFull,
}

/// The text of each reply.
pub open spec fn reply_text(r: Reply) -> Seq<char> {
    match r {
        Reply::ListingFailed => "Servidor encontrou um erro ao ler o diretório de arquivos!"@,
        Reply::FileMissing => "O arquivo não existe."@,
        Reply::NameUnreadable => "Erro ao ler nome de arquivo!"@,
        Reply::UploadStored => "Arquivo lido com sucesso."@,
        Reply::UploadFailed => "Erro ao ler arquivo!"@,
        Reply::UploadReceived => "Arquivo recebido com sucesso"@,
        Reply::Deleted => "Arquivo excluido com sucesso."@,
        Reply::DeleteFailed => "Não foi possivel excluir o arquivo."@,
        Reply::InvalidCommand => "Comando inválido!"@,
        Reply::ServerFull => "Servidor está na capacidade maxima!"@,
    }
}

impl Reply {
    /// The text that the server writes for this reply.
    pub fn text(&self) -> (t: &'static str)
        ensures
            t@ == reply_text(*self),
    {
        match self {
            Reply::ListingFailed => "Servidor encontrou um erro ao ler o diretório de arquivos!",
            Reply::FileMissing => "O arquivo não existe.",
            Reply::NameUnreadable => "Erro ao ler nome de arquivo!",
            Reply::UploadStored => "Arquivo lido com sucesso.",
            Reply::UploadFailed => "Erro ao ler arquivo!",
            Reply::UploadReceived => "Arquivo recebido com sucesso",
            Reply::Deleted => "Arquivo excluido com sucesso.",
            Reply::DeleteFailed => "Não foi possivel excluir o arquivo.",
            Reply::InvalidCommand => "Comando inválido!",
            Reply::ServerFull => "Servidor está na capacidade maxima!",
        }
    }
}

/// The directory, as a path prefix, in which the server keeps the files.
pub open spec fn storage_prefix() -> Seq<char> {
    "./arquivos/"@
}

/// The path under which the server keeps the file called `name`.
pub fn storage_path(name: &str) -> (p: String)
    ensures
        p@ == storage_prefix() + name@,
{
    let mut p = String::new();
    p.append("./arquivos/");
    p.append(name);
    p
}

/// Why the file name of a request could not be read.
#[derive(Debug, Clone, Copy, PartialEq, Eq, Structural)]
pub enum NameError {
    /// Nothing was received.
    Missing,
    /// The bytes received are not UTF-8: a fault of the client that has no
    /// answer in the protocol, on which the server stops (panics).
    NotUtf8,
}

/// The storage path of the file named by the bytes of a download or delete
/// request.
pub fn request_path(name: &[u8]) -> (r: Result<String, NameError>)
    ensures
        name@.len() == 0 ==> r == Err::<String, NameError>(NameError::Missing),
        name@.len() > 0 && !valid_utf8(name@) ==> r == Err::<String, NameError>(NameError::NotUtf8),
        name@.len() > 0 && valid_utf8(name@) ==> (r matches Ok(p) && p@ == storage_prefix()
            + decode_utf8(name@)),
{
    if name.len() == 0 {
        return Err(NameError::Missing);
    }
    match decode_payload(name) {
        Ok(s) => Ok(storage_path(s.as_str())),
        Err(_) => Err(NameError::NotUtf8),
    }
}

/// The storage path named by the line that opens an upload: its first line,
/// or `None` when the line is empty.
pub fn upload_path(line: &str) -> (r: Option<String>)
    ensures
        line@.len() == 0 ==> r is None,
        line@.len() > 0 ==> (r matches Some(p) && p@ == storage_prefix() + lines(line@)[0]),
{
    proof {
        crate::text::lemma_lines_empty(line@);
    }
    match first_line(line) {
        Some(l) => Some(storage_path(l.as_str())),
        None => None,
    }
}

/// The reply to a delete request: the file was missing, or it existed and its
/// removal succeeded or failed.
pub fn delete_reply(exists: bool, removed: bool) -> (r: Reply)
    ensures
        !exists ==> r == Reply::FileMissing,
        exists && removed ==> r == Reply::Deleted,
        exists && !removed ==> r == Reply::DeleteFailed,
{
    if !exists {
        Reply::FileMissing
    } else if removed {
        Reply::Deleted
    } else {
        Reply::DeleteFailed
    }
}

/// What the server does with a connection after reading a command byte.
#[derive(Debug, Clone, Copy, PartialEq, Eq, Structural)]
pub enum ConnectionAction {
    /// Serve the request, then read the next command.
    Serve(Commands),
    /// The client closed the connection: stop serving it.
    Close,
    /// The byte names no command: stop serving the connection.
    CloseUnknown,
    /// The read failed: answer `InvalidCommand` and stop.
    Reject,
}

/// The action that a read of a command byte leads to; `byte` is the first
/// byte of the buffer, meaningful when at least one byte was received.
pub open spec fn connection_step(event: ReadEvent, byte: u8) -> ConnectionAction {
    match event {
        ReadEvent::Received(n) => if n == 0 {
            ConnectionAction::Close
        } else if command_of_byte(byte) == Commands::Unknown {
            ConnectionAction::CloseUnknown
        } else {
            ConnectionAction::Serve(command_of_byte(byte))
        },
        ReadEvent::Failed => ConnectionAction::Reject,
    }
}

/// Decides what to do with a connection after reading its next command byte.
pub fn connection_action(event: ReadEvent, byte: u8) -> (a: ConnectionAction)
    ensures
        a == connection_step(event, byte),
{
    match event {
        ReadEvent::Received(n) => {
            if n == 0 {
                ConnectionAction::Close
            } else {
                match Commands::from(byte) {
                    Commands::Unknown => ConnectionAction::CloseUnknown,
                    c => ConnectionAction::Serve(c),
                }
            }
        },
        ReadEvent::Failed => ConnectionAction::Reject,
    }
}

/// The directory listing that the server sends: each name followed by a newline.
pub open spec fn listing(names: Seq<Seq<char>>) -> Seq<char>
    decreases names.len(),
{
    if names.len() == 0 {
        seq![]
    } else {
        names[0] + seq!['\n'] + listing(names.drop_first())
    }
}

proof fn lemma_listing_push(names: Seq<Seq<char>>, last: Seq<char>)
    ensures
        listing(names.push(last)) == listing(names) + last + seq!['\n'],
    decreases names.len(),
{
    if names.len() == 0 {
        assert(names.push(last).drop_first() =~= Seq::<Seq<char>>::empty());
        assert(listing(names.push(last).drop_first()) == Seq::<char>::empty());
        assert(names.push(last)[0] == last);
        assert(listing(names) == Seq::<char>::empty());
        assert(listing(names.push(last)) =~= last + seq!['\n']);
    } else {
        assert(names.push(last).drop_first() =~= names.drop_first().push(last));
        lemma_listing_push(names.drop_first(), last);
    }
}

/// The listing of the file names `names`.
pub fn listing_text(names: &[String]) -> (r: String)
    ensures
        r@ == listing(views(names@)),
{
    let mut r = String::new();
    let mut i: usize = 0;
    while i < names.len()
        invariant
            0 <= i <= names.len(),
            r@ == listing(views(names@.subrange(0, i as int))),
        decreases names.len() - i,
    {
        let ghost before = r@;
        r.append(names[i].as_str());
        push_char(&mut r, '\n');
        proof {
            let pre = views(names@.subrange(0, i as int));
            lemma_listing_push(pre, names@[i as int]@);
            assert(views(names@.subrange(0, i + 1)) =~= pre.push(names@[i as int]@));
            assert(r@ =~= before + names@[i as int]@ + seq!['\n']);
        }
        i = i + 1;
    }
    assert(names@.subrange(0, names@.len() as int) =~= names@);
    r
}

/// A name that the client can read back from a listing: one without a
/// newline, and not ending in a carriage return.
pub open spec fn listable(name: Seq<char>) -> bool {
    &&& forall|i: int| 0 <= i < name.len() ==> name[i] != '\n'
    &&& (name.len() > 0 ==> name.last() != '\r')
}

/// What the client reads of a listing: the lines of the listing of `names`
/// are the names themselves, provided that each name is listable.
pub proof fn lemma_listing_lines(names: Seq<Seq<char>>)
    requires
        forall|i: int| 0 <= i < names.len() ==> listable(#[trigger] names[i]),
    ensures
        lines(listing(names)) == names,
    decreases names.len(),
{
    if names.len() > 0 {
        let n0 = names[0];
        let rest = names.drop_first();
        assert forall|i: int| 0 <= i < rest.len() implies listable(#[trigger] rest[i]) by {
            assert(rest[i] == names[i + 1]);
        }
        lemma_listing_lines(rest);
        let s = listing(names);
        assert(listable(n0));
        lemma_line_len_at(s, n0.len() as int);
        assert(s.take(n0.len() as int) =~= n0);
        assert(s.skip(n0.len() + 1 as int) =~= listing(rest));
        assert(strip_cr(n0) == n0);
        assert(lines(s) =~= seq![n0] + lines(listing(rest)));
        assert(names =~= seq![n0] + rest);
    } else {
        assert(names =~= Seq::<Seq<char>>::empty());
    }
}

proof fn lemma_line_len_at(t: Seq<char>, k: int)
    requires
        0 <= k < t.len(),
        forall|m: int| 0 <= m < k ==> #[trigger] t[m] != '\n',
        t[k] == '\n',
    ensures
        line_len(t) == k,
    decreases k,
{
    if k > 0 {
        let u = t.drop_first();
        assert forall|m: int| 0 <= m < k - 1 implies #[trigger] u[m] != '\n' by {
            assert(u[m] == t[m + 1]);
        }
        assert(u[k - 1] == t[k]);
        lemma_line_len_at(u, k - 1);
    }
}

/// How many bytes at the start of `b` are not zero.
pub open spec fn nonzero_prefix_len(b: Seq<u8>) -> nat
    decreases b.len(),
{
    if b.len() > 0 && b[0] != 0 {
        1 + nonzero_prefix_len(b.drop_first())
    } else {
        0
    }
}

/// The file name and the first content bytes in the head of a
/// zero-separated upload: the name is what precedes the first zero byte and
/// the content what follows it; where the head holds no zero byte, the name is
/// the whole head and so is the content.
pub open spec fn upload_head_parts(head: Seq<u8>) -> (Seq<u8>, Seq<u8>) {
    let k = nonzero_prefix_len(head);
    if k < head.len() {
        (head.take(k as int), head.skip(k + 1 as int))
    } else {
        (head, head)
    }
}

proof fn lemma_nonzero_prefix_exact(t: Seq<u8>, k: int)
    requires
        0 <= k <= t.len(),
        forall|m: int| 0 <= m < k ==> #[trigger] t[m] != 0,
        k == t.len() || t[k] == 0,
    ensures
        nonzero_prefix_len(t) == k,
    decreases k,
{
    if k > 0 {
        let u = t.drop_first();
        assert forall|m: int| 0 <= m < k - 1 implies #[trigger] u[m] != 0 by {
            assert(u[m] == t[m + 1]);
        }
        assert(k - 1 == u.len() || u[k - 1] == t[k]);
        lemma_nonzero_prefix_exact(u, k - 1);
    }
}

/// Splits the head of a zero-separated upload into the file name and the
/// first content bytes; see [`upload_head_parts`].
pub fn split_upload_head(head: &[u8]) -> (r: (Vec<u8>, Vec<u8>))
    ensures
        (r.0@, r.1@) == upload_head_parts(head@),
{
    let n = head.len();
    let mut name: Vec<u8> = Vec::new();
    let mut i: usize = 0;
    while i < n && head[i] != 0
        invariant
            n == head.len(),
            0 <= i <= n,
            name@ == head@.subrange(0, i as int),
            forall|m: int| 0 <= m < i ==> #[trigger] head@[m] != 0,
        decreases n - i,
    {
        name.push(head[i]);
        assert(head@.subrange(0, i + 1) =~= head@.subrange(0, i as int).push(head@[i as int]));
        i = i + 1;
    }
    proof {
        lemma_nonzero_prefix_exact(head@, i as int);
    }
    let start: usize = if i < n { i + 1 } else { 0 };
    let mut content: Vec<u8> = Vec::new();
    let mut j: usize = start;
    while j < n
        invariant
            n == head.len(),
            start <= j <= n,
            content@ == head@.subrange(start as int, j as int),
        decreases n - j,
    {
        content.push(head[j]);
        assert(head@.subrange(start as int, j + 1) =~= head@.subrange(start as int, j as int).push(head@[j as int]));
        j = j + 1;
    }
    assert(head@.subrange(start as int, n as int) =~= head@.skip(start as int));
    assert(head@.subrange(0, i as int) =~= head@.take(i as int));
    assert(head@.skip(0) =~= head@);
    assert(head@.take(n as int) =~= head@);
    (name, content)
}

/// The head of a zero-separated upload, read: where the file goes and the
/// first bytes of its content.
pub struct UploadHead {
    pub path: String,
    pub content: Vec<u8>,
}

/// Reads the head of a zero-separated upload: the storage path of the named
/// file and the content bytes that came with the name.
pub fn upload_head(head: &[u8]) -> (r: Result<UploadHead, NameError>)
    ensures
        head@.len() == 0 ==> r matches Err(NameError::Missing),
        head@.len() > 0 && !valid_utf8(upload_head_parts(head@).0) ==> r matches Err(NameError::NotUtf8),
        head@.len() > 0 && valid_utf8(upload_head_parts(head@).0) ==> (r matches Ok(u) && u.path@
            == storage_prefix() + decode_utf8(upload_head_parts(head@).0) && u.content@
            == upload_head_parts(head@).1),
{
    if head.len() == 0 {
        return Err(NameError::Missing);
    }
    let (name, content) = split_upload_head(head);
    match decode_payload(name.as_slice()) {
        Ok(s) => Ok(UploadHead { path: storage_path(s.as_str()), content }),
        Err(_) => Err(NameError::NotUtf8),
    }
}

/// What the server does after a read while it receives an upload.
#[derive(Debug, Clone, Copy, PartialEq, Eq, Structural)]
pub enum UploadStep {
    /// Append the bytes just read to the file and go on.
    Write(usize),
    /// Send this reply and stop.
    Answer(Reply),
}

/// Decides what a read during an upload leads to: the end of the stream
/// completes the upload, data is written, and a failed read is reported.
pub fn upload_step(event: ReadEvent) -> (s: UploadStep)
    ensures
        s == match event {
            ReadEvent::Received(n) => if n == 0 {
                UploadStep::Answer(Reply::UploadReceived)
            } else {
                UploadStep::Write(n)
            },
            ReadEvent::Failed => UploadStep::Answer(Reply::UploadFailed),
        },
{
    match event {
        ReadEvent::Received(n) => {
            if n == 0 {
                UploadStep::Answer(Reply::UploadReceived)
            } else {
                UploadStep::Write(n)
            }
        },
        ReadEvent::Failed => UploadStep::Answer(Reply::UploadFailed),
    }
}

/// A command that the client sends, as its byte, is served by the server as
/// that same command; the byte of `Unknown` ends the connection.
pub proof fn lemma_sent_command_served(c: Commands, n: usize)
    requires
        n > 0,
    ensures
        c != Commands::Unknown ==> connection_step(ReadEvent::Received(n), crate::commands::command_byte(c))
            == ConnectionAction::Serve(c),
        c == Commands::Unknown ==> connection_step(ReadEvent::Received(n), crate::commands::command_byte(c))
            == ConnectionAction::CloseUnknown,
{
    crate::commands::lemma_command_roundtrip(c);
}

proof fn lemma_nonzero_prefix_shape(t: Seq<u8>)
    ensures
        nonzero_prefix_len(t) <= t.len(),
        forall|m: int| 0 <= m < nonzero_prefix_len(t) ==> #[trigger] t[m] != 0,
        nonzero_prefix_len(t) < t.len() ==> t[nonzero_prefix_len(t) as int] == 0,
    decreases t.len(),
{
    if t.len() > 0 && t[0] != 0 {
        let u = t.drop_first();
        lemma_nonzero_prefix_shape(u);
        assert forall|m: int| 0 <= m < nonzero_prefix_len(t) implies #[trigger] t[m] != 0 by {
            if m > 0 {
                assert(t[m] == u[m - 1]);
            }
        }
        if nonzero_prefix_len(t) < t.len() {
            assert(t[nonzero_prefix_len(t) as int] == u[nonzero_prefix_len(u) as int]);
        }
    }
}

/// How the head of a zero-separated upload divides: where it holds a zero
/// byte, the name is everything before the first zero (and holds no zero),
/// and the content is everything after it; where it holds none, the name is
/// the whole head and so is the content.
pub proof fn lemma_upload_head_split(head: Seq<u8>)
    ensures
        (exists|k: int| 0 <= k < head.len() && head[k] == 0) ==> {
            let name = upload_head_parts(head).0;
            let content = upload_head_parts(head).1;
            &&& name.len() < head.len()
            &&& head[name.len() as int] == 0
            &&& forall|m: int| 0 <= m < name.len() ==> #[trigger] name[m] != 0
            &&& head == name + seq![0u8] + content
        },
        (forall|k: int| 0 <= k < head.len() ==> head[k] != 0) ==> upload_head_parts(head) == (
            head,
            head,
        ),
{
    lemma_nonzero_prefix_shape(head);
    let k = nonzero_prefix_len(head);
    if k < head.len() {
        let name = head.take(k as int);
        let content = head.skip(k + 1 as int);
        assert forall|m: int| 0 <= m < name.len() implies #[trigger] name[m] != 0 by {
            assert(name[m] == head[m]);
        }
        assert(head =~= name + seq![0u8] + content);
    } else {
        if exists|j: int| 0 <= j < head.len() && head[j] == 0 {
            let j = choose|j: int| 0 <= j < head.len() && head[j] == 0;
            assert(head[j] != 0);
        }
    }
}

/// How the server answers a read of a command byte: nothing received closes
/// the connection, a failed read is rejected, the bytes of the four requests
/// are served as those requests, and any other byte closes the connection.
pub proof fn lemma_connection_answers(n: usize, byte: u8)
    ensures
        connection_step(ReadEvent::Received(0), byte) == ConnectionAction::Close,
        connection_step(ReadEvent::Failed, byte) == ConnectionAction::Reject,
        n > 0 && byte == 0 ==> connection_step(ReadEvent::Received(n), byte) == ConnectionAction::Serve(Commands::List),
        n > 0 && byte == 1 ==> connection_step(ReadEvent::Received(n), byte) == ConnectionAction::Serve(Commands::Upload),
        n > 0 && byte == 2 ==> connection_step(ReadEvent::Received(n), byte) == ConnectionAction::Serve(Commands::Delete),
        n > 0 && byte == 3 ==> connection_step(ReadEvent::Received(n), byte) == ConnectionAction::Serve(Commands::Download),
        n > 0 && byte > 3 ==> connection_step(ReadEvent::Received(n), byte) == ConnectionAction::CloseUnknown,
{
}

} // verus!
