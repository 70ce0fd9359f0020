//! The subset of the Redis protocol (RESP) that a node answers: CLIENT
//! set-up, PING, ECHO, SET, GET and FLUSHALL.

use vstd::prelude::*;
use vstd::utf8::encode_utf8;
use crate::messages::{chars_bytes, text_bytes};
use crate::store::Database;
use crate::text::{
    blank, chars_of, decimal, keep_non_blank, non_blank, push_chars, push_decimal, push_str,
    same_text, split, split_text, string_of, texts,
};

verus! {

broadcast use vstd::string::group_string_axioms;

/// What the first pass makes of one `*4` chunk of a message.
#[derive(Clone, Copy, Debug, PartialEq, Eq)]
pub enum ChunkKind {
    /// The second non-blank line is `CLIENT`: the node answers `+OK`.
    Client,
    /// Some other command: nothing to do in the first pass.
    Other,
    /// Fewer than two non-blank lines: the node gives up on the connection.
    Malformed,
}

/// The chunks of a message between the occurrences of `*4`, blank ones left
/// out.
pub open spec fn resp_chunks(t: Seq<char>) -> Seq<Seq<char>> {
    non_blank(split_text(t, "*4"@))
}

/// What the first pass makes of a chunk.
pub open spec fn chunk_kind(c: Seq<char>) -> ChunkKind {
    let lines = non_blank(split_text(c, "\r\n"@));
    if lines.len() < 2 {
        ChunkKind::Malformed
    } else if lines[1] == "CLIENT"@ {
        ChunkKind::Client
    } else {
        ChunkKind::Other
    }
}

/// The first pass over a message: the kind of each non-blank `*4` chunk, in
/// order.
pub fn scan_chunks(input: &str) -> (kinds: Vec<ChunkKind>)
    ensures
        kinds@ == resp_chunks(input@).map_values(|c: Seq<char>| chunk_kind(c)),
{
    proof {
        reveal_strlit("*4");
        reveal_strlit("\r\n");
    }
    let t = chars_of(input);
    let star4 = chars_of("*4");
    let crlf = chars_of("\r\n");
    let client = chars_of("CLIENT");
    let chunks = keep_non_blank(&split(&t, &star4));
    let ghost cv = texts(chunks@);
    let mut kinds: Vec<ChunkKind> = Vec::new();
    for i in 0..chunks.len()
        invariant
            cv == texts(chunks@),
            crlf@ == "\r\n"@,
            crlf@.len() > 0,
            client@ == "CLIENT"@,
            kinds@ == cv.take(i as int).map_values(|c: Seq<char>| chunk_kind(c)),
    {
        let lines = keep_non_blank(&split(&chunks[i], &crlf));
        assert(cv[i as int] == chunks@[i as int]@);
        let kind = if lines.len() < 2 {
            ChunkKind::Malformed
        } else {
            assert(texts(lines@)[1] == lines@[1]@);
            if same_text(&lines[1], &client) {
                ChunkKind::Client
            } else {
                ChunkKind::Other
            }
        };
        kinds.push(kind);
        assert(cv.take(i + 1) =~= cv.take(i as int).push(cv[i as int]));
        assert(kinds@ =~= cv.take(i + 1).map_values(|c: Seq<char>| chunk_kind(c)));
    }
    assert(cv.take(chunks@.len() as int) =~= cv);
    kinds
}

/// The answer to a CLIENT chunk.
pub fn client_ack() -> (b: Vec<u8>)
    ensures
        b@ == encode_utf8("+OK\r\n"@),
{
    text_bytes("+OK\r\n")
}

/// The upper-case form of a text, as `str::to_uppercase` gives it.
pub uninterp spec fn upper_text(s: Seq<char>) -> Seq<char>;

/// Text of ASCII characters alone.
pub open spec fn ascii_text(s: Seq<char>) -> bool {
    forall|i: int| 0 <= i < s.len() ==> (#[trigger] s[i] as int) < 128
}

/// The upper case of an ASCII character: `a` to `z` become `A` to `Z`, any
/// other character stays.
pub open spec fn ascii_upper(c: char) -> char {
    if 'a' <= c <= 'z' {
        ((c as int) - 32) as char
    } else {
        c
    }
}

/// The upper case of an ASCII text, character by character.
pub open spec fn ascii_upper_text(s: Seq<char>) -> Seq<char> {
    s.map_values(|c: char| ascii_upper(c))
}

/// `str::to_uppercase` (Unicode upper case); the contract names the result
/// `upper_text(s)`, and states it for ASCII text: `a` to `z` become `A` to
/// `Z` and every other ASCII character stays (the Unicode case mapping of
/// ASCII, as `char::to_ascii_uppercase` documents it). What it does to other
/// characters is left unsaid.
#[verifier::external_body]
pub(crate) fn to_upper(s: &str) -> (r: String)
    ensures
        r@ == upper_text(s@),
        ascii_text(s@) ==> r@ == ascii_upper_text(s@),
{
    s.to_uppercase()
}

/// A Redis command, as a node reads it.
pub enum RespMsg {
    /// CLIENT, SETINFO, LIB-VER or LIB-NAME.
    AckSetup,
    Ping,
    Echo { text: Seq<char> },
    SetValue { key: Seq<char>, value: Seq<char> },
    Get { key: Seq<char> },
    FlushAll,
    /// The command lacks an argument; `command` is its lower-case name.
    WrongArity { command: Seq<char> },
    Unknown,
}

/// A Redis command read from a message.
pub enum RespRequest {
    AckSetup,
    Ping,
    Echo { text: String },
    SetValue { key: String, value: String },
    Get { key: String },
    FlushAll,
    WrongArity { command: String },
    Unknown,
}

impl View for RespRequest {
    type V = RespMsg;

    open spec fn view(&self) -> RespMsg {
        match self {
            RespRequest::AckSetup => RespMsg::AckSetup,
            RespRequest::Ping => RespMsg::Ping,
            RespRequest::Echo { text } => RespMsg::Echo { text: text@ },
            RespRequest::SetValue { key, value } => RespMsg::SetValue { key: key@, value: value@ },
            RespRequest::Get { key } => RespMsg::Get { key: key@ },
            RespRequest::FlushAll => RespMsg::FlushAll,
            RespRequest::WrongArity { command } => RespMsg::WrongArity { command: command@ },
            RespRequest::Unknown => RespMsg::Unknown,
        }
    }
}

/// The command that the lines of a message ask for, `command` being the
/// upper-case form of the third line.
pub open spec fn resp_msg(lines: Seq<Seq<char>>, command: Seq<char>) -> RespMsg {
    if command == "CLIENT"@ || command == "SETINFO"@ || command == "LIB-VER"@ || command
        == "LIB-NAME"@ {
        RespMsg::AckSetup
    } else if command == "PING"@ {
        RespMsg::Ping
    } else if command == "ECHO"@ {
        if lines.len() >= 5 {
            RespMsg::Echo { text: lines[4] }
        } else {
            RespMsg::WrongArity { command: "echo"@ }
        }
    } else if command == "SET"@ {
        if lines.len() >= 7 {
            RespMsg::SetValue { key: lines[4], value: lines[6] }
        } else {
            RespMsg::WrongArity { command: "set"@ }
        }
    } else if command == "GET"@ {
        if lines.len() >= 5 {
            RespMsg::Get { key: lines[4] }
        } else {
            RespMsg::WrongArity { command: "get"@ }
        }
    } else if command == "FLUSHALL"@ {
        RespMsg::FlushAll
    } else {
        RespMsg::Unknown
    }
}

/// The command that `lines` ask for, `command` being the upper-case form of
/// the third line.
pub fn resp_request(lines: &Vec<Vec<char>>, command: &str) -> (r: RespRequest)
    ensures
        r@ == resp_msg(texts(lines@), command@),
{
    let c = chars_of(command);
    if same_text(&c, &chars_of("CLIENT")) || same_text(&c, &chars_of("SETINFO")) || same_text(
        &c,
        &chars_of("LIB-VER"),
    ) || same_text(&c, &chars_of("LIB-NAME")) {
        RespRequest::AckSetup
    } else if same_text(&c, &chars_of("PING")) {
        RespRequest::Ping
    } else if same_text(&c, &chars_of("ECHO")) {
        if lines.len() >= 5 {
            assert(texts(lines@)[4] == lines@[4]@);
            RespRequest::Echo { text: string_of(&lines[4]) }
        } else {
            RespRequest::WrongArity { command: string_of(&chars_of("echo")) }
        }
    } else if same_text(&c, &chars_of("SET")) {
        if lines.len() >= 7 {
            assert(texts(lines@)[4] == lines@[4]@);
            assert(texts(lines@)[6] == lines@[6]@);
            RespRequest::SetValue { key: string_of(&lines[4]), value: string_of(&lines[6]) }
        } else {
            RespRequest::WrongArity { command: string_of(&chars_of("set")) }
        }
    } else if same_text(&c, &chars_of("GET")) {
        if lines.len() >= 5 {
            assert(texts(lines@)[4] == lines@[4]@);
            RespRequest::Get { key: string_of(&lines[4]) }
        } else {
            RespRequest::WrongArity { command: string_of(&chars_of("get")) }
        }
    } else if same_text(&c, &chars_of("FLUSHALL")) {
        RespRequest::FlushAll
    } else {
        RespRequest::Unknown
    }
}

/// The lines of a message between the occurrences of `\r\n`.
pub open spec fn resp_lines(t: Seq<char>) -> Seq<Seq<char>> {
    split_text(t, "\r\n"@)
}

/// The Redis command `SET key value` as a client sends it, the command word
/// written `command` (`SET`, `set`, ...): an array of three bulk strings,
/// each announced by its length in bytes.
pub open spec fn set_request_text(command: Seq<char>, key: Seq<char>, value: Seq<char>) -> Seq<
    char,
> {
    "*3\r\n$3\r\n"@ + command + "\r\n$"@ + decimal(encode_utf8(key).len()) + "\r\n"@ + key
        + "\r\n$"@ + decimal(encode_utf8(value).len()) + "\r\n"@ + value + "\r\n"@
}

/// The second pass over a message: `None` where it has fewer than three
/// lines (the node then waits for the next message), the command otherwise.
pub fn read_resp(input: &str) -> (r: Option<RespRequest>)
    ensures
        match r {
            Some(q) => {
                &&& resp_lines(input@).len() >= 3
                &&& q@ == resp_msg(resp_lines(input@), upper_text(resp_lines(input@)[2]))
            },
            None => resp_lines(input@).len() < 3,
        },
        r matches Some(q) ==> (ascii_text(resp_lines(input@)[2]) ==> q@ == resp_msg(
            resp_lines(input@),
            ascii_upper_text(resp_lines(input@)[2]),
        )),
{
    proof {
        reveal_strlit("\r\n");
    }
    let t = chars_of(input);
    let lines = split(&t, &chars_of("\r\n"));
    if lines.len() < 3 {
        return None;
    }
    assert(texts(lines@)[2] == lines@[2]@);
    let third = string_of(&lines[2]);
    let command = to_upper(third.as_str());
    Some(resp_request(&lines, command.as_str()))
}

/// What a node asks of its peers after a Redis command.
pub enum Broadcast {
    Nothing,
    Add { key: String, value: String },
    FlushAll,
}

/// The answer to a Redis command and what the peers are to be told.
pub struct RespReply {
    pub bytes: Vec<u8>,
    pub broadcast: Broadcast,
}

/// `$<byte length>\r\n<value>\r\n`.
pub open spec fn bulk_text(v: Seq<char>) -> Seq<char> {
    "$"@ + decimal((encode_utf8(v).len() as usize) as nat) + "\r\n"@ + v + "\r\n"@
}

/// The answer to a Redis command, given the database before it.
pub open spec fn resp_answer(msg: RespMsg, db: Map<Seq<char>, Seq<char>>) -> Seq<char> {
    match msg {
        RespMsg::AckSetup => "+OK\r\n+OK\r\n"@,
        RespMsg::Ping => "+PONG\r\n"@,
        RespMsg::Echo { text } => "+"@ + text + "\r\n"@,
        RespMsg::SetValue { key, value } => "+OK\r\n"@,
        RespMsg::Get { key } => if db.contains_key(key) {
            bulk_text(db[key])
        } else {
            "$-1\r\n"@
        },
        RespMsg::FlushAll => "+OK\r\n"@,
        RespMsg::WrongArity { command } => "-ERR wrong number of arguments for '"@ + command
            + "'\r\n"@,
        RespMsg::Unknown => "-ERR unknown command\r\n"@,
    }
}

/// The database after a Redis command.
pub open spec fn resp_database(msg: RespMsg, db: Map<Seq<char>, Seq<char>>) -> Map<
    Seq<char>,
    Seq<char>,
> {
    match msg {
        RespMsg::SetValue { key, value } => db.insert(key, value),
        RespMsg::FlushAll => Map::empty(),
        _ => db,
    }
}

/// Carries out a Redis command on the database.
pub fn execute_resp(req: RespRequest, db: &mut Database) -> (r: RespReply)
    requires
        old(db).wf(),
    ensures
        final(db).wf(),
        final(db)@ == resp_database(req@, old(db)@),
        r.bytes@ == encode_utf8(resp_answer(req@, old(db)@)),
        match req@ {
            RespMsg::SetValue { key, value } => r.broadcast matches Broadcast::Add { key: k, value: v }
                && k@ == key && v@ == value,
            RespMsg::FlushAll => r.broadcast is FlushAll,
            _ => r.broadcast is Nothing,
        },
{
    match req {
        RespRequest::AckSetup => RespReply {
            bytes: text_bytes("+OK\r\n+OK\r\n"),
            broadcast: Broadcast::Nothing,
        },
        RespRequest::Ping => RespReply { bytes: text_bytes("+PONG\r\n"), broadcast: Broadcast::Nothing },
        RespRequest::Echo { text } => {
            let mut out: Vec<char> = Vec::new();
            push_str(&mut out, "+");
            push_str(&mut out, text.as_str());
            push_str(&mut out, "\r\n");
            assert(out@ =~= "+"@ + text@ + "\r\n"@);
            RespReply { bytes: chars_bytes(&out), broadcast: Broadcast::Nothing }
        },
        RespRequest::SetValue { key, value } => {
            let k = string_of(&chars_of(key.as_str()));
            let v = string_of(&chars_of(value.as_str()));
            db.insert(key, value);
            RespReply { bytes: text_bytes("+OK\r\n"), broadcast: Broadcast::Add { key: k, value: v } }
        },
        RespRequest::Get { key } => match db.get(key.as_str()) {
            Some(v) => {
                let n = v.as_str().len();
                let mut out: Vec<char> = Vec::new();
                push_str(&mut out, "$");
                push_decimal(&mut out, n as u64);
                push_str(&mut out, "\r\n");
                push_str(&mut out, v.as_str());
                push_str(&mut out, "\r\n");
                assert(out@ =~= bulk_text(v@));
                RespReply { bytes: chars_bytes(&out), broadcast: Broadcast::Nothing }
            },
            None => RespReply { bytes: text_bytes("$-1\r\n"), broadcast: Broadcast::Nothing },
        },
        RespRequest::FlushAll => {
            db.clear();
            RespReply { bytes: text_bytes("+OK\r\n"), broadcast: Broadcast::FlushAll }
        },
        RespRequest::WrongArity { command } => {
            let mut out: Vec<char> = Vec::new();
            push_str(&mut out, "-ERR wrong number of arguments for '");
            push_str(&mut out, command.as_str());
            push_str(&mut out, "'\r\n");
            assert(out@ =~= "-ERR wrong number of arguments for '"@ + command@ + "'\r\n"@);
            RespReply { bytes: chars_bytes(&out), broadcast: Broadcast::Nothing }
        },
        RespRequest::Unknown => RespReply {
            bytes: text_bytes("-ERR unknown command\r\n"),
            broadcast: Broadcast::Nothing,
        },
    }
}

} // verus!
