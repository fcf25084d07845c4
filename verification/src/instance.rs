//! Single-instance protocol: the one-line requests that a second launch sends
//! to the running instance, and how the running instance reads them.
//!
//! A request is `QUIT\n`, `RAISE\n`, or `RAISE <token>\n`, where the token is
//! an activation token. The endpoint itself (an abstract Unix socket or a
//! named pipe) is opened by the caller; this module builds and reads bytes.

use vstd::prelude::*;
use vstd::utf8::{decode_utf8, encode_utf8, valid_utf8};
use crate::text::{
    chars_of, is_ws, lemma_encode_utf8_concat, lemma_first_index_of_at, contains_char, contains_char_from, find_char, first_index_of, has_char, push_chars,
    push_str, slice_equals, string_of, take_chars, trim_end, trim_end_len,
};

verus! {

broadcast use vstd::utf8::encode_utf8_decode_utf8;

/// Largest request, in bytes, that the running instance reads.
pub const MAX_COMMAND_SIZE: usize = 4096;

/// Command received on the single-instance endpoint.
#[derive(Debug, Clone, PartialEq, Eq)]
pub enum InstanceCommand {
    /// Show the window again, with the activation token of the launch if it sent one.
    Raise(Option<String>),
    /// Leave.
    Quit,
}

/// The mathematical value of an [`InstanceCommand`].
pub ghost enum CommandView {
    Raise(Option<Seq<char>>),
    Quit,
}

pub open spec fn opt_str_view(t: Option<&str>) -> Option<Seq<char>> {
    match t {
        Some(s) => Some(s@),
        None => None,
    }
}

pub open spec fn opt_string_view(t: Option<String>) -> Option<Seq<char>> {
    match t {
        Some(s) => Some(s@),
        None => None,
    }
}

impl View for InstanceCommand {
    type V = CommandView;

    open spec fn view(&self) -> CommandView {
        match self {
            InstanceCommand::Raise(t) => CommandView::Raise(opt_string_view(*t)),
            InstanceCommand::Quit => CommandView::Quit,
        }
    }
}

pub open spec fn quit_word() -> Seq<char> {
    seq!['Q', 'U', 'I', 'T']
}

pub open spec fn raise_word() -> Seq<char> {
    seq!['R', 'A', 'I', 'S', 'E']
}

/// `RAISE` followed by one space: what precedes a token.
pub open spec fn raise_prefix() -> Seq<char> {
    raise_word().push(' ')
}

/// A token that may travel in a request: not empty, without NUL, space or
/// line feed, and under 4000 bytes of UTF-8.
pub open spec fn sendable_token(t: Seq<char>) -> bool {
    &&& t.len() > 0
    &&& !has_char(t, '\0')
    &&& !has_char(t, ' ')
    &&& !has_char(t, '\n')
    &&& encode_utf8(t).len() < 4000
}

/// The request line that raises the running instance. A token that may not
/// travel is dropped, and a plain `RAISE` is sent.
pub open spec fn raise_line(token: Option<Seq<char>>) -> Seq<char> {
    match token {
        Some(t) if sendable_token(t) => raise_prefix() + t + seq!['\n'],
        _ => raise_word().push('\n'),
    }
}

/// The request line that makes the running instance leave.
pub open spec fn quit_line() -> Seq<char> {
    quit_word().push('\n')
}

/// The command that a request line (without its line feed, and without
/// trailing white space) stands for.
pub open spec fn command_of_line(line: Seq<char>) -> Option<CommandView> {
    if has_char(line, '\0') {
        None
    } else if line == quit_word() {
        Some(CommandView::Quit)
    } else if line == raise_word() {
        Some(CommandView::Raise(None))
    } else if line.len() > raise_prefix().len() && line.take(6) == raise_prefix()
        && !has_char(line.skip(6), ' ') {
        Some(CommandView::Raise(Some(line.skip(6))))
    } else {
        None
    }
}

/// The first line of a text: what precedes its first line feed, or all of it.
pub open spec fn first_line(text: Seq<char>) -> Seq<char> {
    match first_index_of(text, '\n') {
        Some(k) => text.take(k as int),
        None => text,
    }
}

/// What the running instance makes of the bytes that one connection sent at
/// once: nothing for an empty or oversized read or for text that is not
/// UTF-8; otherwise the command of its first line, trailing white space removed.
pub open spec fn decode_request(bytes: Seq<u8>) -> Option<CommandView> {
    if bytes.len() == 0 || bytes.len() >= MAX_COMMAND_SIZE || !valid_utf8(bytes) {
        None
    } else {
        command_of_line(trim_end(first_line(decode_utf8(bytes))))
    }
}

/// Parses UTF-8 (`std::str::from_utf8`). The standard library documents that
/// it succeeds exactly on valid UTF-8 and that the text then has those bytes.
#[verifier::external_body]
fn utf8_text(bytes: &[u8]) -> (r: Option<String>)
    ensures
        r is Some <==> valid_utf8(bytes@),
        r matches Some(s) ==> encode_utf8(s@) == bytes@,
{
    match std::str::from_utf8(bytes) {
        Ok(s) => Some(s.to_string()),
        Err(_) => None,
    }
}

/// The bytes of a string.
fn string_bytes(s: &String) -> (r: Vec<u8>)
    ensures
        r@ == encode_utf8(s@),
{
    vstd::slice::slice_to_vec(s.as_str().as_bytes())
}

/// The request that asks the running instance to show its window again,
/// carrying `token` where it may travel.
pub fn raise_instance(token: Option<&str>) -> (r: Vec<u8>)
    ensures
        r@ == encode_utf8(raise_line(opt_str_view(token))),
{
    let mut line = String::new();
    match token {
        Some(t) => {
            let cs = chars_of(t);
            let sendable = cs.len() > 0 && !contains_char(&cs, '\0') && !contains_char(&cs, ' ')
                && !contains_char(&cs, '\n') && t.as_bytes().len() < 4000;
            if sendable {
                assert(sendable_token(t@));
                push_chars(&mut line, &['R', 'A', 'I', 'S', 'E', ' ']);
                assert(line@ =~= raise_prefix());
                push_str(&mut line, t);
                push_chars(&mut line, &['\n']);
                assert(line@ =~= raise_line(opt_str_view(token)));
                return string_bytes(&line);
            }
        },
        None => {},
    }
    push_chars(&mut line, &['R', 'A', 'I', 'S', 'E', '\n']);
    assert(line@ =~= raise_line(opt_str_view(token)));
    string_bytes(&line)
}

/// The request that asks the running instance to leave.
pub fn terminate_instance() -> (r: Vec<u8>)
    ensures
        r@ == encode_utf8(quit_line()),
{
    let mut line = String::new();
    push_chars(&mut line, &['Q', 'U', 'I', 'T', '\n']);
    assert(line@ =~= quit_line());
    string_bytes(&line)
}

/// The command of one request line.
pub fn parse_command_line(line: &Vec<char>) -> (r: Option<InstanceCommand>)
    ensures
        match r {
            Some(c) => command_of_line(line@) == Some(c@),
            None => command_of_line(line@) is None,
        },
{
    let n = line.len();
    assert(raise_prefix() =~= seq!['R', 'A', 'I', 'S', 'E', ' ']);
    if contains_char(line, '\0') {
        return None;
    }
    if slice_equals(line, 0, n, &['Q', 'U', 'I', 'T']) {
        assert(line@.subrange(0, n as int) =~= line@);
        return Some(InstanceCommand::Quit);
    }
    assert(line@.subrange(0, n as int) =~= line@);
    if slice_equals(line, 0, n, &['R', 'A', 'I', 'S', 'E']) {
        return Some(InstanceCommand::Raise(None));
    }
    if n > 6 && slice_equals(line, 0, 6, &['R', 'A', 'I', 'S', 'E', ' ']) {
        assert(line@.subrange(0, 6) =~= line@.take(6));
        assert(line@ != quit_word() && line@ != raise_word());
        if contains_char_from(line, 6, ' ') {
            return None;
        }
        let rest = string_of(line, 6, n);
        assert(rest@ =~= line@.skip(6));
        return Some(InstanceCommand::Raise(Some(rest)));
    }
    proof {
        if n > 6 {
            assert(line@.subrange(0, 6) =~= line@.take(6));
        }
    }
    None
}

/// The command of the first line of `text`, trailing white space removed.
fn first_line_command(text: &Vec<char>) -> (r: Option<InstanceCommand>)
    ensures
        match r {
            Some(c) => command_of_line(trim_end(first_line(text@))) == Some(c@),
            None => command_of_line(trim_end(first_line(text@))) is None,
        },
{
    proof {
        crate::text::lemma_first_index_of(text@, '\n');
    }
    let end = match find_char(text, '\n') {
        Some(k) => k,
        None => text.len(),
    };
    let head = take_chars(text, end);
    assert(head@ =~= first_line(text@)) by {
        if first_index_of(text@, '\n') is None {
            assert(text@.take(text@.len() as int) =~= text@);
        }
    }
    let hi = trim_end_len(&head);
    let line = take_chars(&head, hi);
    assert(line@ =~= head@.subrange(0, hi as int));
    parse_command_line(&line)
}

/// Reads the bytes that one connection sent at once.
pub fn decode_command(bytes: &[u8]) -> (r: Option<InstanceCommand>)
    ensures
        match r {
            Some(c) => decode_request(bytes@) == Some(c@),
            None => decode_request(bytes@) is None,
        },
{
    let n = bytes.len();
    if n == 0 || n >= MAX_COMMAND_SIZE {
        return None;
    }
    let text = match utf8_text(bytes) {
        Some(s) => s,
        None => return None,
    };
    assert(decode_utf8(bytes@) == text@);
    let cs = chars_of(text.as_str());
    first_line_command(&cs)
}

/// The token that a command carries if it asks for the window: `Some(token)`
/// for a raise, `None` for anything else.
pub fn raise_token(command: Option<InstanceCommand>) -> (r: Option<Option<String>>)
    ensures
        match command {
            Some(InstanceCommand::Raise(t)) => r == Some(t),
            _ => r is None,
        },
{
    match command {
        Some(InstanceCommand::Raise(token)) => Some(token),
        _ => None,
    }
}

/// What a listener that collects a request over several reads does with the
/// bytes collected so far.
#[derive(Debug, Clone, PartialEq, Eq)]
pub enum PendingOutcome {
    /// No full line yet and room for more: keep reading.
    Incomplete,
    /// A line that is no request, or no line within the size limit: drop the
    /// connection and its bytes.
    Rejected,
    /// A request: act on it, then drop the connection and its bytes.
    Accepted(InstanceCommand),
}

/// Whether the first line feed of `p` is at `k`.
pub open spec fn first_newline_at(p: Seq<u8>, k: int) -> bool {
    0 <= k < p.len() && p[k] == 10u8 && forall|j: int| 0 <= j < k ==> p[j] != 10u8
}

/// The outcome for the collected bytes `p`, as the command of the UTF-8 line
/// before the first line feed, if any.
pub open spec fn pending_outcome(p: Seq<u8>) -> Option<Option<CommandView>> {
    if exists|k: int| first_newline_at(p, k) {
        let k = choose|k: int| first_newline_at(p, k);
        if valid_utf8(p.take(k)) {
            Some(command_of_line(trim_end(decode_utf8(p.take(k)))))
        } else {
            Some(None)
        }
    } else if p.len() >= MAX_COMMAND_SIZE {
        Some(None)
    } else {
        None
    }
}

/// Decides on the bytes collected so far: `Incomplete` where
/// `pending_outcome` is `None`, `Rejected` where it is `Some(None)`, and the
/// command where it is `Some(Some(c))`.
pub fn take_pending_command(pending: &[u8]) -> (r: PendingOutcome)
    ensures
        match r {
            PendingOutcome::Incomplete => pending_outcome(pending@) is None,
            PendingOutcome::Rejected => pending_outcome(pending@) == Some(None::<CommandView>),
            PendingOutcome::Accepted(c) => pending_outcome(pending@) == Some(Some(c@)),
        },
{
    let n = pending.len();
    let mut i: usize = 0;
    while i < n
        invariant
            n == pending@.len(),
            i <= n,
            forall|j: int| 0 <= j < i ==> pending@[j] != 10u8,
        decreases n - i,
    {
        if pending[i] == 10u8 {
            assert(first_newline_at(pending@, i as int));
            assert forall|k: int| first_newline_at(pending@, k) implies k == i by {
                if k < i {
                    assert(pending@[k] != 10u8);
                } else if k > i {
                    assert(pending@[i as int] != 10u8);
                }
            }
            let line_bytes = vstd::slice::slice_subrange(pending, 0, i);
            assert(line_bytes@ =~= pending@.take(i as int));
            return match utf8_text(line_bytes) {
                Some(text) => {
                    assert(decode_utf8(line_bytes@) == text@);
                    let cs = chars_of(text.as_str());
                    let hi = trim_end_len(&cs);
                    let line = take_chars(&cs, hi);
                    assert(line@ =~= cs@.subrange(0, hi as int));
                    match parse_command_line(&line) {
                        Some(c) => PendingOutcome::Accepted(c),
                        None => PendingOutcome::Rejected,
                    }
                },
                None => PendingOutcome::Rejected,
            };
        }
        i = i + 1;
    }
    assert(!exists|k: int| first_newline_at(pending@, k));
    if n >= MAX_COMMAND_SIZE {
        PendingOutcome::Rejected
    } else {
        PendingOutcome::Incomplete
    }
}

/// How many bytes the next read may take: what the size limit leaves of the
/// room after the `pending_len` bytes already held, and no more than are
/// `available`.
pub fn pipe_read_budget(pending_len: usize, available: u32) -> (r: u32)
    ensures
        pending_len >= MAX_COMMAND_SIZE ==> r == 0,
        pending_len < MAX_COMMAND_SIZE ==> r as int == if (available as int) < MAX_COMMAND_SIZE - pending_len {
            available as int
        } else {
            MAX_COMMAND_SIZE - pending_len
        },
{
    let remaining = MAX_COMMAND_SIZE.saturating_sub(pending_len);
    if (available as usize) < remaining {
        available
    } else {
        remaining as u32
    }
}

/// The endpoint of an instance for a user: the user's name, `-`, and the
/// instance's name, so that each user has instances of their own.
pub fn endpoint_name(user: &str, name: &str) -> (r: String)
    ensures
        r@ == user@ + seq!['-'] + name@,
{
    let mut s = String::new();
    push_str(&mut s, user);
    push_chars(&mut s, &['-']);
    push_str(&mut s, name);
    assert(s@ =~= user@ + seq!['-'] + name@);
    s
}

/// The UTF-16 code units of a character.
pub open spec fn utf16_of(c: char) -> Seq<u16> {
    let v = c as u32;
    if v < 0x10000 {
        seq![v as u16]
    } else {
        seq![(0xD800 + (v - 0x10000) / 0x400) as u16, (0xDC00 + (v - 0x10000) % 0x400) as u16]
    }
}

/// The UTF-16 encoding of a text (`str::encode_utf16`).
pub open spec fn utf16(s: Seq<char>) -> Seq<u16>
    decreases s.len(),
{
    if s.len() == 0 {
        Seq::empty()
    } else {
        utf16(s.drop_last()) + utf16_of(s.last())
    }
}

/// A text as the Windows API takes it: UTF-16 and a terminating zero.
pub fn wide(value: &str) -> (r: Vec<u16>)
    ensures
        r@ == utf16(value@).push(0u16),
{
    let cs = chars_of(value);
    let mut out: Vec<u16> = Vec::new();
    let mut i: usize = 0;
    while i < cs.len()
        invariant
            i <= cs@.len(),
            out@ == utf16(cs@.take(i as int)),
        decreases cs@.len() - i,
    {
        let c = cs[i];
        let v = c as u32;
        proof {
            assert(cs@.take(i + 1).drop_last() =~= cs@.take(i as int));
            vstd::utf8::char_is_scalar(c);
        }
        if v < 0x10000 {
            out.push(v as u16);
        } else {
            assert(v <= 0x10FFFF);
            let w = v - 0x10000;
            out.push((0xD800 + w / 0x400) as u16);
            out.push((0xDC00 + w % 0x400) as u16);
        }
        assert(out@ =~= utf16(cs@.take(i + 1)));
        i = i + 1;
    }
    assert(cs@.take(cs@.len() as int) =~= cs@);
    out.push(0);
    out
}

/// The named pipe of an endpoint: `\\.\pipe\xtools-` and the endpoint.
pub open spec fn pipe_path(endpoint: Seq<char>) -> Seq<char> {
    seq!['\\', '\\', '.', '\\', 'p', 'i', 'p', 'e', '\\', 'x', 't', 'o', 'o', 'l', 's', '-'] + endpoint
}

/// The named pipe of an endpoint, as the Windows API takes it.
pub fn pipe_name(endpoint: &str) -> (r: Vec<u16>)
    ensures
        r@ == utf16(pipe_path(endpoint@)).push(0u16),
{
    let mut s = String::new();
    push_chars(&mut s, &['\\', '\\', '.', '\\', 'p', 'i', 'p', 'e', '\\', 'x', 't', 'o', 'o', 'l', 's', '-']);
    push_str(&mut s, endpoint);
    assert(s@ =~= pipe_path(endpoint@));
    wide(s.as_str())
}

/// `ERROR_BROKEN_PIPE`: the client closed its end.
pub const ERROR_BROKEN_PIPE: u32 = 109;

/// `ERROR_NO_DATA`: the pipe is being closed.
pub const ERROR_NO_DATA: u32 = 232;

/// `ERROR_PIPE_NOT_CONNECTED`: no client is connected.
pub const ERROR_PIPE_NOT_CONNECTED: u32 = 233;

/// `ERROR_PIPE_CONNECTED`: a client connected before the listener asked.
pub const ERROR_PIPE_CONNECTED: u32 = 535;

/// The running instance's side of a non-blocking named pipe: whether a
/// client is connected, and the bytes it has sent so far.
pub struct PipeInbox {
    pub connected: bool,
    pub pending: Vec<u8>,
}

/// What to do after looking into the pipe.
#[derive(Debug, Clone, Copy, PartialEq, Eq, Structural)]
pub enum PeekStep {
    /// Read up to this many bytes.
    Read(u32),
    /// The client went away with nothing sent: disconnect, and report nothing.
    Disconnect,
    /// Go on to the collected bytes.
    Carry,
}

/// What the collected bytes come to.
#[derive(Debug, Clone, PartialEq, Eq)]
pub enum InboxStep {
    /// Act on this command, then disconnect.
    Command(InstanceCommand),
    /// Disconnect, and report nothing.
    Disconnect,
    /// Wait for more bytes.
    Wait,
}

impl PipeInbox {
    /// No client yet.
    pub fn new() -> (r: PipeInbox)
        ensures
            !r.connected && r.pending@.len() == 0,
    {
        PipeInbox { connected: false, pending: Vec::new() }
    }

    /// After `ConnectNamedPipe`, which the listener calls while no client
    /// is connected: a client is connected when the call succeeded, or
    /// failed because the client came first or is already leaving.
    pub fn connect_result(&mut self, ok: bool, code: u32)
        ensures
            final(self).connected == (old(self).connected || ok || code == ERROR_PIPE_CONNECTED || code == ERROR_NO_DATA),
            final(self).pending == old(self).pending,
    {
        if ok || code == ERROR_PIPE_CONNECTED || code == ERROR_NO_DATA {
            self.connected = true;
        }
    }

    /// After `PeekNamedPipe`: read what is there, within the size limit; or,
    /// where a connected client went away before sending anything, drop the
    /// connection; else go on.
    pub fn peek_result(&mut self, ok: bool, available: u32, code: u32) -> (r: PeekStep)
        ensures
            ok && available > 0 ==> final(self).connected && final(self).pending == old(self).pending && r
                == PeekStep::Read(
                if (available as int) < MAX_COMMAND_SIZE - old(self).pending@.len() {
                    available as int
                } else if old(self).pending@.len() < MAX_COMMAND_SIZE {
                    MAX_COMMAND_SIZE - old(self).pending@.len()
                } else {
                    0
                } as u32,
            ),
            !ok && old(self).connected && old(self).pending@.len() == 0 && (code == ERROR_BROKEN_PIPE || code
                == ERROR_PIPE_NOT_CONNECTED || code == ERROR_NO_DATA) ==> r == PeekStep::Disconnect
                && !final(self).connected && final(self).pending@.len() == 0,
            !(ok && available > 0) && !(!ok && old(self).connected && old(self).pending@.len() == 0 && (code
                == ERROR_BROKEN_PIPE || code == ERROR_PIPE_NOT_CONNECTED || code == ERROR_NO_DATA)) ==> r
                == PeekStep::Carry && final(self).connected == old(self).connected && final(self).pending
                == old(self).pending,
    {
        if ok && available > 0 {
            self.connected = true;
            return PeekStep::Read(pipe_read_budget(self.pending.len(), available));
        }
        if !ok && self.connected && self.pending.len() == 0 && (code == ERROR_BROKEN_PIPE || code
            == ERROR_PIPE_NOT_CONNECTED || code == ERROR_NO_DATA) {
            self.connected = false;
            return PeekStep::Disconnect;
        }
        PeekStep::Carry
    }

    /// The bytes a read returned join those collected.
    pub fn received(&mut self, bytes: &[u8])
        ensures
            final(self).pending@ == old(self).pending@ + bytes@,
            final(self).connected == old(self).connected,
    {
        let mut i: usize = 0;
        let ghost start = self.pending@;
        while i < bytes.len()
            invariant
                i <= bytes@.len(),
                self.pending@ == start + bytes@.take(i as int),
                self.connected == old(self).connected,
            decreases bytes@.len() - i,
        {
            self.pending.push(bytes[i]);
            proof {
                assert(bytes@.take(i + 1) =~= bytes@.take(i as int).push(bytes@[i as int]));
            }
            i = i + 1;
        }
        assert(bytes@.take(bytes@.len() as int) =~= bytes@);
    }

    /// The collected bytes' outcome (see [`take_pending_command`]). A
    /// command or a refusal ends the connection, and the bytes are dropped.
    pub fn take_command(&mut self) -> (r: InboxStep)
        ensures
            match pending_outcome(old(self).pending@) {
                None => r == InboxStep::Wait && final(self).connected == old(self).connected && final(self).pending
                    == old(self).pending,
                Some(None) => r == InboxStep::Disconnect && !final(self).connected && final(self).pending@.len()
                    == 0,
                Some(Some(c)) => (r matches InboxStep::Command(k) && k@ == c) && !final(self).connected
                    && final(self).pending@.len() == 0,
            },
    {
        match take_pending_command(self.pending.as_slice()) {
            PendingOutcome::Incomplete => InboxStep::Wait,
            PendingOutcome::Rejected => {
                self.connected = false;
                self.pending = Vec::new();
                InboxStep::Disconnect
            },
            PendingOutcome::Accepted(c) => {
                self.connected = false;
                self.pending = Vec::new();
                InboxStep::Command(c)
            },
        }
    }
}

/// `ERROR_FILE_NOT_FOUND`: no pipe of that name.
pub const ERROR_FILE_NOT_FOUND: u32 = 2;

/// `ERROR_ACCESS_DENIED`.
pub const ERROR_ACCESS_DENIED: u32 = 5;

/// `ERROR_PIPE_BUSY`: every instance of the pipe is in use.
pub const ERROR_PIPE_BUSY: u32 = 231;

/// Whether a failure to open a named pipe means that no instance can be
/// reached (the request is then simply not delivered), rather than an
/// error to report.
pub fn pipe_unreachable(code: u32) -> (r: bool)
    ensures
        r == (code == ERROR_PIPE_BUSY || code == ERROR_ACCESS_DENIED || code == ERROR_FILE_NOT_FOUND || code
            == ERROR_BROKEN_PIPE),
{
    code == ERROR_PIPE_BUSY || code == ERROR_ACCESS_DENIED || code == ERROR_FILE_NOT_FOUND || code == ERROR_BROKEN_PIPE
}

/// Characters below 0x80 take one byte each in UTF-8.
proof fn lemma_ascii_encode_len(s: Seq<char>)
    requires
        forall|i: int| 0 <= i < s.len() ==> (s[i] as u32) < 0x80,
    ensures
        encode_utf8(s).len() == s.len(),
    decreases s.len(),
{
    if s.len() > 0 {
        assert(s.drop_first().len() == s.len() - 1);
        assert forall|i: int| 0 <= i < s.drop_first().len() implies (s.drop_first()[i] as u32) < 0x80 by {
            assert(s.drop_first()[i] == s[i + 1]);
        }
        lemma_ascii_encode_len(s.drop_first());
    }
}

/// A line ending in something other than white space keeps its end.
proof fn lemma_trim_end_keeps(s: Seq<char>)
    requires
        s.len() > 0,
        !is_ws(s.last()),
    ensures
        trim_end(s) == s,
{
    assert(s.subrange(0, s.len() as int) =~= s);
}

/// The line `body` + line feed, written and then read, gives back the command
/// of `body`, when `body` holds no line feed, does not end in white space, and
/// fits a request.
proof fn lemma_line_round_trip(body: Seq<char>)
    requires
        body.len() > 0,
        !has_char(body, '\n'),
        !is_ws(body.last()),
        encode_utf8(body).len() + 1 < MAX_COMMAND_SIZE,
    ensures
        decode_request(encode_utf8(body.push('\n'))) == command_of_line(body),
{
    let line = body.push('\n');
    lemma_encode_utf8_concat(body, seq!['\n']);
    assert(body + seq!['\n'] =~= line);
    lemma_ascii_encode_len(seq!['\n']);
    vstd::utf8::encode_utf8_valid_utf8(line);
    assert(decode_utf8(encode_utf8(line)) == line);
    assert forall|j: int| 0 <= j < body.len() implies line[j] != '\n' by {
        assert(line[j] == body[j]);
    }
    lemma_first_index_of_at(line, '\n', body.len());
    assert(line.take(body.len() as int) =~= body);
    lemma_trim_end_keeps(body);
}

/// Quitting, written and then read, is read as quitting.
pub proof fn lemma_quit_round_trip()
    ensures
        decode_request(encode_utf8(quit_line())) == Some(CommandView::Quit),
{
    assert(!has_char(quit_word(), '\n')) by {
        assert(quit_word() =~= seq!['Q', 'U', 'I', 'T']);
    }
    assert(!has_char(quit_word(), '\0'));
    assert(quit_word().last() == 'T');
    lemma_ascii_encode_len(quit_word());
    lemma_line_round_trip(quit_word());
}

/// A raise request, written and then read, is read as a raise that carries
/// the token that was sent: the token itself where it may travel, none where
/// it was dropped. (A token that ends in white space loses that end to the
/// trimming of the line, so such tokens are left out.)
pub proof fn lemma_raise_round_trip(token: Option<Seq<char>>)
    requires
        token matches Some(t) ==> (sendable_token(t) ==> !is_ws(t.last())),
    ensures
        decode_request(encode_utf8(raise_line(token))) == Some(CommandView::Raise(
            match token {
                Some(t) if sendable_token(t) => Some(t),
                _ => None,
            },
        )),
{
    let p = raise_prefix();
    assert(p =~= seq!['R', 'A', 'I', 'S', 'E', ' ']);
    match token {
        Some(t) if sendable_token(t) => {
            let body = p + t;
            assert(raise_line(token) =~= body.push('\n'));
            assert(body.last() == t.last());
            assert forall|j: int| 0 <= j < body.len() implies body[j] != '\n' && body[j] != '\0' by {
                if j >= 6 {
                    assert(body[j] == t[j - 6]);
                }
            }
            lemma_ascii_encode_len(p);
            lemma_encode_utf8_concat(p, t);
            lemma_line_round_trip(body);
            assert(body.take(6) =~= p);
            assert(body.skip(6) =~= t);
            assert(body != quit_word() && body != raise_word()) by {
                assert(body.len() > 6);
            }
        },
        _ => {
            let body = raise_word();
            assert(raise_line(token) =~= body.push('\n'));
            assert(body =~= seq!['R', 'A', 'I', 'S', 'E']);
            assert(!has_char(body, '\n'));
            assert(!has_char(body, '\0'));
            assert(body != quit_word()) by {
                assert(body.len() != quit_word().len());
            }
            lemma_ascii_encode_len(body);
            lemma_line_round_trip(body);
        },
    }
}

/// No byte of a character's UTF-8 encoding is a line feed, unless the
/// character is one: multi-byte encodings use bytes from 0x80 up.
proof fn lemma_scalar_has_no_newline_byte(c: char)
    requires
        c != '\n',
    ensures
        forall|i: int|
            0 <= i < vstd::utf8::encode_scalar(c as u32).len() ==> #[trigger] vstd::utf8::encode_scalar(c as u32)[i] != 10u8,
{
    let v = c as u32;
    vstd::utf8::char_is_scalar(c);
    let e = vstd::utf8::encode_scalar(v);
    if vstd::utf8::has_width_1_encoding(v) {
        assert(v != 10u32);
        assert(v <= 0x7F ==> (v & 0x7F) == v) by (bit_vector);
    } else {
        let l2: u8 = ((v >> 6) & 0x1F) as u8;
        let l3: u8 = ((v >> 12) & 0x0F) as u8;
        let l4: u8 = ((v >> 18) & 0x7) as u8;
        let c1: u8 = (v & 0x3F) as u8;
        let c2: u8 = ((v >> 6) & 0x3F) as u8;
        let c3: u8 = ((v >> 12) & 0x3F) as u8;
        assert((0xC0u8 | l2) >= 0x80u8) by (bit_vector);
        assert((0xE0u8 | l3) >= 0x80u8) by (bit_vector);
        assert((0xF0u8 | l4) >= 0x80u8) by (bit_vector);
        assert((0x80u8 | c1) >= 0x80u8) by (bit_vector);
        assert((0x80u8 | c2) >= 0x80u8) by (bit_vector);
        assert((0x80u8 | c3) >= 0x80u8) by (bit_vector);
        assert forall|i: int| 0 <= i < e.len() implies e[i] >= 0x80u8 by {}
    }
}

/// A text without a line feed encodes to bytes without one.
proof fn lemma_no_newline_byte(s: Seq<char>)
    requires
        !has_char(s, '\n'),
    ensures
        forall|i: int| 0 <= i < encode_utf8(s).len() ==> #[trigger] encode_utf8(s)[i] != 10u8,
    decreases s.len(),
{
    if s.len() > 0 {
        assert(s[0] != '\n');
        lemma_scalar_has_no_newline_byte(s[0]);
        assert(!has_char(s.drop_first(), '\n')) by {
            assert forall|j: int| 0 <= j < s.drop_first().len() implies s.drop_first()[j] != '\n' by {
                assert(s.drop_first()[j] == s[j + 1]);
            }
        }
        lemma_no_newline_byte(s.drop_first());
        let a = vstd::utf8::encode_scalar(s[0] as u32);
        let b = encode_utf8(s.drop_first());
        assert(encode_utf8(s) == a + b);
        assert forall|i: int| 0 <= i < encode_utf8(s).len() implies encode_utf8(s)[i] != 10u8 by {
            if i < a.len() {
                assert(encode_utf8(s)[i] == a[i]);
            } else {
                assert(encode_utf8(s)[i] == b[i - a.len()]);
            }
        }
    }
}

/// The line `body` + line feed, collected from a pipe, is read as the
/// command of `body`, when `body` holds no line feed and does not end in
/// white space.
proof fn lemma_pipe_line(body: Seq<char>)
    requires
        body.len() > 0,
        !has_char(body, '\n'),
        !is_ws(body.last()),
    ensures
        pending_outcome(encode_utf8(body.push('\n'))) == Some(command_of_line(body)),
{
    let eb = encode_utf8(body);
    let p = encode_utf8(body.push('\n'));
    lemma_encode_utf8_concat(body, seq!['\n']);
    assert(body + seq!['\n'] =~= body.push('\n'));
    lemma_ascii_encode_len(seq!['\n']);
    assert(encode_utf8(seq!['\n']) =~= seq![10u8]) by {
        assert(seq!['\n'].drop_first() =~= Seq::<char>::empty());
        assert(('\n' as u32) == 10u32);
        assert((10u32 & 0x7F) == 10u32) by (bit_vector);
        assert(encode_utf8(Seq::<char>::empty()) =~= Seq::<u8>::empty());
    }
    assert(p =~= eb + seq![10u8]);
    lemma_no_newline_byte(body);
    let k = eb.len() as int;
    assert(first_newline_at(p, k));
    assert forall|j: int| first_newline_at(p, j) implies j == k by {
        if j < k {
            assert(p[j] == eb[j]);
        } else if j > k {
            assert(p[k] == 10u8);
        }
    }
    assert(p.take(k) =~= eb);
    vstd::utf8::encode_utf8_valid_utf8(body);
    assert(decode_utf8(eb) == body);
    lemma_trim_end_keeps(body);
}

/// What a named pipe collects of a request written to it is read as what
/// the request asks: quitting as quitting, a raise as a raise with the token
/// that was sent (a token ending in white space is left out, as for
/// [`lemma_raise_round_trip`]).
pub proof fn lemma_pipe_round_trip(token: Option<Seq<char>>)
    requires
        token matches Some(t) ==> (sendable_token(t) ==> !is_ws(t.last())),
    ensures
        pending_outcome(encode_utf8(quit_line())) == Some(Some(CommandView::Quit)),
        pending_outcome(encode_utf8(raise_line(token))) == Some(Some(CommandView::Raise(
            match token {
                Some(t) if sendable_token(t) => Some(t),
                _ => None,
            },
        ))),
{
    assert(quit_word() =~= seq!['Q', 'U', 'I', 'T']);
    assert(!has_char(quit_word(), '\n'));
    assert(!has_char(quit_word(), '\0'));
    lemma_pipe_line(quit_word());
    let p = raise_prefix();
    assert(p =~= seq!['R', 'A', 'I', 'S', 'E', ' ']);
    match token {
        Some(t) if sendable_token(t) => {
            let body = p + t;
            assert(raise_line(token) =~= body.push('\n'));
            assert(body.last() == t.last());
            assert forall|j: int| 0 <= j < body.len() implies body[j] != '\n' && body[j] != '\0' by {
                if j >= 6 {
                    assert(body[j] == t[j - 6]);
                }
            }
            lemma_pipe_line(body);
            assert(body.take(6) =~= p);
            assert(body.skip(6) =~= t);
            assert(body != quit_word() && body != raise_word()) by {
                assert(body.len() > 6);
            }
        },
        _ => {
            let body = raise_word();
            assert(raise_line(token) =~= body.push('\n'));
            assert(body =~= seq!['R', 'A', 'I', 'S', 'E']);
            assert(!has_char(body, '\n'));
            assert(!has_char(body, '\0'));
            assert(body != quit_word()) by {
                assert(body.len() != quit_word().len());
            }
            lemma_pipe_line(body);
        },
    }
}

} // verus!
