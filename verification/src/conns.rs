//! The decisions of the server: where it listens, how long a request may take,
//! and what is answered.
use vstd::prelude::*;
use vstd::utf8::encode_utf8;
use vstd::utf8::is_ascii_chars;
use vstd::utf8::is_ascii_chars_encode_utf8;

use crate::error::ErrorChain;
use crate::logging;
use crate::logging::error_text;
use crate::logging::Level;
use crate::number;
use crate::number::all_digits;
use crate::number::decimal;
use crate::number::decimal_value;
use crate::number::is_digit;
use crate::number::parsed;
use crate::number::law_decimal_reads_back;
use crate::reader::blank_line_at;
use crate::reader::head_end;
use crate::reader::lemma_head_end_is;
use crate::reader::read_step;
use crate::reader::StepView;
use crate::request::announced_length;
use crate::request::is_length_line;
use crate::request::length_line;
use crate::request::Timeout;
use crate::text;
use crate::text::ascii_lower;
use crate::text::is_white_space;
use crate::text::lemma_encode_concat;
use crate::text::lemma_position_is;
use crate::text::lines;
use crate::text::pieces;
use crate::text::split;
use crate::text::trim_start;
use crate::text::trimmed;
use crate::token::query_of;
use crate::token::token_of;
use crate::token::user_pass_of_token;
use crate::token::QueryView;
use crate::token::ReviewView;
use crate::number::law_digits_are_those_of_their_number;
use crate::text::joined;
use crate::text::law_join_undoes_split;
use crate::text::law_split_undoes_join;

verus! {

/// The text of an answer without a body.
pub open spec fn status_text(code: u16) -> Seq<char> {
    if code == 400 {
        "HTTP/1.1 400 Bad Request\r\nContent-Length: 0\r\n\r\n"@
    } else if code == 404 {
        "HTTP/1.1 404 Not Found\r\nContent-Length: 0\r\n\r\n"@
    } else if code == 405 {
        "HTTP/1.1 405 Method Not Allowed\r\nContent-Length: 0\r\n\r\n"@
    } else if code == 411 {
        "HTTP/1.1 411 Length Required\r\nContent-Length: 0\r\n\r\n"@
    } else if code == 413 {
        "HTTP/1.1 413 Payload Too Large\r\nContent-Length: 0\r\n\r\n"@
    } else if code == 500 {
        "HTTP/1.1 500 Internal Server Error\r\nContent-Length: 0\r\n\r\n"@
    } else if code == 504 {
        "HTTP/1.1 504 Gateway Timeout\r\nContent-Length: 0\r\n\r\n"@
    } else {
        ""@
    }
}

/// The bytes that are sent for a status code. With 200 they are those of
/// `response`; any other code has its own text, and an unknown one none.
pub fn response_bytes(code: u16, response: &[u8]) -> (r: Vec<u8>)
    ensures
        r@ == if code == 200 {
            response@
        } else {
            encode_utf8(status_text(code))
        },
{
    let mut r: Vec<u8> = Vec::new();
    if code == 200 {
        r.extend_from_slice(response);
        assert(r@ == response@);
        return r;
    }
    let text: &str = if code == 400 {
        "HTTP/1.1 400 Bad Request\r\nContent-Length: 0\r\n\r\n"
    } else if code == 404 {
        "HTTP/1.1 404 Not Found\r\nContent-Length: 0\r\n\r\n"
    } else if code == 405 {
        "HTTP/1.1 405 Method Not Allowed\r\nContent-Length: 0\r\n\r\n"
    } else if code == 411 {
        "HTTP/1.1 411 Length Required\r\nContent-Length: 0\r\n\r\n"
    } else if code == 413 {
        "HTTP/1.1 413 Payload Too Large\r\nContent-Length: 0\r\n\r\n"
    } else if code == 500 {
        "HTTP/1.1 500 Internal Server Error\r\nContent-Length: 0\r\n\r\n"
    } else if code == 504 {
        "HTTP/1.1 504 Gateway Timeout\r\nContent-Length: 0\r\n\r\n"
    } else {
        ""
    };
    r.extend_from_slice(text.as_bytes());
    assert(r@ == encode_utf8(text@));
    r
}

/// The head of the answer that carries a token review of `length` bytes.
pub open spec fn review_head(length: nat) -> Seq<char> {
    "HTTP/1.1 200 OK\r\nContent-Type: application/json\r\nContent-Length: "@ + decimal(length)
        + "\r\n\r\n"@
}

/// The answer that carries a token review.
pub open spec fn review_text(review: Seq<char>) -> Seq<char> {
    review_head(encode_utf8(review).len()) + review
}

/// What a token review came to: the review, the user and whether the user is
/// authenticated, or the error.
pub type ReviewResult = Result<(String, String, bool), ErrorChain>;

/// The status code for a token review: 400 for an error that says so by
/// starting with `Error`, 500 for any other.
pub open spec fn review_code(result: ReviewResult) -> u16 {
    match result {
        Ok(_) => 200,
        Err(error) => if "Error"@.is_prefix_of(error.message@) {
            400
        } else {
            500
        },
    }
}

/// The bytes that answer a token review.
pub open spec fn review_answer(result: ReviewResult) -> Seq<u8> {
    match result {
        Ok((review, _, _)) => encode_utf8(review_text(review@)),
        Err(_) => encode_utf8(status_text(review_code(result))),
    }
}

fn code_of(result: &ReviewResult) -> (r: u16)
    ensures
        r == review_code(*result),
{
    match result {
        Ok(_) => 200,
        Err(error) => if text::starts_with(
            text::to_chars(error.message.as_str()).as_slice(),
            "Error",
        ) {
            400
        } else {
            500
        },
    }
}

/// The status code and the bytes that answer a token review.
pub fn _verify_token_review_str_result(result: &ReviewResult) -> (r: (u16, Vec<u8>))
    ensures
        r.0 == review_code(*result),
        r.1@ == review_answer(*result),
{
    match result {
        Ok((review, _, _)) => {
            let length: usize = review.as_str().as_bytes().len();
            let digits = number::to_decimal(length);
            let mut response =
                "HTTP/1.1 200 OK\r\nContent-Type: application/json\r\nContent-Length: ".to_string();
            response.append(digits.as_str());
            response.append("\r\n\r\n");
            response.append(review.as_str());
            (200, response_bytes(200, response.as_str().as_bytes()))
        },
        Err(_) => {
            let code: u16 = code_of(result);
            (code, response_bytes(code, &[]))
        },
    }
}

/// What is logged of a token review that was answered: a note for an answer, a
/// warning for a request that could not be read, an error for any other failure.
pub open spec fn review_log_text(
    result: ReviewResult,
    peer: Seq<char>,
    endpoint: Seq<char>,
    bytes_read: nat,
) -> (Level, Seq<char>) {
    let code = review_code(result);
    let request = peer + " - "@ + decimal(code as nat) + " - POST "@ + endpoint + " - "@ + decimal(
        bytes_read,
    );
    match result {
        Ok((_, user, is_authenticated)) => (
            Level::INFO,
            request + " - "@ + user@ + if is_authenticated {
                " - SUCCESS"@
            } else {
                " - FAIL"@
            },
        ),
        Err(error) => (
            if code == 400 {
                Level::WARN
            } else {
                Level::ERROR
            },
            request + " - ERROR - "@ + error_text(error@),
        ),
    }
}

/// What is logged of a token review that was answered.
pub fn review_log(result: &ReviewResult, peer: &str, endpoint: &str, bytes_read: usize) -> (r: (
    Level,
    String,
))
    ensures
        (r.0, r.1@) == review_log_text(*result, peer@, endpoint@, bytes_read as nat),
{
    let code: u16 = code_of(result);
    let mut message = peer.to_string();
    message.append(" - ");
    message.append(number::to_decimal(code as usize).as_str());
    message.append(" - POST ");
    message.append(endpoint);
    message.append(" - ");
    message.append(number::to_decimal(bytes_read).as_str());
    match result {
        Ok((_, user, is_authenticated)) => {
            message.append(" - ");
            message.append(user.as_str());
            message.append(
                if *is_authenticated {
                    " - SUCCESS"
                } else {
                    " - FAIL"
                },
            );
            (Level::INFO, message)
        },
        Err(error) => {
            message.append(" - ERROR - ");
            message.append(logging::format_error_chain(error).as_str());
            (
                if code == 400 {
                    Level::WARN
                } else {
                    Level::ERROR
                },
                message,
            )
        },
    }
}

/// What is logged of a request that was answered without a review.
pub open spec fn handled_log_text(
    code: u16,
    endpoint: Seq<char>,
    method: Seq<char>,
    bytes_read: nat,
    peer: Seq<char>,
) -> (Level, Seq<char>) {
    (
        if code == 400 || code == 411 || code == 413 {
            Level::WARN
        } else {
            Level::INFO
        },
        peer + " - "@ + decimal(code as nat) + " - "@ + method + " "@ + endpoint + " - "@ + decimal(
            bytes_read,
        ),
    )
}

/// What is logged of a request that was answered without a review: a warning
/// for one that is malformed or too large, a note for any other.
pub fn handled_log(code: u16, endpoint: &str, method: &str, bytes_read: usize, peer: &str) -> (r: (
    Level,
    String,
))
    ensures
        (r.0, r.1@) == handled_log_text(code, endpoint@, method@, bytes_read as nat, peer@),
{
    let mut message = peer.to_string();
    message.append(" - ");
    message.append(number::to_decimal(code as usize).as_str());
    message.append(" - ");
    message.append(method);
    message.append(" ");
    message.append(endpoint);
    message.append(" - ");
    message.append(number::to_decimal(bytes_read).as_str());
    if code == 400 || code == 411 || code == 413 {
        (Level::WARN, message)
    } else {
        (Level::INFO, message)
    }
}

/// The message of an answer that could not be sent.
pub open spec fn send_failure_text(
    endpoint: Seq<char>,
    user: Option<Seq<char>>,
    error: Seq<Seq<char>>,
) -> Seq<char> {
    "- "@ + endpoint + " - "@ + match user {
        Some(user) => user + " - "@,
        None => ""@,
    } + "Failed to send response - "@ + error_text(error)
}

/// The message of an answer that could not be sent.
pub fn send_failure(endpoint: &str, user: Option<&str>, error: &ErrorChain) -> (r: String)
    ensures
        r@ == send_failure_text(endpoint@, user.deep_view(), error@),
{
    let mut r = "- ".to_string();
    r.append(endpoint);
    r.append(" - ");
    match user {
        Some(user) => {
            r.append(user);
            r.append(" - ");
        },
        None => {},
    }
    r.append("Failed to send response - ");
    r.append(logging::format_error_chain(error).as_str());
    proof {
        match user {
            Some(user) => {
                assert("- "@ + endpoint@ + " - "@ + user@ + " - "@ == "- "@ + endpoint@ + " - "@ + (
                user@ + " - "@));
            },
            None => {
                reveal_strlit("");
                assert("- "@ + endpoint@ + " - "@ + ""@ == "- "@ + endpoint@ + " - "@);
            },
        }
    }
    r
}

/// How long a token review may take, in milliseconds.
pub open spec fn time_limit(asked: Option<nat>, directory: nat) -> Option<nat> {
    match asked {
        Some(t) => Some(
            if t <= directory {
                t
            } else {
                directory
            },
        ),
        None => None,
    }
}

/// A review is limited exactly when the request asks for a limit, and then to
/// the shorter of what it asks for and what the directory is given.
pub proof fn law_time_limit(asked: Option<nat>, directory: nat)
    ensures
        time_limit(asked, directory) is Some <==> asked is Some,
        time_limit(asked, directory) matches Some(t) ==> t <= directory && t <= asked->0 && (t
            == directory || t == asked->0),
{
}

/// How long a token review may take: no longer than the request asks for and
/// than the directory is given. A request that does not ask is not limited.
pub fn effective_timeout(asked: Option<Timeout>, directory: Timeout) -> (r: Option<Timeout>)
    requires
        directory.wf(),
        asked matches Some(t) ==> t.wf(),
    ensures
        r matches Some(t) ==> t.wf(),
        r.deep_view() == time_limit(asked.deep_view(), directory@),
        r matches Some(t) ==> t@ <= directory@ && t@ <= asked->0@,
{
    match asked {
        Some(t) => Some(t.min(directory)),
        None => None,
    }
}

/// What came first while a token review was under way.
pub enum Race {
    /// The review is there.
    Reviewed(ReviewResult),
    /// The watch over the peer has ended: it left, or it sent something while
    /// an answer was due.
    WatchEnded,
    /// The time that the review may take has passed.
    TimedOut,
}

/// The status code and the bytes that are sent when something has come first;
/// nothing when the watch over the peer has ended.
pub fn settle_race(race: &Race) -> (r: Option<(u16, Vec<u8>)>)
    ensures
        match *race {
            Race::Reviewed(result) => r matches Some((code, bytes)) && code == review_code(result)
                && bytes@ == review_answer(result),
            Race::WatchEnded => r is None,
            Race::TimedOut => r matches Some((code, bytes)) && code == 504 && bytes@
                == encode_utf8(status_text(504)),
        },
{
    match race {
        Race::Reviewed(result) => Some(_verify_token_review_str_result(result)),
        Race::WatchEnded => None,
        Race::TimedOut => Some((504, response_bytes(504, &[]))),
    }
}

/// What reading from a peer gave while its request was worked on.
#[derive(Clone, Copy, Debug, PartialEq, Eq, Structural)]
pub enum PeerRead {
    Closed,
    Bytes,
    WouldBlock,
    Failed,
}

/// The level of the log entry that the end of a connection deserves, if it has
/// ended. A connection that has ended is shut down.
pub fn _check_remote_peer(read: PeerRead) -> (r: Option<Level>)
    ensures
        r == match read {
            PeerRead::Closed => Some(Level::INFO),
            PeerRead::Bytes => None,
            PeerRead::WouldBlock => None,
            PeerRead::Failed => Some(Level::ERROR),
        },
{
    match read {
        PeerRead::Closed => Some(Level::INFO),
        PeerRead::Bytes => None,
        PeerRead::WouldBlock => None,
        PeerRead::Failed => Some(Level::ERROR),
    }
}

/// The status code that a failed handshake is logged with.
pub open spec fn handshake_code(error: Seq<char>) -> u16 {
    if "invalid peer certificate"@.is_prefix_of(error) {
        526
    } else {
        525
    }
}

/// The status code that a failed handshake is logged with: 526 for a peer
/// certificate that is not valid, 525 for any other failure.
pub fn handshake_failure_code(error: &str) -> (r: u16)
    ensures
        r == handshake_code(error@),
{
    if text::starts_with(text::to_chars(error).as_slice(), "invalid peer certificate") {
        526
    } else {
        525
    }
}

/// What the server waits for.
#[derive(Clone, Copy, Debug, PartialEq, Eq, Structural)]
pub enum ServerEvent {
    /// A connection was made.
    Accepted,
    /// A connection could not be made.
    AcceptFailed,
    /// The program is asked to end.
    Terminate,
    /// The program is interrupted.
    Interrupt,
    /// One of the connections is done.
    Finished,
}

/// What the server does next.
#[derive(Clone, Copy, Debug, PartialEq, Eq, Structural)]
pub enum ServerAction {
    /// Serve the connection that was made.
    Serve,
    /// Wait for the next event.
    Continue,
    /// Return.
    Return,
}

/// Whether the server accepts connections, and how many are not yet done.
#[derive(Clone, Copy, Debug, PartialEq, Eq, Structural)]
pub struct ServerState {
    pub accepting: bool,
    pub open: usize,
}

/// Whether the server accepts connections, and how many are not yet done.
pub struct ServerView {
    pub accepting: bool,
    pub open: int,
}

impl View for ServerState {
    type V = ServerView;

    open spec fn view(&self) -> ServerView {
        ServerView { accepting: self.accepting, open: self.open as int }
    }
}

/// Whether the server has been stopped and has no connection left.
pub open spec fn drained(state: ServerView) -> bool {
    !state.accepting && state.open == 0
}

/// The state that an event leads to. A signal stops the server from accepting
/// connections; a connection that could not be accepted does not.
pub open spec fn state_after(state: ServerView, event: ServerEvent) -> ServerView {
    match event {
        ServerEvent::Accepted => if state.accepting {
            ServerView { open: state.open + 1, ..state }
        } else {
            state
        },
        ServerEvent::AcceptFailed => state,
        ServerEvent::Terminate => ServerView { accepting: false, ..state },
        ServerEvent::Interrupt => ServerView { accepting: false, ..state },
        ServerEvent::Finished => ServerView { open: state.open - 1, ..state },
    }
}

/// What the server does on an event: it serves what it accepts, and returns once
/// it has been stopped and the last connection is done.
pub open spec fn action_on(state: ServerView, event: ServerEvent) -> ServerAction {
    if event == ServerEvent::Accepted && state.accepting {
        ServerAction::Serve
    } else if drained(state_after(state, event)) && !drained(state) {
        ServerAction::Return
    } else {
        ServerAction::Continue
    }
}

impl ServerState {
    /// The server before its first connection.
    pub fn new() -> (r: Self)
        ensures
            r@ == server_start(),
    {
        ServerState { accepting: true, open: 0 }
    }
}

/// The server before its first connection.
pub open spec fn server_start() -> ServerView {
    ServerView { accepting: true, open: 0 }
}

/// The state that an event leads to, and what the server does on it.
pub fn on_server_event(state: ServerState, event: ServerEvent) -> (r: (ServerState, ServerAction))
    requires
        event == ServerEvent::Accepted && state.accepting ==> state.open < usize::MAX,
        event == ServerEvent::Finished ==> state.open > 0,
    ensures
        r.0@ == state_after(state@, event),
        r.1 == action_on(state@, event),
{
    let next = match event {
        ServerEvent::Accepted => if state.accepting {
            ServerState { accepting: true, open: state.open + 1 }
        } else {
            state
        },
        ServerEvent::AcceptFailed => state,
        ServerEvent::Terminate => ServerState { accepting: false, open: state.open },
        ServerEvent::Interrupt => ServerState { accepting: false, open: state.open },
        ServerEvent::Finished => ServerState { accepting: state.accepting, open: state.open - 1 },
    };
    let is_connection = match event {
        ServerEvent::Accepted => state.accepting,
        _ => false,
    };
    let was_drained = !state.accepting && state.open == 0;
    let is_drained = !next.accepting && next.open == 0;
    if is_connection {
        (next, ServerAction::Serve)
    } else if is_drained && !was_drained {
        (next, ServerAction::Return)
    } else {
        (next, ServerAction::Continue)
    }
}

/// The state of the server after a number of events.
pub open spec fn server_run(events: Seq<ServerEvent>) -> ServerView
    decreases events.len(),
{
    if events.len() == 0 {
        server_start()
    } else {
        state_after(server_run(events.drop_last()), events.last())
    }
}

/// How many connections are served in a number of events.
pub open spec fn served(events: Seq<ServerEvent>) -> int
    decreases events.len(),
{
    if events.len() == 0 {
        0
    } else if action_on(server_run(events.drop_last()), events.last()) == ServerAction::Serve {
        served(events.drop_last()) + 1
    } else {
        served(events.drop_last())
    }
}

/// How many connections are done in a number of events.
pub open spec fn finished(events: Seq<ServerEvent>) -> int
    decreases events.len(),
{
    if events.len() == 0 {
        0
    } else if events.last() == ServerEvent::Finished {
        finished(events.drop_last()) + 1
    } else {
        finished(events.drop_last())
    }
}

/// Whether a signal is among a number of events.
pub open spec fn signalled(events: Seq<ServerEvent>) -> bool {
    events.contains(ServerEvent::Terminate) || events.contains(ServerEvent::Interrupt)
}

proof fn lemma_server_run(events: Seq<ServerEvent>)
    ensures
        server_run(events).accepting == !signalled(events),
        server_run(events).open == served(events) - finished(events),
    decreases events.len(),
{
    if events.len() > 0 {
        let front = events.drop_last();
        lemma_server_run(front);
        assert(events == front.push(events.last()));
        assert forall|e: ServerEvent| events.contains(e) == (front.contains(e) || events.last()
            == e) by {
            if front.contains(e) {
                let i = choose|i: int| 0 <= i < front.len() && front[i] == e;
                assert(events[i] == e);
            }
            if events.last() == e {
                assert(events[events.len() - 1] == e);
            }
            if events.contains(e) {
                let i = choose|i: int| 0 <= i < events.len() && events[i] == e;
                if i < front.len() {
                    assert(front[i] == e);
                }
            }
        }
    }
}

/// The server serves what it accepts until a signal comes, and nothing after it.
/// It returns on the event after which a signal has come and every connection
/// that was served is done, and on no other.
pub proof fn law_server_drains(before: Seq<ServerEvent>, event: ServerEvent)
    ensures
        ({
            let after = before.push(event);
            let action = action_on(server_run(before), event);
            let done_before = signalled(before) && served(before) == finished(before);
            let done_after = signalled(after) && served(after) == finished(after);
            &&& action == ServerAction::Serve <==> event == ServerEvent::Accepted && !signalled(
                before,
            )
            &&& action == ServerAction::Return <==> done_after && !done_before
        }),
{
    let after = before.push(event);
    lemma_server_run(before);
    lemma_server_run(after);
    assert(after.drop_last() == before);
}

/// The octet that one part of an IPv4 address writes: up to three digits
/// without a leading zero.
pub open spec fn octet(s: Seq<char>) -> Option<u8> {
    if 1 <= s.len() <= 3 && all_digits(s) && (s.len() > 1 ==> s[0] != '0') && decimal_value(s)
        <= 255 {
        Some(decimal_value(s) as u8)
    } else {
        None
    }
}

/// The four octets of an IPv4 address in dotted decimal notation.
pub open spec fn ipv4(s: Seq<char>) -> Option<(u8, u8, u8, u8)> {
    let parts = split(s, '.');
    if parts.len() != 4 {
        None
    } else {
        match (octet(parts[0]), octet(parts[1]), octet(parts[2]), octet(parts[3])) {
            (Some(a), Some(b), Some(c), Some(d)) => Some((a, b, c, d)),
            _ => None,
        }
    }
}

fn parse_octet(chars: &[char]) -> (r: Option<u8>)
    ensures
        r == octet(chars@),
{
    let n: usize = chars.len();
    if n == 0 || n > 3 || (n > 1 && chars[0] == '0') || chars[0] == '+' {
        assert(n > 0 && chars@[0] == '+' ==> !is_digit(chars@[0]));
        return None;
    }
    match number::parse_chars(chars, 255) {
        Some(v) => Some(v as u8),
        None => None,
    }
}

/// The IPv4 address that is listened on.
pub open spec fn address_of(s: Seq<char>) -> (u8, u8, u8, u8) {
    match ipv4(s) {
        Some(address) => address,
        None => (0, 0, 0, 0),
    }
}

/// The IPv4 address that a text writes; for any other text the one that stands
/// for every address of the host.
pub fn listen_address(ip_address: &str) -> (r: (u8, u8, u8, u8))
    ensures
        r == address_of(ip_address@),
{
    let chars = text::to_chars(ip_address);
    let parts = text::split_all(chars.as_slice(), '.');
    assert(pieces(parts@).len() == parts@.len());
    if parts.len() != 4 {
        return (0, 0, 0, 0);
    }
    assert(pieces(parts@)[0] == parts@[0]@);
    assert(pieces(parts@)[1] == parts@[1]@);
    assert(pieces(parts@)[2] == parts@[2]@);
    assert(pieces(parts@)[3] == parts@[3]@);
    match (
        parse_octet(parts[0]),
        parse_octet(parts[1]),
        parse_octet(parts[2]),
        parse_octet(parts[3]),
    ) {
        (Some(a), Some(b), Some(c), Some(d)) => (a, b, c, d),
        _ => (0, 0, 0, 0),
    }
}

/// A line and its ending come off the front of a text.
proof fn lemma_first_line(line: Seq<char>, rest: Seq<char>)
    requires
        !line.contains('\n'),
    ensures
        lines(line + "\r\n"@ + rest) == seq![line] + lines(rest),
{
    reveal_strlit("\r\n");
    let s = line + "\r\n"@ + rest;
    let n = line.len() as int;
    assert forall|i: int| 0 <= i < n + 1 implies s[i] != '\n' by {
        if i < n {
            assert(s[i] == line[i]);
        }
    }
    lemma_position_is(s, '\n', n + 1);
    assert(s.take(n + 1).drop_last() == line);
    assert(s.skip(n + 2) == rest);
}

/// The last header of a head that ends in the given length line.
proof fn lemma_length_header(n: nat)
    requires
        n <= usize::MAX,
    ensures
        length_line(lines("Content-Length: "@ + decimal(n) + "\r\n\r\n"@)) == Some(
            "Content-Length: "@ + decimal(n),
        ),
        parsed(trimmed(split("Content-Length: "@ + decimal(n), ':')[1]), usize::MAX as nat)
            == Some(n),
{
    reveal_strlit("Content-Length: ");
    reveal_strlit("content-length:");
    reveal_strlit("\r\n\r\n");
    reveal_strlit("\r\n");
    law_decimal_reads_back(n, usize::MAX as nat);
    let digits = decimal(n);
    let line = "Content-Length: "@ + digits;
    assert forall|i: int| 0 <= i < digits.len() implies {
        &&& digits[i] != '\n'
        &&& digits[i] != ':'
        &&& !is_white_space(digits[i])
    } by {
        assert(is_digit(digits[i]));
    }
    assert(!line.contains('\n')) by {
        assert forall|i: int| 0 <= i < line.len() implies line[i] != '\n' by {
            if i >= 16 {
                assert(line[i] == digits[i - 16]);
            }
        }
    }
    lemma_first_line(line, "\r\n"@);
    assert(line + "\r\n"@ + "\r\n"@ == line + "\r\n\r\n"@);
    let lowered = line.map_values(|c: char| ascii_lower(c));
    assert("content-length:"@ == lowered.take(15));
    assert(is_length_line(line));
    assert(lines(line + "\r\n\r\n"@)[0] == line);
    lemma_position_is(line, ':', 14);
    let tail = line.skip(15);
    assert(tail == seq![' '] + digits);
    assert forall|i: int| 0 <= i < tail.len() implies tail[i] != ':' by {
        if i > 0 {
            assert(tail[i] == digits[i - 1]);
        }
    }
    lemma_position_is(tail, ':', tail.len() as int);
    assert(split(tail, ':') == seq![tail]);
    assert(split(line, ':')[1] == tail);
    assert(tail.drop_first() == digits);
    assert(trim_start(tail) == trim_start(digits));
    assert(trimmed(tail) == digits);
}

/// A line that is no length line may precede the length line.
proof fn lemma_skip_header(line: Seq<char>, rest: Seq<char>)
    requires
        !line.contains('\n'),
        !is_length_line(line),
    ensures
        length_line(lines(line + "\r\n"@ + rest)) == length_line(lines(rest)),
{
    lemma_first_line(line, rest);
    assert((seq![line] + lines(rest)).drop_first() == lines(rest));
}

/// The head of a review announces the length that it is given.
proof fn lemma_review_head(n: nat)
    requires
        n <= usize::MAX,
    ensures
        announced_length(review_head(n)) == Some(n),
{
    let ok = "HTTP/1.1 200 OK"@;
    let json = "Content-Type: application/json"@;
    let last = "Content-Length: "@ + decimal(n) + "\r\n\r\n"@;
    reveal_strlit("HTTP/1.1 200 OK\r\nContent-Type: application/json\r\nContent-Length: ");
    reveal_strlit("HTTP/1.1 200 OK");
    reveal_strlit("Content-Type: application/json");
    reveal_strlit("Content-Length: ");
    reveal_strlit("content-length:");
    reveal_strlit("\r\n");
    assert(review_head(n) == ok + "\r\n"@ + (json + "\r\n"@ + last));
    assert(!is_length_line(ok)) by {
        assert(ok.map_values(|c: char| ascii_lower(c))[0] != "content-length:"@[0]);
    }
    assert(!is_length_line(json)) by {
        assert(json.map_values(|c: char| ascii_lower(c))[8] != "content-length:"@[8]);
    }
    lemma_length_header(n);
    lemma_skip_header(json, last);
    lemma_skip_header(ok, json + "\r\n"@ + last);
}

/// The answer to a token review reads as it should: its head ends at its first
/// empty line, announces a length, and that many bytes follow, which are those
/// of the review.
pub proof fn law_review_is_framed(review: Seq<char>)
    requires
        encode_utf8(review).len() <= usize::MAX,
    ensures
        ({
            let answer = encode_utf8(review_text(review));
            let head = review_head(encode_utf8(review).len());
            &&& head_end(answer) == Some(encode_utf8(head).len() as int)
            &&& answer.take(encode_utf8(head).len() as int) == encode_utf8(head)
            &&& announced_length(head) == Some(encode_utf8(review).len())
            &&& answer.skip(encode_utf8(head).len() as int) == encode_utf8(review)
        }),
{
    let n = encode_utf8(review).len();
    let head = review_head(n);
    let answer = encode_utf8(review_text(review));
    let bytes = encode_utf8(head);
    lemma_review_head(n);
    lemma_encode_concat(head, review);
    assert(answer == bytes + encode_utf8(review));
    assert(answer.take(bytes.len() as int) == bytes);
    assert(answer.skip(bytes.len() as int) == encode_utf8(review));
    reveal_strlit("HTTP/1.1 200 OK\r\nContent-Type: application/json\r\nContent-Length: ");
    reveal_strlit("\r\n\r\n");
    law_decimal_reads_back(n, n);
    let digits = decimal(n);
    let start = "HTTP/1.1 200 OK\r\nContent-Type: application/json\r\nContent-Length: "@;
    assert forall|i: int| 0 <= i < digits.len() implies '0' <= #[trigger] digits[i] <= '9' by {
        assert(is_digit(digits[i]));
    }
    assert(is_ascii_chars(head)) by {
        assert forall|i: int| 0 <= i < head.len() implies '\0' <= #[trigger] head[i]
            <= '\u{7f}' by {
            if start.len() <= i < start.len() + digits.len() {
                assert(head[i] == digits[i - start.len()]);
            }
        }
    }
    is_ascii_chars_encode_utf8(head);
    let end = head.len() as int;
    assert(blank_line_at(answer, end - 4)) by {
        assert(head[end - 4] == '\r');
        assert(head[end - 3] == '\n');
        assert(head[end - 2] == '\r');
        assert(head[end - 1] == '\n');
    }
    assert forall|i: int| 0 <= i < end - 4 implies !#[trigger] blank_line_at(answer, i) by {
        if blank_line_at(answer, i) {
            assert(head[i] as u8 == answer[i]);
            assert(head[i + 1] as u8 == answer[i + 1]);
            assert(head[i + 2] as u8 == answer[i + 2]);
            assert(head[i + 3] as u8 == answer[i + 3]);
            assert(head[i] == '\r');
            assert(head[i + 2] == '\r');
            if start.len() <= i < start.len() + digits.len() {
                assert(head[i] == digits[i - start.len()]);
            }
            if start.len() <= i + 2 < start.len() + digits.len() {
                assert(head[i + 2] == digits[i + 2 - start.len()]);
            }
        }
    }
    lemma_head_end_is(answer, end);
}

/// Whether a code has an answer of its own without a body.
pub open spec fn has_status_text(code: u16) -> bool {
    code == 400 || code == 404 || code == 405 || code == 411 || code == 413 || code == 500 || code
        == 504
}

/// A status line and a length of zero announce that nothing follows.
proof fn lemma_empty_answer(line: Seq<char>, answer: Seq<char>)
    requires
        !line.contains('\n'),
        line.len() > 0,
        line[0] == 'H',
        answer =~= line + "\r\nContent-Length: 0\r\n\r\n"@,
    ensures
        announced_length(answer) == Some(0nat),
{
    reveal_strlit("\r\nContent-Length: 0\r\n\r\n");
    reveal_strlit("Content-Length: ");
    reveal_strlit("content-length:");
    reveal_strlit("\r\n\r\n");
    reveal_strlit("\r\n");
    let last = "Content-Length: "@ + decimal(0) + "\r\n\r\n"@;
    assert(decimal(0) == seq!['0']);
    assert(answer == line + "\r\n"@ + last);
    assert(!is_length_line(line)) by {
        assert(line.map_values(|c: char| ascii_lower(c))[0] != "content-length:"@[0]);
    }
    lemma_length_header(0);
    lemma_skip_header(line, last);
}

/// An answer without a review announces that nothing follows its head.
pub proof fn law_other_answers_are_empty(code: u16)
    requires
        has_status_text(code),
    ensures
        announced_length(status_text(code)) == Some(0nat),
{
    reveal_strlit("\r\nContent-Length: 0\r\n\r\n");
    if code == 400 {
        reveal_strlit("HTTP/1.1 400 Bad Request");
        reveal_strlit("HTTP/1.1 400 Bad Request\r\nContent-Length: 0\r\n\r\n");
        lemma_empty_answer("HTTP/1.1 400 Bad Request"@, status_text(code));
    } else if code == 404 {
        reveal_strlit("HTTP/1.1 404 Not Found");
        reveal_strlit("HTTP/1.1 404 Not Found\r\nContent-Length: 0\r\n\r\n");
        lemma_empty_answer("HTTP/1.1 404 Not Found"@, status_text(code));
    } else if code == 405 {
        reveal_strlit("HTTP/1.1 405 Method Not Allowed");
        reveal_strlit("HTTP/1.1 405 Method Not Allowed\r\nContent-Length: 0\r\n\r\n");
        lemma_empty_answer("HTTP/1.1 405 Method Not Allowed"@, status_text(code));
    } else if code == 411 {
        reveal_strlit("HTTP/1.1 411 Length Required");
        reveal_strlit("HTTP/1.1 411 Length Required\r\nContent-Length: 0\r\n\r\n");
        lemma_empty_answer("HTTP/1.1 411 Length Required"@, status_text(code));
    } else if code == 413 {
        reveal_strlit("HTTP/1.1 413 Payload Too Large");
        reveal_strlit("HTTP/1.1 413 Payload Too Large\r\nContent-Length: 0\r\n\r\n");
        lemma_empty_answer("HTTP/1.1 413 Payload Too Large"@, status_text(code));
    } else if code == 500 {
        reveal_strlit("HTTP/1.1 500 Internal Server Error");
        reveal_strlit("HTTP/1.1 500 Internal Server Error\r\nContent-Length: 0\r\n\r\n");
        lemma_empty_answer("HTTP/1.1 500 Internal Server Error"@, status_text(code));
    } else {
        reveal_strlit("HTTP/1.1 504 Gateway Timeout");
        reveal_strlit("HTTP/1.1 504 Gateway Timeout\r\nContent-Length: 0\r\n\r\n");
        lemma_empty_answer("HTTP/1.1 504 Gateway Timeout"@, status_text(code));
    }
}

/// A request that is refused while it is read is answered, with an answer that
/// says why and announces that nothing follows.
pub proof fn law_refusals_are_answered(raw: Seq<u8>, chunk: Seq<u8>)
    ensures
        read_step(raw, chunk) matches StepView::Done(Some(code), _) ==> has_status_text(code)
            && announced_length(status_text(code)) == Some(0nat),
{
    if let StepView::Done(Some(code), _) = read_step(raw, chunk) {
        law_other_answers_are_empty(code);
    }
}

/// A request of which no user can be read is answered with 400, whatever is
/// wrong with it.
pub proof fn law_unreadable_requests_are_bad_requests(
    request: Seq<char>,
    read: Result<ReviewView, Seq<char>>,
    error: ErrorChain,
)
    requires
        query_of(request, read, user_pass_of_token(token_of(read))) == Err::<
            QueryView,
            Seq<Seq<char>>,
        >(error@),
    ensures
        review_code(Err(error)) == 400,
        review_answer(Err(error)) == encode_utf8(status_text(400)),
{
    reveal_strlit("Error");
    reveal_strlit("Error parsing JSON from request");
    reveal_strlit("Error retrieving user and password from token");
    assert(error@[0] == error.message@);
    assert("Error"@ == error.message@.take(5));
}

/// The reason that goes with a status code.
pub open spec fn reason_of(code: u16) -> Seq<char> {
    if code == 400 {
        "Bad Request"@
    } else if code == 404 {
        "Not Found"@
    } else if code == 405 {
        "Method Not Allowed"@
    } else if code == 411 {
        "Length Required"@
    } else if code == 413 {
        "Payload Too Large"@
    } else if code == 500 {
        "Internal Server Error"@
    } else if code == 504 {
        "Gateway Timeout"@
    } else {
        ""@
    }
}

/// Seven codes have an answer without a body. It tells its own code and the
/// reason that goes with it, and that nothing follows; any other code has none.
pub proof fn law_status_texts(code: u16)
    ensures
        code == 400 || code == 404 || code == 405 || code == 411 || code == 413 || code == 500
            || code == 504 ==> status_text(code) == "HTTP/1.1 "@ + decimal(code as nat) + " "@
            + reason_of(code) + "\r\nContent-Length: 0\r\n\r\n"@ && has_status_text(code),
        !(code == 400 || code == 404 || code == 405 || code == 411 || code == 413 || code == 500
            || code == 504) ==> status_text(code) == ""@ && !has_status_text(code),
        reason_of(400) == "Bad Request"@,
        reason_of(404) == "Not Found"@,
        reason_of(405) == "Method Not Allowed"@,
        reason_of(411) == "Length Required"@,
        reason_of(413) == "Payload Too Large"@,
        reason_of(500) == "Internal Server Error"@,
        reason_of(504) == "Gateway Timeout"@,
{
    reveal_strlit("HTTP/1.1 ");
    reveal_strlit(" ");
    reveal_strlit("\r\nContent-Length: 0\r\n\r\n");
    reveal_with_fuel(decimal, 4);
    if code == 400 {
        reveal_strlit("Bad Request");
        reveal_strlit("HTTP/1.1 400 Bad Request\r\nContent-Length: 0\r\n\r\n");
        assert(status_text(code) == "HTTP/1.1 "@ + decimal(code as nat) + " "@ + "Bad Request"@
            + "\r\nContent-Length: 0\r\n\r\n"@);
        assert(reason_of(code) == "Bad Request"@);
    } else if code == 404 {
        reveal_strlit("Not Found");
        reveal_strlit("HTTP/1.1 404 Not Found\r\nContent-Length: 0\r\n\r\n");
        assert(status_text(code) == "HTTP/1.1 "@ + decimal(code as nat) + " "@ + "Not Found"@
            + "\r\nContent-Length: 0\r\n\r\n"@);
        assert(reason_of(code) == "Not Found"@);
    } else if code == 405 {
        reveal_strlit("Method Not Allowed");
        reveal_strlit("HTTP/1.1 405 Method Not Allowed\r\nContent-Length: 0\r\n\r\n");
        assert(status_text(code) == "HTTP/1.1 "@ + decimal(code as nat) + " "@ + "Method Not Allowed"@
            + "\r\nContent-Length: 0\r\n\r\n"@);
        assert(reason_of(code) == "Method Not Allowed"@);
    } else if code == 411 {
        reveal_strlit("Length Required");
        reveal_strlit("HTTP/1.1 411 Length Required\r\nContent-Length: 0\r\n\r\n");
        assert(status_text(code) == "HTTP/1.1 "@ + decimal(code as nat) + " "@ + "Length Required"@
            + "\r\nContent-Length: 0\r\n\r\n"@);
        assert(reason_of(code) == "Length Required"@);
    } else if code == 413 {
        reveal_strlit("Payload Too Large");
        reveal_strlit("HTTP/1.1 413 Payload Too Large\r\nContent-Length: 0\r\n\r\n");
        assert(status_text(code) == "HTTP/1.1 "@ + decimal(code as nat) + " "@ + "Payload Too Large"@
            + "\r\nContent-Length: 0\r\n\r\n"@);
        assert(reason_of(code) == "Payload Too Large"@);
    } else if code == 500 {
        reveal_strlit("Internal Server Error");
        reveal_strlit("HTTP/1.1 500 Internal Server Error\r\nContent-Length: 0\r\n\r\n");
        assert(status_text(code) == "HTTP/1.1 "@ + decimal(code as nat) + " "@ + "Internal Server Error"@
            + "\r\nContent-Length: 0\r\n\r\n"@);
        assert(reason_of(code) == "Internal Server Error"@);
    } else if code == 504 {
        reveal_strlit("Gateway Timeout");
        reveal_strlit("HTTP/1.1 504 Gateway Timeout\r\nContent-Length: 0\r\n\r\n");
        assert(status_text(code) == "HTTP/1.1 "@ + decimal(code as nat) + " "@ + "Gateway Timeout"@
            + "\r\nContent-Length: 0\r\n\r\n"@);
        assert(reason_of(code) == "Gateway Timeout"@);
    }
}

/// A review that was made is answered with 200. An error is answered with 400 if
/// its message starts with `Error`, and with 500 if not.
pub proof fn law_review_codes(result: ReviewResult, rest: Seq<char>)
    ensures
        result is Ok <==> review_code(result) == 200,
        result matches Err(error) ==> (error.message@ == "Error"@ + rest ==> review_code(result)
            == 400),
        result matches Err(error) ==> (review_code(result) == 400 <==> "Error"@.is_prefix_of(
            error.message@,
        )),
        result matches Err(error) ==> (review_code(result) == 500 <==> !"Error"@.is_prefix_of(
            error.message@,
        )),
        result is Err ==> review_answer(result) == encode_utf8(status_text(review_code(result))),
{
    if let Err(error) = result {
        if error.message@ == "Error"@ + rest {
            assert(error.message@.take("Error"@.len() as int) == "Error"@);
        }
    }
}

/// The answer to a review that was made carries exactly that review: behind its
/// first empty line come the bytes of the review, as many as the head announces.
pub proof fn law_answer_carries_the_review(review: String, user: String, authenticated: bool)
    requires
        encode_utf8(review@).len() <= usize::MAX,
    ensures
        ({
            let answer = review_answer(Ok((review, user, authenticated)));
            let end = head_end(answer);
            &&& end is Some
            &&& answer.skip(end->0) == encode_utf8(review@)
            &&& exists|head: Seq<char>| #[trigger]
                encode_utf8(head) == answer.take(end->0) && announced_length(head) == Some(
                    encode_utf8(review@).len(),
                ) && "HTTP/1.1 200 OK\r\nContent-Type: application/json\r\n"@.is_prefix_of(head)
        }),
{
    law_review_is_framed(review@);
    let head = review_head(encode_utf8(review@).len());
    let answer = review_answer(Ok((review, user, authenticated)));
    assert(encode_utf8(head) == answer.take(head_end(answer)->0));
    reveal_strlit("HTTP/1.1 200 OK\r\nContent-Type: application/json\r\n");
    reveal_strlit("HTTP/1.1 200 OK\r\nContent-Type: application/json\r\nContent-Length: ");
    let start = "HTTP/1.1 200 OK\r\nContent-Type: application/json\r\n"@;
    assert(head.take(start.len() as int) == start);
}

/// The dotted decimal text of an IPv4 address.
pub open spec fn dotted(a: u8, b: u8, c: u8, d: u8) -> Seq<char> {
    decimal(a as nat) + "."@ + decimal(b as nat) + "."@ + decimal(c as nat) + "."@ + decimal(
        d as nat,
    )
}

proof fn lemma_octet(n: u8)
    ensures
        octet(decimal(n as nat)) == Some(n),
        !decimal(n as nat).contains('.'),
{
    let s = decimal(n as nat);
    law_decimal_reads_back(n as nat, 255);
    reveal_with_fuel(decimal, 4);
    assert forall|i: int| 0 <= i < s.len() implies s[i] != '.' by {
        assert(is_digit(s[i]));
    }
    assert(1 <= s.len() <= 3);
    assert(s.len() > 1 ==> s[0] != '0');
}

/// An IPv4 address is read from its dotted decimal text and from no other text.
pub proof fn law_ipv4_reads_back(a: u8, b: u8, c: u8, d: u8, s: Seq<char>)
    ensures
        ipv4(dotted(a, b, c, d)) == Some((a, b, c, d)),
        ipv4(s) == Some((a, b, c, d)) ==> s == dotted(a, b, c, d),
{
    reveal_strlit(".");
    assert("."@ == seq!['.']);
    let parts = seq![decimal(a as nat), decimal(b as nat), decimal(c as nat), decimal(d as nat)];
    lemma_octet(a);
    lemma_octet(b);
    lemma_octet(c);
    lemma_octet(d);
    assert(joined(parts, seq!['.']) == dotted(a, b, c, d)) by {
        reveal_with_fuel(joined, 5);
        assert(parts.drop_last() == seq![decimal(a as nat), decimal(b as nat), decimal(c as nat)]);
        assert(parts.drop_last().drop_last() == seq![decimal(a as nat), decimal(b as nat)]);
        assert(parts.drop_last().drop_last().drop_last() == seq![decimal(a as nat)]);
    }
    law_split_undoes_join(parts, '.');
    if ipv4(s) == Some((a, b, c, d)) {
        let read = split(s, '.');
        law_join_undoes_split(s, '.');
        law_digits_are_those_of_their_number(read[0]);
        law_digits_are_those_of_their_number(read[1]);
        law_digits_are_those_of_their_number(read[2]);
        law_digits_are_those_of_their_number(read[3]);
        assert(read == parts);
    }
}

/// What is logged of a review tells the peer, the code, the endpoint, the number
/// of bytes, and then the user and whether the user is authenticated, or the
/// error; an error of the request is a warning, any other an error.
pub proof fn law_review_log(
    result: ReviewResult,
    peer: Seq<char>,
    endpoint: Seq<char>,
    bytes_read: nat,
)
    ensures
        ({
            let (level, text) = review_log_text(result, peer, endpoint, bytes_read);
            let about = " - POST "@ + endpoint + " - "@ + decimal(bytes_read);
            &&& result matches Ok((_, user, authenticated)) ==> level == Level::INFO && text == peer
                + " - 200"@ + about + " - "@ + user@ + (if authenticated {
                " - SUCCESS"@
            } else {
                " - FAIL"@
            })
            &&& result matches Err(error) ==> ("Error"@.is_prefix_of(error.message@) ==> level
                == Level::WARN && text == peer + " - 400"@ + about + " - ERROR - "@ + error_text(
                error@,
            ))
            &&& result matches Err(error) ==> (!"Error"@.is_prefix_of(error.message@) ==> level
                == Level::ERROR && text == peer + " - 500"@ + about + " - ERROR - "@ + error_text(
                error@,
            ))
        }),
{
    reveal_strlit(" - 200");
    reveal_strlit(" - 400");
    reveal_strlit(" - 500");
    reveal_strlit(" - ");
    reveal_with_fuel(decimal, 4);
    let code = review_code(result);
    assert(code == 200 ==> " - "@ + decimal(code as nat) == " - 200"@);
    assert(code == 400 ==> " - "@ + decimal(code as nat) == " - 400"@);
    assert(code == 500 ==> " - "@ + decimal(code as nat) == " - 500"@);
    let (level, text) = review_log_text(result, peer, endpoint, bytes_read);
    let about = " - POST "@ + endpoint + " - "@ + decimal(bytes_read);
    let request = peer + " - "@ + decimal(code as nat) + " - POST "@ + endpoint + " - "@ + decimal(
        bytes_read,
    );
    assert(request == peer + (" - "@ + decimal(code as nat)) + about);
}

/// The message of an answer that could not be sent tells the endpoint, the user
/// if there is one, and the error with its causes.
pub proof fn law_send_failure(endpoint: Seq<char>, user: Seq<char>, error: Seq<Seq<char>>)
    ensures
        send_failure_text(endpoint, Some(user), error) == "- "@ + endpoint + " - "@ + user
            + " - Failed to send response - "@ + error_text(error),
        send_failure_text(endpoint, None, error) == "- "@ + endpoint
            + " - Failed to send response - "@ + error_text(error),
{
    reveal_strlit("");
    reveal_strlit(" - ");
    reveal_strlit("Failed to send response - ");
    reveal_strlit(" - Failed to send response - ");
    assert(" - "@ + "Failed to send response - "@ == " - Failed to send response - "@);
    assert(send_failure_text(endpoint, Some(user), error) == "- "@ + endpoint + " - "@ + user + (
    " - "@ + "Failed to send response - "@) + error_text(error));
    assert(send_failure_text(endpoint, None, error) == "- "@ + endpoint + (" - "@
        + "Failed to send response - "@) + error_text(error));
}

/// A handshake that fails for the certificate of the peer is told from any other
/// by how its error starts, whatever follows.
pub proof fn law_handshake_codes(error: Seq<char>, rest: Seq<char>)
    ensures
        handshake_code("invalid peer certificate"@ + rest) == 526,
        handshake_code(error) == 525 <==> !"invalid peer certificate"@.is_prefix_of(error),
        handshake_code(error) == 526 || handshake_code(error) == 525,
{
    let start = "invalid peer certificate"@;
    assert((start + rest).take(start.len() as int) == start);
}

/// What is logged of a request without a review tells the peer, the code, the
/// method, the endpoint and the number of bytes; it is a warning exactly for a
/// request that is malformed, gives no length or is too large.
pub proof fn law_handled_log(
    code: u16,
    endpoint: Seq<char>,
    method: Seq<char>,
    bytes_read: nat,
    peer: Seq<char>,
)
    ensures
        ({
            let (level, text) = handled_log_text(code, endpoint, method, bytes_read, peer);
            &&& level == Level::WARN <==> code == 400 || code == 411 || code == 413
            &&& level == Level::WARN || level == Level::INFO
            &&& joined(
                seq![peer, decimal(code as nat), method + " "@ + endpoint, decimal(bytes_read)],
                " - "@,
            ) == text
        }),
{
    let parts = seq![peer, decimal(code as nat), method + " "@ + endpoint, decimal(bytes_read)];
    reveal_with_fuel(joined, 5);
    assert(parts.drop_last() == seq![peer, decimal(code as nat), method + " "@ + endpoint]);
    assert(parts.drop_last().drop_last() == seq![peer, decimal(code as nat)]);
    assert(parts.drop_last().drop_last().drop_last() == seq![peer]);
    let (level, text) = handled_log_text(code, endpoint, method, bytes_read, peer);
    assert(joined(parts, " - "@) == text);
}

/// The server listens on the address that is written in dotted decimal notation,
/// and on every address where anything else is written.
pub proof fn law_listens_on_the_written_address(a: u8, b: u8, c: u8, d: u8, s: Seq<char>)
    ensures
        address_of(dotted(a, b, c, d)) == (a, b, c, d),
        address_of(s) == (a, b, c, d) && (a, b, c, d) != (0u8, 0u8, 0u8, 0u8) ==> s == dotted(
            a,
            b,
            c,
            d,
        ),
{
    law_ipv4_reads_back(a, b, c, d, s);
}

} // verus!
