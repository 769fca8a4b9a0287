//! The head of an HTTP request: its method, its endpoint, the timeout that its
//! query asks for, and the length of its body.
use vstd::prelude::*;

use crate::number;
use crate::number::parsed;
use crate::text;
use crate::text::ascii_lower;
use crate::text::ascii_upper_cased;
use crate::text::lemma_position;
use crate::text::lemma_split_len;
use crate::text::lines;
use crate::text::pieces;
use crate::text::split;
use crate::text::split_at_first;
use crate::text::trimmed;
use crate::text::upper_cased;
use crate::number::decimal;
use crate::number::is_digit;
use crate::number::law_decimal_reads_back;
use crate::number::law_large_numbers_are_refused;
use crate::number::law_parsed;
use crate::text::ascii_upper;
use crate::text::is_white_space;
use crate::text::joined;
use crate::text::law_lines;
use crate::text::law_split_at_first;
use crate::text::law_split_at_first_finds;
use crate::text::law_split_undoes_join;
use crate::text::law_trim_finds;

verus! {

/// The HTTP methods that are known.
#[derive(Clone, Copy, Debug, PartialEq, Eq, Structural)]
pub enum HttpVerb {
    Get,
    Post,
    Put,
    Delete,
    Patch,
    Head,
    Options,
}

/// The method that a name in upper case stands for.
pub open spec fn verb_named(upper: Seq<char>) -> Option<HttpVerb> {
    if upper == "GET"@ {
        Some(HttpVerb::Get)
    } else if upper == "POST"@ {
        Some(HttpVerb::Post)
    } else if upper == "PUT"@ {
        Some(HttpVerb::Put)
    } else if upper == "DELETE"@ {
        Some(HttpVerb::Delete)
    } else if upper == "PATCH"@ {
        Some(HttpVerb::Patch)
    } else if upper == "HEAD"@ {
        Some(HttpVerb::Head)
    } else if upper == "OPTIONS"@ {
        Some(HttpVerb::Options)
    } else {
        None
    }
}

impl HttpVerb {
    /// The method that a name in upper case stands for.
    pub fn named(upper: &str) -> (r: Option<HttpVerb>)
        ensures
            r == verb_named(upper@),
    {
        if text::same(upper, "GET") {
            Some(HttpVerb::Get)
        } else if text::same(upper, "POST") {
            Some(HttpVerb::Post)
        } else if text::same(upper, "PUT") {
            Some(HttpVerb::Put)
        } else if text::same(upper, "DELETE") {
            Some(HttpVerb::Delete)
        } else if text::same(upper, "PATCH") {
            Some(HttpVerb::Patch)
        } else if text::same(upper, "HEAD") {
            Some(HttpVerb::Head)
        } else if text::same(upper, "OPTIONS") {
            Some(HttpVerb::Options)
        } else {
            None
        }
    }

    /// The method that a name stands for in whatever case it is written.
    pub fn from_str(s: &str) -> (r: Result<HttpVerb, String>)
        ensures
            r matches Ok(verb) ==> verb_named(upper_cased(s@)) == Some(verb),
            r matches Err(error) ==> {
                &&& verb_named(upper_cased(s@)) is None
                &&& error@ == "Unsupported HTTP verb: "@ + s@
            },
            ascii_upper_cased(s@),
    {
        let upper = text::to_upper(s);
        match HttpVerb::named(upper.as_str()) {
            Some(verb) => Ok(verb),
            None => {
                let mut error = "Unsupported HTTP verb: ".to_string();
                error.append(s);
                Err(error)
            },
        }
    }
}

impl std::str::FromStr for HttpVerb {
    type Err = String;

    fn from_str(s: &str) -> (r: Result<Self, String>)
        ensures
            r matches Ok(verb) ==> verb_named(upper_cased(s@)) == Some(verb),
            r matches Err(error) ==> {
                &&& verb_named(upper_cased(s@)) is None
                &&& error@ == "Unsupported HTTP verb: "@ + s@
            },
            ascii_upper_cased(s@),
    {
        HttpVerb::from_str(s)
    }
}

/// A span of time: whole seconds and the milliseconds beyond them.
#[derive(Clone, Copy, Debug, PartialEq, Eq, Structural)]
pub struct Timeout {
    pub secs: u64,
    pub millis: u32,
}

impl View for Timeout {
    type V = nat;

    /// The milliseconds in all.
    open spec fn view(&self) -> nat {
        (self.secs * 1000 + self.millis) as nat
    }
}

impl DeepView for Timeout {
    type V = nat;

    open spec fn deep_view(&self) -> nat {
        self@
    }
}

impl Timeout {
    /// Whether the milliseconds beyond the whole seconds are less than one.
    pub open spec fn wf(self) -> bool {
        self.millis < 1000
    }

    /// So many milliseconds.
    pub fn from_millis(millis: u64) -> (r: Timeout)
        ensures
            r.wf(),
            r@ == millis,
    {
        Timeout { secs: millis / 1000, millis: (millis % 1000) as u32 }
    }

    /// So many seconds.
    pub fn from_secs(secs: u64) -> (r: Timeout)
        ensures
            r.wf(),
            r@ == secs * 1000,
    {
        Timeout { secs, millis: 0 }
    }

    /// The shorter of two spans.
    pub fn min(self, other: Timeout) -> (r: Timeout)
        requires
            self.wf(),
            other.wf(),
        ensures
            r.wf(),
            r@ == if self@ <= other@ {
                self@
            } else {
                other@
            },
            r == self || r == other,
    {
        if self.secs < other.secs || (self.secs == other.secs && self.millis <= other.millis) {
            self
        } else {
            other
        }
    }
}

/// The number in front of a unit.
pub open spec fn amount(timeout: Seq<char>, unit: Seq<char>) -> Option<nat> {
    parsed(timeout.take(timeout.len() - unit.len()), u64::MAX as nat)
}

/// The milliseconds that a duration such as `30s`, `500ms` or `2m` stands for.
pub open spec fn duration_millis(timeout: Seq<char>) -> Option<nat> {
    if "ms"@.is_suffix_of(timeout) {
        amount(timeout, "ms"@)
    } else if "s"@.is_suffix_of(timeout) {
        match amount(timeout, "s"@) {
            Some(n) => Some(n * 1000),
            None => None,
        }
    } else if "m"@.is_suffix_of(timeout) {
        match amount(timeout, "m"@) {
            Some(n) => Some(n * 60 * 1000),
            None => None,
        }
    } else {
        None
    }
}

/// Whether the seconds of a duration given in minutes can be counted.
pub open spec fn duration_fits(timeout: Seq<char>) -> bool {
    !"ms"@.is_suffix_of(timeout) && !"s"@.is_suffix_of(timeout) && "m"@.is_suffix_of(timeout)
        ==> match amount(timeout, "m"@) {
        Some(n) => n * 60 <= u64::MAX,
        None => true,
    }
}

fn parse_duration(timeout: &[char]) -> (r: Option<Timeout>)
    requires
        duration_fits(timeout@),
    ensures
        r.deep_view() == duration_millis(timeout@),
        r matches Some(t) ==> t.wf(),
{
    if let Some(time) = text::strip_suffix(timeout, "ms") {
        match number::parse_chars(time, u64::MAX) {
            Some(n) => Some(Timeout::from_millis(n)),
            None => None,
        }
    } else if let Some(time) = text::strip_suffix(timeout, "s") {
        match number::parse_chars(time, u64::MAX) {
            Some(n) => Some(Timeout::from_secs(n)),
            None => None,
        }
    } else if let Some(time) = text::strip_suffix(timeout, "m") {
        match number::parse_chars(time, u64::MAX) {
            Some(n) => Some(Timeout::from_secs(n * 60)),
            None => None,
        }
    } else {
        None
    }
}

fn fits(timeout: &[char]) -> (r: bool)
    ensures
        r == duration_fits(timeout@),
{
    if text::strip_suffix(timeout, "ms").is_some() || text::strip_suffix(timeout, "s").is_some() {
        return true;
    }
    if let Some(time) = text::strip_suffix(timeout, "m") {
        match number::parse_chars(time, u64::MAX) {
            Some(n) => n <= u64::MAX / 60,
            None => true,
        }
    } else {
        true
    }
}

/// The span that a duration such as `30s`, `500ms` or `2m` stands for.
pub fn _parse_k8s_duration(timeout: &str) -> (r: Option<Timeout>)
    requires
        duration_fits(timeout@),
    ensures
        r.deep_view() == duration_millis(timeout@),
        r matches Some(t) ==> t.wf(),
{
    parse_duration(text::to_chars(timeout).as_slice())
}

/// Whether the seconds of a duration given in minutes can be counted.
pub fn k8s_duration_fits(timeout: &str) -> (r: bool)
    ensures
        r == duration_fits(timeout@),
{
    fits(text::to_chars(timeout).as_slice())
}

/// What stands for a method or an endpoint that a request does not tell.
pub const UNKNOWN: &'static str = "UNKNOWN";

/// The timeout that one `key=value` pair of a query asks for.
pub open spec fn pair_timeout(pair: Seq<char>) -> Option<nat> {
    match split_at_first(pair, '=') {
        Some((key, value)) => if key == "timeout"@ {
            duration_millis(value)
        } else {
            None
        },
        None => None,
    }
}

/// Whether the timeout of one pair of a query can be counted.
pub open spec fn pair_fits(pair: Seq<char>) -> bool {
    match split_at_first(pair, '=') {
        Some((key, value)) => key == "timeout"@ ==> duration_fits(value),
        None => true,
    }
}

/// The first timeout that the pairs of a query ask for.
pub open spec fn first_timeout(pairs: Seq<Seq<char>>) -> Option<nat>
    decreases pairs.len(),
{
    if pairs.len() == 0 {
        None
    } else if pair_timeout(pairs[0]) is Some {
        pair_timeout(pairs[0])
    } else {
        first_timeout(pairs.drop_first())
    }
}

/// Whether each timeout up to the first one that counts can be counted.
pub open spec fn timeouts_fit(pairs: Seq<Seq<char>>) -> bool
    decreases pairs.len(),
{
    pairs.len() == 0 || (pair_fits(pairs[0]) && (pair_timeout(pairs[0]) is Some || timeouts_fit(
        pairs.drop_first(),
    )))
}

/// The path and the query of a request target.
pub open spec fn path_and_query(target: Seq<char>) -> (Seq<char>, Seq<char>) {
    match split_at_first(target, '?') {
        Some(parts) => parts,
        None => (target, ""@),
    }
}

/// A path with the slash that it starts with, added where it lacks.
pub open spec fn rooted(path: Seq<char>) -> Seq<char> {
    if "/"@.is_prefix_of(path) {
        path
    } else {
        "/"@ + path
    }
}

/// The first line of a text, if it has one.
pub open spec fn first_line(s: Seq<char>) -> Option<Seq<char>> {
    if lines(s).len() > 0 {
        Some(lines(s)[0])
    } else {
        None
    }
}

/// The target of a request line: its second field.
pub open spec fn target_of(line: Seq<char>) -> Option<Seq<char>> {
    let fields = split(line, ' ');
    if fields.len() > 1 {
        Some(fields[1])
    } else {
        None
    }
}

/// The method of a request line: its first field, as it is written, if that
/// is a known method.
pub open spec fn method_of(line: Seq<char>) -> Seq<char> {
    let field = split(line, ' ')[0];
    if verb_named(upper_cased(field)) is Some {
        field
    } else {
        UNKNOWN@
    }
}

/// The method of a request.
pub open spec fn request_method(s: Seq<char>) -> Seq<char> {
    match first_line(s) {
        Some(line) => method_of(line),
        None => UNKNOWN@,
    }
}

/// The target of a request.
pub open spec fn request_target(s: Seq<char>) -> Option<Seq<char>> {
    match first_line(s) {
        Some(line) => target_of(line),
        None => None,
    }
}

/// The endpoint of a request: the path of its target.
pub open spec fn request_endpoint(s: Seq<char>) -> Seq<char> {
    match request_target(s) {
        Some(target) => rooted(path_and_query(target).0),
        None => UNKNOWN@,
    }
}

/// The timeout that a request asks for, in milliseconds.
pub open spec fn request_timeout(s: Seq<char>) -> Option<nat> {
    match request_target(s) {
        Some(target) => first_timeout(split(path_and_query(target).1, '&')),
        None => None,
    }
}

/// Whether the timeout that a request asks for can be counted.
pub open spec fn request_timeout_fits(s: Seq<char>) -> bool {
    match request_target(s) {
        Some(target) => timeouts_fit(split(path_and_query(target).1, '&')),
        None => true,
    }
}

/// Whether the upper case of the method is known where it is ASCII text.
pub open spec fn ascii_method(s: Seq<char>) -> bool {
    match first_line(s) {
        Some(line) => ascii_upper_cased(split(line, ' ')[0]),
        None => true,
    }
}

fn timeout_of_query(query: &[char]) -> (r: Option<Timeout>)
    requires
        timeouts_fit(split(query@, '&')),
    ensures
        r.deep_view() == first_timeout(split(query@, '&')),
        r matches Some(t) ==> t.wf(),
{
    let pairs = text::split_all(query, '&');
    let ghost all = split(query@, '&');
    let n: usize = pairs.len();
    let mut i: usize = 0;
    assert(all.skip(0) == all);
    while i < n
        invariant
            i <= n,
            n == pairs@.len(),
            pieces(pairs@) == all,
            all == split(query@, '&'),
            all.len() == n,
            timeouts_fit(all.skip(i as int)),
            first_timeout(all.skip(i as int)) == first_timeout(all),
        decreases n - i,
    {
        let ghost rest = all.skip(i as int);
        assert(rest[0] == all[i as int]);
        assert(all[i as int] == pairs@[i as int]@);
        assert(rest.drop_first() == all.skip(i + 1));
        if let Some((key, value)) = text::split_once(pairs[i], '=') {
            if text::equals(key, "timeout") {
                let t = parse_duration(value);
                if t.is_some() {
                    return t;
                }
            }
        }
        i += 1;
    }
    None
}

fn query_fits(query: &[char]) -> (r: bool)
    ensures
        r == timeouts_fit(split(query@, '&')),
{
    let pairs = text::split_all(query, '&');
    let ghost all = split(query@, '&');
    let n: usize = pairs.len();
    let mut i: usize = 0;
    assert(all.skip(0) == all);
    while i < n
        invariant
            i <= n,
            n == pairs@.len(),
            pieces(pairs@) == all,
            all == split(query@, '&'),
            all.len() == n,
            timeouts_fit(all.skip(i as int)) == timeouts_fit(all),
        decreases n - i,
    {
        let ghost rest = all.skip(i as int);
        assert(rest[0] == all[i as int]);
        assert(all[i as int] == pairs@[i as int]@);
        assert(rest.drop_first() == all.skip(i + 1));
        if let Some((key, value)) = text::split_once(pairs[i], '=') {
            if text::equals(key, "timeout") {
                if !fits(value) {
                    return false;
                }
                if parse_duration(value).is_some() {
                    return true;
                }
            }
        }
        i += 1;
    }
    true
}

/// The fields of the first line of a request.
fn request_fields<'a>(request: &'a [char]) -> (r: Option<Vec<&'a [char]>>)
    ensures
        r is None <==> first_line(request@) is None,
        r matches Some(fields) ==> {
            &&& first_line(request@) matches Some(line)
            &&& pieces(fields@) == split(line, ' ')
            &&& fields@.len() > 0
        },
{
    let all = text::lines_of(request);
    assert(pieces(all@).len() == all@.len());
    if all.len() == 0 {
        return None;
    }
    assert(pieces(all@)[0] == all@[0]@);
    Some(text::split_all(all[0], ' '))
}

/// The path and the query of the target among the fields of a request line.
fn target_parts<'a>(fields: &Vec<&'a [char]>) -> (r: Option<(&'a [char], &'a [char])>)
    requires
        fields@.len() > 0,
    ensures
        r is None <==> fields@.len() < 2,
        r matches Some((path, query)) ==> path_and_query(pieces(fields@)[1]) == (path@, query@),
{
    if fields.len() < 2 {
        return None;
    }
    let target: &'a [char] = fields[1];
    match text::split_once(target, '?') {
        Some(parts) => Some(parts),
        None => {
            let end: usize = target.len();
            let query = &target[end..end];
            proof {
                reveal_strlit("");
                assert(query@ == ""@);
            }
            Some((target, query))
        },
    }
}

/// Whether the timeout that a request asks for can be counted.
pub fn timeout_fits(request_str: &str) -> (r: bool)
    ensures
        r == request_timeout_fits(request_str@),
{
    let chars = text::to_chars(request_str);
    match request_fields(chars.as_slice()) {
        Some(fields) => match target_parts(&fields) {
            Some((_, query)) => query_fits(query),
            None => true,
        },
        None => true,
    }
}

/// The method and the endpoint of a request, and the timeout that its query
/// asks for. What a request does not tell is `UNKNOWN`.
pub fn _extract_method_endpoint_timeout_url(request_str: &str) -> (r: (
    String,
    String,
    Option<Timeout>,
))
    requires
        request_timeout_fits(request_str@),
    ensures
        r.0@ == request_method(request_str@),
        r.1@ == request_endpoint(request_str@),
        r.2.deep_view() == request_timeout(request_str@),
        r.2 matches Some(t) ==> t.wf(),
        ascii_method(request_str@),
{
    let chars = text::to_chars(request_str);
    match request_fields(chars.as_slice()) {
        Some(fields) => {
            assert(pieces(fields@)[0] == fields@[0]@);
            let incoming = text::to_text(fields[0]);
            let method = match HttpVerb::from_str(incoming.as_str()) {
                Ok(_) => incoming,
                Err(_) => UNKNOWN.to_string(),
            };
            match target_parts(&fields) {
                Some((path, query)) => {
                    let timeout = timeout_of_query(query);
                    let mut endpoint = String::new();
                    if !text::starts_with(path, "/") {
                        endpoint.append("/");
                    }
                    let path_text = text::to_text(path);
                    endpoint.append(path_text.as_str());
                    (method, endpoint, timeout)
                },
                None => (method, UNKNOWN.to_string(), None),
            }
        },
        None => (UNKNOWN.to_string(), UNKNOWN.to_string(), None),
    }
}

/// The largest body that is read, and the most bytes that a head may take
/// before it is given up.
pub const MAX_SIZE_PAYLOAD: usize = 65536;

/// The endpoint that answers token reviews.
pub const AUTHENTICATE: &'static str = "/authenticate";

/// Whether a line of a head gives the length of the body.
pub open spec fn is_length_line(line: Seq<char>) -> bool {
    "content-length:"@.is_prefix_of(line.map_values(|c: char| ascii_lower(c)))
}

/// The first line among `list` that gives the length of the body.
pub open spec fn length_line(list: Seq<Seq<char>>) -> Option<Seq<char>>
    decreases list.len(),
{
    if list.len() == 0 {
        None
    } else if is_length_line(list[0]) {
        Some(list[0])
    } else {
        length_line(list.drop_first())
    }
}

/// The length of the body that a head announces: the number behind the colon
/// of its first length line, up to another colon.
pub open spec fn announced_length(head: Seq<char>) -> Option<nat> {
    match length_line(lines(head)) {
        Some(line) => parsed(trimmed(split(line, ':')[1]), usize::MAX as nat),
        None => None,
    }
}

fn gives_length(line: &[char]) -> (r: bool)
    ensures
        r == is_length_line(line@),
        r ==> split(line@, ':').len() > 1,
{
    let mut lowered: Vec<char> = Vec::new();
    let n: usize = line.len();
    let mut i: usize = 0;
    let ghost all = line@.map_values(|c: char| ascii_lower(c));
    while i < n
        invariant
            i <= n,
            n == line@.len(),
            all == line@.map_values(|c: char| ascii_lower(c)),
            lowered@ == all.take(i as int),
        decreases n - i,
    {
        lowered.push(text::lower(line[i]));
        assert(all.take(i + 1) == all.take(i as int).push(ascii_lower(line@[i as int])));
        i += 1;
    }
    assert(all.take(n as int) == all);
    let r = text::starts_with(lowered.as_slice(), "content-length:");
    proof {
        if r {
            reveal_strlit("content-length:");
            assert(all[14] == "content-length:"@[14]);
            assert(line@[14] == ':');
            lemma_split_len(line@, ':');
        }
    }
    r
}

/// The length of the body that a head announces.
pub fn content_length(head: &str) -> (r: Option<usize>)
    ensures
        r matches Some(n) ==> announced_length(head@) == Some(n as nat),
        r is None ==> announced_length(head@) is None,
{
    let chars = text::to_chars(head);
    let list = text::lines_of(chars.as_slice());
    let ghost all = lines(head@);
    let n: usize = list.len();
    let mut i: usize = 0;
    assert(all.skip(0) == all);
    while i < n
        invariant
            i <= n,
            n == list@.len(),
            pieces(list@) == all,
            all == lines(head@),
            all.len() == n,
            length_line(all.skip(i as int)) == length_line(all),
        decreases n - i,
    {
        let ghost rest = all.skip(i as int);
        assert(rest[0] == all[i as int]);
        assert(all[i as int] == list@[i as int]@);
        assert(rest.drop_first() == all.skip(i + 1));
        if gives_length(list[i]) {
            let parts = text::split_all(list[i], ':');
            assert(pieces(parts@)[1] == parts@[1]@);
            return match number::parse_chars(text::trim(parts[1]), usize::MAX as u64) {
                Some(length) => Some(length as usize),
                None => None,
            };
        }
        i += 1;
    }
    None
}

/// What the head of a request leads to.
pub enum Verdict {
    /// It is refused with a status code. The endpoint and the method are those
    /// that are reported.
    Refuse { code: u16, endpoint: String, method: String },
    /// Its body of this length is to be read.
    Accept { endpoint: String, timeout: Option<Timeout>, length: usize },
}

/// What the head of a request leads to.
pub enum VerdictView {
    Refuse { code: u16, endpoint: Seq<char>, method: Seq<char> },
    Accept { endpoint: Seq<char>, timeout: Option<nat>, length: nat },
}

impl View for Verdict {
    type V = VerdictView;

    open spec fn view(&self) -> VerdictView {
        match *self {
            Verdict::Refuse { code, endpoint, method } => VerdictView::Refuse {
                code,
                endpoint: endpoint@,
                method: method@,
            },
            Verdict::Accept { endpoint, timeout, length } => VerdictView::Accept {
                endpoint: endpoint@,
                timeout: timeout.deep_view(),
                length: length as nat,
            },
        }
    }
}

/// What the head of a request leads to: 400 without a method or an endpoint,
/// 404 for an endpoint other than the one that is served, 405 for a method
/// other than `POST`, 411 without a length and 413 with one that is too large.
pub open spec fn head_verdict(head: Seq<char>) -> VerdictView {
    let method = request_method(head);
    let endpoint = request_endpoint(head);
    if endpoint == UNKNOWN@ || method == UNKNOWN@ {
        VerdictView::Refuse { code: 400, endpoint: UNKNOWN@, method: UNKNOWN@ }
    } else if endpoint != AUTHENTICATE@ {
        VerdictView::Refuse { code: 404, endpoint, method }
    } else if method != "POST"@ {
        VerdictView::Refuse { code: 405, endpoint, method }
    } else {
        match announced_length(head) {
            None => VerdictView::Refuse { code: 411, endpoint, method },
            Some(length) => if length > MAX_SIZE_PAYLOAD {
                VerdictView::Refuse { code: 413, endpoint, method }
            } else {
                VerdictView::Accept { endpoint, timeout: request_timeout(head), length }
            },
        }
    }
}

/// Decides what the head of a request leads to.
pub fn judge_head(head: &str) -> (r: Verdict)
    requires
        request_timeout_fits(head@),
    ensures
        r@ == head_verdict(head@),
        r matches Verdict::Accept { timeout: Some(t), .. } ==> t.wf(),
        ascii_method(head@),
{
    let (method, endpoint, timeout) = _extract_method_endpoint_timeout_url(head);
    if text::same(endpoint.as_str(), UNKNOWN) || text::same(method.as_str(), UNKNOWN) {
        Verdict::Refuse { code: 400, endpoint: UNKNOWN.to_string(), method: UNKNOWN.to_string() }
    } else if !text::same(endpoint.as_str(), AUTHENTICATE) {
        Verdict::Refuse { code: 404, endpoint, method }
    } else if !text::same(method.as_str(), "POST") {
        Verdict::Refuse { code: 405, endpoint, method }
    } else {
        match content_length(head) {
            None => Verdict::Refuse { code: 411, endpoint, method },
            Some(length) => if length > MAX_SIZE_PAYLOAD {
                Verdict::Refuse { code: 413, endpoint, method }
            } else {
                Verdict::Accept { endpoint, timeout, length }
            },
        }
    }
}

/// An endpoint starts with a slash and holds no part of a query; without a
/// target there is no endpoint.
pub proof fn law_endpoint_is_a_rooted_path(head: Seq<char>)
    ensures
        request_target(head) is Some ==> request_endpoint(head).len() > 0 && request_endpoint(
            head,
        )[0] == '/',
        request_target(head) is None ==> request_endpoint(head) == UNKNOWN@,
        !request_endpoint(head).contains('?'),
{
    reveal_strlit("UNKNOWN");
    reveal_strlit("/");
    if let Some(target) = request_target(head) {
        lemma_position(target, '?');
        let path = path_and_query(target).0;
        assert forall|i: int| 0 <= i < path.len() implies path[i] != '?' by {
            assert(path[i] == target[i]);
        }
        if "/"@.is_prefix_of(path) {
            assert(path[0] == "/"@[0]);
        }
    }
}

/// Seven methods are known, each by its own name, and no other.
pub proof fn law_known_methods(upper: Seq<char>)
    ensures
        verb_named("GET"@) == Some(HttpVerb::Get),
        verb_named("POST"@) == Some(HttpVerb::Post),
        verb_named("PUT"@) == Some(HttpVerb::Put),
        verb_named("DELETE"@) == Some(HttpVerb::Delete),
        verb_named("PATCH"@) == Some(HttpVerb::Patch),
        verb_named("HEAD"@) == Some(HttpVerb::Head),
        verb_named("OPTIONS"@) == Some(HttpVerb::Options),
        verb_named(upper) is Some <==> seq![
            "GET"@,
            "POST"@,
            "PUT"@,
            "DELETE"@,
            "PATCH"@,
            "HEAD"@,
            "OPTIONS"@,
        ].contains(upper),
{
    reveal_strlit("GET");
    reveal_strlit("POST");
    reveal_strlit("PUT");
    reveal_strlit("DELETE");
    reveal_strlit("PATCH");
    reveal_strlit("HEAD");
    reveal_strlit("OPTIONS");
    assert("GET"@[0] != "POST"@[0] && "POST"@[1] != "PUT"@[1] && "POST"@[1] != "PATCH"@[1]
        && "PUT"@[1] != "PATCH"@[1]);
    let names = seq!["GET"@, "POST"@, "PUT"@, "DELETE"@, "PATCH"@, "HEAD"@, "OPTIONS"@];
    assert(names[0] == "GET"@ && names[1] == "POST"@ && names[2] == "PUT"@ && names[3] == "DELETE"@
        && names[4] == "PATCH"@ && names[5] == "HEAD"@ && names[6] == "OPTIONS"@);
}

/// A number and a unit are so many milliseconds: one for `ms`, a thousand for
/// `s`, sixty thousand for `m`. Only a duration in minutes may be too long to be
/// counted in seconds.
pub proof fn law_durations(n: nat)
    requires
        n <= u64::MAX,
    ensures
        duration_millis(decimal(n) + "ms"@) == Some(n),
        duration_millis(decimal(n) + "s"@) == Some(n * 1000),
        duration_millis(decimal(n) + "m"@) == Some(n * 60000),
        duration_fits(decimal(n) + "ms"@),
        duration_fits(decimal(n) + "s"@),
        duration_fits(decimal(n) + "m"@) <==> n * 60 <= u64::MAX,
{
    reveal_strlit("ms");
    reveal_strlit("s");
    reveal_strlit("m");
    law_decimal_reads_back(n, u64::MAX as nat);
    let digits = decimal(n);
    let len = digits.len() as int;
    assert(is_digit(digits[len - 1]));
    let a = digits + "ms"@;
    let b = digits + "s"@;
    let c = digits + "m"@;
    assert(a.skip(len) == "ms"@);
    assert(a.take(len) == digits);
    assert(b.skip(len) == "s"@);
    assert(b.take(len) == digits);
    assert(c.skip(len) == "m"@);
    assert(c.take(len) == digits);
    assert(!"ms"@.is_suffix_of(b)) by {
        if "ms"@.is_suffix_of(b) {
            assert(b[len - 1] == "ms"@[0]);
            assert(b[len - 1] == digits[len - 1]);
        }
    }
    assert(!"ms"@.is_suffix_of(c)) by {
        if "ms"@.is_suffix_of(c) {
            assert(c[len] == "ms"@[1]);
        }
    }
    assert(!"s"@.is_suffix_of(c)) by {
        if "s"@.is_suffix_of(c) {
            assert(c[len] == "s"@[0]);
        }
    }
}

/// Only a text that starts as a number does and ends in `s` or `m` is a duration.
pub proof fn law_other_texts_are_no_durations(timeout: Seq<char>)
    ensures
        duration_millis(timeout) is Some ==> timeout.len() > 1 && (timeout.last() == 's'
            || timeout.last() == 'm') && (is_digit(timeout[0]) || timeout[0] == '+'),
{
    reveal_strlit("ms");
    reveal_strlit("s");
    reveal_strlit("m");
    let n = timeout.len() as int;
    if duration_millis(timeout) is Some {
        if "ms"@.is_suffix_of(timeout) {
            assert(timeout[n - 1] == "ms"@[1]);
            law_parsed(timeout.take(n - 2), u64::MAX as nat);
        } else {
            if "s"@.is_suffix_of(timeout) {
                assert(timeout[n - 1] == "s"@[0]);
            } else {
                assert(timeout[n - 1] == "m"@[0]);
            }
            law_parsed(timeout.take(n - 1), u64::MAX as nat);
        }
    }
}

/// The method and the target of a request are the first and the second field of
/// its first line, whatever follows them. A method that is not known is not
/// told.
pub proof fn law_request_line(
    method: Seq<char>,
    target: Seq<char>,
    version: Seq<char>,
    rest: Seq<char>,
)
    requires
        !method.contains(' '),
        !method.contains('\n'),
        !target.contains(' '),
        !target.contains('\n'),
        !version.contains('\n'),
    ensures
        ({
            let head = method + " "@ + target + " "@ + version + "\r\n"@ + rest;
            &&& request_target(head) == Some(target)
            &&& first_line(head) == Some(method + " "@ + target + " "@ + version)
            &&& split(first_line(head)->0, ' ')[0] == method
            &&& verb_named(upper_cased(method)) is Some ==> request_method(head) == method
            &&& verb_named(upper_cased(method)) is None ==> request_method(head) == "UNKNOWN"@
        }),
{
    reveal_strlit(" ");
    reveal_strlit("\r\n");
    assert(" "@ == seq![' ']);
    assert("\r\n"@ == seq!['\r', '\n']);
    let line = method + " "@ + target + " "@ + version;
    let tail = target + " "@ + version;
    assert(line == method + seq![' '] + tail);
    assert forall|i: int| 0 <= i < line.len() implies line[i] != '\n' by {
        let m = method.len();
        let t = target.len();
        if i < m {
            assert(line[i] == method[i]);
        } else if m < i < m + 1 + t {
            assert(line[i] == target[i - m - 1]);
        } else if i > m + 1 + t {
            assert(line[i] == version[i - m - 2 - t]);
        }
    }
    law_lines(line, rest);
    assert(lines(line + "\r\n"@ + rest)[0] == line);
    law_split_at_first_finds(method, tail, ' ');
    law_split_at_first_finds(target, version, ' ');
    assert(tail == target + seq![' '] + version);
    assert(split(tail, ' ')[0] == target);
    assert(split(line, ' ')[0] == method);
    assert(split(line, ' ')[1] == target);
    assert(split(line, ' ').len() > 1);
}

/// The endpoint of a request is the path of its target with a slash in front,
/// whatever the query is.
pub proof fn law_query_does_not_change_the_endpoint(
    head: Seq<char>,
    path: Seq<char>,
    query: Seq<char>,
)
    requires
        !path.contains('?'),
        request_target(head) == Some(path) || request_target(head) == Some(path + "?"@ + query),
    ensures
        path.len() > 0 && path[0] == '/' ==> request_endpoint(head) == path,
        path.len() == 0 || path[0] != '/' ==> request_endpoint(head) == "/"@ + path,
{
    reveal_strlit("?");
    reveal_strlit("/");
    assert("?"@ == seq!['?']);
    law_split_at_first_finds(path, query, '?');
    law_split_at_first(path, '?');
    assert(path.len() > 0 && path[0] == '/' ==> path.take(1) == "/"@);
    if "/"@.is_prefix_of(path) {
        assert(path[0] == "/"@[0]);
    }
}

/// Whether a pair of a query asks for a timeout that is a duration.
pub open spec fn asks_for(pair: Seq<char>, duration: Seq<char>) -> bool {
    pair == "timeout="@ + duration
}

proof fn lemma_pair(pair: Seq<char>, duration: Seq<char>)
    ensures
        asks_for(pair, duration) ==> pair_timeout(pair) == duration_millis(duration) && (pair_fits(
            pair,
        ) <==> duration_fits(duration)),
        !"timeout="@.is_prefix_of(pair) ==> pair_timeout(pair) is None && pair_fits(pair),
{
    reveal_strlit("timeout=");
    reveal_strlit("timeout");
    let key = "timeout"@;
    assert("timeout="@ == key + seq!['=']);
    assert(!key.contains('='));
    if asks_for(pair, duration) {
        law_split_at_first_finds(key, duration, '=');
        assert(pair == key + seq!['='] + duration);
    }
    law_split_at_first(pair, '=');
    if let Some((head, tail)) = split_at_first(pair, '=') {
        if head == key {
            assert(pair == key + seq!['='] + tail);
            assert(pair.take(8) == "timeout="@);
        }
    }
}

/// Whether a pair of a query gives no timeout: its key is another, or what it
/// gives is no duration.
pub open spec fn gives_none(pair: Seq<char>) -> bool {
    "timeout="@.is_prefix_of(pair) ==> duration_millis(pair.skip(8)) is None
}

proof fn lemma_gives_none(pair: Seq<char>)
    requires
        gives_none(pair),
    ensures
        pair_timeout(pair) is None,
        pair_fits(pair),
{
    reveal_strlit("timeout=");
    lemma_pair(pair, pair.skip(8));
    if "timeout="@.is_prefix_of(pair) {
        assert(pair == "timeout="@ + pair.skip(8));
    }
}

proof fn lemma_first_timeout(pairs: Seq<Seq<char>>, i: int, duration: Seq<char>)
    requires
        0 <= i < pairs.len(),
        forall|j: int| 0 <= j < i ==> gives_none(#[trigger] pairs[j]),
        asks_for(pairs[i], duration),
        duration_millis(duration) is Some,
    ensures
        first_timeout(pairs) == duration_millis(duration),
        timeouts_fit(pairs) <==> duration_fits(duration),
    decreases i,
{
    if i == 0 {
        lemma_pair(pairs[0], duration);
    } else {
        lemma_gives_none(pairs[0]);
        let rest = pairs.drop_first();
        assert forall|j: int| 0 <= j < i - 1 implies gives_none(#[trigger] rest[j]) by {
            assert(rest[j] == pairs[j + 1]);
        }
        assert(rest[i - 1] == pairs[i]);
        lemma_first_timeout(rest, i - 1, duration);
    }
}

proof fn lemma_no_timeout(pairs: Seq<Seq<char>>)
    requires
        forall|j: int| 0 <= j < pairs.len() ==> gives_none(#[trigger] pairs[j]),
    ensures
        first_timeout(pairs) is None,
        timeouts_fit(pairs),
    decreases pairs.len(),
{
    if pairs.len() > 0 {
        lemma_gives_none(pairs[0]);
        let rest = pairs.drop_first();
        assert forall|j: int| 0 <= j < rest.len() implies gives_none(#[trigger] rest[j]) by {
            assert(rest[j] == pairs[j + 1]);
        }
        lemma_no_timeout(rest);
    }
}

/// The timeout of a request is that of the first pair `timeout=` in its query
/// that gives a duration, wherever among the pairs it stands; without such a
/// pair there is none.
pub proof fn law_timeout_of_the_query(
    head: Seq<char>,
    path: Seq<char>,
    pairs: Seq<Seq<char>>,
    i: int,
    duration: Seq<char>,
)
    requires
        !path.contains('?'),
        pairs.len() > 0,
        forall|j: int| 0 <= j < pairs.len() ==> !(#[trigger] pairs[j]).contains('&'),
        request_target(head) == Some(path + "?"@ + joined(pairs, "&"@)),
        forall|j: int| 0 <= j < i && j < pairs.len() ==> gives_none(#[trigger] pairs[j]),
    ensures
        0 <= i < pairs.len() && pairs[i] == "timeout="@ + duration && duration_millis(
            duration,
        ) is Some ==> request_timeout(head) == duration_millis(duration) && (request_timeout_fits(
            head,
        ) <==> duration_fits(duration)),
        i >= pairs.len() ==> request_timeout(head) is None && request_timeout_fits(head),
{
    reveal_strlit("?");
    reveal_strlit("&");
    assert("?"@ == seq!['?']);
    assert("&"@ == seq!['&']);
    law_split_at_first_finds(path, joined(pairs, "&"@), '?');
    law_split_undoes_join(pairs, '&');
    if 0 <= i < pairs.len() && pairs[i] == "timeout="@ + duration && duration_millis(
        duration,
    ) is Some {
        lemma_first_timeout(pairs, i, duration);
    }
    if i >= pairs.len() {
        lemma_no_timeout(pairs);
    }
}

/// A target without a query asks for no timeout.
pub proof fn law_no_query_no_timeout(head: Seq<char>, path: Seq<char>)
    requires
        !path.contains('?'),
        request_target(head) == Some(path),
    ensures
        request_timeout(head) is None,
        request_timeout_fits(head),
{
    reveal_strlit("");
    reveal_strlit("timeout=");
    law_split_at_first(path, '?');
    law_split_at_first(""@, '&');
    assert(split(""@, '&') == seq![""@]);
    assert(!"timeout="@.is_prefix_of(""@));
    assert(gives_none(""@));
    lemma_no_timeout(seq![""@]);
}

/// The lines of a head, each with its ending.
pub open spec fn header_block(list: Seq<Seq<char>>) -> Seq<char>
    decreases list.len(),
{
    if list.len() == 0 {
        seq![]
    } else {
        list[0] + "\r\n"@ + header_block(list.drop_first())
    }
}

/// Whether a text is a word in lower case, but for the case of its letters.
pub open spec fn reads_as(s: Seq<char>, word: Seq<char>) -> bool {
    s.len() == word.len() && forall|i: int|
        0 <= i < s.len() ==> ascii_lower(#[trigger] s[i]) == word[i]
}

/// Whether a line starts with the name of the length header and a colon, in
/// whatever case the name is written.
pub open spec fn starts_as_length(line: Seq<char>) -> bool {
    line.len() >= 15 && reads_as(line.take(15), "content-length:"@)
}

proof fn lemma_length_line(line: Seq<char>)
    ensures
        is_length_line(line) <==> starts_as_length(line),
{
    reveal_strlit("content-length:");
    let lowered = line.map_values(|c: char| ascii_lower(c));
    if line.len() >= 15 {
        let start = line.take(15);
        assert forall|i: int| 0 <= i < 15 implies lowered[i] == ascii_lower(
            #[trigger] start[i],
        ) by {}
        if reads_as(start, "content-length:"@) {
            assert forall|i: int| 0 <= i < 15 implies #[trigger] lowered.take(15)[i]
                == "content-length:"@[i] by {
                assert(ascii_lower(start[i]) == "content-length:"@[i]);
            }
            assert(lowered.take(15) == "content-length:"@);
        }
        if is_length_line(line) {
            assert forall|i: int| 0 <= i < 15 implies ascii_lower(#[trigger] start[i])
                == "content-length:"@[i] by {
                assert(lowered[i] == "content-length:"@[i]);
            }
        }
    }
}

proof fn lemma_headers_skipped(before: Seq<Seq<char>>, rest: Seq<char>)
    requires
        forall|i: int|
            0 <= i < before.len() ==> !(#[trigger] before[i]).contains('\n') && !starts_as_length(
                before[i],
            ),
    ensures
        length_line(lines(header_block(before) + rest)) == length_line(lines(rest)),
    decreases before.len(),
{
    reveal_strlit("\r\n");
    assert("\r\n"@ == seq!['\r', '\n']);
    if before.len() == 0 {
        assert(header_block(before) + rest == rest);
    } else {
        let more = before.drop_first();
        assert forall|i: int| 0 <= i < more.len() implies !(#[trigger] more[i]).contains('\n')
            && !starts_as_length(more[i]) by {
            assert(more[i] == before[i + 1]);
        }
        lemma_headers_skipped(more, rest);
        let line = before[0];
        lemma_length_line(line);
        law_lines(line, header_block(more) + rest);
        assert(header_block(before) + rest == line + seq!['\r', '\n'] + (header_block(more)
            + rest));
        assert((seq![line] + lines(header_block(more) + rest)).drop_first() == lines(
            header_block(more) + rest,
        ));
    }
}

/// The length that a head announces is the number in its first length header,
/// in whatever case its name is written and with whatever white space around the
/// number, whichever headers come before and after it; a number that the machine
/// cannot hold is none.
pub proof fn law_announced_length(
    before: Seq<Seq<char>>,
    name: Seq<char>,
    left: Seq<char>,
    n: nat,
    right: Seq<char>,
    rest: Seq<char>,
)
    requires
        forall|i: int|
            0 <= i < before.len() ==> !(#[trigger] before[i]).contains('\n') && !starts_as_length(
                before[i],
            ),
        reads_as(name, "content-length"@),
        forall|i: int|
            0 <= i < left.len() ==> is_white_space(#[trigger] left[i]) && left[i] != '\n',
        forall|i: int|
            0 <= i < right.len() ==> is_white_space(#[trigger] right[i]) && right[i] != '\n',
    ensures
        announced_length(
            header_block(before) + name + ":"@ + left + decimal(n) + right + "\r\n"@ + rest,
        ) == if n <= usize::MAX {
            Some(n)
        } else {
            None
        },
{
    reveal_strlit("content-length");
    reveal_strlit("content-length:");
    reveal_strlit(":");
    reveal_strlit("\r\n");
    assert("\r\n"@ == seq!['\r', '\n']);
    let digits = decimal(n);
    law_decimal_reads_back(n, usize::MAX as nat);
    if n > usize::MAX {
        law_large_numbers_are_refused(n, usize::MAX as nat);
    }
    assert(name.len() == 14);
    assert forall|i: int| 0 <= i < 14 implies name[i] != ':' && name[i] != '\n' by {
        assert(ascii_lower(name[i]) == "content-length"@[i]);
    }
    let value = left + digits + right;
    assert forall|i: int| 0 <= i < value.len() implies value[i] != ':' && value[i] != '\n' by {
        if i < left.len() {
            assert(value[i] == left[i]);
            assert(is_white_space(left[i]));
        } else if i < left.len() + digits.len() {
            assert(value[i] == digits[i - left.len()]);
            assert(is_digit(digits[i - left.len()]));
        } else {
            assert(value[i] == right[i - left.len() - digits.len()]);
            assert(is_white_space(right[i - left.len() - digits.len()]));
        }
    }
    let line = name + seq![':'] + value;
    assert(!line.contains('\n')) by {
        assert forall|i: int| 0 <= i < line.len() implies line[i] != '\n' by {
            if i < 14 {
                assert(line[i] == name[i]);
            } else if i > 14 {
                assert(line[i] == value[i - 15]);
            }
        }
    }
    let tail = line + seq!['\r', '\n'] + rest;
    lemma_headers_skipped(before, tail);
    assert(header_block(before) + name + ":"@ + left + digits + right + "\r\n"@ + rest
        == header_block(before) + tail);
    law_lines(line, rest);
    let start = line.take(15);
    assert forall|i: int| 0 <= i < 15 implies ascii_lower(#[trigger] start[i])
        == "content-length:"@[i] by {
        if i < 14 {
            assert(start[i] == name[i]);
        }
    }
    assert(starts_as_length(line));
    lemma_length_line(line);
    assert(lines(tail)[0] == line);
    law_split_at_first_finds(name, value, ':');
    law_split_at_first(value, ':');
    assert(split(value, ':')[0] == value);
    assert(split(line, ':')[1] == value);
    assert forall|i: int| 0 <= i < digits.len() implies !is_white_space(#[trigger] digits[i]) by {
        assert(is_digit(digits[i]));
    }
    law_trim_finds(left, digits, right);
}

/// A head without a length header announces no length.
pub proof fn law_no_length_is_announced(before: Seq<Seq<char>>)
    requires
        forall|i: int|
            0 <= i < before.len() ==> !(#[trigger] before[i]).contains('\n') && !starts_as_length(
                before[i],
            ),
    ensures
        announced_length(header_block(before)) is None,
{
    lemma_headers_skipped(before, Seq::empty());
    assert(header_block(before) + Seq::<char>::empty() == header_block(before));
    assert(lines(Seq::<char>::empty()) == Seq::<Seq<char>>::empty());
}

/// What a head leads to: it is refused with 400 exactly when its method or its
/// endpoint is not told, with 404 exactly when the endpoint is another than
/// `/authenticate`, with 405 exactly when the method is another than `POST`, with
/// 411 exactly when it announces no length, with 413 exactly when it announces
/// more than 65536 bytes, the first of these that holds; and it is accepted
/// otherwise, with the length and the timeout that it gives.
pub proof fn law_verdicts(head: Seq<char>)
    ensures
        ({
            let verdict = head_verdict(head);
            let method = request_method(head);
            let endpoint = request_endpoint(head);
            let length = announced_length(head);
            let untold = method == "UNKNOWN"@ || endpoint == "UNKNOWN"@;
            let elsewhere = !untold && endpoint != "/authenticate"@;
            let unposted = !untold && !elsewhere && method != "POST"@;
            let ours = !untold && !elsewhere && !unposted;
            &&& untold <==> verdict is Refuse && verdict->code == 400
            &&& elsewhere <==> verdict is Refuse && verdict->code == 404
            &&& unposted <==> verdict is Refuse && verdict->code == 405
            &&& ours && length is None <==> verdict is Refuse && verdict->code == 411
            &&& ours && length is Some && length->0 > 65536 <==> verdict is Refuse && verdict->code == 413
            &&& ours && length is Some && length->0 <= 65536 <==> verdict is Accept
            &&& verdict matches VerdictView::Refuse { endpoint: e, method: m, .. } ==> if untold {
                e == "UNKNOWN"@ && m == "UNKNOWN"@
            } else {
                e == endpoint && m == method
            }
            &&& verdict matches VerdictView::Accept { endpoint: e, timeout: t, length: n } ==> e
                == "/authenticate"@ && t == request_timeout(head) && Some(n) == length
        }),
{
}

/// A request that posts to `/authenticate` and announces at most 65536 bytes is
/// accepted with that length, whichever other headers it has; one that announces
/// more is refused with 413, and one that announces nothing with 411.
pub proof fn law_posted_requests_are_accepted_up_to_the_limit(
    version: Seq<char>,
    before: Seq<Seq<char>>,
    n: nat,
    rest: Seq<char>,
)
    requires
        !version.contains('\n'),
        forall|i: int|
            0 <= i < before.len() ==> !(#[trigger] before[i]).contains('\n') && !starts_as_length(
                before[i],
            ),
        ascii_upper_cased("POST"@),
    ensures
        ({
            let start = "POST /authenticate "@ + version + "\r\n"@ + header_block(before);
            let verdict = head_verdict(start + "Content-Length: "@ + decimal(n) + "\r\n"@ + rest);
            let endpoint = "/authenticate"@;
            let method = "POST"@;
            &&& n <= 65536 ==> verdict == VerdictView::Accept { endpoint, timeout: None, length: n }
            &&& 65536 < n <= usize::MAX ==> verdict == VerdictView::Refuse {
                code: 413,
                endpoint,
                method,
            }
            &&& head_verdict(start) == VerdictView::Refuse { code: 411, endpoint, method }
        }),
{
    reveal_strlit("POST /authenticate ");
    reveal_strlit("POST");
    reveal_strlit("/authenticate");
    reveal_strlit(" ");
    reveal_strlit(":");
    reveal_strlit("\r\n");
    reveal_strlit("Content-Length: ");
    reveal_strlit("Content-Length");
    reveal_strlit("content-length");
    reveal_strlit("content-length:");
    reveal_strlit("UNKNOWN");
    let post = "POST"@;
    let path = "/authenticate"@;
    let name = "Content-Length"@;
    let space = seq![' '];
    let first = post + " "@ + path + " "@ + version;
    let all = seq![first] + before;
    assert(post.map_values(|c: char| ascii_upper(c)) == post);
    assert(upper_cased(post) == post);
    law_known_methods(post);
    assert("UNKNOWN"@.len() == 7 && post.len() == 4 && path.len() == 13);
    // the lines of the head
    assert(!first.contains('\n')) by {
        assert forall|i: int| 0 <= i < first.len() implies first[i] != '\n' by {
            if i >= 19 {
                assert(first[i] == version[i - 19]);
            }
        }
    }
    assert(!starts_as_length(first)) by {
        let begin = first.take(15);
        assert(ascii_lower(begin[0]) != "content-length:"@[0]);
    }
    assert forall|i: int| 0 <= i < all.len() implies !(#[trigger] all[i]).contains('\n')
        && !starts_as_length(all[i]) by {
        if i > 0 {
            assert(all[i] == before[i - 1]);
        }
    }
    assert(all.drop_first() == before);
    let start = "POST /authenticate "@ + version + "\r\n"@ + header_block(before);
    assert(start == header_block(all));
    // with a length
    assert(reads_as(name, "content-length"@));
    law_announced_length(all, name, space, n, Seq::empty(), rest);
    let head = start + "Content-Length: "@ + decimal(n) + "\r\n"@ + rest;
    assert(head == header_block(all) + name + ":"@ + space + decimal(n) + Seq::<char>::empty()
        + "\r\n"@ + rest);
    let behind = header_block(before) + "Content-Length: "@ + decimal(n) + "\r\n"@ + rest;
    assert(head == post + " "@ + path + " "@ + version + "\r\n"@ + behind);
    law_request_line(post, path, version, behind);
    law_query_does_not_change_the_endpoint(head, path, Seq::empty());
    law_no_query_no_timeout(head, path);
    // without one
    assert(start == post + " "@ + path + " "@ + version + "\r\n"@ + header_block(before));
    law_no_length_is_announced(all);
    law_request_line(post, path, version, header_block(before));
    law_query_does_not_change_the_endpoint(start, path, Seq::empty());
}

/// A verdict is seen as it is, and a timeout as the milliseconds that it lasts.
pub proof fn law_verdicts_are_seen_as_they_are(verdict: Verdict, timeout: Timeout)
    ensures
        verdict@ is Accept <==> verdict is Accept,
        verdict matches Verdict::Refuse { code, endpoint, method } ==> verdict@
            == (VerdictView::Refuse { code, endpoint: endpoint@, method: method@ }),
        verdict matches Verdict::Accept { endpoint, timeout: t, length } ==> verdict@
            == (VerdictView::Accept {
            endpoint: endpoint@,
            timeout: t.deep_view(),
            length: length as nat,
        }),
        timeout@ == timeout.secs * 1000 + timeout.millis,
{
}

} // verus!
