//! Reading an HTTP request from a stream that hands it out in pieces.
use vstd::prelude::*;

use crate::request;
use crate::request::ascii_method;
use crate::request::head_verdict;
use crate::request::request_method;
use crate::request::request_timeout_fits;
use crate::request::Timeout;
use crate::request::Verdict;
use crate::request::VerdictView;
use crate::request::MAX_SIZE_PAYLOAD;
use crate::request::UNKNOWN;
use crate::text::lossless_if_valid;
use crate::text::lossy_text;
use crate::text::utf8_lossy;

verus! {

/// What has become of a request once it has been read.
pub enum ParseOutcome {
    /// The body, the endpoint, the length of the body and the timeout.
    Body(String, String, usize, Option<Timeout>),
    /// The status code, the endpoint, the method and the number of bytes.
    Handled(u16, String, String, usize),
}

/// What has become of a request once it has been read.
pub enum OutcomeView {
    Body(Seq<char>, Seq<char>, nat, Option<nat>),
    Handled(u16, Seq<char>, Seq<char>, nat),
}

impl View for ParseOutcome {
    type V = OutcomeView;

    open spec fn view(&self) -> OutcomeView {
        match *self {
            ParseOutcome::Body(body, endpoint, length, timeout) => OutcomeView::Body(
                body@,
                endpoint@,
                length as nat,
                timeout.deep_view(),
            ),
            ParseOutcome::Handled(code, endpoint, method, bytes) => OutcomeView::Handled(
                code,
                endpoint@,
                method@,
                bytes as nat,
            ),
        }
    }
}

impl ParseOutcome {
    /// Whether the timeout, if there is one, is well formed.
    pub open spec fn wf(self) -> bool {
        self matches ParseOutcome::Body(_, _, _, Some(t)) ==> t.wf()
    }
}

/// Whether an empty line ends at the fourth byte from `i` on.
pub open spec fn blank_line_at(raw: Seq<u8>, i: int) -> bool {
    &&& 0 <= i
    &&& i + 4 <= raw.len()
    &&& raw[i] == 13
    &&& raw[i + 1] == 10
    &&& raw[i + 2] == 13
    &&& raw[i + 3] == 10
}

/// Where the first empty line at or after `from` ends.
pub open spec fn blank_line_end(raw: Seq<u8>, from: int) -> Option<int>
    decreases raw.len() - from,
{
    if from + 4 > raw.len() {
        None
    } else if blank_line_at(raw, from) {
        Some(from + 4)
    } else {
        blank_line_end(raw, from + 1)
    }
}

/// Where the head of a request ends, once all of it is there.
pub open spec fn head_end(raw: Seq<u8>) -> Option<int> {
    blank_line_end(raw, 0)
}

/// What an end of a head is.
proof fn lemma_blank_line_end(raw: Seq<u8>, from: int)
    requires
        0 <= from,
    ensures
        blank_line_end(raw, from) is None ==> forall|i: int|
            from <= i ==> !#[trigger] blank_line_at(raw, i),
        blank_line_end(raw, from) matches Some(end) ==> {
            &&& from + 4 <= end <= raw.len()
            &&& blank_line_at(raw, end - 4)
            &&& forall|i: int| from <= i < end - 4 ==> !#[trigger] blank_line_at(raw, i)
        },
    decreases raw.len() - from,
{
    if from + 4 <= raw.len() && !blank_line_at(raw, from) {
        lemma_blank_line_end(raw, from + 1);
    }
}

/// Only one place has the properties of the end of a head.
pub proof fn lemma_head_end_is(raw: Seq<u8>, end: int)
    requires
        blank_line_at(raw, end - 4),
        forall|i: int| 0 <= i < end - 4 ==> !#[trigger] blank_line_at(raw, i),
    ensures
        head_end(raw) == Some(end),
{
    lemma_blank_line_end(raw, 0);
    if let Some(other) = head_end(raw) {
        if other < end {
            assert(blank_line_at(raw, other - 4));
        } else if other > end {
            assert(blank_line_at(raw, end - 4));
        }
    } else {
        assert(blank_line_at(raw, end - 4));
    }
}

/// A request of which the head is not yet complete.
pub struct RequestReader {
    raw: Vec<u8>,
}

impl View for RequestReader {
    type V = Seq<u8>;

    /// The bytes that have come so far.
    closed spec fn view(&self) -> Seq<u8> {
        self.raw@
    }
}

/// A request that is accepted and of which a part of the body is missing.
pub struct PendingBody {
    body: Vec<u8>,
    endpoint: String,
    length: usize,
    timeout: Option<Timeout>,
}

/// A request that is accepted and of which a part of the body is missing.
pub struct PendingView {
    pub body: Seq<u8>,
    pub endpoint: Seq<char>,
    pub length: nat,
    pub timeout: Option<nat>,
}

impl View for PendingBody {
    type V = PendingView;

    closed spec fn view(&self) -> PendingView {
        PendingView {
            body: self.body@,
            endpoint: self.endpoint@,
            length: self.length as nat,
            timeout: self.timeout.deep_view(),
        }
    }
}

/// What is to be done next.
pub enum ReadStep {
    /// Read some more bytes of the head.
    More(RequestReader),
    /// Read the missing part of the body.
    Rest(PendingBody),
    /// Answer with this status code, if there is one. Reading has ended.
    Done(Option<u16>, ParseOutcome),
    /// The timeout that the request asks for cannot be counted.
    Overflow,
}

/// What is to be done next.
pub enum StepView {
    More(Seq<u8>),
    Rest(PendingView),
    Done(Option<u16>, OutcomeView),
    Overflow,
}

impl View for ReadStep {
    type V = StepView;

    open spec fn view(&self) -> StepView {
        match *self {
            ReadStep::More(reader) => StepView::More(reader@),
            ReadStep::Rest(pending) => StepView::Rest(pending@),
            ReadStep::Done(respond, outcome) => StepView::Done(respond, outcome@),
            ReadStep::Overflow => StepView::Overflow,
        }
    }
}

/// The outcome for a body of which all bytes are there.
pub open spec fn body_outcome(pending: PendingView) -> OutcomeView {
    OutcomeView::Body(
        utf8_lossy(pending.body.take(pending.length as int)),
        pending.endpoint,
        pending.length,
        pending.timeout,
    )
}

/// What is done when the head ends at `end`. The bytes that are reported are
/// those behind the head, or for 411 those of the head.
pub open spec fn after_head(raw: Seq<u8>, end: int) -> StepView {
    let head = utf8_lossy(raw.take(end));
    if !request_timeout_fits(head) {
        StepView::Overflow
    } else {
        match head_verdict(head) {
            VerdictView::Refuse { code, endpoint, method } => StepView::Done(
                Some(code),
                OutcomeView::Handled(
                    code,
                    endpoint,
                    method,
                    (if code == 411 {
                        end
                    } else {
                        raw.len() - end
                    }) as nat,
                ),
            ),
            VerdictView::Accept { endpoint, timeout, length } => {
                let pending = PendingView { body: raw.skip(end), endpoint, length, timeout };
                if pending.body.len() < length {
                    StepView::Rest(pending)
                } else {
                    StepView::Done(None, body_outcome(pending))
                }
            },
        }
    }
}

/// What is done when the bytes of `all` have come. A head that is too long is
/// refused.
pub open spec fn judged(all: Seq<u8>) -> StepView {
    match head_end(all) {
        Some(end) => after_head(all, end),
        None => if all.len() > MAX_SIZE_PAYLOAD {
            StepView::Done(Some(413), OutcomeView::Handled(413, UNKNOWN@, UNKNOWN@, all.len()))
        } else {
            StepView::More(all)
        },
    }
}

/// What is done when `chunk` comes after the bytes of `raw`. A stream that has
/// ended is left without an answer.
pub open spec fn read_step(raw: Seq<u8>, chunk: Seq<u8>) -> StepView {
    if chunk.len() == 0 {
        StepView::Done(None, OutcomeView::Handled(204, UNKNOWN@, UNKNOWN@, 0))
    } else {
        judged(raw + chunk)
    }
}

/// Whether a head that ends in the bytes so far, and a body that is complete,
/// keep their text where they are valid UTF-8.
pub open spec fn decoded_losslessly(raw: Seq<u8>) -> bool {
    match head_end(raw) {
        Some(end) => {
            &&& lossless_if_valid(raw.take(end))
            &&& head_verdict(utf8_lossy(raw.take(end))) matches VerdictView::Accept { length, .. }
                ==> raw.skip(end).len() >= length ==> request_timeout_fits(
                utf8_lossy(raw.take(end)),
            ) ==> lossless_if_valid(raw.skip(end).take(length as int))
        },
        None => true,
    }
}

/// Whether the method of a head that ends in the bytes so far is known by what
/// the upper case of an ASCII text is.
pub open spec fn decoded_method(raw: Seq<u8>) -> bool {
    match head_end(raw) {
        Some(end) => request_timeout_fits(utf8_lossy(raw.take(end))) ==> ascii_method(
            utf8_lossy(raw.take(end)),
        ),
        None => true,
    }
}

impl PendingBody {
    #[verifier::type_invariant]
    spec fn wf(self) -> bool {
        &&& self.body@.len() < self.length
        &&& self.timeout matches Some(t) ==> t.wf()
    }

    /// How many bytes of the body are missing.
    pub fn missing(&self) -> (r: usize)
        ensures
            r == self@.length - self@.body.len(),
            r > 0,
    {
        proof {
            use_type_invariant(self);
        }
        self.length - self.body.len()
    }

    /// The outcome with the missing bytes.
    pub fn complete(self, rest: &[u8]) -> (r: ParseOutcome)
        requires
            rest@.len() == self@.length - self@.body.len(),
        ensures
            r@ == body_outcome(PendingView { body: self@.body + rest@, ..self@ }),
            r.wf(),
            lossless_if_valid(self@.body + rest@),
    {
        proof {
            use_type_invariant(&self);
        }
        let ghost before = self@;
        let mut body = self.body;
        body.extend_from_slice(rest);
        assert(body@ == before.body + rest@);
        assert(body@.take(before.length as int) == body@);
        let text = lossy_text(body.as_slice());
        ParseOutcome::Body(text, self.endpoint, self.length, self.timeout)
    }
}

impl RequestReader {
    #[verifier::type_invariant]
    spec fn wf(self) -> bool {
        &&& head_end(self.raw@) is None
        &&& self.raw@.len() <= MAX_SIZE_PAYLOAD
    }

    /// A request of which nothing has come.
    pub fn new() -> (r: Self)
        ensures
            r@ == Seq::<u8>::empty(),
    {
        RequestReader { raw: Vec::new() }
    }

    /// Takes the next bytes of the stream; none, when it has ended.
    pub fn on_read(self, chunk: &[u8]) -> (r: ReadStep)
        ensures
            r@ == read_step(self@, chunk@),
            r matches ReadStep::Done(_, outcome) ==> outcome.wf(),
            chunk@.len() > 0 ==> decoded_losslessly(self@ + chunk@),
            chunk@.len() > 0 ==> decoded_method(self@ + chunk@),
    {
        proof {
            use_type_invariant(&self);
        }
        if chunk.len() == 0 {
            return ReadStep::Done(
                None,
                ParseOutcome::Handled(204, UNKNOWN.to_string(), UNKNOWN.to_string(), 0),
            );
        }
        let ghost before = self.raw@;
        let old_len: usize = self.raw.len();
        let mut raw = self.raw;
        raw.extend_from_slice(chunk);
        assert(raw@ == before + chunk@);
        let len: usize = raw.len();
        let mut start: usize = if old_len < 3 {
            0
        } else {
            old_len - 3
        };
        proof {
            lemma_blank_line_end(before, 0);
            assert forall|i: int| 0 <= i < start implies !#[trigger] blank_line_at(raw@, i) by {
                assert(!blank_line_at(before, i));
            }
        }
        while len - start >= 4
            invariant
                start <= len,
                len == raw@.len(),
                raw@ == before + chunk@,
                before == self@,
                chunk@.len() > 0,
                forall|i: int| 0 <= i < start ==> !#[trigger] blank_line_at(raw@, i),
            decreases len - start,
        {
            if raw[start] == 13 && raw[start + 1] == 10 && raw[start + 2] == 13 && raw[start + 3]
                == 10 {
                let end: usize = start + 4;
                proof {
                    assert(blank_line_at(raw@, end - 4));
                    lemma_head_end_is(raw@, end as int);
                }
                return Self::on_head(raw, end);
            }
            assert(!blank_line_at(raw@, start as int));
            start += 1;
        }
        proof {
            lemma_blank_line_end(raw@, 0);
            if let Some(end) = head_end(raw@) {
                assert(blank_line_at(raw@, end - 4));
            }
        }
        if len > MAX_SIZE_PAYLOAD {
            return ReadStep::Done(
                Some(413),
                ParseOutcome::Handled(413, UNKNOWN.to_string(), UNKNOWN.to_string(), len),
            );
        }
        ReadStep::More(RequestReader { raw })
    }

    /// Takes a head that ends at `end`.
    fn on_head(raw: Vec<u8>, end: usize) -> (r: ReadStep)
        requires
            head_end(raw@) == Some(end as int),
            end <= raw@.len(),
        ensures
            r@ == after_head(raw@, end as int),
            r matches ReadStep::Done(_, outcome) ==> outcome.wf(),
            decoded_losslessly(raw@),
            decoded_method(raw@),
    {
        let head_bytes = &raw.as_slice()[0..end];
        assert(head_bytes@ == raw@.take(end as int));
        let head = lossy_text(head_bytes);
        if !request::timeout_fits(head.as_str()) {
            return ReadStep::Overflow;
        }
        let len: usize = raw.len();
        match request::judge_head(head.as_str()) {
            Verdict::Refuse { code, endpoint, method } => {
                let bytes: usize = if code == 411 {
                    end
                } else {
                    len - end
                };
                ReadStep::Done(Some(code), ParseOutcome::Handled(code, endpoint, method, bytes))
            },
            Verdict::Accept { endpoint, timeout, length } => {
                let received = &raw.as_slice()[end..len];
                assert(received@ == raw@.skip(end as int));
                if received.len() < length {
                    let mut body: Vec<u8> = Vec::new();
                    body.extend_from_slice(received);
                    assert(body@ == received@);
                    ReadStep::Rest(PendingBody { body, endpoint, length, timeout })
                } else {
                    let body = &received[0..length];
                    assert(body@ == received@.take(length as int));
                    let text = lossy_text(body);
                    ReadStep::Done(None, ParseOutcome::Body(text, endpoint, length, timeout))
                }
            },
        }
    }
}

/// The bytes that a stream hands out in `chunks`.
pub open spec fn stream(chunks: Seq<Seq<u8>>) -> Seq<u8>
    decreases chunks.len(),
{
    if chunks.len() == 0 {
        seq![]
    } else {
        chunks[0] + stream(chunks.drop_first())
    }
}

/// What a step comes to when the stream goes on with `behind`: a body that was
/// not complete takes what it lacks from there.
pub open spec fn settled(step: StepView, behind: Seq<u8>) -> StepView {
    match step {
        StepView::Rest(pending) => {
            let more = PendingView { body: pending.body + behind, ..pending };
            if more.body.len() < more.length {
                StepView::Rest(more)
            } else {
                StepView::Done(None, body_outcome(more))
            }
        },
        other => other,
    }
}

/// What reading a stream comes to that hands out `chunks` after `raw`.
pub open spec fn read_stream(raw: Seq<u8>, chunks: Seq<Seq<u8>>) -> StepView
    decreases chunks.len(),
{
    if chunks.len() == 0 {
        StepView::More(raw)
    } else {
        match read_step(raw, chunks[0]) {
            StepView::More(all) => read_stream(all, chunks.drop_first()),
            step => settled(step, stream(chunks.drop_first())),
        }
    }
}

/// A step without the number of bytes that is reported of a request that is
/// refused.
pub open spec fn without_count(step: StepView) -> StepView {
    match step {
        StepView::Done(respond, OutcomeView::Handled(code, endpoint, method, _)) => StepView::Done(
            respond,
            OutcomeView::Handled(code, endpoint, method, 0),
        ),
        other => other,
    }
}

/// A part of a stream ends its head where the stream does, or not at all.
proof fn lemma_head_end_of_part(all: Seq<u8>, behind: Seq<u8>, end: int)
    requires
        head_end(all + behind) == Some(end),
    ensures
        4 <= end <= (all + behind).len(),
        end <= all.len() ==> head_end(all) == Some(end),
        all.len() < end ==> head_end(all) is None,
{
    let total = all + behind;
    lemma_blank_line_end(total, 0);
    assert forall|i: int| 0 <= i < end - 4 implies !#[trigger] blank_line_at(all, i) by {
        assert(!blank_line_at(total, i));
    }
    if end <= all.len() {
        assert(blank_line_at(all, end - 4));
        lemma_head_end_is(all, end);
    } else {
        lemma_blank_line_end(all, 0);
        if let Some(other) = head_end(all) {
            assert(blank_line_at(all, other - 4));
            assert(blank_line_at(total, other - 4));
        }
    }
}

proof fn lemma_read_stream(raw: Seq<u8>, chunks: Seq<Seq<u8>>, end: int)
    requires
        forall|i: int| 0 <= i < chunks.len() ==> (#[trigger] chunks[i]).len() > 0,
        head_end(raw) is None,
        head_end(raw + stream(chunks)) == Some(end),
        end <= MAX_SIZE_PAYLOAD + 1,
    ensures
        without_count(read_stream(raw, chunks)) == without_count(
            after_head(raw + stream(chunks), end),
        ),
    decreases chunks.len(),
{
    if chunks.len() == 0 {
        assert(raw + stream(chunks) == raw);
    } else {
        let all = raw + chunks[0];
        let rest = chunks.drop_first();
        let behind = stream(rest);
        let total = raw + stream(chunks);
        assert(chunks[0].len() > 0);
        assert(total == all + behind);
        lemma_head_end_of_part(all, behind, end);
        if end <= all.len() {
            assert(all.take(end) == total.take(end));
            assert(total.skip(end) == all.skip(end) + behind);
            if let VerdictView::Accept { length, .. } = head_verdict(utf8_lossy(all.take(end))) {
                if length <= all.skip(end).len() {
                    assert(all.skip(end).take(length as int) == total.skip(end).take(
                        length as int,
                    ));
                }
            }
        } else {
            assert forall|i: int| 0 <= i < rest.len() implies (#[trigger] rest[i]).len() > 0 by {
                assert(rest[i] == chunks[i + 1]);
            }
            lemma_read_stream(all, rest, end);
        }
    }
}

/// Reading a stream in which no head ends.
proof fn lemma_read_headless_stream(raw: Seq<u8>, chunks: Seq<Seq<u8>>)
    requires
        forall|i: int| 0 <= i < chunks.len() ==> (#[trigger] chunks[i]).len() > 0,
        raw.len() <= MAX_SIZE_PAYLOAD,
        head_end(raw + stream(chunks)) is None,
    ensures
        without_count(read_stream(raw, chunks)) == without_count(judged(raw + stream(chunks))),
    decreases chunks.len(),
{
    if chunks.len() == 0 {
        assert(raw + stream(chunks) == raw);
    } else {
        let all = raw + chunks[0];
        let rest = chunks.drop_first();
        let total = raw + stream(chunks);
        assert(chunks[0].len() > 0);
        assert(total == all + stream(rest));
        lemma_blank_line_end(total, 0);
        lemma_blank_line_end(all, 0);
        if let Some(end) = head_end(all) {
            assert(blank_line_at(all, end - 4));
            assert(blank_line_at(total, end - 4));
        }
        if all.len() <= MAX_SIZE_PAYLOAD {
            assert forall|i: int| 0 <= i < rest.len() implies (#[trigger] rest[i]).len() > 0 by {
                assert(rest[i] == chunks[i + 1]);
            }
            lemma_read_headless_stream(all, rest);
        }
    }
}

/// However a stream is cut into pieces, a request whose head is not too long, or
/// does not end, comes to the same answer: it is refused with the same code,
/// endpoint and method, or accepted with the same body, length and timeout.
pub proof fn law_cuts_of_the_stream_are_immaterial(a: Seq<Seq<u8>>, b: Seq<Seq<u8>>)
    requires
        stream(a) == stream(b),
        forall|i: int| 0 <= i < a.len() ==> (#[trigger] a[i]).len() > 0,
        forall|i: int| 0 <= i < b.len() ==> (#[trigger] b[i]).len() > 0,
        head_end(stream(a)) matches Some(end) ==> end <= MAX_SIZE_PAYLOAD + 1,
    ensures
        without_count(read_stream(seq![], a)) == without_count(read_stream(seq![], b)),
        without_count(read_stream(seq![], a)) == without_count(judged(stream(a))),
{
    let none = Seq::<u8>::empty();
    assert(none + stream(a) == stream(a));
    assert(none + stream(b) == stream(b));
    match head_end(stream(a)) {
        Some(end) => {
            lemma_read_stream(none, a, end);
            lemma_read_stream(none, b, end);
        },
        None => {
            lemma_read_headless_stream(none, a);
            lemma_read_headless_stream(none, b);
        },
    }
}

/// Whether the head of a request has the method `POST`.
pub open spec fn posted(raw: Seq<u8>) -> bool {
    head_end(raw) matches Some(end) && request_method(utf8_lossy(raw.take(end))) == "POST"@
}

/// A body that is read is never longer than the largest one allowed, and a
/// request for another endpoint or with another method never gets that far.
pub proof fn law_only_posts_to_the_endpoint_are_read(raw: Seq<u8>, chunk: Seq<u8>)
    ensures
        read_step(raw, chunk) matches StepView::Rest(pending) ==> {
            &&& pending.length <= MAX_SIZE_PAYLOAD
            &&& pending.endpoint == request::AUTHENTICATE@
            &&& posted(raw + chunk)
        },
        read_step(raw, chunk) matches StepView::Done(
            respond,
            OutcomeView::Body(_, endpoint, length, _),
        ) ==> {
            &&& respond is None
            &&& length <= MAX_SIZE_PAYLOAD
            &&& endpoint == request::AUTHENTICATE@
            &&& posted(raw + chunk)
        },
        read_step(raw, chunk) matches StepView::Done(
            respond,
            OutcomeView::Handled(code, _, _, _),
        ) ==> respond == if code == 204 {
            None
        } else {
            Some(code)
        },
{
}

/// The head of a request ends where its first empty line does: behind the first
/// two pairs of a carriage return and a line feed in a row.
pub proof fn law_head_ends_at_the_first_empty_line(raw: Seq<u8>, end: int)
    ensures
        head_end(raw) == Some(end) <==> {
            &&& 4 <= end <= raw.len()
            &&& raw.subrange(end - 4, end) == seq![13u8, 10u8, 13u8, 10u8]
            &&& forall|i: int|
                #![trigger raw.subrange(i, i + 4)]
                0 <= i < end - 4 ==> raw.subrange(i, i + 4) != seq![13u8, 10u8, 13u8, 10u8]
        },
{
    let mark = seq![13u8, 10u8, 13u8, 10u8];
    lemma_blank_line_end(raw, 0);
    assert forall|i: int|
        #![trigger blank_line_at(raw, i)]
        0 <= i && i + 4 <= raw.len() implies (blank_line_at(raw, i) <==> raw.subrange(i, i + 4)
        == mark) by {
        let four = raw.subrange(i, i + 4);
        assert(four[0] == raw[i] && four[1] == raw[i + 1] && four[2] == raw[i + 2] && four[3]
            == raw[i + 3]);
        if blank_line_at(raw, i) {
            assert(four == mark);
        }
    }
    if head_end(raw) == Some(end) {
        assert(blank_line_at(raw, end - 4));
        assert(raw.subrange(end - 4, end - 4 + 4) == mark);
        assert forall|i: int|
            #![trigger raw.subrange(i, i + 4)]
            0 <= i < end - 4 implies raw.subrange(i, i + 4) != mark by {
            assert(!blank_line_at(raw, i));
        }
    }
    if 4 <= end <= raw.len() && raw.subrange(end - 4, end) == mark && forall|i: int|
        #![trigger raw.subrange(i, i + 4)]
        0 <= i < end - 4 ==> raw.subrange(i, i + 4) != mark {
        assert(raw.subrange(end - 4, end - 4 + 4) == mark);
        assert(blank_line_at(raw, end - 4)) by {
            let four = raw.subrange(end - 4, end);
            assert(four[0] == 13 && four[1] == 10 && four[2] == 13 && four[3] == 10);
        }
        assert forall|i: int| 0 <= i < end - 4 implies !#[trigger] blank_line_at(raw, i) by {
            if blank_line_at(raw, i) {
                assert(raw.subrange(i, i + 4) == mark);
            }
        }
        lemma_head_end_is(raw, end);
    }
}

/// What is done with a request follows from the text of its head alone, and its
/// body is what comes behind the head, as many bytes as the head announces: not
/// one less, and none that comes after them.
pub proof fn law_head_decides_and_body_follows(raw: Seq<u8>, end: int)
    requires
        head_end(raw) == Some(end),
    ensures
        ({
            let head = utf8_lossy(raw.take(end));
            let step = judged(raw);
            let behind = raw.skip(end);
            &&& !request_timeout_fits(head) <==> step is Overflow
            &&& request_timeout_fits(head) ==> match head_verdict(head) {
                VerdictView::Refuse { code, endpoint, method } => step matches StepView::Done(
                    respond,
                    OutcomeView::Handled(c, e, m, n),
                ) && respond == Some(code) && c == code && e == endpoint && m == method && n == (
                if code == 411 {
                    end
                } else {
                    behind.len() as int
                }),
                VerdictView::Accept { endpoint, timeout, length } => if behind.len() < length {
                    step == StepView::Rest(PendingView { body: behind, endpoint, length, timeout })
                } else {
                    step == StepView::Done(
                        None,
                        OutcomeView::Body(
                            utf8_lossy(behind.take(length as int)),
                            endpoint,
                            length,
                            timeout,
                        ),
                    )
                },
            }
        }),
{
    lemma_blank_line_end(raw, 0);
}

/// A body that was not complete is taken with the bytes that it lacked, in the
/// order in which they came.
pub proof fn law_body_is_completed(pending: PendingView, rest: Seq<u8>)
    requires
        pending.body.len() + rest.len() == pending.length,
    ensures
        body_outcome(PendingView { body: pending.body + rest, ..pending }) == OutcomeView::Body(
            utf8_lossy(pending.body + rest),
            pending.endpoint,
            pending.length,
            pending.timeout,
        ),
{
    let all = pending.body + rest;
    assert(all.take(pending.length as int) == all);
}

/// While no head has ended, nothing is answered as long as at most 65536 bytes
/// have come, and all of them are kept; with more the request is refused with
/// 413. A stream that has ended is not answered.
pub proof fn law_heads_without_an_end(raw: Seq<u8>, chunk: Seq<u8>)
    requires
        head_end(raw + chunk) is None,
    ensures
        chunk.len() > 0 && raw.len() + chunk.len() <= 65536 ==> read_step(raw, chunk)
            == StepView::More(raw + chunk),
        chunk.len() > 0 && raw.len() + chunk.len() > 65536 ==> (read_step(
            raw,
            chunk,
        ) matches StepView::Done(respond, OutcomeView::Handled(code, e, m, n)) && respond == Some(
            413u16,
        ) && code == 413 && e == "UNKNOWN"@ && m == "UNKNOWN"@ && n == raw.len() + chunk.len()),
        read_step(raw, Seq::empty()) == StepView::Done(
            None,
            OutcomeView::Handled(204, "UNKNOWN"@, "UNKNOWN"@, 0),
        ),
{
}

/// What is to be done, and what has become of a request, are seen as they are.
pub proof fn law_steps_are_seen_as_they_are(step: ReadStep)
    ensures
        step@ is More <==> step is More,
        step@ is Rest <==> step is Rest,
        step@ is Overflow <==> step is Overflow,
        step matches ReadStep::Done(respond, ParseOutcome::Handled(code, endpoint, method, n))
            ==> step@ == StepView::Done(
            respond,
            OutcomeView::Handled(code, endpoint@, method@, n as nat),
        ),
        step matches ReadStep::Done(respond, ParseOutcome::Body(body, endpoint, n, timeout))
            ==> step@ == StepView::Done(
            respond,
            OutcomeView::Body(body@, endpoint@, n as nat, timeout.deep_view()),
        ),
{
}

} // verus!
