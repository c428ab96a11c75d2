//! Requests to the services and what becomes of their replies.
use vstd::prelude::*;

use crate::json;
use crate::json::{parse_json, Json, JsonTree};
use crate::number;
use crate::number::{decimal_string, parse_u64};

verus! {

/// The most bytes of a JSON reply that are read.
pub const MAX_JSON_BODY_BYTES: usize = 4_194_304;

/// The most bytes of a page that are read.
pub const MAX_HTML_BODY_BYTES: usize = 4_194_304;

/// The longest wait, in seconds, before a request is sent again.
pub const MAX_RATE_LIMIT_SLEEP: u64 = 65;

/// A `GET` request.
pub struct HttpRequest {
    pub url: String,
    /// Names and values that are added to the query of the URL.
    pub query: Vec<(String, String)>,
    pub headers: Vec<(String, String)>,
}

/// The mathematical form of a request.
pub struct Request {
    pub url: Seq<char>,
    pub query: Seq<(Seq<char>, Seq<char>)>,
    pub headers: Seq<(Seq<char>, Seq<char>)>,
}

impl View for HttpRequest {
    type V = Request;

    open spec fn view(&self) -> Request {
        Request {
            url: self.url@,
            query: self.query.deep_view(),
            headers: self.headers.deep_view(),
        }
    }
}

/// Appends a name and a value to a list.
pub fn push_pair(list: &mut Vec<(String, String)>, name: &str, value: &str)
    ensures
        final(list).deep_view() == old(list).deep_view().push((name@, value@)),
{
    let ghost before = list.deep_view();
    list.push((name.to_owned(), value.to_owned()));
    proof {
        assert(list.deep_view() == before.push((name@, value@)));
    }
}

/// The status and the headers of a reply. A header is absent where its value is no plain text.
pub struct ResponseHead {
    pub status: u16,
    pub retry_after: Option<String>,
    pub ratelimit_reset: Option<String>,
    pub location: Option<String>,
}

/// The mathematical form of the head of a reply.
pub struct Head {
    pub status: u16,
    pub retry_after: Option<Seq<char>>,
    pub ratelimit_reset: Option<Seq<char>>,
    pub location: Option<Seq<char>>,
}

impl View for ResponseHead {
    type V = Head;

    open spec fn view(&self) -> Head {
        Head {
            status: self.status,
            retry_after: self.retry_after.deep_view(),
            ratelimit_reset: self.ratelimit_reset.deep_view(),
            location: self.location.deep_view(),
        }
    }
}

impl DeepView for ResponseHead {
    type V = Head;

    open spec fn deep_view(&self) -> Head {
        self@
    }
}

/// Whether a status reports success.
pub open spec fn success(status: u16) -> bool {
    200 <= status <= 299
}

/// Whether a status reports a redirection.
pub open spec fn redirection(status: u16) -> bool {
    300 <= status <= 399
}

/// What a status means to the user.
pub open spec fn status_label(status: u16) -> Seq<char> {
    if status == 401 || status == 403 {
        "blocked"@
    } else if status == 429 {
        "rate limited"@
    } else if 500 <= status <= 599 {
        "server error"@
    } else {
        "request failed"@
    }
}

/// Why a request with this status gave nothing.
pub open spec fn status_reason(prefix: Seq<char>, status: u16) -> Seq<char> {
    prefix + " "@ + number::decimal(status as nat) + " ("@ + status_label(status) + ")"@
}

/// Why a request with this status gave nothing: `prefix`, the status and what it means.
pub fn http_status_reason(prefix: &str, status: u16) -> (r: String)
    ensures
        r@ == status_reason(prefix@, status),
{
    let label = if status == 401 || status == 403 {
        "blocked"
    } else if status == 429 {
        "rate limited"
    } else if 500 <= status && status <= 599 {
        "server error"
    } else {
        "request failed"
    };
    let digits = decimal_string(status as u64);
    let mut r = prefix.to_owned();
    r.append(" ");
    r.append(digits.as_str());
    r.append(" (");
    r.append(label);
    r.append(")");
    r
}

/// The number of seconds that a header gives.
pub open spec fn seconds(value: Option<Seq<char>>) -> Option<nat> {
    match value {
        Some(t) => number::unsigned_value(t, 10, u64::MAX as nat),
        None => None,
    }
}

/// The number of seconds that a header gives.
pub fn header_seconds(value: &Option<String>) -> (r: Option<u64>)
    ensures
        match r {
            Some(n) => seconds(value.deep_view()) == Some(n as nat),
            None => seconds(value.deep_view()) is None,
        },
{
    match value {
        Some(t) => parse_u64(t.as_str()),
        None => None,
    }
}

/// How many seconds to wait before a request is sent again: what `Retry-After` says, or else
/// `RateLimit-Reset`, or else a minute; at least one second and at most the longest wait.
pub open spec fn delay_seconds(
    retry_after: Option<Seq<char>>,
    ratelimit_reset: Option<Seq<char>>,
) -> nat {
    let asked = match seconds(retry_after) {
        Some(n) => n,
        None => match seconds(ratelimit_reset) {
            Some(n) => n,
            None => 60,
        },
    };
    if asked < 1 {
        1
    } else if asked > MAX_RATE_LIMIT_SLEEP as nat {
        MAX_RATE_LIMIT_SLEEP as nat
    } else {
        asked
    }
}

/// How many seconds to wait before a request is sent again.
pub fn rate_limit_delay(head: &ResponseHead) -> (r: u64)
    ensures
        r == delay_seconds(head@.retry_after, head@.ratelimit_reset),
        1 <= r <= MAX_RATE_LIMIT_SLEEP,
{
    let asked: u64 = match header_seconds(&head.retry_after) {
        Some(n) => n,
        None => match header_seconds(&head.ratelimit_reset) {
            Some(n) => n,
            None => 60,
        },
    };
    if asked < 1 {
        1
    } else if asked > MAX_RATE_LIMIT_SLEEP {
        MAX_RATE_LIMIT_SLEEP
    } else {
        asked
    }
}

/// How far the fetch of a JSON reply has come.
#[derive(Clone, Copy, Debug, PartialEq, Eq, Structural)]
pub enum FetchState {
    /// The request was sent once. `repeatable` tells whether it can be sent a second time.
    First { repeatable: bool },
    /// The request was sent a second time.
    Second,
}

/// What to do once a request was answered, or failed.
pub enum FetchAction {
    /// Give up, for this reason.
    Fail(String),
    /// Wait this many seconds, then send the request a second time.
    SendAgain(u64),
    /// Read the body of the reply.
    ReadBody,
}

/// The mathematical form of what to do.
pub enum FetchDecision {
    Fail(Seq<char>),
    SendAgain(nat),
    ReadBody,
}

impl View for FetchAction {
    type V = FetchDecision;

    open spec fn view(&self) -> FetchDecision {
        match self {
            FetchAction::Fail(reason) => FetchDecision::Fail(reason@),
            FetchAction::SendAgain(n) => FetchDecision::SendAgain(*n as nat),
            FetchAction::ReadBody => FetchDecision::ReadBody,
        }
    }
}

/// What to do once a request was answered with `head`, or failed.
pub open spec fn fetch_decision(state: FetchState, head: Option<Head>) -> FetchDecision {
    match head {
        None => match state {
            FetchState::First { .. } => FetchDecision::Fail("request failed"@),
            FetchState::Second => FetchDecision::Fail("request failed after rate limit"@),
        },
        Some(reply) => if reply.status == 429 && state == (FetchState::First { repeatable: true }) {
            FetchDecision::SendAgain(delay_seconds(reply.retry_after, reply.ratelimit_reset))
        } else if success(reply.status) {
            FetchDecision::ReadBody
        } else {
            FetchDecision::Fail(status_reason("HTTP"@, reply.status))
        },
    }
}

/// What to do once a request was answered with `head`, or failed: a request that was refused for
/// its rate is sent a second time, after a wait; any other reply than success ends the fetch.
pub fn fetch_step(state: FetchState, head: &Option<ResponseHead>) -> (r: FetchAction)
    ensures
        r@ == fetch_decision(state, head.deep_view()),
{
    match head {
        None => match state {
            FetchState::First { .. } => FetchAction::Fail("request failed".to_owned()),
            FetchState::Second => FetchAction::Fail("request failed after rate limit".to_owned()),
        },
        Some(reply) => {
            let again = match state {
                FetchState::First { repeatable } => repeatable,
                FetchState::Second => false,
            };
            if reply.status == 429 && again {
                FetchAction::SendAgain(rate_limit_delay(reply))
            } else if 200 <= reply.status && reply.status <= 299 {
                FetchAction::ReadBody
            } else {
                FetchAction::Fail(http_status_reason("HTTP", reply.status))
            }
        },
    }
}

/// The mathematical form of a JSON reply, or of the reason why there is none.
pub open spec fn reply_view(reply: Result<Json, String>) -> Result<JsonTree, Seq<char>> {
    match reply {
        Ok(json) => Ok(json@),
        Err(reason) => Err(reason@),
    }
}

/// The JSON document in the body of a reply, of which there is none where it was too large or
/// could not be read.
pub open spec fn body_document(body: Option<Seq<u8>>) -> Result<JsonTree, Seq<char>> {
    match body {
        Some(bytes) => match json::json_document(bytes) {
            Some(tree) => Ok(tree),
            None => Err("invalid JSON response"@),
        },
        None => Err("response too large or unreadable"@),
    }
}

/// The JSON document in the body of a reply.
pub fn body_json(body: &Option<Vec<u8>>) -> (r: Result<Json, String>)
    ensures
        reply_view(r) == body_document(body.deep_view()),
{
    match body {
        Some(bytes) => {
            proof {
                assert(body.deep_view().unwrap() == bytes@);
            }
            match parse_json(bytes.as_slice()) {
                Some(json) => Ok(json),
                None => Err("invalid JSON response".to_owned()),
            }
        },
        None => Err("response too large or unreadable".to_owned()),
    }
}

/// What the fetch of a JSON reply gives, where `first` and `second` are the replies to the first
/// and to the second request and `body` is the body of the reply that reports success.
pub open spec fn fetched(
    repeatable: bool,
    first: Option<Head>,
    second: Option<Head>,
    body: Option<Seq<u8>>,
) -> Result<JsonTree, Seq<char>> {
    match fetch_decision(FetchState::First { repeatable }, first) {
        FetchDecision::Fail(reason) => Err(reason),
        FetchDecision::ReadBody => body_document(body),
        FetchDecision::SendAgain(_) => match fetch_decision(FetchState::Second, second) {
            FetchDecision::Fail(reason) => Err(reason),
            FetchDecision::ReadBody => body_document(body),
            FetchDecision::SendAgain(_) => Err("request failed after rate limit"@),
        },
    }
}

/// A request is sent at most twice: once it was sent a second time, it is not sent again.
pub proof fn requests_are_sent_at_most_twice(head: Option<Head>)
    ensures
        !(fetch_decision(FetchState::Second, head) is SendAgain),
{
}

/// A request is sent a second time only where it was refused for its rate, after a wait of at
/// least one second and at most the longest wait.
pub proof fn only_rate_limits_are_waited_for(state: FetchState, head: Option<Head>)
    requires
        fetch_decision(state, head) is SendAgain,
    ensures
        head matches Some(reply) && reply.status == 429,
        1 <= fetch_decision(state, head)->SendAgain_0 <= MAX_RATE_LIMIT_SLEEP,
{
}

/// Whether a request was answered with success.
pub open spec fn answered_well(head: Option<Head>) -> bool {
    head matches Some(reply) && success(reply.status)
}

/// Whether a request was refused for its rate.
pub open spec fn refused_for_rate(head: Option<Head>) -> bool {
    head matches Some(reply) && reply.status == 429
}

/// A document is given only where the last request reported success and its body was read and is
/// JSON.
pub proof fn documents_come_from_successful_replies(
    repeatable: bool,
    first: Option<Head>,
    second: Option<Head>,
    body: Option<Seq<u8>>,
)
    requires
        fetched(repeatable, first, second, body) is Ok,
    ensures
        body matches Some(bytes) && json::json_document(bytes) == Some(
            fetched(repeatable, first, second, body)->Ok_0,
        ),
        answered_well(first) || (repeatable && refused_for_rate(first) && answered_well(second)),
{
}

/// The body of a reply, as far as it was read.
pub struct BodyReader {
    limit: usize,
    body: Vec<u8>,
}

impl BodyReader {
    /// The most bytes that are read.
    pub closed spec fn limit(&self) -> nat {
        self.limit as nat
    }

    /// The bytes that were read.
    pub closed spec fn body(&self) -> Seq<u8> {
        self.body@
    }

    /// No more bytes were read than the limit allows.
    #[verifier::type_invariant]
    spec fn within_limit(self) -> bool {
        self.body@.len() <= self.limit
    }

    /// Begins to read a body, unless the reply announces more bytes than `limit`.
    pub fn begin(announced: Option<u64>, limit: usize) -> (r: Option<BodyReader>)
        ensures
            match r {
                Some(reader) => !(announced matches Some(n) && n > limit) && reader.limit()
                    == limit && reader.body() == Seq::<u8>::empty(),
                None => announced matches Some(n) && n > limit,
            },
    {
        if let Some(n) = announced {
            if n > limit as u64 {
                return None;
            }
        }
        let reader = BodyReader { limit, body: Vec::new() };
        proof {
            assert(reader.body() == Seq::<u8>::empty());
        }
        Some(reader)
    }

    /// Takes the next chunk of the body. The result tells whether it was within the limit; where
    /// it was not, nothing is taken.
    pub fn push(&mut self, chunk: &[u8]) -> (r: bool)
        ensures
            r == (old(self).body().len() + chunk@.len() <= old(self).limit()),
            final(self).limit() == old(self).limit(),
            final(self).body() == if r {
                old(self).body() + chunk@
            } else {
                old(self).body()
            },
    {
        proof {
            use_type_invariant(&*self);
        }
        if chunk.len() > self.limit - self.body.len() {
            return false;
        }
        let ghost before = self.body@;
        let mut body: Vec<u8> = Vec::new();
        core::mem::swap(&mut body, &mut self.body);
        let mut i: usize = 0;
        while i < chunk.len()
            invariant
                i <= chunk@.len(),
                body@ == before + chunk@.take(i as int),
            decreases chunk@.len() - i,
        {
            body.push(chunk[i]);
            i += 1;
        }
        proof {
            assert(chunk@.take(chunk@.len() as int) == chunk@);
        }
        self.body = body;
        true
    }

    /// The bytes that were read.
    pub fn finish(self) -> (r: Vec<u8>)
        ensures
            r@ == self.body(),
            r@.len() <= self.limit(),
    {
        proof {
            use_type_invariant(&self);
        }
        self.body
    }
}

/// All chunks one after the other.
pub open spec fn joined_chunks(chunks: Seq<Seq<u8>>) -> Seq<u8>
    decreases chunks.len(),
{
    if chunks.len() == 0 {
        Seq::empty()
    } else {
        joined_chunks(chunks.drop_last()) + chunks.last()
    }
}

/// The body after all of `chunks` were pushed; `None` where one of them was over the limit.
pub open spec fn pushed(chunks: Seq<Seq<u8>>, limit: nat) -> Option<Seq<u8>>
    decreases chunks.len(),
{
    if chunks.len() == 0 {
        Some(Seq::empty())
    } else {
        match pushed(chunks.drop_last(), limit) {
            Some(body) if body.len() + chunks.last().len() <= limit => Some(body + chunks.last()),
            _ => None,
        }
    }
}

/// A body comes out whole where it is within the limit, and not at all where it is not.
pub proof fn bodies_are_whole_or_refused(chunks: Seq<Seq<u8>>, limit: nat)
    ensures
        pushed(chunks, limit) == if joined_chunks(chunks).len() <= limit {
            Some(joined_chunks(chunks))
        } else {
            None
        },
    decreases chunks.len(),
{
    if chunks.len() > 0 {
        bodies_are_whole_or_refused(chunks.drop_last(), limit);
    }
}

/// The text that `String::from_utf8_lossy` makes of bytes.
pub uninterp spec fn lossy_text(bytes: Seq<u8>) -> Seq<char>;

/// `String::from_utf8_lossy`: bytes that are valid UTF-8 are decoded; in others every invalid
/// sequence becomes a replacement character, which takes three bytes. The result depends on the
/// bytes alone.
#[verifier::external_body]
pub(crate) fn decode_lossy(bytes: &[u8]) -> (r: String)
    ensures
        r@ == lossy_text(bytes@),
        vstd::utf8::valid_utf8(bytes@) ==> r@ == vstd::utf8::decode_utf8(bytes@),
        vstd::utf8::encode_utf8(r@).len() <= 3 * bytes@.len(),
{
    String::from_utf8_lossy(bytes).into_owned()
}

/// The reason for a status carries the whole prefix, the status and what it means.
pub proof fn reasons_carry_the_status(prefix: Seq<char>, status: u16)
    ensures
        status_reason(prefix, status) == prefix + " "@ + number::decimal(status as nat) + " ("@
            + (if status == 429 {
            "rate limited"@
        } else if status == 401 || status == 403 {
            "blocked"@
        } else if status >= 500 && status < 600 {
            "server error"@
        } else {
            "request failed"@
        }) + ")"@,
{
}

/// The wait is what the reply asks for, `Retry-After` first, within a second and the longest wait;
/// a minute where it asks for nothing that can be read.
pub proof fn waits_are_as_asked(
    n: nat,
    asked: Option<Seq<char>>,
    other: Option<Seq<char>>,
    unreadable: Option<Seq<char>>,
)
    requires
        seconds(asked) == Some(n),
        seconds(unreadable) is None,
    ensures
        1 <= n <= 65 ==> delay_seconds(asked, other) == n,
        n == 0 ==> delay_seconds(asked, other) == 1,
        n > 65 ==> delay_seconds(asked, other) == 65,
        delay_seconds(unreadable, asked) == delay_seconds(asked, other),
        delay_seconds(unreadable, unreadable) == 60,
        delay_seconds(unreadable, None) == 60,
{
}

/// A header asks for the seconds that it spells in decimal digits.
pub proof fn headers_spell_seconds(n: nat, value: Seq<char>)
    ensures
        n <= u64::MAX ==> seconds(Some(number::decimal(n))) == Some(n),
        seconds(Some(value)) == number::unsigned_value(value, 10, u64::MAX as nat),
        seconds(None) is None,
{
    if n <= u64::MAX {
        number::decimal_reads_back(n, u64::MAX as nat);
    }
}

/// What follows a reply: success is read, a refusal for the rate is waited for once, and all else
/// fails with its reason.
pub proof fn every_reply_is_decided(repeatable: bool, reply: Head)
    ensures
        200 <= reply.status <= 299 ==> {
            &&& fetch_decision(FetchState::First { repeatable }, Some(reply)) is ReadBody
            &&& fetch_decision(FetchState::Second, Some(reply)) is ReadBody
        },
        reply.status == 429 && repeatable ==> fetch_decision(
            FetchState::First { repeatable },
            Some(reply),
        ) == FetchDecision::SendAgain(delay_seconds(reply.retry_after, reply.ratelimit_reset)),
        !(200 <= reply.status <= 299) && !(reply.status == 429 && repeatable) ==> fetch_decision(
            FetchState::First { repeatable },
            Some(reply),
        ) == FetchDecision::Fail(status_reason("HTTP"@, reply.status)),
        !(200 <= reply.status <= 299) ==> fetch_decision(FetchState::Second, Some(reply))
            == FetchDecision::Fail(status_reason("HTTP"@, reply.status)),
        fetch_decision(FetchState::First { repeatable }, None) == FetchDecision::Fail(
            "request failed"@,
        ),
        fetch_decision(FetchState::Second, None) == FetchDecision::Fail(
            "request failed after rate limit"@,
        ),
{
}

/// A body that is read gives the document that it holds, whatever it is.
pub proof fn readable_bodies_give_their_document(bytes: Seq<u8>)
    ensures
        json::json_document(bytes) matches Some(tree) ==> body_document(Some(bytes)) == Ok::<
            JsonTree,
            Seq<char>,
        >(tree),
        json::json_document(bytes) is None ==> body_document(Some(bytes)) == Err::<
            JsonTree,
            Seq<char>,
        >("invalid JSON response"@),
        body_document(None) == Err::<JsonTree, Seq<char>>("response too large or unreadable"@),
{
}

/// Joined chunks are the first ones joined and then the others; one chunk stays as it is.
pub proof fn chunks_are_joined_in_order(a: Seq<Seq<u8>>, b: Seq<Seq<u8>>, chunk: Seq<u8>)
    ensures
        joined_chunks(a + b) == joined_chunks(a) + joined_chunks(b),
        joined_chunks(seq![chunk]) == chunk,
    decreases b.len(),
{
    assert(seq![chunk].drop_last() == Seq::<Seq<u8>>::empty());
    assert(joined_chunks(seq![chunk].drop_last()) == Seq::<u8>::empty());
    assert(joined_chunks(seq![chunk]) == chunk);
    if b.len() == 0 {
        assert(a + b == a);
        assert(joined_chunks(a) + Seq::<u8>::empty() == joined_chunks(a));
    } else {
        chunks_are_joined_in_order(a, b.drop_last(), chunk);
        assert((a + b).drop_last() == a + b.drop_last());
        assert((a + b).last() == b.last());
        assert(joined_chunks(a + b) == joined_chunks(a) + joined_chunks(b));
    }
}

/// A request and a reply are what their fields say.
pub proof fn requests_and_replies_are_seen_whole(
    request: HttpRequest,
    reply: ResponseHead,
    json: Json,
    reason: String,
)
    ensures
        request@.url == request.url@,
        request@.query.len() == request.query@.len(),
        request@.headers.len() == request.headers@.len(),
        forall|i: int|
            0 <= i < request.query@.len() ==> #[trigger] request@.query[i] == (
                request.query@[i].0@,
                request.query@[i].1@,
            ),
        forall|i: int|
            0 <= i < request.headers@.len() ==> #[trigger] request@.headers[i] == (
                request.headers@[i].0@,
                request.headers@[i].1@,
            ),
        reply@.status == reply.status,
        reply.retry_after matches Some(t) ==> reply@.retry_after == Some(t@),
        reply.ratelimit_reset matches Some(t) ==> reply@.ratelimit_reset == Some(t@),
        reply.location matches Some(t) ==> reply@.location == Some(t@),
        reply.retry_after is None ==> reply@.retry_after is None,
        reply.ratelimit_reset is None ==> reply@.ratelimit_reset is None,
        reply.location is None ==> reply@.location is None,
        reply_view(Ok(json)) == Ok::<JsonTree, Seq<char>>(json@),
        reply_view(Err(reason)) == Err::<JsonTree, Seq<char>>(reason@),
{
}

/// What to do is what it says, with its whole reason or its seconds.
pub proof fn actions_are_seen_whole(reason: String, n: u64)
    ensures
        FetchAction::Fail(reason)@ == FetchDecision::Fail(reason@),
        FetchAction::SendAgain(n)@ == FetchDecision::SendAgain(n as nat),
        FetchAction::ReadBody@ == FetchDecision::ReadBody,
{
}

} // verus!
