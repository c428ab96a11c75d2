//! Fetching a publisher's page step by step. A step says what has to be done next; the functions
//! below take what came of it and give the step that follows.
use vstd::prelude::*;

use crate::address;
use crate::address::addresses_allowed;
use crate::html;
use crate::html::extract_abstract_html;
use crate::http;
use crate::http::{decode_lossy, http_status_reason, Head, ResponseHead, MAX_HTML_BODY_BYTES};
use crate::literal::IpAddress;
use crate::location;
use crate::location::{
    allowed_static_url, redirect_url, PageUrl, StaticTarget, Target, UrlParts,
};
use crate::paper;
use crate::paper::{found_or, missing, AbstractSource, EnrichResult, Outcome};

verus! {

/// How many redirects are followed.
pub const MAX_STATIC_REDIRECTS: usize = 5;

/// What has to be done next to scrape a page.
pub enum ScrapeStep {
    /// Look up the addresses of `host`, then call [`scrape_resolved`].
    Resolve { url: PageUrl, host: String, port: u16, redirects: usize },
    /// Ask for the page, without following redirects, then call [`scrape_answered`].
    Fetch { url: PageUrl, redirects: usize },
    /// Read the page, up to [`MAX_HTML_BODY_BYTES`], then call [`scrape_read`].
    Read,
    /// Nothing: this is the result.
    Finished(EnrichResult),
}

/// The mathematical form of a step.
pub enum ScrapeState {
    Resolve { url: UrlParts, host: Seq<char>, port: u16, redirects: nat },
    Fetch { url: UrlParts, redirects: nat },
    Read,
    Finished(Outcome),
}

impl View for ScrapeStep {
    type V = ScrapeState;

    open spec fn view(&self) -> ScrapeState {
        match self {
            ScrapeStep::Resolve { url, host, port, redirects } => ScrapeState::Resolve {
                url: url@,
                host: host@,
                port: *port,
                redirects: *redirects as nat,
            },
            ScrapeStep::Fetch { url, redirects } => ScrapeState::Fetch {
                url: url@,
                redirects: *redirects as nat,
            },
            ScrapeStep::Read => ScrapeState::Read,
            ScrapeStep::Finished(result) => ScrapeState::Finished(result@),
        }
    }
}

/// The end of a scrape that came upon a page which may not be fetched.
pub open spec fn rejected(redirects: nat) -> ScrapeState {
    ScrapeState::Finished(
        Outcome::Missing(
            if redirects == 0 {
                "URL rejected by static scraper"@
            } else {
                "redirect URL rejected"@
            },
        ),
    )
}

/// The step that follows once the page `url` may be fetched.
pub open spec fn cleared(url: UrlParts, redirects: nat) -> ScrapeState {
    if redirects > MAX_STATIC_REDIRECTS {
        ScrapeState::Finished(Outcome::Missing("too many redirects"@))
    } else {
        ScrapeState::Fetch { url, redirects }
    }
}

/// The step that follows once the scrape was led to `target`.
pub open spec fn led_to(target: Option<Target>, redirects: nat) -> ScrapeState {
    match target {
        Some(Target::Direct(url)) => cleared(url, redirects),
        Some(Target::Lookup { url, host, port }) => ScrapeState::Resolve {
            url,
            host,
            port,
            redirects,
        },
        None => rejected(redirects),
    }
}

/// The step that follows once the addresses of the host of `url` were looked up.
pub open spec fn after_lookup(
    url: UrlParts,
    redirects: nat,
    addresses: Option<Seq<IpAddress>>,
) -> ScrapeState {
    match addresses {
        Some(list) if address::all_public(list) => cleared(url, redirects),
        _ => rejected(redirects),
    }
}

/// The step that follows once the request for the page `url` was answered, or failed.
pub open spec fn after_answer(url: UrlParts, redirects: nat, head: Option<Head>) -> ScrapeState {
    match head {
        None => ScrapeState::Finished(Outcome::Missing("static scrape request failed"@)),
        Some(reply) => if http::redirection(reply.status) {
            match location::redirect_target(url.href, reply.location) {
                Some(next) => led_to(location::target_of(next), redirects + 1),
                None => ScrapeState::Finished(
                    Outcome::Missing("redirect without valid location"@),
                ),
            }
        } else if http::success(reply.status) {
            ScrapeState::Read
        } else {
            ScrapeState::Finished(
                Outcome::Missing(http::status_reason("static scrape HTTP"@, reply.status)),
            )
        },
    }
}

/// The result once the page was read, where its `body` was small enough and could be read.
pub open spec fn after_read(body: Option<Seq<u8>>, source: Option<AbstractSource>) -> Outcome {
    match body {
        Some(bytes) => paper::outcome_or(
            html::page_abstract(http::lossy_text(bytes), source),
            "static page had no extractable abstract"@,
        ),
        None => Outcome::Missing("static page too large or unreadable"@),
    }
}

fn scrape_rejected(redirects: usize) -> (r: ScrapeStep)
    ensures
        r@ == rejected(redirects as nat),
{
    if redirects == 0 {
        ScrapeStep::Finished(missing("URL rejected by static scraper"))
    } else {
        ScrapeStep::Finished(missing("redirect URL rejected"))
    }
}

fn scrape_cleared(url: PageUrl, redirects: usize) -> (r: ScrapeStep)
    ensures
        r@ == cleared(url@, redirects as nat),
{
    if redirects > MAX_STATIC_REDIRECTS {
        ScrapeStep::Finished(missing("too many redirects"))
    } else {
        ScrapeStep::Fetch { url, redirects }
    }
}

fn scrape_led_to(raw: &str, redirects: usize) -> (r: ScrapeStep)
    ensures
        r@ == led_to(location::target_of(raw@), redirects as nat),
{
    match allowed_static_url(raw) {
        Some(StaticTarget::Direct(url)) => scrape_cleared(url, redirects),
        Some(StaticTarget::Lookup { url, host, port }) => ScrapeStep::Resolve {
            url,
            host,
            port,
            redirects,
        },
        None => scrape_rejected(redirects),
    }
}

/// Begins to scrape the page at `url`.
pub fn static_scrape(url: &str) -> (r: ScrapeStep)
    ensures
        r@ == led_to(location::target_of(url@), 0),
{
    scrape_led_to(url, 0)
}

/// The step that follows once the addresses of the host of `url` were looked up; `None` stands
/// for a look-up that failed.
pub fn scrape_resolved(
    url: PageUrl,
    redirects: usize,
    addresses: &Option<Vec<IpAddress>>,
) -> (r: ScrapeStep)
    ensures
        r@ == after_lookup(
            url@,
            redirects as nat,
            match addresses {
                Some(list) => Some(list@),
                None => None,
            },
        ),
{
    match addresses {
        Some(list) => if addresses_allowed(list) {
            scrape_cleared(url, redirects)
        } else {
            scrape_rejected(redirects)
        },
        None => scrape_rejected(redirects),
    }
}

/// The step that follows once the request for the page `url` was answered; `None` stands for a
/// request that failed.
pub fn scrape_answered(url: &PageUrl, redirects: usize, head: &Option<ResponseHead>) -> (r:
    ScrapeStep)
    requires
        redirects <= MAX_STATIC_REDIRECTS,
    ensures
        r@ == after_answer(url@, redirects as nat, head.deep_view()),
{
    match head {
        None => ScrapeStep::Finished(missing("static scrape request failed")),
        Some(reply) => {
            if 300 <= reply.status && reply.status <= 399 {
                match redirect_url(url.href.as_str(), &reply.location) {
                    Some(next) => scrape_led_to(next.as_str(), redirects + 1),
                    None => ScrapeStep::Finished(missing("redirect without valid location")),
                }
            } else if 200 <= reply.status && reply.status <= 299 {
                ScrapeStep::Read
            } else {
                ScrapeStep::Finished(
                    EnrichResult::Missing(http_status_reason("static scrape HTTP", reply.status)),
                )
            }
        },
    }
}

/// The result once the page was read; `None` stands for a page that was too large or could not be
/// read.
pub fn scrape_read(body: &Option<Vec<u8>>, source: Option<AbstractSource>) -> (r: EnrichResult)
    requires
        body matches Some(bytes) ==> bytes@.len() <= MAX_HTML_BODY_BYTES,
    ensures
        r@ == after_read(
            match body {
                Some(bytes) => Some(bytes@),
                None => None,
            },
            source,
        ),
{
    match body {
        Some(bytes) => {
            let page = decode_lossy(bytes.as_slice());
            found_or(
                extract_abstract_html(page.as_str(), source),
                "static page had no extractable abstract",
            )
        },
        None => missing("static page too large or unreadable"),
    }
}

/// What came of a step.
pub enum ScrapeEvent {
    Resolved(Option<Seq<IpAddress>>),
    Answered(Option<Head>),
}

/// The step that follows `state` once `event` came of it.
pub open spec fn next_state(state: ScrapeState, event: ScrapeEvent) -> ScrapeState {
    match (state, event) {
        (
            ScrapeState::Resolve { url, host, port, redirects },
            ScrapeEvent::Resolved(addresses),
        ) => after_lookup(url, redirects, addresses),
        (ScrapeState::Fetch { url, redirects }, ScrapeEvent::Answered(head)) => after_answer(
            url,
            redirects,
            head,
        ),
        _ => state,
    }
}

/// How many requests a scrape that stands at `state` sends while `events` come of its steps.
pub open spec fn requests(state: ScrapeState, events: Seq<ScrapeEvent>) -> nat
    decreases events.len(),
{
    if events.len() == 0 {
        0
    } else {
        let sent: nat = if state is Fetch && events[0] is Answered {
            1
        } else {
            0
        };
        sent + requests(next_state(state, events[0]), events.skip(1))
    }
}

/// How many requests a scrape that stands at `state` may still send.
pub open spec fn requests_left(state: ScrapeState) -> int {
    match state {
        ScrapeState::Resolve { redirects, .. } => if redirects > MAX_STATIC_REDIRECTS {
            0
        } else {
            MAX_STATIC_REDIRECTS + 1 - redirects
        },
        ScrapeState::Fetch { redirects, .. } => MAX_STATIC_REDIRECTS + 1 - redirects,
        _ => 0,
    }
}

proof fn lemma_requests(state: ScrapeState, events: Seq<ScrapeEvent>)
    requires
        state matches ScrapeState::Fetch { redirects, .. } ==> redirects <= MAX_STATIC_REDIRECTS,
    ensures
        requests(state, events) <= requests_left(state),
    decreases events.len(),
{
    if events.len() > 0 {
        lemma_requests(next_state(state, events[0]), events.skip(1));
    }
}

/// Whatever the replies, a scrape sends one request for the page and at most one for each
/// redirect that is followed.
pub proof fn redirects_are_bounded(raw: Seq<char>, events: Seq<ScrapeEvent>)
    ensures
        requests(led_to(location::target_of(raw), 0), events) <= MAX_STATIC_REDIRECTS + 1,
{
    lemma_requests(led_to(location::target_of(raw), 0), events);
}

/// Whether the page that a step asks for, or looks up, may be fetched.
pub open spec fn asks_fetchable(state: ScrapeState) -> bool {
    match state {
        ScrapeState::Resolve { url, .. } => location::fetchable(url, location::url_ip(url)),
        ScrapeState::Fetch { url, .. } => location::fetchable(url, location::url_ip(url)),
        _ => true,
    }
}

/// Every page that a scrape asks for may be fetched: the first, and each that a redirect leads
/// to.
pub proof fn only_fetchable_pages_are_asked_for(raw: Seq<char>, events: Seq<ScrapeEvent>)
    ensures
        asks_fetchable(state_after(led_to(location::target_of(raw), 0), events)),
{
    lemma_asks_fetchable(led_to(location::target_of(raw), 0), events);
}

/// The step at which a scrape stands after `events`.
pub open spec fn state_after(state: ScrapeState, events: Seq<ScrapeEvent>) -> ScrapeState
    decreases events.len(),
{
    if events.len() == 0 {
        state
    } else {
        state_after(next_state(state, events[0]), events.skip(1))
    }
}

proof fn lemma_asks_fetchable(state: ScrapeState, events: Seq<ScrapeEvent>)
    requires
        asks_fetchable(state),
    ensures
        asks_fetchable(state_after(state, events)),
    decreases events.len(),
{
    if events.len() > 0 {
        lemma_asks_fetchable(next_state(state, events[0]), events.skip(1));
    }
}

/// A page whose host is no literal is asked for only once all addresses of the host, of which
/// there is at least one, are known to be public.
pub proof fn lookups_must_be_public(
    url: UrlParts,
    redirects: nat,
    addresses: Option<Seq<IpAddress>>,
)
    requires
        after_lookup(url, redirects, addresses) is Fetch,
    ensures
        addresses matches Some(list) && address::all_public(list),
{
}

/// A look-up clears a page just where it gave at least one address and every one of them is public;
/// any other result rejects it.
pub proof fn public_hosts_are_cleared(
    url: UrlParts,
    redirects: nat,
    addresses: Seq<IpAddress>,
)
    requires
        redirects <= MAX_STATIC_REDIRECTS,
    ensures
        addresses.len() > 0 && (forall|i: int|
            0 <= i < addresses.len() ==> address::public_ip(#[trigger] addresses[i]))
            ==> after_lookup(url, redirects, Some(addresses)) == (ScrapeState::Fetch {
            url,
            redirects,
        }),
        addresses.len() == 0 || (exists|i: int|
            0 <= i < addresses.len() && !address::public_ip(#[trigger] addresses[i]))
            ==> after_lookup(url, redirects, Some(addresses)) == after_lookup(url, redirects, None),
        after_lookup(url, redirects, None) == ScrapeState::Finished(
            Outcome::Missing(
                if redirects == 0 {
                    "URL rejected by static scraper"@
                } else {
                    "redirect URL rejected"@
                },
            ),
        ),
{
}

/// Two look-ups that each clear a page clear it together.
pub proof fn more_public_addresses_change_nothing(
    url: UrlParts,
    redirects: nat,
    first: Seq<IpAddress>,
    second: Seq<IpAddress>,
)
    requires
        after_lookup(url, redirects, Some(first)) is Fetch,
        after_lookup(url, redirects, Some(second)) is Fetch,
    ensures
        after_lookup(url, redirects, Some(first + second)) == after_lookup(
            url,
            redirects,
            Some(first),
        ),
{
    address::each_address_must_be_public(first, second, first[0]);
}

/// A page that may be fetched is asked for as it is: at once from the literal of an address, and
/// otherwise once its own host was looked up.
pub proof fn accepted_pages_are_asked_for(raw: Seq<char>, redirects: nat, url: UrlParts)
    requires
        redirects <= MAX_STATIC_REDIRECTS,
    ensures
        location::target_of(raw) == Some(Target::Direct(url)) ==> led_to(
            location::target_of(raw),
            redirects,
        ) == (ScrapeState::Fetch { url, redirects }),
        location::target_of(raw) matches Some(Target::Lookup { url: page, host, port }) ==> led_to(
            location::target_of(raw),
            redirects,
        ) == (ScrapeState::Resolve { url: page, host, port, redirects }),
        location::target_of(raw) is None ==> led_to(location::target_of(raw), redirects)
            == ScrapeState::Finished(
            Outcome::Missing(
                if redirects == 0 {
                    "URL rejected by static scraper"@
                } else {
                    "redirect URL rejected"@
                },
            ),
        ),
{
}

/// What follows the reply to a request for a page: success is read, a redirect is followed from the
/// page that was asked for, and all else is missing with its reason.
pub proof fn every_answer_is_decided(url: UrlParts, redirects: nat, reply: Head)
    ensures
        200 <= reply.status <= 299 ==> after_answer(url, redirects, Some(reply)) is Read,
        300 <= reply.status <= 399 ==> after_answer(url, redirects, Some(reply)) == match (
        match reply.location {
            Some(to) => location::joined_url(url.href, to),
            None => None,
        }) {
            Some(next) => led_to(location::target_of(next), redirects + 1),
            None => ScrapeState::Finished(Outcome::Missing("redirect without valid location"@)),
        },
        !(200 <= reply.status <= 399) ==> after_answer(url, redirects, Some(reply))
            == ScrapeState::Finished(
            Outcome::Missing(http::status_reason("static scrape HTTP"@, reply.status)),
        ),
        after_answer(url, redirects, None) == ScrapeState::Finished(
            Outcome::Missing("static scrape request failed"@),
        ),
{
}

/// A page that was read gives the abstract on it, by its source.
pub proof fn read_pages_give_their_abstract(bytes: Seq<u8>, source: Option<AbstractSource>)
    ensures
        html::page_abstract(http::lossy_text(bytes), source) matches Some(t) ==> after_read(
            Some(bytes),
            source,
        ) == Outcome::Found(t),
        html::page_abstract(http::lossy_text(bytes), source) is None ==> after_read(
            Some(bytes),
            source,
        ) == Outcome::Missing("static page had no extractable abstract"@),
        after_read(None, source) == Outcome::Missing("static page too large or unreadable"@),
{
}

/// A page that was cleared is asked for as long as at most five redirects led to it.
pub proof fn redirects_are_followed_up_to_the_bound(url: UrlParts, redirects: nat)
    ensures
        redirects <= 5 ==> cleared(url, redirects) == (ScrapeState::Fetch { url, redirects }),
        redirects > 5 ==> cleared(url, redirects) == ScrapeState::Finished(
            Outcome::Missing("too many redirects"@),
        ),
{
}

/// A step is what its fields say.
pub proof fn steps_are_seen_whole(
    url: PageUrl,
    host: String,
    port: u16,
    redirects: usize,
    result: EnrichResult,
)
    ensures
        (ScrapeStep::Resolve { url, host, port, redirects })@ == (ScrapeState::Resolve {
            url: url@,
            host: host@,
            port,
            redirects: redirects as nat,
        }),
        (ScrapeStep::Fetch { url, redirects })@ == (ScrapeState::Fetch {
            url: url@,
            redirects: redirects as nat,
        }),
        ScrapeStep::Read@ == ScrapeState::Read,
        ScrapeStep::Finished(result)@ == ScrapeState::Finished(result@),
{
}

} // verus!
