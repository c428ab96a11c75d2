//! Finding the abstract of a paper step by step. A step says what has to be done next; the
//! functions below take what came of it and give the step that follows.
use vstd::prelude::*;

use crate::html::fits_markup_parser;
use crate::http;
use crate::http::{push_pair, HttpRequest, Request};
use crate::json::{Json, JsonTree};
use crate::location;
use crate::location::openreview_forum_id;
use crate::openreview;
use crate::openreview::{
    cached_openreview_abstract, from_openreview, listings_needed, note_query, openreview_get,
    OpenreviewBase, OpenreviewCache,
};
use crate::paper;
use crate::paper::{found_or, missing, AbstractSource, EnrichResult, Outcome, Paper, Secrets};
use crate::sources;
use crate::sources::{
    abstract_from_crossref, abstract_from_openalex, abstract_from_semantic_scholar,
    abstracts_from_openreview_notes, AbstractIndex,
};
use crate::text::{concat2, concat3, copied, push_string};

verus! {

/// The services that know papers by DOI, in the order in which they are asked.
#[derive(Clone, Copy, Debug, PartialEq, Eq, Structural)]
pub enum DoiApi {
    OpenAlex,
    SemanticScholar,
    Crossref,
}

/// The request to a service for the paper with a DOI, given the user's keys to OpenAlex and to
/// Semantic Scholar.
pub open spec fn api_request(
    api: DoiApi,
    doi: Seq<char>,
    openalex_key: Option<Seq<char>>,
    scholar_key: Option<Seq<char>>,
) -> Request {
    match api {
        DoiApi::OpenAlex => Request {
            url: "https://api.openalex.org/works/doi:"@ + doi,
            query: match openalex_key {
                Some(key) => seq![("api_key"@, key)],
                None => Seq::empty(),
            },
            headers: Seq::empty(),
        },
        DoiApi::SemanticScholar => Request {
            url: "https://api.semanticscholar.org/graph/v1/paper/DOI:"@ + doi
                + "?fields=abstract"@,
            query: Seq::empty(),
            headers: match scholar_key {
                Some(key) => seq![("x-api-key"@, key)],
                None => Seq::empty(),
            },
        },
        DoiApi::Crossref => Request {
            url: "https://api.crossref.org/works/"@ + doi,
            query: Seq::empty(),
            headers: Seq::empty(),
        },
    }
}

fn optional_pair(name: &str, value: &Option<String>) -> (r: Vec<(String, String)>)
    ensures
        r.deep_view() == match value.deep_view() {
            Some(v) => seq![(name@, v)],
            None => Seq::empty(),
        },
{
    let mut list: Vec<(String, String)> = Vec::new();
    proof {
        assert(list.deep_view() == Seq::<(Seq<char>, Seq<char>)>::empty());
    }
    if let Some(v) = value {
        push_pair(&mut list, name, v.as_str());
        proof {
            assert(list.deep_view() == seq![(name@, v@)]);
        }
    }
    list
}

/// The request to a service for the paper with a DOI.
pub fn doi_request(api: DoiApi, doi: &str, secrets: &Secrets) -> (r: HttpRequest)
    ensures
        r@ == api_request(
            api,
            doi@,
            secrets.openalex_api_key.deep_view(),
            secrets.semantic_scholar_key.deep_view(),
        ),
{
    match api {
        DoiApi::OpenAlex => HttpRequest {
            url: concat2("https://api.openalex.org/works/doi:", doi),
            query: optional_pair("api_key", &secrets.openalex_api_key),
            headers: optional_pair("", &None),
        },
        DoiApi::SemanticScholar => HttpRequest {
            url: concat3(
                "https://api.semanticscholar.org/graph/v1/paper/DOI:",
                doi,
                "?fields=abstract",
            ),
            query: optional_pair("", &None),
            headers: optional_pair("x-api-key", &secrets.semantic_scholar_key),
        },
        DoiApi::Crossref => HttpRequest {
            url: concat2("https://api.crossref.org/works/", doi),
            query: optional_pair("", &None),
            headers: optional_pair("", &None),
        },
    }
}

/// The abstract in the reply of a service.
pub open spec fn api_abstract(api: DoiApi, reply: JsonTree) -> Option<Seq<char>> {
    match api {
        DoiApi::OpenAlex => sources::openalex_abstract(reply),
        DoiApi::SemanticScholar => sources::plain_abstract(reply),
        DoiApi::Crossref => match reply.member("message"@) {
            Some(message) => sources::crossref_abstract(message),
            None => None,
        },
    }
}

/// Whether the markup in a reply is small enough for the parser.
pub open spec fn reply_fits(reply: Result<JsonTree, Seq<char>>) -> bool {
    match reply {
        Ok(tree) => match tree.member("message"@) {
            Some(message) => sources::crossref_fits(message),
            None => true,
        },
        Err(_) => true,
    }
}

/// Whether the markup in a reply is small enough for the parser.
pub fn fits_parser(reply: &Result<Json, String>) -> (r: bool)
    ensures
        r == reply_fits(http::reply_view(*reply)),
{
    match reply {
        Ok(json) => match json.get("message") {
            Some(message) => match message.get_str("abstract") {
                Some(markup) => fits_markup_parser(markup),
                None => true,
            },
            None => true,
        },
        Err(_) => true,
    }
}

/// What a service gives for a paper, by its reply.
pub open spec fn api_outcome(api: DoiApi, reply: Result<JsonTree, Seq<char>>) -> Outcome {
    match reply {
        Ok(tree) => paper::outcome_or(
            api_abstract(api, tree),
            "response had no extractable abstract"@,
        ),
        Err(reason) => Outcome::Missing(reason),
    }
}

/// What a service gives for a paper, by its reply.
pub fn fetch_abstract(api: DoiApi, reply: &Result<Json, String>) -> (r: EnrichResult)
    requires
        api == DoiApi::Crossref ==> reply_fits(http::reply_view(*reply)),
    ensures
        r@ == api_outcome(api, http::reply_view(*reply)),
{
    match reply {
        Ok(json) => {
            let found = match api {
                DoiApi::OpenAlex => abstract_from_openalex(json),
                DoiApi::SemanticScholar => abstract_from_semantic_scholar(json),
                DoiApi::Crossref => match json.get("message") {
                    Some(message) => abstract_from_crossref(message),
                    None => None,
                },
            };
            found_or(found, "response had no extractable abstract")
        },
        Err(reason) => EnrichResult::Missing(reason.clone()),
    }
}

/// What has to be done next to find the abstract of a paper.
pub enum EnrichStep {
    /// Ask the review platform ([`EnrichStep::request`]), then call [`EnrichStep::answered`].
    AskOpenreview { base: OpenreviewBase, forum_id: String, url: String },
    /// Ask a service ([`EnrichStep::request`]), then call [`EnrichStep::answered`].
    AskApi { api: DoiApi, doi: String, page: Option<String>, source: Option<AbstractSource> },
    /// Scrape the page; what that gives is the result.
    Scrape { url: String },
    /// Nothing: this is the result.
    Finished(EnrichResult),
}

/// The mathematical form of a step.
pub enum EnrichState {
    AskOpenreview { base: OpenreviewBase, forum_id: Seq<char>, url: Seq<char> },
    AskApi {
        api: DoiApi,
        doi: Seq<char>,
        page: Option<Seq<char>>,
        source: Option<AbstractSource>,
    },
    Scrape { url: Seq<char> },
    Finished(Outcome),
}

impl View for EnrichStep {
    type V = EnrichState;

    open spec fn view(&self) -> EnrichState {
        match self {
            EnrichStep::AskOpenreview { base, forum_id, url } => EnrichState::AskOpenreview {
                base: *base,
                forum_id: forum_id@,
                url: url@,
            },
            EnrichStep::AskApi { api, doi, page, source } => EnrichState::AskApi {
                api: *api,
                doi: doi@,
                page: page.deep_view(),
                source: *source,
            },
            EnrichStep::Scrape { url } => EnrichState::Scrape { url: url@ },
            EnrichStep::Finished(result) => EnrichState::Finished(result@),
        }
    }
}

/// The step for a paper that only its page is left of.
pub open spec fn by_page(url: Option<Seq<char>>) -> EnrichState {
    match url {
        Some(page) => EnrichState::Scrape { url: page },
        None => EnrichState::Finished(Outcome::Missing("paper has no DOI or URL"@)),
    }
}

/// The step that turns to the review platform for one of its papers, where `forum_id` is what the
/// paper's page names.
pub open spec fn begun_on_platform(url: Option<Seq<char>>, forum_id: Option<Seq<char>>) -> EnrichState {
    match url {
        Some(page) => match forum_id {
            Some(id) => EnrichState::AskOpenreview {
                base: OpenreviewBase::Current,
                forum_id: id,
                url: page,
            },
            None => EnrichState::Scrape { url: page },
        },
        None => EnrichState::Finished(Outcome::Missing("OpenReview paper has no URL"@)),
    }
}

/// The forum identifier in the address of a paper's page.
pub open spec fn forum_of(url: Option<Seq<char>>) -> Option<Seq<char>> {
    match url {
        Some(page) => location::forum_id(page),
        None => None,
    }
}

/// The step for a paper of which no service has an abstract: a paper of the review platform is
/// asked for there, and any other left with its page.
pub open spec fn after_services(
    url: Option<Seq<char>>,
    source: Option<AbstractSource>,
) -> EnrichState {
    if source == Some(AbstractSource::Openreview) {
        begun_on_platform(url, forum_of(url))
    } else {
        by_page(url)
    }
}

/// The first step for a paper with the given DOI, if it has one.
pub open spec fn begun_by_doi(
    doi: Option<Seq<char>>,
    url: Option<Seq<char>>,
    source: Option<AbstractSource>,
) -> EnrichState {
    match doi {
        Some(d) => EnrichState::AskApi { api: DoiApi::OpenAlex, doi: d, page: url, source },
        None => after_services(url, source),
    }
}

/// The first step for a paper.
pub open spec fn begun(paper: Paper, source: Option<AbstractSource>) -> EnrichState {
    begun_by_doi(paper.doi.deep_view(), paper.url.deep_view(), source)
}

/// The abstract that a reply of the review platform has for a forum.
pub open spec fn note_found(
    reply: Result<JsonTree, Seq<char>>,
    forum_id: Seq<char>,
) -> Option<Seq<char>> {
    match reply {
        Ok(tree) if sources::notes_index(sources::notes_of(tree)).contains_key(forum_id) => Some(
            sources::notes_index(sources::notes_of(tree))[forum_id],
        ),
        _ => None,
    }
}

/// The step that follows once the review platform was asked for a note.
pub open spec fn after_note(
    base: OpenreviewBase,
    forum_id: Seq<char>,
    url: Seq<char>,
    reply: Result<JsonTree, Seq<char>>,
) -> EnrichState {
    match note_found(reply, forum_id) {
        Some(text) => EnrichState::Finished(Outcome::Found(text)),
        None => match base {
            OpenreviewBase::Current => EnrichState::AskOpenreview {
                base: OpenreviewBase::Older,
                forum_id,
                url,
            },
            OpenreviewBase::Older => EnrichState::Scrape { url },
        },
    }
}

/// The step that follows once a service was asked.
pub open spec fn after_api(
    api: DoiApi,
    doi: Seq<char>,
    page: Option<Seq<char>>,
    source: Option<AbstractSource>,
    reply: Result<JsonTree, Seq<char>>,
) -> EnrichState {
    match api_outcome(api, reply) {
        Outcome::Found(text) => EnrichState::Finished(Outcome::Found(text)),
        Outcome::Missing(_) => match api {
            DoiApi::OpenAlex => EnrichState::AskApi {
                api: DoiApi::SemanticScholar,
                doi,
                page,
                source,
            },
            DoiApi::SemanticScholar => EnrichState::AskApi {
                api: DoiApi::Crossref,
                doi,
                page,
                source,
            },
            DoiApi::Crossref => after_services(page, source),
        },
    }
}

/// The step that follows `state` once its request came back with `reply`.
pub open spec fn after_reply(state: EnrichState, reply: Result<JsonTree, Seq<char>>) -> EnrichState {
    match state {
        EnrichState::AskOpenreview { base, forum_id, url } => after_note(
            base,
            forum_id,
            url,
            reply,
        ),
        EnrichState::AskApi { api, doi, page, source } => after_api(
            api,
            doi,
            page,
            source,
            reply,
        ),
        _ => state,
    }
}

/// The request of a step, if it has one.
pub open spec fn request_of(
    state: EnrichState,
    secrets: Secrets,
    token: Option<Seq<char>>,
) -> Option<Request> {
    match state {
        EnrichState::AskOpenreview { base, forum_id, .. } => Some(
            Request {
                url: openreview::base_url(base),
                query: seq![("id"@, forum_id)],
                headers: openreview::login_headers(openreview::base_url(base), token),
            },
        ),
        EnrichState::AskApi { api, doi, .. } => Some(
            api_request(
                api,
                doi,
                secrets.openalex_api_key.deep_view(),
                secrets.semantic_scholar_key.deep_view(),
            ),
        ),
        _ => None,
    }
}

fn step_by_page(url: Option<String>) -> (r: EnrichStep)
    ensures
        r@ == by_page(url.deep_view()),
{
    match url {
        Some(page) => EnrichStep::Scrape { url: page },
        None => EnrichStep::Finished(missing("paper has no DOI or URL")),
    }
}

impl EnrichStep {
    /// The request of this step, if it has one; `token` is the token of the login to the review
    /// platform.
    pub fn request(&self, secrets: &Secrets, token: &Option<String>) -> (r: Option<HttpRequest>)
        ensures
            match r {
                Some(request) => request_of(self@, *secrets, token.deep_view()) == Some(request@),
                None => request_of(self@, *secrets, token.deep_view()) is None,
            },
    {
        match self {
            EnrichStep::AskOpenreview { base, forum_id, .. } => Some(
                openreview_get(base.url(), note_query(forum_id.as_str()), token),
            ),
            EnrichStep::AskApi { api, doi, .. } => Some(doi_request(*api, doi.as_str(), secrets)),
            _ => None,
        }
    }

    /// The step that follows once the request of this step came back with `reply`.
    pub fn answered(self, reply: &Result<Json, String>) -> (r: EnrichStep)
        requires
            self matches EnrichStep::AskApi { api: DoiApi::Crossref, .. } ==> reply_fits(
                http::reply_view(*reply),
            ),
        ensures
            r@ == after_reply(self@, http::reply_view(*reply)),
    {
        match self {
            EnrichStep::AskOpenreview { base, forum_id, url } => {
                if let Ok(json) = reply {
                    let index = abstracts_from_openreview_notes(json);
                    if let Some(text) = index.get(forum_id.as_str()) {
                        return EnrichStep::Finished(EnrichResult::Found(text));
                    }
                }
                match base {
                    OpenreviewBase::Current => EnrichStep::AskOpenreview {
                        base: OpenreviewBase::Older,
                        forum_id,
                        url,
                    },
                    OpenreviewBase::Older => EnrichStep::Scrape { url },
                }
            },
            EnrichStep::AskApi { api, doi, page, source } => match fetch_abstract(api, reply) {
                EnrichResult::Found(text) => EnrichStep::Finished(EnrichResult::Found(text)),
                EnrichResult::Missing(_) => match api {
                    DoiApi::OpenAlex => EnrichStep::AskApi {
                        api: DoiApi::SemanticScholar,
                        doi,
                        page,
                        source,
                    },
                    DoiApi::SemanticScholar => EnrichStep::AskApi {
                        api: DoiApi::Crossref,
                        doi,
                        page,
                        source,
                    },
                    DoiApi::Crossref => step_after_services(&page, source),
                },
            },
            other => other,
        }
    }
}

/// Turns to the review platform for one of its papers, where `forum_id` is what the address of the
/// paper's page names.
pub fn openreview_api_abstract(url: &Option<String>, forum_id: Option<String>) -> (r: EnrichStep)
    ensures
        r@ == begun_on_platform(url.deep_view(), forum_id.deep_view()),
{
    match url {
        Some(page) => match forum_id {
            Some(id) => EnrichStep::AskOpenreview {
                base: OpenreviewBase::Current,
                forum_id: id,
                url: page.clone(),
            },
            None => EnrichStep::Scrape { url: page.clone() },
        },
        None => EnrichStep::Finished(missing("OpenReview paper has no URL")),
    }
}

fn step_after_services(url: &Option<String>, source: Option<AbstractSource>) -> (r: EnrichStep)
    ensures
        r@ == after_services(url.deep_view(), source),
{
    if from_openreview(source) {
        let forum_id = match url {
            Some(page) => openreview_forum_id(page.as_str()),
            None => None,
        };
        openreview_api_abstract(url, forum_id)
    } else {
        step_by_page(copied(url))
    }
}

/// Begins to find the abstract of a paper by its DOI, if it has one.
pub fn api_by_doi(
    doi: &Option<String>,
    url: &Option<String>,
    source: Option<AbstractSource>,
) -> (r: EnrichStep)
    ensures
        r@ == begun_by_doi(doi.deep_view(), url.deep_view(), source),
{
    match doi {
        Some(d) => EnrichStep::AskApi {
            api: DoiApi::OpenAlex,
            doi: d.clone(),
            page: copied(url),
            source,
        },
        None => step_after_services(url, source),
    }
}

/// What is known and kept while abstracts are found.
pub struct Enricher {
    pub secrets: Secrets,
    /// The listings of the review platform that were read.
    pub openreview_cache: OpenreviewCache,
}

/// The first step for a paper, given the listings that were read.
pub open spec fn begun_with(
    cache: Map<(Seq<char>, i32), Map<Seq<char>, Seq<char>>>,
    paper: Paper,
    source: Option<AbstractSource>,
) -> EnrichState {
    match openreview::cached_abstract(cache, paper, source) {
        Some(text) => EnrichState::Finished(Outcome::Found(text)),
        None => begun(paper, source),
    }
}

impl Enricher {
    /// An enricher that knows no listing yet.
    pub fn new(secrets: Secrets) -> (r: Enricher)
        ensures
            r.secrets == secrets,
            r.openreview_cache@ == Map::<
                (Seq<char>, i32),
                Map<Seq<char>, Seq<char>>,
            >::empty(),
    {
        Enricher { secrets, openreview_cache: OpenreviewCache::new() }
    }

    /// Begins to find the abstract of a paper: by its DOI, then on the review platform where that
    /// is its source, and then on its page.
    pub fn enrich(&self, paper: &Paper, source: Option<AbstractSource>) -> (r: EnrichStep)
        ensures
            r@ == begun(*paper, source),
    {
        api_by_doi(&paper.doi, &paper.url, source)
    }

    /// Begins to find the abstracts of many papers: gives the venues and years of the review
    /// platform that have to be listed first, in order, and how many papers may then be worked on
    /// at once. Each listing goes to [`Enricher::listed`], and each paper to
    /// [`Enricher::enrich_listed`].
    pub fn enrich_many(&self, inputs: &Vec<(Paper, Option<AbstractSource>)>, jobs: usize) -> (r: (
        Vec<(String, i32)>,
        usize,
    ))
        ensures
            openreview::keys_in_order(r.0.deep_view()),
            forall|key: (Seq<char>, i32)|
                r.0.deep_view().contains(key) <==> openreview::listing_needed(
                    inputs@,
                    self.openreview_cache@,
                    key,
                ),
            r.1 == if jobs == 0 {
                1
            } else {
                jobs as int
            },
    {
        let concurrent: usize = if jobs == 0 {
            1
        } else {
            jobs
        };
        (listings_needed(inputs, &self.openreview_cache), concurrent)
    }

    /// Keeps what the listing of a venue and year gave; a listing that failed counts as empty, and
    /// leaves a warning.
    pub fn listed(
        &mut self,
        venue: &str,
        year: i32,
        listed: Result<AbstractIndex, String>,
        warnings: &mut Vec<String>,
    )
        ensures
            final(self).secrets == old(self).secrets,
            match listed {
                Ok(index) => {
                    &&& final(self).openreview_cache@ == old(self).openreview_cache@.insert(
                        (venue@, year),
                        index@,
                    )
                    &&& final(warnings).deep_view() == old(warnings).deep_view()
                },
                Err(reason) => {
                    &&& final(self).openreview_cache@ == old(self).openreview_cache@.insert(
                        (venue@, year),
                        Map::empty(),
                    )
                    &&& final(warnings).deep_view() == old(warnings).deep_view().push(
                        openreview::listing_warning(venue@, year as int, reason@),
                    )
                },
            },
    {
        let warning = self.openreview_cache.record(venue, year, listed);
        if let Some(text) = warning {
            push_string(warnings, text);
        }
    }

    /// Begins to find the abstract of a paper once the listings were read: a listing that has it
    /// gives the result.
    pub fn enrich_listed(&self, paper: &Paper, source: Option<AbstractSource>) -> (r: EnrichStep)
        ensures
            r@ == begun_with(self.openreview_cache@, *paper, source),
    {
        match cached_openreview_abstract(&self.openreview_cache, paper, source) {
            Some(text) => EnrichStep::Finished(EnrichResult::Found(text)),
            None => self.enrich(paper, source),
        }
    }
}

/// The step at which the search for an abstract stands after `replies`.
pub open spec fn state_after(
    state: EnrichState,
    replies: Seq<Result<JsonTree, Seq<char>>>,
) -> EnrichState
    decreases replies.len(),
{
    if replies.len() == 0 {
        state
    } else {
        state_after(after_reply(state, replies[0]), replies.skip(1))
    }
}

/// How many requests the search for an abstract may still send before it is finished or left with
/// the page.
pub open spec fn requests_left(state: EnrichState) -> int {
    match state {
        EnrichState::AskOpenreview { base, .. } => match base {
            OpenreviewBase::Current => 2,
            OpenreviewBase::Older => 1,
        },
        EnrichState::AskApi { api, .. } => match api {
            DoiApi::OpenAlex => 5,
            DoiApi::SemanticScholar => 4,
            DoiApi::Crossref => 3,
        },
        _ => 0,
    }
}

proof fn lemma_requests_end(state: EnrichState, replies: Seq<Result<JsonTree, Seq<char>>>)
    requires
        replies.len() >= requests_left(state),
    ensures
        requests_left(state_after(state, replies)) == 0,
    decreases replies.len(),
{
    if replies.len() > 0 {
        lemma_requests_end(after_reply(state, replies[0]), replies.skip(1));
    }
}

/// After at most five requests, whatever the replies, the search for an abstract is finished or
/// left with the page.
pub proof fn five_requests_are_enough(
    paper: Paper,
    source: Option<AbstractSource>,
    replies: Seq<Result<JsonTree, Seq<char>>>,
)
    requires
        replies.len() >= 5,
    ensures
        state_after(begun(paper, source), replies) is Scrape || state_after(
            begun(paper, source),
            replies,
        ) is Finished,
{
    lemma_requests_end(begun(paper, source), replies);
}

/// A paper with a DOI is asked for by it first, whatever its source.
pub proof fn the_doi_comes_first(paper: Paper, source: Option<AbstractSource>, doi: Seq<char>)
    requires
        paper.doi.deep_view() == Some(doi),
    ensures
        begun(paper, source) == (EnrichState::AskApi {
            api: DoiApi::OpenAlex,
            doi,
            page: paper.url.deep_view(),
            source,
        }),
{
}

/// The services are asked in order, and the first that has an abstract decides, whatever the source
/// of the paper; where none has, the review platform follows for its own papers, and the page for
/// the others.
pub proof fn first_service_with_an_abstract_decides(
    doi: Seq<char>,
    url: Option<Seq<char>>,
    source: Option<AbstractSource>,
    openalex: Result<JsonTree, Seq<char>>,
    scholar: Result<JsonTree, Seq<char>>,
    crossref: Result<JsonTree, Seq<char>>,
)
    ensures
        state_after(begun_by_doi(Some(doi), url, source), seq![openalex, scholar, crossref]) == (
        if api_outcome(DoiApi::OpenAlex, openalex) is Found {
            EnrichState::Finished(api_outcome(DoiApi::OpenAlex, openalex))
        } else if api_outcome(DoiApi::SemanticScholar, scholar) is Found {
            EnrichState::Finished(api_outcome(DoiApi::SemanticScholar, scholar))
        } else if api_outcome(DoiApi::Crossref, crossref) is Found {
            EnrichState::Finished(api_outcome(DoiApi::Crossref, crossref))
        } else {
            after_services(url, source)
        }),
{
    reveal_with_fuel(state_after, 4);
    let replies = seq![openalex, scholar, crossref];
    assert(replies.skip(1)[0] == scholar);
    assert(replies.skip(1).skip(1)[0] == crossref);
}

/// On the review platform the current interface is asked before the older one, and the first that
/// has the abstract decides; where neither has, the page is left.
pub proof fn first_interface_with_an_abstract_decides(
    forum_id: Seq<char>,
    url: Seq<char>,
    current: Result<JsonTree, Seq<char>>,
    older: Result<JsonTree, Seq<char>>,
)
    ensures
        state_after(begun_on_platform(Some(url), Some(forum_id)), seq![current, older]) == (
        if note_found(current, forum_id) is Some {
            EnrichState::Finished(Outcome::Found(note_found(current, forum_id).unwrap()))
        } else if note_found(older, forum_id) is Some {
            EnrichState::Finished(Outcome::Found(note_found(older, forum_id).unwrap()))
        } else {
            EnrichState::Scrape { url }
        }),
{
    reveal_with_fuel(state_after, 3);
    assert(seq![current, older].skip(1)[0] == older);
}

/// A result is final: no later reply changes it.
pub proof fn results_are_final(outcome: Outcome, replies: Seq<Result<JsonTree, Seq<char>>>)
    ensures
        state_after(EnrichState::Finished(outcome), replies) == EnrichState::Finished(outcome),
    decreases replies.len(),
{
    if replies.len() > 0 {
        results_are_final(outcome, replies.skip(1));
    }
}

/// The listings kept once each of `keys` was listed with what stands at its place in `listed`.
pub open spec fn all_listed(
    cache: Map<(Seq<char>, i32), Map<Seq<char>, Seq<char>>>,
    keys: Seq<(Seq<char>, i32)>,
    listed: Seq<Map<Seq<char>, Seq<char>>>,
) -> Map<(Seq<char>, i32), Map<Seq<char>, Seq<char>>>
    decreases keys.len(),
{
    if keys.len() == 0 {
        cache
    } else {
        all_listed(cache, keys.drop_last(), listed.drop_last()).insert(keys.last(), listed.last())
    }
}

proof fn lemma_all_listed(
    cache: Map<(Seq<char>, i32), Map<Seq<char>, Seq<char>>>,
    keys: Seq<(Seq<char>, i32)>,
    listed: Seq<Map<Seq<char>, Seq<char>>>,
    key: (Seq<char>, i32),
)
    requires
        keys.contains(key) || cache.contains_key(key),
    ensures
        all_listed(cache, keys, listed).contains_key(key),
    decreases keys.len(),
{
    if keys.len() > 0 && keys.last() != key {
        if keys.contains(key) {
            let i = choose|i: int| 0 <= i < keys.len() && keys[i] == key;
            assert(keys.drop_last()[i] == key);
        }
        lemma_all_listed(cache, keys.drop_last(), listed.drop_last(), key);
    }
}

/// Once every venue and year that was needed has been listed, none is needed any more, whatever
/// the listings gave: no listing is read twice for the same papers.
pub proof fn listings_are_read_once(
    inputs: Seq<(Paper, Option<AbstractSource>)>,
    cache: Map<(Seq<char>, i32), Map<Seq<char>, Seq<char>>>,
    keys: Seq<(Seq<char>, i32)>,
    listed: Seq<Map<Seq<char>, Seq<char>>>,
    key: (Seq<char>, i32),
)
    requires
        forall|k: (Seq<char>, i32)|
            keys.contains(k) <==> openreview::listing_needed(inputs, cache, k),
    ensures
        !openreview::listing_needed(inputs, all_listed(cache, keys, listed), key),
{
    if keys.contains(key) || cache.contains_key(key) {
        lemma_all_listed(cache, keys, listed, key);
    }
}

/// The request to a service carries the whole DOI: its address is the fixed beginning of the
/// service, all characters of the DOI, and its fixed end.
pub proof fn requests_carry_the_whole_doi(
    doi: Seq<char>,
    openalex_key: Option<Seq<char>>,
    scholar_key: Option<Seq<char>>,
)
    ensures
        api_request(DoiApi::OpenAlex, doi, openalex_key, scholar_key).url
            == "https://api.openalex.org/works/doi:"@ + doi,
        api_request(DoiApi::SemanticScholar, doi, openalex_key, scholar_key).url
            == "https://api.semanticscholar.org/graph/v1/paper/DOI:"@ + doi + "?fields=abstract"@,
        api_request(DoiApi::Crossref, doi, openalex_key, scholar_key).url
            == "https://api.crossref.org/works/"@ + doi,
{
}

proof fn lemma_same_middle(start: Seq<char>, a: Seq<char>, b: Seq<char>, end: Seq<char>)
    requires
        start + a + end == start + b + end,
    ensures
        a == b,
{
    let left = start + a + end;
    let right = start + b + end;
    assert(left.len() == start.len() + a.len() + end.len());
    assert(right.len() == start.len() + b.len() + end.len());
    assert forall|k: int| 0 <= k < a.len() implies a[k] == b[k] by {
        assert(left[start.len() + k] == a[k]);
        assert(right[start.len() + k] == b[k]);
    }
    assert(a == b);
}

/// Requests to one service for two different DOIs have different addresses.
pub proof fn different_dois_are_asked_for_differently(
    api: DoiApi,
    a: Seq<char>,
    b: Seq<char>,
    openalex_key: Option<Seq<char>>,
    scholar_key: Option<Seq<char>>,
)
    requires
        a != b,
    ensures
        api_request(api, a, openalex_key, scholar_key).url != api_request(
            api,
            b,
            openalex_key,
            scholar_key,
        ).url,
{
    let left = api_request(api, a, openalex_key, scholar_key).url;
    let right = api_request(api, b, openalex_key, scholar_key).url;
    if left == right {
        let none = Seq::<char>::empty();
        match api {
            DoiApi::OpenAlex => {
                let start = "https://api.openalex.org/works/doi:"@;
                assert(start + a + none == left && start + b + none == right);
                lemma_same_middle(start, a, b, none);
            },
            DoiApi::SemanticScholar => {
                let start = "https://api.semanticscholar.org/graph/v1/paper/DOI:"@;
                lemma_same_middle(start, a, b, "?fields=abstract"@);
            },
            DoiApi::Crossref => {
                let start = "https://api.crossref.org/works/"@;
                assert(start + a + none == left && start + b + none == right);
                lemma_same_middle(start, a, b, none);
            },
        }
    }
}

/// Each key goes whole to its own service, and to no other.
pub proof fn keys_go_to_their_own_service(doi: Seq<char>, key: Seq<char>, other: Option<Seq<char>>)
    ensures
        api_request(DoiApi::OpenAlex, doi, Some(key), other).query == seq![("api_key"@, key)],
        api_request(DoiApi::OpenAlex, doi, None, other).query.len() == 0,
        api_request(DoiApi::OpenAlex, doi, Some(key), other).headers.len() == 0,
        api_request(DoiApi::OpenAlex, doi, None, other).headers.len() == 0,
        api_request(DoiApi::SemanticScholar, doi, other, Some(key)).headers == seq![
            ("x-api-key"@, key),
        ],
        api_request(DoiApi::SemanticScholar, doi, other, None).headers.len() == 0,
        api_request(DoiApi::SemanticScholar, doi, other, Some(key)).query.len() == 0,
        api_request(DoiApi::SemanticScholar, doi, other, None).query.len() == 0,
        api_request(DoiApi::Crossref, doi, Some(key), other).query.len() == 0,
        api_request(DoiApi::Crossref, doi, Some(key), other).headers.len() == 0,
        api_request(DoiApi::Crossref, doi, other, Some(key)).query.len() == 0,
        api_request(DoiApi::Crossref, doi, other, Some(key)).headers.len() == 0,
{
}

/// Each service is read in its own way, and what it has is taken as it is.
pub proof fn replies_give_their_abstract(api: DoiApi, tree: JsonTree, reason: Seq<char>)
    ensures
        api_abstract(DoiApi::OpenAlex, tree) == sources::openalex_abstract(tree),
        api_abstract(DoiApi::SemanticScholar, tree) == sources::plain_abstract(tree),
        tree.member("message"@) matches Some(message) ==> api_abstract(DoiApi::Crossref, tree)
            == sources::crossref_abstract(message),
        tree.member("message"@) is None ==> api_abstract(DoiApi::Crossref, tree) is None,
        api_abstract(api, tree) matches Some(t) ==> api_outcome(api, Ok(tree)) == Outcome::Found(t),
        api_abstract(api, tree) is None ==> api_outcome(api, Ok(tree)) == Outcome::Missing(
            "response had no extractable abstract"@,
        ),
        api_outcome(api, Err(reason)) == Outcome::Missing(reason),
{
}

/// The platform is asked for the note with the whole identifier, at the interface of the step, and
/// the services for the whole DOI; other steps ask for nothing.
pub proof fn steps_ask_for_what_they_name(
    secrets: Secrets,
    token: Option<Seq<char>>,
    id: Seq<char>,
    url: Seq<char>,
    api: DoiApi,
    page: Option<Seq<char>>,
    source: Option<AbstractSource>,
    outcome: Outcome,
)
    ensures
        request_of(
            EnrichState::AskOpenreview { base: OpenreviewBase::Current, forum_id: id, url },
            secrets,
            token,
        ) == Some(
            Request {
                url: "https://api2.openreview.net/notes"@,
                query: seq![("id"@, id)],
                headers: openreview::login_headers("https://api2.openreview.net/notes"@, token),
            },
        ),
        request_of(
            EnrichState::AskOpenreview { base: OpenreviewBase::Older, forum_id: id, url },
            secrets,
            token,
        ) == Some(
            Request {
                url: "https://api.openreview.net/notes"@,
                query: seq![("id"@, id)],
                headers: openreview::login_headers("https://api.openreview.net/notes"@, token),
            },
        ),
        request_of(EnrichState::AskApi { api, doi: id, page, source }, secrets, token) == Some(
            api_request(
                api,
                id,
                secrets.openalex_api_key.deep_view(),
                secrets.semantic_scholar_key.deep_view(),
            ),
        ),
        request_of(EnrichState::Scrape { url }, secrets, token) is None,
        request_of(EnrichState::Finished(outcome), secrets, token) is None,
{
}

/// A paper is left with its own page, whole; a paper of the platform without a forum too; and a
/// paper without a page is missing.
pub proof fn pages_are_left_as_they_are(url: Seq<char>, id: Seq<char>)
    ensures
        by_page(Some(url)) == (EnrichState::Scrape { url }),
        by_page(None) == EnrichState::Finished(Outcome::Missing("paper has no DOI or URL"@)),
        begun_on_platform(Some(url), Some(id)) == (EnrichState::AskOpenreview {
            base: OpenreviewBase::Current,
            forum_id: id,
            url,
        }),
        begun_on_platform(Some(url), None) == (EnrichState::Scrape { url }),
        begun_on_platform(None, Some(id)) == EnrichState::Finished(
            Outcome::Missing("OpenReview paper has no URL"@),
        ),
        begun_on_platform(None, None) == EnrichState::Finished(
            Outcome::Missing("OpenReview paper has no URL"@),
        ),
        after_services(Some(url), Some(AbstractSource::Openreview)) == begun_on_platform(
            Some(url),
            location::forum_id(url),
        ),
        after_services(None, Some(AbstractSource::Openreview)) == begun_on_platform(None, None),
{
}

/// A paper of any other source is left with its page once the services missed.
pub proof fn other_sources_are_left_with_the_page(
    url: Option<Seq<char>>,
    source: Option<AbstractSource>,
)
    requires
        source != Some(AbstractSource::Openreview),
    ensures
        after_services(url, source) == by_page(url),
{
}

/// A note is found in a reply just where the index of its notes has the identifier.
pub proof fn notes_are_found_by_their_identifier(
    tree: JsonTree,
    id: Seq<char>,
    reason: Seq<char>,
)
    ensures
        note_found(Err(reason), id) is None,
        note_found(Ok(tree), id) is Some <==> sources::notes_index(
            sources::notes_of(tree),
        ).contains_key(id),
        note_found(Ok(tree), id) matches Some(t) ==> t == sources::notes_index(
            sources::notes_of(tree),
        )[id],
{
}

/// A paper that a listing has is found at once, with the abstract of its own venue, year and forum;
/// any other begins as if there were no listings.
pub proof fn listed_papers_are_found(
    cache: Map<(Seq<char>, i32), Map<Seq<char>, Seq<char>>>,
    paper: Paper,
    source: Option<AbstractSource>,
)
    ensures
        openreview::cached_abstract(cache, paper, source) matches Some(t) ==> begun_with(
            cache,
            paper,
            source,
        ) == EnrichState::Finished(Outcome::Found(t)),
        openreview::cached_abstract(cache, paper, source) is None ==> begun_with(
            cache,
            paper,
            source,
        ) == begun(paper, source),
{
}

/// Listings that were all read are each kept as they came, and the others stay as they were.
pub proof fn listings_are_kept_as_they_came(
    cache: Map<(Seq<char>, i32), Map<Seq<char>, Seq<char>>>,
    keys: Seq<(Seq<char>, i32)>,
    listed: Seq<Map<Seq<char>, Seq<char>>>,
    i: int,
    other: (Seq<char>, i32),
)
    requires
        keys.no_duplicates(),
        listed.len() == keys.len(),
        0 <= i < keys.len(),
        !keys.contains(other),
    ensures
        all_listed(cache, keys, listed).contains_key(keys[i]),
        all_listed(cache, keys, listed)[keys[i]] == listed[i],
        all_listed(cache, keys, listed).contains_key(other) == cache.contains_key(other),
        cache.contains_key(other) ==> all_listed(cache, keys, listed)[other] == cache[other],
    decreases keys.len(),
{
    let front = keys.drop_last();
    assert(front.no_duplicates());
    assert(!front.contains(other)) by {
        if front.contains(other) {
            let k = choose|k: int| 0 <= k < front.len() && front[k] == other;
            assert(keys[k] == other);
        }
    }
    assert(keys[keys.len() - 1] != other);
    if i < keys.len() - 1 {
        listings_are_kept_as_they_came(cache, front, listed.drop_last(), i, other);
        assert(front[i] == keys[i]);
        assert(listed.drop_last()[i] == listed[i]);
        assert(keys[i] != keys[keys.len() - 1]);
    } else if front.len() > 0 {
        listings_are_kept_as_they_came(cache, front, listed.drop_last(), 0, other);
    } else {
        assert(all_listed(cache, front, listed.drop_last()) == cache);
    }
}

/// A step is what its fields say.
pub proof fn steps_are_seen_whole(
    base: OpenreviewBase,
    api: DoiApi,
    id: String,
    url: String,
    page: Option<String>,
    source: Option<AbstractSource>,
    result: EnrichResult,
)
    ensures
        (EnrichStep::AskOpenreview { base, forum_id: id, url })@ == (EnrichState::AskOpenreview {
            base,
            forum_id: id@,
            url: url@,
        }),
        (EnrichStep::AskApi { api, doi: id, page, source })@ == (EnrichState::AskApi {
            api,
            doi: id@,
            page: page.deep_view(),
            source,
        }),
        (EnrichStep::Scrape { url })@ == (EnrichState::Scrape { url: url@ }),
        EnrichStep::Finished(result)@ == EnrichState::Finished(result@),
{
}

} // verus!
