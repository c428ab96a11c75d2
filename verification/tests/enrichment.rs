//! Finding abstracts step by step.
use sec_grep::enrich::{doi_request, fits_parser, fetch_abstract, DoiApi, EnrichStep, Enricher};
use sec_grep::http::HttpRequest;
use sec_grep::json::{parse_json, Json};
use sec_grep::openreview::{
    cached_openreview_abstract, login_answered, openreview_accepted_abstracts,
    openreview_login_token, ListingStep, LoginStep, OpenreviewCache, OPENREVIEW_PAGE_SIZE,
};
use sec_grep::paper::{AbstractSource, EnrichResult, Paper, Secrets};
use sec_grep::sources::AbstractIndex;

type Reply = Result<Json, String>;

fn reply(text: &str) -> Reply {
    Ok(parse_json(text.as_bytes()).unwrap())
}

fn refused() -> Reply {
    Err("HTTP 404 (request failed)".to_string())
}

fn secrets() -> Secrets {
    Secrets {
        openalex_api_key: None,
        semantic_scholar_key: None,
        openreview_username: None,
        openreview_password: None,
    }
}

fn paper(doi: Option<&str>, url: Option<&str>) -> Paper {
    Paper {
        dblp_key: "conf/x/1".to_string(),
        venue: "ICLR".to_string(),
        year: 2024,
        doi: doi.map(str::to_string),
        url: url.map(str::to_string),
    }
}

fn pairs(list: &[(&str, &str)]) -> Vec<(String, String)> {
    list.iter().map(|(a, b)| (a.to_string(), b.to_string())).collect()
}

fn found(step: EnrichStep) -> String {
    match step {
        EnrichStep::Finished(EnrichResult::Found(text)) => text,
        _ => panic!("not found"),
    }
}

fn missed(step: EnrichStep) -> String {
    match step {
        EnrichStep::Finished(EnrichResult::Missing(reason)) => reason,
        _ => panic!("not missed"),
    }
}

fn page(count: usize, from: usize) -> Reply {
    let notes: Vec<String> = (from..from + count)
        .map(|i| format!(r#"{{"id": "n{i}", "content": {{"abstract": "Text {i}."}}}}"#))
        .collect();
    reply(&format!(r#"{{"notes": [{}]}}"#, notes.join(",")))
}

#[test]
fn services_are_asked_by_doi() {
    let mut keys = secrets();
    let HttpRequest { url, query, headers } = doi_request(DoiApi::OpenAlex, "10.1/x", &keys);
    assert_eq!(url, "https://api.openalex.org/works/doi:10.1/x");
    assert_eq!((query, headers), (vec![], vec![]));
    keys.openalex_api_key = Some("k1".to_string());
    keys.semantic_scholar_key = Some("k2".to_string());
    let request = doi_request(DoiApi::OpenAlex, "10.1/x", &keys);
    assert_eq!(request.query, pairs(&[("api_key", "k1")]));
    let request = doi_request(DoiApi::SemanticScholar, "10.1/x", &keys);
    assert_eq!(
        request.url,
        "https://api.semanticscholar.org/graph/v1/paper/DOI:10.1/x?fields=abstract"
    );
    assert_eq!(request.headers, pairs(&[("x-api-key", "k2")]));
    assert_eq!(request.query, vec![]);
    let request = doi_request(DoiApi::Crossref, "10.1/x", &keys);
    assert_eq!(request.url, "https://api.crossref.org/works/10.1/x");
    assert_eq!((request.query, request.headers), (vec![], vec![]));
}

#[test]
fn replies_without_abstract_give_a_reason() {
    let reason = |api: DoiApi, reply: &Reply| match fetch_abstract(api, reply) {
        EnrichResult::Found(text) => panic!("found {text}"),
        EnrichResult::Missing(reason) => reason,
    };
    for api in [DoiApi::OpenAlex, DoiApi::SemanticScholar, DoiApi::Crossref] {
        assert_eq!(reason(api, &refused()), "HTTP 404 (request failed)");
        assert_eq!(reason(api, &reply("{}")), "response had no extractable abstract");
    }
}

#[test]
fn services_are_asked_in_order() {
    let enricher = Enricher::new(secrets());
    let paper = paper(Some("10.1/x"), Some("https://example.com/p"));
    let step = enricher.enrich(&paper, Some(AbstractSource::Acm));
    let request = step.request(&enricher.secrets, &None).unwrap();
    assert_eq!(request.url, "https://api.openalex.org/works/doi:10.1/x");
    let step = step.answered(&reply(r#"{"abstract": ""}"#));
    assert!(matches!(step, EnrichStep::AskApi { api: DoiApi::SemanticScholar, .. }));
    let step = step.answered(&refused());
    assert!(matches!(step, EnrichStep::AskApi { api: DoiApi::Crossref, .. }));
    let last = reply(r#"{"message": {"abstract": "<p>From Crossref.</p>"}}"#);
    assert!(fits_parser(&last));
    assert_eq!(found(step.answered(&last)), "From Crossref.");
}

#[test]
fn the_first_service_with_an_abstract_decides() {
    let enricher = Enricher::new(secrets());
    let paper = paper(Some("10.1/x"), None);
    let step = enricher.enrich(&paper, None).answered(&reply(r#"{"abstract": "First."}"#));
    assert_eq!(found(step.answered(&reply(r#"{"abstract": "Late."}"#))), "First.");
}

#[test]
fn papers_are_left_with_their_page() {
    let enricher = Enricher::new(secrets());
    let mut step = enricher.enrich(&paper(Some("10.1/x"), Some("https://example.com/p")), None);
    for _ in 0..3 {
        step = step.answered(&refused());
    }
    assert!(step.request(&enricher.secrets, &None).is_none());
    let EnrichStep::Scrape { url } = step else {
        panic!("no page");
    };
    assert_eq!(url, "https://example.com/p");
    let step = enricher.enrich(&paper(None, Some("https://example.com/p")), None);
    assert!(matches!(step, EnrichStep::Scrape { .. }));
    assert_eq!(missed(enricher.enrich(&paper(None, None), None)), "paper has no DOI or URL");
}

#[test]
fn the_doi_comes_first_whatever_the_source() {
    let enricher = Enricher::new(secrets());
    let source = Some(AbstractSource::Openreview);
    let url = "https://openreview.net/forum?id=F1";
    for page in [None, Some(url)] {
        let step = enricher.enrich(&paper(Some("10.1/x"), page), source);
        let request = step.request(&enricher.secrets, &None).unwrap();
        assert_eq!(request.url, "https://api.openalex.org/works/doi:10.1/x");
        assert_eq!(found(step.answered(&reply(r#"{"abstract": "By DOI."}"#))), "By DOI.");
    }
    let mut step = enricher.enrich(&paper(Some("10.1/x"), Some(url)), source);
    for _ in 0..3 {
        assert!(matches!(step, EnrichStep::AskApi { .. }));
        step = step.answered(&refused());
    }
    assert!(matches!(step, EnrichStep::AskOpenreview { .. }));
    for _ in 0..2 {
        step = step.answered(&refused());
    }
    assert!(matches!(step, EnrichStep::Scrape { .. }));
    let mut step = enricher.enrich(&paper(Some("10.1/x"), None), source);
    for _ in 0..3 {
        step = step.answered(&refused());
    }
    assert_eq!(missed(step), "OpenReview paper has no URL");
}

#[test]
fn the_platform_is_asked_for_its_own_papers() {
    let enricher = Enricher::new(secrets());
    let source = Some(AbstractSource::Openreview);
    let url = "https://openreview.net/forum?id=F1";
    let step = enricher.enrich(&paper(None, Some(url)), source);
    let request = step.request(&enricher.secrets, &Some("T".to_string())).unwrap();
    assert_eq!(request.url, "https://api2.openreview.net/notes");
    assert_eq!(request.query, pairs(&[("id", "F1")]));
    assert_eq!(request.headers, pairs(&[("authorization", "Bearer T")]));
    let step = step.answered(&reply(r#"{"notes": [{"id": "G", "content": {"abstract": "G."}}]}"#));
    let request = step.request(&enricher.secrets, &Some("T".to_string())).unwrap();
    assert_eq!(request.url, "https://api.openreview.net/notes");
    assert_eq!(request.headers, vec![]);
    let text = found(
        step.answered(&reply(r#"{"notes": [{"forum": "F1", "content": {"abstract": "F."}}]}"#)),
    );
    assert_eq!(text, "F.");
    let step = enricher.enrich(&paper(None, Some(url)), source).answered(&refused());
    assert!(matches!(step.answered(&refused()), EnrichStep::Scrape { .. }));
    let elsewhere = paper(None, Some("https://iclr.cc/virtual/1"));
    assert!(matches!(enricher.enrich(&elsewhere, source), EnrichStep::Scrape { .. }));
    assert_eq!(
        missed(enricher.enrich(&paper(None, None), source)),
        "OpenReview paper has no URL"
    );
}

#[test]
fn logins_need_a_name_and_a_password() {
    let mut keys = secrets();
    assert!(matches!(openreview_login_token(&None, &keys), LoginStep::Unknown));
    keys.openreview_username = Some("u".to_string());
    assert!(matches!(openreview_login_token(&None, &keys), LoginStep::Unknown));
    keys.openreview_password = Some("p".to_string());
    let LoginStep::Ask(login) = openreview_login_token(&None, &keys) else {
        panic!("no login");
    };
    assert_eq!((login.id.as_str(), login.password.as_str()), ("u", "p"));
    assert_eq!(login.expires_in, 7 * 24 * 60 * 60);
    let LoginStep::Known(token) = openreview_login_token(&Some("t".to_string()), &keys) else {
        panic!("not kept");
    };
    assert_eq!(token, "t");
}

#[test]
fn tokens_are_kept_once() {
    let mut kept = None;
    assert_eq!(login_answered(&mut kept, &refused()), None);
    assert_eq!(kept, None);
    assert_eq!(login_answered(&mut kept, &reply(r#"{"token": 7}"#)), None);
    let token = login_answered(&mut kept, &reply(r#"{"token": "a"}"#));
    assert_eq!(token.as_deref(), Some("a"));
    assert_eq!(kept.as_deref(), Some("a"));
    let token = login_answered(&mut kept, &reply(r#"{"token": "b"}"#));
    assert_eq!(token.as_deref(), Some("b"));
    assert_eq!(kept.as_deref(), Some("a"));
}

#[test]
fn listings_are_read_page_by_page() {
    let ListingStep::Ask(listing) = openreview_accepted_abstracts("ICLR", 2024) else {
        panic!("nothing to ask");
    };
    let request = listing.request(&Some("T".to_string()));
    assert_eq!(request.url, "https://api2.openreview.net/notes");
    assert_eq!(
        request.query,
        pairs(&[
            ("content.venueid", "ICLR.cc/2024/Conference"),
            ("limit", "500"),
            ("offset", "0"),
        ])
    );
    assert_eq!(request.headers, pairs(&[("authorization", "Bearer T")]));
    let ListingStep::Ask(listing) = listing.answered(&page(OPENREVIEW_PAGE_SIZE, 0)) else {
        panic!("no second page");
    };
    assert_eq!(listing.query()[2], ("offset".to_string(), "500".to_string()));
    let ListingStep::Finished(Ok(index)) = listing.answered(&page(2, 500)) else {
        panic!("not finished");
    };
    assert_eq!(index.get("n0").as_deref(), Some("Text 0."));
    assert_eq!(index.get("n501").as_deref(), Some("Text 501."));
    assert_eq!(index.get("n502"), None);
}

#[test]
fn empty_listings_turn_to_the_older_interface() {
    let ListingStep::Ask(listing) = openreview_accepted_abstracts("ICLR", 2019) else {
        panic!("nothing to ask");
    };
    let ListingStep::Ask(listing) = listing.answered(&reply("{}")) else {
        panic!("not asked again");
    };
    let request = listing.request(&None);
    assert_eq!(request.url, "https://api.openreview.net/notes");
    assert_eq!(request.headers, vec![]);
    let ListingStep::Finished(Ok(index)) = listing.answered(&reply("{}")) else {
        panic!("not finished");
    };
    assert!(index.is_empty());
}

#[test]
fn failed_listings_end_with_the_reason() {
    let ListingStep::Ask(listing) = openreview_accepted_abstracts("ICLR", 2024) else {
        panic!("nothing to ask");
    };
    let ListingStep::Finished(Err(reason)) = listing.answered(&refused()) else {
        panic!("not failed");
    };
    assert_eq!(reason, "HTTP 404 (request failed)");
}

#[test]
fn kept_listings_are_looked_up_by_venue_year_and_forum() {
    let mut cache = OpenreviewCache::new();
    let mut index = AbstractIndex::new();
    index.insert("F1", "Kept.");
    cache.insert("ICLR", 2024, index);
    let own = Some(AbstractSource::Openreview);
    let listed = paper(None, Some("https://openreview.net/forum?id=F1"));
    assert_eq!(cached_openreview_abstract(&cache, &listed, own).as_deref(), Some("Kept."));
    assert!(cached_openreview_abstract(&cache, &listed, None).is_none());
    let other = paper(None, Some("https://openreview.net/forum?id=F2"));
    assert!(cached_openreview_abstract(&cache, &other, own).is_none());
    let earlier = Paper { year: 2023, ..listed };
    assert!(cached_openreview_abstract(&cache, &earlier, own).is_none());
    assert!(cached_openreview_abstract(&cache, &paper(None, None), own).is_none());
    cache.insert("ICLR", 2024, AbstractIndex::new());
    let listed = paper(None, Some("https://openreview.net/forum?id=F1"));
    assert!(cached_openreview_abstract(&cache, &listed, own).is_none());
}

#[test]
fn needed_listings_are_named_once_and_in_order() {
    let own = Some(AbstractSource::Openreview);
    let entry = |venue: &str, year: i32, source: Option<AbstractSource>| {
        (Paper { venue: venue.to_string(), year, ..paper(None, None) }, source)
    };
    let inputs = vec![
        entry("NeurIPS", 2022, own),
        entry("ICLR", 2024, own),
        entry("CCS", 2024, Some(AbstractSource::Acm)),
        entry("ICLR", 2023, own),
        entry("ICLR", 2024, own),
        entry("ICLR", 2020, None),
    ];
    let mut enricher = Enricher::new(secrets());
    let key = |venue: &str, year: i32| (venue.to_string(), year);
    let (needed, at_once) = enricher.enrich_many(&inputs, 0);
    assert_eq!(needed, vec![key("ICLR", 2023), key("ICLR", 2024), key("NeurIPS", 2022)]);
    assert_eq!(at_once, 1);

    let mut warnings = Vec::new();
    let mut index = AbstractIndex::new();
    index.insert("F1", "Listed.");
    enricher.listed("ICLR", 2024, Ok(index), &mut warnings);
    enricher.listed("ICLR", 2023, Err("request failed".to_string()), &mut warnings);
    assert_eq!(warnings, vec!["ICLR 2023: request failed".to_string()]);
    let (needed, at_once) = enricher.enrich_many(&inputs, 8);
    assert_eq!(needed, vec![key("NeurIPS", 2022)]);
    assert_eq!(at_once, 8);

    let listed = paper(None, Some("https://openreview.net/forum?id=F1"));
    assert_eq!(found(enricher.enrich_listed(&listed, own)), "Listed.");
    let unlisted = paper(None, Some("https://openreview.net/forum?id=F2"));
    let step = enricher.enrich_listed(&unlisted, own);
    assert!(matches!(step, EnrichStep::AskOpenreview { .. }));
}
