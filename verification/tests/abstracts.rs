//! Abstracts in the replies of services and on the pages of publishers.
use sec_grep::html::extract_abstract_html;
use sec_grep::http::{header_seconds, http_status_reason};
use sec_grep::json::{json_of, parse_json, Json};
use sec_grep::location::{openreview_forum_id, parse_static_url};
use sec_grep::paper::AbstractSource;
use sec_grep::sources::{
    abstract_from_crossref, abstract_from_openalex, abstract_from_semantic_scholar,
    abstracts_from_openreview_notes, note_count,
};

fn json(text: &str) -> Json {
    parse_json(text.as_bytes()).unwrap()
}

#[test]
fn http_status_reason_labels_blocked_and_rate_limited() {
    assert_eq!(http_status_reason("HTTP", 429), "HTTP 429 (rate limited)");
    assert_eq!(
        http_status_reason("static scrape HTTP", 403),
        "static scrape HTTP 403 (blocked)"
    );
}

#[test]
fn http_status_reason_labels_the_rest() {
    assert_eq!(http_status_reason("HTTP", 401), "HTTP 401 (blocked)");
    assert_eq!(http_status_reason("HTTP", 500), "HTTP 500 (server error)");
    assert_eq!(http_status_reason("HTTP", 599), "HTTP 599 (server error)");
    assert_eq!(http_status_reason("HTTP", 600), "HTTP 600 (request failed)");
    assert_eq!(http_status_reason("HTTP", 404), "HTTP 404 (request failed)");
}

#[test]
fn header_seconds_parses_retry_after() {
    assert_eq!(header_seconds(&Some("120".to_string())), Some(120));
}

#[test]
fn header_seconds_refuses_what_is_no_number() {
    assert_eq!(header_seconds(&None), None);
    assert_eq!(header_seconds(&Some(" 120".to_string())), None);
    assert_eq!(header_seconds(&Some("".to_string())), None);
    assert_eq!(header_seconds(&Some("-1".to_string())), None);
    assert_eq!(header_seconds(&Some("+7".to_string())), Some(7));
    assert_eq!(
        header_seconds(&Some("18446744073709551615".to_string())),
        Some(u64::MAX)
    );
    assert_eq!(header_seconds(&Some("18446744073709551616".to_string())), None);
}

#[test]
fn openalex_inverted_index() {
    let work = json(
        r#"{"abstract_inverted_index": {"We": [0], "fuzz": [1], "the": [2], "kernel": [3]}}"#,
    );
    assert_eq!(
        abstract_from_openalex(&work).as_deref(),
        Some("We fuzz the kernel")
    );
}

#[test]
fn openalex_plain_abstract() {
    let work = json(r#"{"abstract": "  direct text  "}"#);
    assert_eq!(abstract_from_openalex(&work).as_deref(), Some("direct text"));
}

#[test]
fn openalex_plain_abstract_comes_first() {
    let work = json(r#"{"abstract": "plain", "abstract_inverted_index": {"index": [0]}}"#);
    assert_eq!(abstract_from_openalex(&work).as_deref(), Some("plain"));
    let work = json(r#"{"abstract": "  ", "abstract_inverted_index": {"index": [0]}}"#);
    assert_eq!(abstract_from_openalex(&work).as_deref(), Some("index"));
}

#[test]
fn openalex_index_repeats_words_and_keeps_ties_in_order() {
    let work = json(r#"{"abstract_inverted_index": {"b": [1, 3], "a": [1, 0], "c": [2, "x", -4]}}"#);
    assert_eq!(abstract_from_openalex(&work).as_deref(), Some("a a b c b"));
}

#[test]
fn openalex_index_without_places_has_no_abstract() {
    assert!(abstract_from_openalex(&json("{}")).is_none());
    assert!(abstract_from_openalex(&json(r#"{"abstract_inverted_index": null}"#)).is_none());
    assert!(abstract_from_openalex(&json(r#"{"abstract_inverted_index": {}}"#)).is_none());
    assert!(abstract_from_openalex(&json(r#"{"abstract_inverted_index": {"a": []}}"#)).is_none());
    let broken = json(r#"{"abstract_inverted_index": {"a": [0], "b": 1}}"#);
    assert!(abstract_from_openalex(&broken).is_none());
}

#[test]
fn semantic_scholar_abstract() {
    assert_eq!(
        abstract_from_semantic_scholar(&json(r#"{"abstract": "hello"}"#)).as_deref(),
        Some("hello")
    );
    assert!(abstract_from_semantic_scholar(&json(r#"{"abstract": null}"#)).is_none());
}

#[test]
fn semantic_scholar_blank_abstract_is_none() {
    assert!(abstract_from_semantic_scholar(&json(r#"{"abstract": " \n "}"#)).is_none());
    assert!(abstract_from_semantic_scholar(&json("[]")).is_none());
}

#[test]
fn openreview_batch_abstracts_indexes_id_and_forum() {
    let notes = json(
        r#"{"notes": [
            {"id": "v2-id", "forum": "v2-forum", "content": {"abstract": {"value": "V2 abstract."}}},
            {"id": "v1-id", "forum": "v1-forum", "content": {"abstract": "V1 abstract."}}
        ]}"#,
    );
    let abstracts = abstracts_from_openreview_notes(&notes);
    assert_eq!(abstracts.get("v2-id").as_deref(), Some("V2 abstract."));
    assert_eq!(abstracts.get("v2-forum").as_deref(), Some("V2 abstract."));
    assert_eq!(abstracts.get("v1-id").as_deref(), Some("V1 abstract."));
    assert_eq!(abstracts.get("v1-forum").as_deref(), Some("V1 abstract."));
}

#[test]
fn openreview_notes_without_abstract_are_passed_over() {
    let notes = json(
        r#"{"notes": [
            {"id": "a"},
            {"id": "b", "content": {}},
            {"id": "c", "content": {"abstract": " "}},
            {"id": "d", "content": {"abstract": "first"}},
            {"id": "d", "content": {"abstract": "second &amp; last"}}
        ]}"#,
    );
    let abstracts = abstracts_from_openreview_notes(&notes);
    assert!(abstracts.get("a").is_none());
    assert!(abstracts.get("b").is_none());
    assert!(abstracts.get("c").is_none());
    assert_eq!(abstracts.get("d").as_deref(), Some("second & last"));
    assert_eq!(note_count(&notes), 5);
    assert_eq!(note_count(&json("{}")), 0);
    assert!(abstracts_from_openreview_notes(&json("{}")).is_empty());
}

#[test]
fn openreview_forum_id_from_url() {
    assert_eq!(
        openreview_forum_id("https://openreview.net/forum?id=8EtSBX41mt").as_deref(),
        Some("8EtSBX41mt")
    );
    assert!(openreview_forum_id("https://example.com/forum?id=8EtSBX41mt").is_none());
}

#[test]
fn openreview_forum_id_is_decoded_and_not_empty() {
    assert_eq!(
        openreview_forum_id("https://WWW.openreview.net./forum?id=&id=a%20b").as_deref(),
        Some("a b")
    );
    assert!(openreview_forum_id("https://openreview.net/pdf?id=x").is_none());
    assert!(openreview_forum_id("https://openreview.net/forum?noteid=x").is_none());
    assert!(openreview_forum_id("ftp://openreview.net/forum?id=x").is_none());
}

#[test]
fn crossref_strips_jats() {
    let msg = json(r#"{"abstract": "<jats:p>A <jats:bold>bold</jats:bold> claim.</jats:p>"}"#);
    assert_eq!(abstract_from_crossref(&msg).as_deref(), Some("A bold claim."));
}

#[test]
fn crossref_without_text_is_none() {
    assert!(abstract_from_crossref(&json("{}")).is_none());
    assert!(abstract_from_crossref(&json(r#"{"abstract": "<p></p>"}"#)).is_none());
}

#[test]
fn json_keeps_every_kind_of_value() {
    let value: serde_json::Value =
        serde_json::from_str(r#"{"b": [null, true, 7, -7, 1.5, "t"], "a": {"x": 1}}"#).unwrap();
    let Json::Object(members) = json_of(&value) else {
        panic!("an object");
    };
    let names: Vec<&str> = members.iter().map(|(name, _)| name.as_str()).collect();
    assert_eq!(names, vec!["a", "b"]);
    let Json::Array(items) = &members[1].1 else {
        panic!("an array");
    };
    assert!(matches!(items[0], Json::Null));
    assert!(matches!(items[1], Json::Bool(true)));
    assert!(matches!(items[2], Json::Number(Some(7))));
    assert!(matches!(items[3], Json::Number(None)));
    assert!(matches!(items[4], Json::Number(None)));
    assert_eq!(items[5].as_str(), Some("t"));
    assert!(items[5].get("x").is_none());
    assert!(matches!(members[0].1.get("x"), Some(Json::Number(Some(1)))));
    assert!(parse_json(b"{").is_none());
    assert!(parse_json(b"").is_none());
}

#[test]
fn html_acm_source_specific_selector() {
    let html = r#"<html><body>
        <div class="abstractInFull"><p>This is the ACM abstract.</p></div>
    </body></html>"#;
    assert_eq!(
        extract_abstract_html(html, Some(AbstractSource::Acm)).as_deref(),
        Some("This is the ACM abstract.")
    );
}

#[test]
fn html_ndss_strips_authors_from_paper_data() {
    let html = r#"<html><body>
        <div class="paper-data">
            <p><strong><p>Alice A (Example U), Bob B (Example Labs)</p></strong></p>
            <p>
                <p>First abstract paragraph.</p>
                <p>Second abstract paragraph.</p>
            </p>
        </div>
    </body></html>"#;
    let abstract_text = extract_abstract_html(html, Some(AbstractSource::Ndss)).unwrap();
    assert_eq!(
        abstract_text,
        "First abstract paragraph. Second abstract paragraph."
    );
    assert!(!abstract_text.contains("Alice A"));
    assert!(!abstract_text.contains("Bob B"));
}

#[test]
fn html_usenix_source_specific_selector() {
    let html = r#"<html><body>
        <div class="field field-name-field-paper-people-text"><p>Alice A and Bob B</p></div>
        <div class="field field-name-field-paper-description"><p>This is the USENIX abstract.</p></div>
    </body></html>"#;
    assert_eq!(
        extract_abstract_html(html, Some(AbstractSource::Usenix)).as_deref(),
        Some("This is the USENIX abstract.")
    );
}

#[test]
fn html_neurips_source_specific_selector() {
    let html = r#"<html><body>
        <section class="paper-section">
            <h2 class="section-label">Abstract</h2>
            <p class="paper-abstract"><p>NeurIPS abstract text.</p></p>
        </section>
    </body></html>"#;
    assert_eq!(
        extract_abstract_html(html, Some(AbstractSource::Neurips)).as_deref(),
        Some("NeurIPS abstract text.")
    );
}

#[test]
fn html_pmlr_prefers_full_page_abstract_over_truncated_meta() {
    let html = r#"<html><head>
        <meta name="description" content="Truncated PMLR abstract...">
    </head><body>
        <h4>Abstract</h4>
        <div id="abstract" class="abstract">
            First full ICML abstract sentence. Second full sentence.
        </div>
    </body></html>"#;
    assert_eq!(
        extract_abstract_html(html, Some(AbstractSource::Pmlr)).as_deref(),
        Some("First full ICML abstract sentence. Second full sentence.")
    );
}

#[test]
fn html_openreview_source_reads_iclr_virtual_abstract() {
    let html = r#"<html><body>
        <div class="abstract-section">
            <div class="abstract-text-inner">
                <p>ICLR virtual abstract text.</p>
            </div>
        </div>
    </body></html>"#;
    assert_eq!(
        extract_abstract_html(html, Some(AbstractSource::Openreview)).as_deref(),
        Some("ICLR virtual abstract text.")
    );
}

#[test]
fn html_rejects_openreview_boilerplate_description() {
    let html = r#"<html><head>
        <meta name="description" content="Promoting openness in scientific communication and the peer-review process">
    </head></html>"#;
    assert!(extract_abstract_html(html, Some(AbstractSource::Openreview)).is_none());
}

#[test]
fn html_ieee_prefers_abstract_text_selector() {
    let html = r#"<html><head>
        <meta property="og:description" content="IEEE fallback abstract.">
    </head><body>
        <div class="abstract-text">This is the IEEE abstract.</div>
    </body></html>"#;
    assert_eq!(
        extract_abstract_html(html, Some(AbstractSource::Ieee)).as_deref(),
        Some("This is the IEEE abstract.")
    );
}

#[test]
fn html_springer_prefers_full_abstract_section_over_truncated_meta() {
    let html = r#"<html><head>
        <meta property="og:description" content="Truncated Springer abstract...">
    </head><body>
        <section data-title="Abstract">
            <div class="c-article-section__content">
                <p>This is the full Springer abstract.</p>
                <p>It has a second sentence.</p>
            </div>
        </section>
    </body></html>"#;
    assert_eq!(
        extract_abstract_html(html, Some(AbstractSource::Springer)).as_deref(),
        Some("This is the full Springer abstract. It has a second sentence.")
    );
}

#[test]
fn html_generic_meta_fallback() {
    let html = r#"<html><head>
        <meta property="og:description" content="Fallback abstract here.">
    </head><body></body></html>"#;
    assert_eq!(
        extract_abstract_html(html, None).as_deref(),
        Some("Fallback abstract here.")
    );
}

#[test]
fn html_meta_fallback_decodes_entities() {
    let html = r#"<html><head>
        <meta property="og:description" content="A&amp;#160;B &amp;amp; C &#8217;">
    </head><body></body></html>"#;
    assert_eq!(
        extract_abstract_html(html, None).as_deref(),
        Some("A B & C ’")
    );
}

#[test]
fn html_no_abstract() {
    assert!(extract_abstract_html("<html></html>", None).is_none());
}

#[test]
fn static_url_rejects_local_or_non_http_targets() {
    assert!(parse_static_url("https://example.com/paper").is_some());
    assert!(parse_static_url("file:///etc/passwd").is_none());
    assert!(parse_static_url("http://localhost/paper").is_none());
    assert!(parse_static_url("http://127.0.0.1/paper").is_none());
    assert!(parse_static_url("http://[::1]/paper").is_none());
    assert!(parse_static_url("https://user@example.com/paper").is_none());
}

#[test]
fn html_meta_tags_are_read_in_a_fixed_order() {
    let preview = r#"<meta property="og:description" content="Preview.">"#;
    let description = r#"<meta name="description" content="Description.">"#;
    let citation = r#"<meta name="citation_abstract" content="Citation.">"#;
    let read = |tags: &[&str]| extract_abstract_html(&tags.concat(), None);
    assert_eq!(read(&[description, preview]).as_deref(), Some("Preview."));
    assert_eq!(read(&[preview, description]).as_deref(), Some("Preview."));
    assert_eq!(read(&[description, preview, citation]).as_deref(), Some("Citation."));
    let blank = r#"<meta property="og:description" content=" ">"#;
    assert_eq!(read(&[blank, description]).as_deref(), Some("Description."));
}

#[test]
fn html_places_of_all_sources_are_found() {
    let places = [
        (AbstractSource::Acm, r#"<div class="abstractSection">A.</div>"#),
        (AbstractSource::Springer, r#"<div id="Abs1-content">A.</div>"#),
        (AbstractSource::Usenix, r#"<div class="field-type-text-with-summary">A.</div>"#),
    ];
    for (source, page) in places {
        assert_eq!(extract_abstract_html(page, Some(source)).as_deref(), Some("A."));
        assert!(extract_abstract_html(page, Some(AbstractSource::Pmlr)).is_none());
    }
    let deep = format!("{}<div class='abstract-text'>Deep.", "<div>".repeat(2000));
    assert_eq!(
        extract_abstract_html(&deep, Some(AbstractSource::Ieee)).as_deref(),
        Some("Deep.")
    );
}
