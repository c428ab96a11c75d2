//! Addresses, requests and pages.
use sec_grep::address::{addresses_allowed, is_localhost, is_public_ip, parse_host_ip};
use sec_grep::http::{
    body_json, fetch_step, rate_limit_delay, BodyReader, FetchAction, FetchState, ResponseHead,
    MAX_HTML_BODY_BYTES,
};
use sec_grep::literal::{read_ip, IpAddress};
use sec_grep::location::{allowed_static_url, parse_static_url, redirect_url, StaticTarget};
use sec_grep::paper::{AbstractSource, EnrichResult};
use sec_grep::scrape::{
    scrape_answered, scrape_read, scrape_resolved, static_scrape, ScrapeStep, MAX_STATIC_REDIRECTS,
};

fn head(status: u16) -> ResponseHead {
    ResponseHead { status, retry_after: None, ratelimit_reset: None, location: None }
}

fn redirect(to: &str) -> Option<ResponseHead> {
    Some(ResponseHead { location: Some(to.to_string()), ..head(302) })
}

fn reason(result: EnrichResult) -> String {
    match result {
        EnrichResult::Found(text) => panic!("found {text}"),
        EnrichResult::Missing(reason) => reason,
    }
}

fn ended(step: ScrapeStep) -> String {
    match step {
        ScrapeStep::Finished(result) => reason(result),
        _ => panic!("not finished"),
    }
}

#[test]
fn public_v4_addresses_lie_outside_the_special_ranges() {
    let special = [
        "0.0.0.0",
        "10.0.0.0",
        "10.255.255.255",
        "127.0.0.1",
        "127.255.0.0",
        "169.254.0.0",
        "169.254.255.255",
        "172.16.0.0",
        "172.31.255.255",
        "192.0.2.0",
        "192.0.2.255",
        "192.168.0.0",
        "192.168.255.255",
        "198.51.100.7",
        "203.0.113.7",
        "224.0.0.0",
        "239.255.255.255",
        "255.255.255.255",
    ];
    for text in special {
        assert!(!is_public_ip(read_ip(text).unwrap()), "{text}");
    }
    let public = [
        "0.0.0.1",
        "9.255.255.255",
        "11.0.0.0",
        "126.0.0.1",
        "128.0.0.1",
        "169.253.0.0",
        "169.255.0.0",
        "172.15.0.0",
        "172.32.0.0",
        "192.0.1.0",
        "192.0.3.0",
        "192.167.0.0",
        "192.169.0.0",
        "198.51.101.0",
        "203.0.112.0",
        "223.255.255.255",
        "240.0.0.0",
        "255.255.255.254",
    ];
    for text in public {
        assert!(is_public_ip(read_ip(text).unwrap()), "{text}");
    }
}

#[test]
fn public_v6_addresses_lie_outside_the_special_ranges() {
    let special = [
        "::", "::1", "fc00::", "fdff::1", "fe80::", "febf::1", "ff00::", "ffff::", "2001:db8::",
        "2001:db8:ffff::1",
    ];
    for text in special {
        assert!(!is_public_ip(read_ip(text).unwrap()), "{text}");
    }
    let public = [
        "::2", "1::", "::1:0", "fbff::", "fe00::", "fe7f::", "fec0::", "feff::", "2001:db7::",
        "2001:db9::", "2002:db8::", "::127.0.0.1",
    ];
    for text in public {
        assert!(is_public_ip(read_ip(text).unwrap()), "{text}");
    }
}

#[test]
fn literals_are_read_in_all_their_forms() {
    let v4 = |a: u8, b: u8, c: u8, d: u8| Some(IpAddress::V4(a, b, c, d));
    let v6 = |s: [u16; 8]| Some(IpAddress::V6(s[0], s[1], s[2], s[3], s[4], s[5], s[6], s[7]));
    assert_eq!(read_ip("0.1.20.255"), v4(0, 1, 20, 255));
    assert_eq!(read_ip("1:2:3:4:5:6:7:8"), v6([1, 2, 3, 4, 5, 6, 7, 8]));
    assert_eq!(read_ip("::"), v6([0; 8]));
    assert_eq!(read_ip("1::"), v6([1, 0, 0, 0, 0, 0, 0, 0]));
    assert_eq!(read_ip("1:2:3:4:5:6:7::"), v6([1, 2, 3, 4, 5, 6, 7, 0]));
    assert_eq!(read_ip("::2:3:4:5:6:7:8"), v6([0, 2, 3, 4, 5, 6, 7, 8]));
    assert_eq!(read_ip("aB:00Cd::fFfF"), v6([0xab, 0xcd, 0, 0, 0, 0, 0, 0xffff]));
    assert_eq!(read_ip("::ffff:1.2.3.4"), v6([0, 0, 0, 0, 0, 0xffff, 0x102, 0x304]));
    assert_eq!(read_ip("1:2:3:4:5:6:7.8.9.10"), v6([1, 2, 3, 4, 5, 6, 0x708, 0x90a]));
    assert_eq!(read_ip("::1.2.3.4"), v6([0, 0, 0, 0, 0, 0, 0x102, 0x304]));
}

#[test]
fn other_texts_are_no_literals() {
    let none = [
        "",
        "1.2.3",
        "1.2.3.4.5",
        "1.2.3.256",
        "01.2.3.4",
        "00.2.3.4",
        "1.2.3.+4",
        "1..3.4",
        " 1.2.3.4",
        "1.2.3.0004",
        ":",
        ":::",
        "1:2:3:4:5:6:7",
        "1:2:3:4:5:6:7:8:9",
        "1:2:3:4:5:6:7:8::",
        "1:2:3:4::5:6:7:8",
        "1::2::3",
        ":1::",
        "1::2:",
        "12345::",
        "+1::",
        "g::",
        "1.2.3.4::",
        "::1.2.3.4:5",
        "1:2:3:4:5:6::1.2.3.4",
        "1:2:3:4:5:6:7:1.2.3.4",
        "::1%1",
        "[::1]",
    ];
    for text in none {
        assert_eq!(read_ip(text), None, "{text}");
    }
}

#[test]
fn host_literals_are_read() {
    assert_eq!(parse_host_ip("127.0.0.1"), Some(IpAddress::V4(127, 0, 0, 1)));
    assert_eq!(parse_host_ip("[::1]"), Some(IpAddress::V6(0, 0, 0, 0, 0, 0, 0, 1)));
    assert_eq!(parse_host_ip("::1"), Some(IpAddress::V6(0, 0, 0, 0, 0, 0, 0, 1)));
    assert_eq!(parse_host_ip("[::1"), None);
    assert_eq!(parse_host_ip("["), None);
    assert_eq!(parse_host_ip("example.com"), None);
}

#[test]
fn localhost_has_many_names() {
    for host in ["localhost", "LOCALHOST", "localhost.", "a.localhost", "a.LocalHost.."] {
        assert!(is_localhost(host), "{host}");
    }
    for host in ["localhost.com", "notlocalhost", "", "."] {
        assert!(!is_localhost(host), "{host}");
    }
}

#[test]
fn all_addresses_of_a_host_must_be_public() {
    let public = IpAddress::V4(93, 184, 216, 34);
    let private = IpAddress::V4(10, 0, 0, 1);
    assert!(addresses_allowed(&vec![public]));
    assert!(!addresses_allowed(&vec![public, private]));
    assert!(!addresses_allowed(&vec![]));
}

#[test]
fn urls_are_read_into_their_parts() {
    let url = parse_static_url("HTTPS://Example.com:8443/a/../b?x=1&y=a%2Bb#f").unwrap();
    assert_eq!(url.href, "https://example.com:8443/b?x=1&y=a%2Bb#f");
    assert_eq!(url.scheme, "https");
    assert_eq!(url.username, "");
    assert_eq!(url.password, None);
    assert_eq!(url.host.as_deref(), Some("example.com"));
    assert_eq!(url.port, Some(8443));
    assert_eq!(url.path, "/b");
    let query = vec![
        ("x".to_string(), "1".to_string()),
        ("y".to_string(), "a+b".to_string()),
    ];
    assert_eq!(url.query, query);
    assert_eq!(parse_static_url("http://example.com/").unwrap().port, Some(80));
    assert!(parse_static_url("https://:secret@example.com/").is_none());
    assert!(parse_static_url("http://10.1.2.3/").is_none());
    assert!(parse_static_url("http://0x7f.1/").is_none());
    assert!(parse_static_url("not a url").is_none());
}

#[test]
fn literal_hosts_need_no_lookup() {
    let Some(StaticTarget::Direct(url)) = allowed_static_url("http://93.184.216.34/x") else {
        panic!("a literal");
    };
    assert_eq!(url.path, "/x");
    let Some(StaticTarget::Lookup { host, port, .. }) = allowed_static_url("https://e.com/") else {
        panic!("a name");
    };
    assert_eq!((host.as_str(), port), ("e.com", 443));
    assert!(allowed_static_url("http://192.168.0.1/").is_none());
}

#[test]
fn redirects_are_resolved_against_the_page() {
    let base = "https://example.com/a/b?c";
    let to = |location: &str| redirect_url(base, &Some(location.to_string()));
    assert_eq!(to("../d").as_deref(), Some("https://example.com/d"));
    assert_eq!(to("http://other.org").as_deref(), Some("http://other.org/"));
    assert_eq!(to("//[").as_deref(), None);
    assert!(redirect_url(base, &None).is_none());
}

#[test]
fn rate_limits_are_waited_for_within_bounds() {
    let wait = |retry: Option<&str>, reset: Option<&str>| {
        rate_limit_delay(&ResponseHead {
            retry_after: retry.map(str::to_string),
            ratelimit_reset: reset.map(str::to_string),
            ..head(429)
        })
    };
    assert_eq!(wait(Some("5"), Some("9")), 5);
    assert_eq!(wait(Some("soon"), Some("9")), 9);
    assert_eq!(wait(None, None), 60);
    assert_eq!(wait(Some("0"), None), 1);
    assert_eq!(wait(Some("120"), None), 65);
}

#[test]
fn requests_are_repeated_once_after_a_rate_limit() {
    let first = FetchState::First { repeatable: true };
    let once = FetchState::First { repeatable: false };
    let limited = Some(ResponseHead { retry_after: Some("3".to_string()), ..head(429) });
    assert!(matches!(fetch_step(first, &limited), FetchAction::SendAgain(3)));
    let failed = |state: FetchState, reply: &Option<ResponseHead>| match fetch_step(state, reply) {
        FetchAction::Fail(reason) => reason,
        _ => panic!("not failed"),
    };
    assert_eq!(failed(once, &limited), "HTTP 429 (rate limited)");
    assert_eq!(failed(FetchState::Second, &limited), "HTTP 429 (rate limited)");
    assert_eq!(failed(first, &None), "request failed");
    assert_eq!(failed(FetchState::Second, &None), "request failed after rate limit");
    assert_eq!(failed(first, &Some(head(302))), "HTTP 302 (request failed)");
    assert!(matches!(fetch_step(first, &Some(head(200))), FetchAction::ReadBody));
    assert!(matches!(fetch_step(FetchState::Second, &Some(head(299))), FetchAction::ReadBody));
}

#[test]
fn bodies_are_read_as_json() {
    assert!(body_json(&Some(b"{\"a\": 1}".to_vec())).is_ok());
    assert_eq!(body_json(&Some(b"{".to_vec())).err().as_deref(), Some("invalid JSON response"));
    assert_eq!(body_json(&None).err().as_deref(), Some("response too large or unreadable"));
}

#[test]
fn bodies_are_read_up_to_a_limit() {
    assert!(BodyReader::begin(Some(5), 4).is_none());
    let mut reader = BodyReader::begin(Some(4), 4).unwrap();
    assert!(reader.push(b"ab"));
    assert!(!reader.push(b"cde"));
    assert!(reader.push(b"cd"));
    assert!(reader.push(b""));
    assert!(!reader.push(b"e"));
    assert_eq!(reader.finish(), b"abcd".to_vec());
    assert_eq!(BodyReader::begin(None, 0).unwrap().finish(), Vec::<u8>::new());
}

#[test]
fn scrapes_refuse_local_pages() {
    let rejected = "URL rejected by static scraper";
    assert_eq!(ended(static_scrape("http://localhost/x")), rejected);
    let ScrapeStep::Resolve { url, redirects, .. } = static_scrape("http://example.com/x") else {
        panic!("no lookup");
    };
    assert_eq!(redirects, 0);
    let private = Some(vec![IpAddress::V4(127, 0, 0, 1)]);
    assert_eq!(ended(scrape_resolved(url, 0, &private)), rejected);
    let ScrapeStep::Resolve { url, .. } = static_scrape("http://example.com/x") else {
        panic!("no lookup");
    };
    assert_eq!(ended(scrape_resolved(url, 0, &None)), rejected);
}

#[test]
fn scrapes_follow_redirects() {
    let ScrapeStep::Resolve { url, .. } = static_scrape("http://example.com/x") else {
        panic!("no lookup");
    };
    let public = Some(vec![IpAddress::V4(93, 184, 216, 34)]);
    let ScrapeStep::Fetch { url, redirects } = scrape_resolved(url, 0, &public) else {
        panic!("no fetch");
    };
    let ScrapeStep::Resolve { url: next, host, redirects: followed, .. } =
        scrape_answered(&url, redirects, &redirect("//other.org/y"))
    else {
        panic!("not followed");
    };
    assert_eq!(next.href, "http://other.org/y");
    assert_eq!((host.as_str(), followed), ("other.org", 1));
    assert_eq!(
        ended(scrape_answered(&url, redirects, &redirect("http://10.0.0.1/"))),
        "redirect URL rejected"
    );
    assert_eq!(
        ended(scrape_answered(&url, redirects, &Some(head(301)))),
        "redirect without valid location"
    );
    assert_eq!(ended(scrape_answered(&url, redirects, &None)), "static scrape request failed");
    assert_eq!(
        ended(scrape_answered(&url, redirects, &Some(head(503)))),
        "static scrape HTTP 503 (server error)"
    );
    assert!(matches!(scrape_answered(&url, redirects, &Some(head(204))), ScrapeStep::Read));
    let gone = scrape_resolved(next, followed, &Some(vec![]));
    assert_eq!(ended(gone), "redirect URL rejected");
}

#[test]
fn scrapes_follow_a_bounded_number_of_redirects() {
    let mut step = static_scrape("http://93.184.216.34/");
    let mut requests = 0;
    let last = loop {
        match step {
            ScrapeStep::Fetch { url, redirects } => {
                requests += 1;
                step = scrape_answered(&url, redirects, &redirect("/again"));
            }
            ScrapeStep::Finished(result) => {
                break reason(result);
            }
            _ => panic!("unexpected"),
        }
    };
    assert_eq!(last, "too many redirects");
    assert_eq!(requests, MAX_STATIC_REDIRECTS + 1);
}

#[test]
fn pages_are_decoded_and_read() {
    let mut page = b"<div class='abstract-text'>A ".to_vec();
    page.push(0xff);
    page.extend_from_slice(b" B</div>");
    let EnrichResult::Found(text) = scrape_read(&Some(page), Some(AbstractSource::Ieee)) else {
        panic!("nothing found");
    };
    assert_eq!(text, "A \u{fffd} B");
    assert_eq!(
        reason(scrape_read(&Some(b"<p>".to_vec()), None)),
        "static page had no extractable abstract"
    );
    assert_eq!(reason(scrape_read(&None, None)), "static page too large or unreadable");
    assert_eq!(MAX_HTML_BODY_BYTES, 4 * 1024 * 1024);
}
