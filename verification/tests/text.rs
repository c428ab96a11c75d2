//! Text, numbers and markup.
use sec_grep::html::{
    element_text, first_element_text, first_readable_content, ndss_abstract, neurips_abstract,
};
use sec_grep::markup::{
    collapse_ws, decode_entity, decode_html_entities, is_boilerplate_abstract, non_empty_text,
};
use sec_grep::number::{decimal_string, i32_string, parse_u64};
use sec_grep::report::{field_line, pad_left, pad_right};
use sec_grep::text::{comes_before, contains_text, is_white_space, strip_prefix, trim};

fn strings(list: &[&str]) -> Vec<String> {
    list.iter().map(|s| s.to_string()).collect()
}

#[test]
fn white_space_is_that_of_the_language() {
    for code in 0..=0x10ffff_u32 {
        if let Some(c) = char::from_u32(code) {
            assert_eq!(is_white_space(c), c.is_whitespace(), "{code:x}");
        }
    }
}

#[test]
fn texts_are_trimmed_and_searched() {
    for text in ["", " ", "a", " a b ", "\u{3000}x\u{a0}", "\n\t"] {
        assert_eq!(trim(text), text.trim());
    }
    assert!(contains_text("abcabd", "abd"));
    assert!(contains_text("abc", ""));
    assert!(!contains_text("abc", "abcd"));
    assert_eq!(strip_prefix("abc", "ab").as_deref(), Some("c"));
    assert!(strip_prefix("abc", "b").is_none());
}

#[test]
fn texts_are_ordered_as_in_the_language() {
    let texts = ["", "A", "AB", "B", "a", "\u{e9}", "\u{10000}", "\u{ffff}", "B\u{e9}"];
    for a in texts {
        for b in texts {
            assert_eq!(comes_before(a, b), a < b);
        }
    }
}

#[test]
fn white_space_is_collapsed() {
    assert_eq!(collapse_ws("  a \n\t b\u{a0}c  "), "a b c");
    assert_eq!(collapse_ws("   "), "");
    let once = collapse_ws(" x   y ");
    assert_eq!(collapse_ws(&once), once);
}

#[test]
fn entities_are_decoded() {
    assert_eq!(decode_entity("amp").as_deref(), Some("&"));
    assert_eq!(decode_entity("apos").as_deref(), Some("'"));
    assert_eq!(decode_entity("gt").as_deref(), Some(">"));
    assert_eq!(decode_entity("lt").as_deref(), Some("<"));
    assert_eq!(decode_entity("nbsp").as_deref(), Some(" "));
    assert_eq!(decode_entity("quot").as_deref(), Some("\""));
    assert_eq!(decode_entity("#65").as_deref(), Some("A"));
    assert_eq!(decode_entity("#+65").as_deref(), Some("A"));
    assert_eq!(decode_entity("#x41").as_deref(), Some("A"));
    assert_eq!(decode_entity("#X1F600").as_deref(), Some("\u{1f600}"));
    assert!(decode_entity("#xD800").is_none());
    assert!(decode_entity("#1114112").is_none());
    assert!(decode_entity("#4294967296").is_none());
    assert!(decode_entity("#").is_none());
    assert!(decode_entity("#x").is_none());
    assert!(decode_entity("AMP").is_none());
    assert!(decode_entity("").is_none());
}

#[test]
fn entities_are_decoded_in_place() {
    assert_eq!(decode_html_entities("a &lt;b&gt; &c; &amp;amp; &"), "a <b> &c; &amp; &");
    assert_eq!(decode_html_entities("no end &lt"), "no end &lt");
    assert_eq!(decode_html_entities("&a&lt;"), "&a&lt;");
    assert_eq!(decode_html_entities("plain"), "plain");
    assert_eq!(decode_html_entities(""), "");
}

#[test]
fn references_are_decoded_alone() {
    let closed = ["", "plain; text", "&lt;", "a &none; b", "&amp;&#65;"];
    let any = ["", "b", "&gt;", "&open", "amp;", "; &quot;"];
    for a in closed {
        for b in any {
            let whole = decode_html_entities(&format!("{a}{b}"));
            assert_eq!(whole, decode_html_entities(a) + &decode_html_entities(b));
            assert!(whole.len() <= a.len() + b.len());
        }
    }
    assert_eq!(decode_html_entities("&open"), "&open");
    assert_eq!(decode_html_entities("&#x1F600;").len(), 4);
}

#[test]
fn texts_are_decoded_twice_and_collapsed() {
    assert_eq!(non_empty_text(" a &amp;lt; b ").as_deref(), Some("a < b"));
    assert_eq!(non_empty_text("&amp;amp;amp;").as_deref(), Some("&amp;"));
    assert!(non_empty_text("&nbsp; &#32;").is_none());
    assert!(non_empty_text("").is_none());
}

#[test]
fn boilerplate_is_known_by_its_beginning() {
    let text = "Promoting openness in scientific communication and the peer-review process";
    assert!(is_boilerplate_abstract(text));
    assert!(is_boilerplate_abstract(&format!("{text}. More.")));
    assert!(!is_boilerplate_abstract(&text[1..]));
    assert!(!is_boilerplate_abstract(&text[..text.len() - 1]));
}

#[test]
fn elements_give_their_text() {
    assert_eq!(element_text(&strings(&["a", " b ", "c"])).as_deref(), Some("a b c"));
    assert!(element_text(&strings(&["", " "])).is_none());
    let elements = vec![strings(&[" "]), strings(&["x"]), strings(&["y"])];
    assert_eq!(first_element_text(&elements).as_deref(), Some("x"));
}

#[test]
fn ndss_authors_are_cut_off() {
    let authors = Some("A (X), B (Y)".to_string());
    assert_eq!(ndss_abstract("A (X), B (Y) : - Text.", &authors).as_deref(), Some("Text."));
    assert_eq!(ndss_abstract("Text by A", &authors).as_deref(), Some("Text by A"));
    assert_eq!(ndss_abstract("Text.", &None).as_deref(), Some("Text."));
    assert!(ndss_abstract("A (X), B (Y):", &authors).is_none());
}

#[test]
fn neurips_sections_are_read_up_to_the_abstract() {
    let sections = vec![strings(&["Authors"]), strings(&["Abstract", "Text."])];
    assert_eq!(neurips_abstract(&sections).as_deref(), Some("Text."));
    let empty_first = vec![strings(&[" "]), strings(&["Abstract", "Text."])];
    assert!(neurips_abstract(&empty_first).is_none());
    let empty_abstract = vec![strings(&["Abstract"]), strings(&["Abstract", "Text."])];
    assert!(neurips_abstract(&empty_abstract).is_none());
    assert!(neurips_abstract(&vec![strings(&["Other"])]).is_none());
}

#[test]
fn unreadable_contents_are_passed_over() {
    let contents = vec![
        None,
        Some("  ".to_string()),
        Some(
            "Promoting openness in scientific communication and the peer-review process"
                .to_string(),
        ),
        Some("Text.".to_string()),
    ];
    assert_eq!(first_readable_content(&contents).as_deref(), Some("Text."));
    assert!(first_readable_content(&contents[..3].to_vec()).is_none());
}

#[test]
fn numbers_are_written_and_read_back() {
    for n in [0, 7, 10, 99, 4_294_967_296, u64::MAX] {
        assert_eq!(decimal_string(n), n.to_string());
        assert_eq!(parse_u64(&decimal_string(n)), Some(n));
    }
    for n in [i32::MIN, -1, 0, 1, 2026, i32::MAX] {
        assert_eq!(i32_string(n), n.to_string());
    }
}

#[test]
fn texts_are_padded() {
    assert_eq!(pad_right("ab", 4), "ab  ");
    assert_eq!(pad_left("ab", 4), "  ab");
    assert_eq!(pad_right("abcde", 4), "abcde");
    assert_eq!(pad_left("\u{e9}", 2), format!("{:>2}", "\u{e9}"));
    assert_eq!(field_line("jobs", "8"), format!("  {:<10} {}", "jobs", "8"));
    assert_eq!(field_line("batch done!", "x"), "  batch done! x");
}
