//! Finding the abstract on a publisher's page.
use vstd::prelude::*;

use crate::markup;
use crate::markup::{is_boilerplate_abstract, non_empty_text};
use crate::paper::AbstractSource;
use crate::text;
use crate::text::{chars_of, is_white_space, join_strings, slice_to_string, strip_prefix};

verus! {

/// The most bytes of markup that the HTML parser is given. It keeps text in buffers of at most
/// 2^31 bytes, and a byte of markup becomes at most three bytes of text.
pub const MAX_MARKUP_BYTES: usize = 0x2AAA_AAAA;

/// Whether a document is small enough for the HTML parser.
pub open spec fn markup_fits(s: Seq<char>) -> bool {
    vstd::utf8::encode_utf8(s).len() <= MAX_MARKUP_BYTES
}

/// Whether a document is small enough for the HTML parser.
pub fn fits_markup_parser(html: &str) -> (r: bool)
    ensures
        r == markup_fits(html@),
{
    html.as_bytes().len() <= MAX_MARKUP_BYTES
}

/// The places on a page at which abstracts stand.
#[derive(Clone, Copy, Debug, PartialEq, Eq, Structural)]
pub enum PageSelector {
    AcmFull,
    AcmSection,
    Ieee,
    NdssData,
    NdssAuthors,
    NeuripsSection,
    Openreview,
    Pmlr,
    SpringerSection,
    SpringerContent,
    UsenixDescription,
    UsenixSummary,
    CitationMeta,
    OpenGraphMeta,
    DescriptionMeta,
}

/// The CSS selector of a place.
pub open spec fn css(selector: PageSelector) -> Seq<char> {
    match selector {
        PageSelector::AcmFull => "div.abstractInFull"@,
        PageSelector::AcmSection => "div.abstractSection"@,
        PageSelector::Ieee => "div.abstract-text"@,
        PageSelector::NdssData => "div.paper-data"@,
        PageSelector::NdssAuthors => "div.paper-data strong"@,
        PageSelector::NeuripsSection => "section.paper-section"@,
        PageSelector::Openreview => ".abstract-text-inner"@,
        PageSelector::Pmlr => "div#abstract"@,
        PageSelector::SpringerSection => {
            "section[data-title='Abstract'] div.c-article-section__content"@
        },
        PageSelector::SpringerContent => "#Abs1-content"@,
        PageSelector::UsenixDescription => "div.field-name-field-paper-description"@,
        PageSelector::UsenixSummary => "div.field-type-text-with-summary"@,
        PageSelector::CitationMeta => "meta[name='citation_abstract']"@,
        PageSelector::OpenGraphMeta => "meta[property='og:description']"@,
        PageSelector::DescriptionMeta => "meta[name='description']"@,
    }
}

/// Whether a text is the CSS selector of one of the places.
pub open spec fn known_selector(text: Seq<char>) -> bool {
    exists|selector: PageSelector| #[trigger] css(selector) == text
}

impl PageSelector {
    /// The CSS selector of this place.
    pub fn css(self) -> (r: &'static str)
        ensures
            r@ == css(self),
            known_selector(r@),
    {
        let r = match self {
            PageSelector::AcmFull => "div.abstractInFull",
            PageSelector::AcmSection => "div.abstractSection",
            PageSelector::Ieee => "div.abstract-text",
            PageSelector::NdssData => "div.paper-data",
            PageSelector::NdssAuthors => "div.paper-data strong",
            PageSelector::NeuripsSection => "section.paper-section",
            PageSelector::Openreview => ".abstract-text-inner",
            PageSelector::Pmlr => "div#abstract",
            PageSelector::SpringerSection => {
                "section[data-title='Abstract'] div.c-article-section__content"
            },
            PageSelector::SpringerContent => "#Abs1-content",
            PageSelector::UsenixDescription => "div.field-name-field-paper-description",
            PageSelector::UsenixSummary => "div.field-type-text-with-summary",
            PageSelector::CitationMeta => "meta[name='citation_abstract']",
            PageSelector::OpenGraphMeta => "meta[property='og:description']",
            PageSelector::DescriptionMeta => "meta[name='description']",
        };
        proof {
            assert(css(self) == r@);
        }
        r
    }
}

/// The text nodes of each element of the document `html` that the CSS selector `selector`
/// selects, as `scraper` finds them; `None` where it refuses the selector.
pub uninterp spec fn html_selected_text(html: Seq<char>, selector: Seq<char>) -> Option<
    Seq<Seq<Seq<char>>>,
>;

/// The attribute `name` of each element of the document `html` that the CSS selector `selector`
/// selects, as `scraper` finds them; `None` where it refuses the selector.
pub uninterp spec fn html_selected_attribute(
    html: Seq<char>,
    selector: Seq<char>,
    name: Seq<char>,
) -> Option<Seq<Option<Seq<char>>>>;

/// The text nodes of a piece of markup, as `scraper` finds them.
pub uninterp spec fn html_fragment_text(markup: Seq<char>) -> Seq<Seq<char>>;

/// `scraper::Html::select` on `Html::parse_document`, with a `Selector::parse`d selector, and
/// `ElementRef::text` of each element: the text nodes of the elements that it selects. The result
/// depends on the document and the selector alone; which elements and texts these are is left to
/// its name. The selector is one of a fixed list, for which matching descends no deeper than the
/// selector is long.
#[verifier::external_body]
fn selected_text(html: &str, selector: &str) -> (r: Option<Vec<Vec<String>>>)
    requires
        markup_fits(html@),
        known_selector(selector@),
    ensures
        r.deep_view() == html_selected_text(html@, selector@),
{
    let selector = scraper::Selector::parse(selector).ok()?;
    let document = scraper::Html::parse_document(html);
    Some(document.select(&selector).map(|e| e.text().map(str::to_string).collect()).collect())
}

/// `scraper::Html::select` on `Html::parse_document`, with a `Selector::parse`d selector, and
/// `Element::attr` of each element: the attribute of the elements that it selects. The result
/// depends on the document, the selector and the attribute's name alone; which elements and values
/// these are is left to its name. The selector is one of a fixed list, for which matching descends
/// no deeper than the selector is long.
#[verifier::external_body]
fn selected_attribute(html: &str, selector: &str, name: &str) -> (r: Option<Vec<Option<String>>>)
    requires
        markup_fits(html@),
        known_selector(selector@),
    ensures
        r.deep_view() == html_selected_attribute(html@, selector@, name@),
{
    let selector = scraper::Selector::parse(selector).ok()?;
    let document = scraper::Html::parse_document(html);
    Some(document.select(&selector).map(|e| e.value().attr(name).map(str::to_string)).collect())
}

/// `scraper::Html::parse_fragment`, and `ElementRef::text` of its `root_element`: the text nodes
/// of a piece of markup. The result depends on the markup alone; which texts these are is left to
/// its name.
#[verifier::external_body]
fn fragment_text(markup: &str) -> (r: Vec<String>)
    requires
        markup_fits(markup@),
    ensures
        r.deep_view() == html_fragment_text(markup@),
{
    let document = scraper::Html::parse_fragment(markup);
    document.root_element().text().map(str::to_string).collect()
}

/// The readable text of an element with the given text nodes.
pub open spec fn text_of_element(pieces: Seq<Seq<char>>) -> Option<Seq<char>> {
    markup::cleaned(text::join(pieces, " "@))
}

/// The readable text of an element with the given text nodes.
pub fn element_text(pieces: &Vec<String>) -> (r: Option<String>)
    ensures
        r.deep_view() == text_of_element(pieces.deep_view()),
{
    let joined = join_strings(pieces, " ");
    non_empty_text(joined.as_str())
}

/// The readable text of the whole of a piece of markup, its tags dropped.
pub open spec fn markup_text(markup: Seq<char>) -> Option<Seq<char>> {
    text_of_element(html_fragment_text(markup))
}

/// The readable text of a piece of markup, its tags dropped.
pub fn strip_markup(markup: &str) -> (r: Option<String>)
    requires
        markup_fits(markup@),
    ensures
        r.deep_view() == markup_text(markup@),
{
    let pieces = fragment_text(markup);
    element_text(&pieces)
}

/// The readable text of the first element at or after `from` that has any.
pub open spec fn first_text(elements: Seq<Seq<Seq<char>>>, from: int) -> Option<Seq<char>>
    decreases elements.len() - from,
{
    if from < 0 || from >= elements.len() {
        None
    } else {
        match text_of_element(elements[from]) {
            Some(found) => Some(found),
            None => first_text(elements, from + 1),
        }
    }
}

/// The readable text of the first element that has any.
pub fn first_element_text(elements: &Vec<Vec<String>>) -> (r: Option<String>)
    ensures
        r.deep_view() == first_text(elements.deep_view(), 0),
{
    let mut i: usize = 0;
    while i < elements.len()
        invariant
            i <= elements@.len(),
            first_text(elements.deep_view(), i as int) == first_text(elements.deep_view(), 0),
        decreases elements@.len() - i,
    {
        proof {
            assert(elements.deep_view()[i as int] == elements@[i as int].deep_view());
        }
        let found = element_text(&elements[i]);
        if found.is_some() {
            return found;
        }
        i += 1;
    }
    None
}

/// The first readable text that one of `selectors`, in their order, selects.
pub open spec fn first_selected(html: Seq<char>, selectors: Seq<PageSelector>) -> Option<Seq<char>>
    decreases selectors.len(),
{
    if selectors.len() == 0 {
        None
    } else {
        let hit = match html_selected_text(html, css(selectors[0])) {
            Some(elements) => first_text(elements, 0),
            None => None,
        };
        match hit {
            Some(found) => Some(found),
            None => first_selected(html, selectors.skip(1)),
        }
    }
}

/// The first readable text that one of `selectors`, in their order, selects.
pub fn first_selector_text(html: &str, selectors: &Vec<PageSelector>) -> (r: Option<String>)
    requires
        markup_fits(html@),
    ensures
        r.deep_view() == first_selected(html@, selectors@),
{
    let mut i: usize = 0;
    proof {
        assert(selectors@.skip(0) == selectors@);
    }
    while i < selectors.len()
        invariant
            i <= selectors@.len(),
            markup_fits(html@),
            first_selected(html@, selectors@.skip(i as int)) == first_selected(
                html@,
                selectors@,
            ),
        decreases selectors@.len() - i,
    {
        proof {
            assert(selectors@.skip(i as int)[0] == selectors@[i as int]);
            assert(selectors@.skip(i as int).skip(1) == selectors@.skip(
                i + 1,
            ));
        }
        if let Some(elements) = selected_text(html, selectors[i].css()) {
            let found = first_element_text(&elements);
            if found.is_some() {
                return found;
            }
        }
        i += 1;
    }
    None
}

/// Whether `c` separates the authors of a paper from its abstract.
pub open spec fn separator(c: char) -> bool {
    text::white_space(c) || c == ':' || c == '-'
}

/// `s` without the separators at its beginning.
pub open spec fn without_separators(s: Seq<char>) -> Seq<char>
    decreases s.len(),
{
    if s.len() > 0 && separator(s[0]) {
        without_separators(s.skip(1))
    } else {
        s
    }
}

/// `text` without the separators at its beginning.
fn strip_separators(text: &str) -> (r: String)
    ensures
        r@ == without_separators(text@),
{
    let chars = chars_of(text);
    let mut start: usize = 0;
    proof {
        assert(chars@.skip(0) == chars@);
    }
    while start < chars.len() && (is_white_space(chars[start]) || chars[start] == ':'
        || chars[start] == '-')
        invariant
            start <= chars@.len(),
            without_separators(chars@.skip(start as int)) == without_separators(chars@),
        decreases chars@.len() - start,
    {
        proof {
            assert(chars@.skip(start as int).skip(1) == chars@.skip(start + 1));
        }
        start += 1;
    }
    proof {
        assert(chars@.skip(start as int) == chars@.subrange(start as int, chars@.len() as int));
    }
    slice_to_string(&chars, start, chars.len())
}

/// The abstract in the data of an NDSS paper: what follows the authors, where the data begins
/// with them.
pub open spec fn behind_authors(data: Seq<char>, authors: Option<Seq<char>>) -> Option<Seq<char>> {
    match authors {
        Some(names) if names.is_prefix_of(data) => markup::cleaned(
            without_separators(data.skip(names.len() as int)),
        ),
        _ => markup::cleaned(data),
    }
}

/// The abstract in the data of an NDSS paper: what follows the authors, where the data begins
/// with them.
pub fn ndss_abstract(data: &str, authors: &Option<String>) -> (r: Option<String>)
    ensures
        r.deep_view() == behind_authors(data@, authors.deep_view()),
{
    if let Some(names) = authors {
        if let Some(rest) = strip_prefix(data, names.as_str()) {
            let stripped = strip_separators(rest.as_str());
            return non_empty_text(stripped.as_str());
        }
    }
    non_empty_text(data)
}

/// The abstract on an NDSS page.
pub open spec fn ndss_page(html: Seq<char>) -> Option<Seq<char>> {
    match first_selected(html, seq![PageSelector::NdssData]) {
        Some(data) => behind_authors(data, first_selected(html, seq![PageSelector::NdssAuthors])),
        None => None,
    }
}

/// The abstract on an NDSS page.
pub fn extract_ndss_abstract(html: &str) -> (r: Option<String>)
    requires
        markup_fits(html@),
    ensures
        r.deep_view() == ndss_page(html@),
{
    let data_selectors = vec![PageSelector::NdssData];
    let author_selectors = vec![PageSelector::NdssAuthors];
    proof {
        assert(data_selectors@ == seq![PageSelector::NdssData]);
        assert(author_selectors@ == seq![PageSelector::NdssAuthors]);
    }
    match first_selector_text(html, &data_selectors) {
        Some(data) => {
            let authors = first_selector_text(html, &author_selectors);
            ndss_abstract(data.as_str(), &authors)
        },
        None => None,
    }
}

/// The abstract among the sections of a NeurIPS page, from index `from` on: what follows the
/// heading of the first section that begins with `Abstract`. A section without text ends the
/// search.
pub open spec fn behind_heading(sections: Seq<Seq<Seq<char>>>, from: int) -> Option<Seq<char>>
    decreases sections.len() - from,
{
    if from < 0 || from >= sections.len() {
        None
    } else {
        match text_of_element(sections[from]) {
            Some(found) => if "Abstract"@.is_prefix_of(found) {
                markup::cleaned(found.skip("Abstract"@.len() as int))
            } else {
                behind_heading(sections, from + 1)
            },
            None => None,
        }
    }
}

/// The abstract among the sections of a NeurIPS page.
pub fn neurips_abstract(sections: &Vec<Vec<String>>) -> (r: Option<String>)
    ensures
        r.deep_view() == behind_heading(sections.deep_view(), 0),
{
    let mut i: usize = 0;
    while i < sections.len()
        invariant
            i <= sections@.len(),
            behind_heading(sections.deep_view(), i as int) == behind_heading(
                sections.deep_view(),
                0,
            ),
        decreases sections@.len() - i,
    {
        proof {
            assert(sections.deep_view()[i as int] == sections@[i as int].deep_view());
        }
        match element_text(&sections[i]) {
            Some(found) => {
                if let Some(rest) = strip_prefix(found.as_str(), "Abstract") {
                    return non_empty_text(rest.as_str());
                }
            },
            None => {
                return None;
            },
        }
        i += 1;
    }
    None
}

/// The abstract on a NeurIPS page.
pub open spec fn neurips_page(html: Seq<char>) -> Option<Seq<char>> {
    match html_selected_text(html, css(PageSelector::NeuripsSection)) {
        Some(sections) => behind_heading(sections, 0),
        None => None,
    }
}

/// The abstract on a NeurIPS page.
pub fn extract_neurips_abstract(html: &str) -> (r: Option<String>)
    requires
        markup_fits(html@),
    ensures
        r.deep_view() == neurips_page(html@),
{
    match selected_text(html, PageSelector::NeuripsSection.css()) {
        Some(sections) => neurips_abstract(&sections),
        None => None,
    }
}

/// The first readable content at or after `from` that is no boilerplate.
pub open spec fn first_content(contents: Seq<Option<Seq<char>>>, from: int) -> Option<Seq<char>>
    decreases contents.len() - from,
{
    if from < 0 || from >= contents.len() {
        None
    } else {
        let hit = match contents[from] {
            Some(content) => markup::cleaned(content),
            None => None,
        };
        match hit {
            Some(found) if !markup::boilerplate(found) => Some(found),
            _ => first_content(contents, from + 1),
        }
    }
}

/// The first readable content that is no boilerplate.
pub fn first_readable_content(contents: &Vec<Option<String>>) -> (r: Option<String>)
    ensures
        r.deep_view() == first_content(contents.deep_view(), 0),
{
    let mut i: usize = 0;
    while i < contents.len()
        invariant
            i <= contents@.len(),
            first_content(contents.deep_view(), i as int) == first_content(contents.deep_view(), 0),
        decreases contents@.len() - i,
    {
        proof {
            assert(contents.deep_view()[i as int] == contents@[i as int].deep_view());
        }
        if let Some(content) = &contents[i] {
            if let Some(found) = non_empty_text(content.as_str()) {
                if !is_boilerplate_abstract(found.as_str()) {
                    return Some(found);
                }
            }
        }
        i += 1;
    }
    None
}

/// The first readable `content` that the meta tags which one of `selectors`, in their order,
/// selects carry.
pub open spec fn first_meta(html: Seq<char>, selectors: Seq<PageSelector>) -> Option<Seq<char>>
    decreases selectors.len(),
{
    if selectors.len() == 0 {
        None
    } else {
        let hit = match html_selected_attribute(html, css(selectors[0]), "content"@) {
            Some(contents) => first_content(contents, 0),
            None => None,
        };
        match hit {
            Some(found) => Some(found),
            None => first_meta(html, selectors.skip(1)),
        }
    }
}

/// The meta tags that describe a page, the most specific first.
pub open spec fn meta_selectors() -> Seq<PageSelector> {
    seq![
        PageSelector::CitationMeta,
        PageSelector::OpenGraphMeta,
        PageSelector::DescriptionMeta,
    ]
}

/// The description of the page in its meta tags.
pub fn first_meta_content(html: &str) -> (r: Option<String>)
    requires
        markup_fits(html@),
    ensures
        r.deep_view() == first_meta(html@, meta_selectors()),
{
    let selectors = vec![
        PageSelector::CitationMeta,
        PageSelector::OpenGraphMeta,
        PageSelector::DescriptionMeta,
    ];
    let mut i: usize = 0;
    proof {
        assert(selectors@ == meta_selectors());
        assert(meta_selectors().skip(0) == meta_selectors());
    }
    while i < selectors.len()
        invariant
            i <= selectors@.len(),
            markup_fits(html@),
            selectors@ == meta_selectors(),
            first_meta(html@, meta_selectors().skip(i as int)) == first_meta(
                html@,
                meta_selectors(),
            ),
        decreases selectors@.len() - i,
    {
        proof {
                        assert(meta_selectors().skip(i as int).skip(1) == meta_selectors().skip(i + 1));
        }
        if let Some(contents) = selected_attribute(html, selectors[i].css(), "content") {
            let found = first_readable_content(&contents);
            if found.is_some() {
                return found;
            }
        }
        i += 1;
    }
    None
}

/// The abstract at the place that the pages of `source` keep for it.
pub open spec fn source_abstract(html: Seq<char>, source: AbstractSource) -> Option<Seq<char>> {
    match source {
        AbstractSource::Acm => first_selected(
            html,
            seq![PageSelector::AcmFull, PageSelector::AcmSection],
        ),
        AbstractSource::Ieee => first_selected(html, seq![PageSelector::Ieee]),
        AbstractSource::Ndss => ndss_page(html),
        AbstractSource::Neurips => neurips_page(html),
        AbstractSource::Openreview => first_selected(html, seq![PageSelector::Openreview]),
        AbstractSource::Pmlr => first_selected(html, seq![PageSelector::Pmlr]),
        AbstractSource::Springer => first_selected(
            html,
            seq![
                PageSelector::SpringerSection,
                PageSelector::SpringerContent,
            ],
        ),
        AbstractSource::Usenix => first_selected(
            html,
            seq![PageSelector::UsenixDescription, PageSelector::UsenixSummary],
        ),
    }
}

/// The abstract on a page: what stands at the place that its source keeps for it, or else the
/// description in its meta tags.
pub open spec fn page_abstract(html: Seq<char>, source: Option<AbstractSource>) -> Option<
    Seq<char>,
> {
    let hit = match source {
        Some(known) => source_abstract(html, known),
        None => None,
    };
    match hit {
        Some(found) => Some(found),
        None => first_meta(html, meta_selectors()),
    }
}

/// The first readable text that `selector` selects.
fn one_selector_text(html: &str, selector: PageSelector) -> (r: Option<String>)
    requires
        markup_fits(html@),
    ensures
        r.deep_view() == first_selected(html@, seq![selector]),
{
    let selectors = vec![selector];
    proof {
        assert(selectors@ == seq![selector]);
    }
    first_selector_text(html, &selectors)
}

/// The first readable text that `first`, or else `second`, selects.
fn two_selectors_text(html: &str, first: PageSelector, second: PageSelector) -> (r: Option<String>)
    requires
        markup_fits(html@),
    ensures
        r.deep_view() == first_selected(html@, seq![first, second]),
{
    let selectors = vec![first, second];
    proof {
        assert(selectors@ == seq![first, second]);
    }
    first_selector_text(html, &selectors)
}

/// Extracts the abstract from a publisher's page: first from the place that the pages of `source`
/// keep for it, then from the generic meta tags.
pub fn extract_abstract_html(html: &str, source: Option<AbstractSource>) -> (r: Option<String>)
    requires
        markup_fits(html@),
    ensures
        r.deep_view() == page_abstract(html@, source),
{
    let hit = match source {
        Some(AbstractSource::Acm) => two_selectors_text(
            html,
            PageSelector::AcmFull,
            PageSelector::AcmSection,
        ),
        Some(AbstractSource::Ieee) => one_selector_text(html, PageSelector::Ieee),
        Some(AbstractSource::Ndss) => extract_ndss_abstract(html),
        Some(AbstractSource::Neurips) => extract_neurips_abstract(html),
        Some(AbstractSource::Openreview) => one_selector_text(html, PageSelector::Openreview),
        Some(AbstractSource::Pmlr) => one_selector_text(html, PageSelector::Pmlr),
        Some(AbstractSource::Springer) => two_selectors_text(
            html,
            PageSelector::SpringerSection,
            PageSelector::SpringerContent,
        ),
        Some(AbstractSource::Usenix) => two_selectors_text(
            html,
            PageSelector::UsenixDescription,
            PageSelector::UsenixSummary,
        ),
        None => None,
    };
    if hit.is_some() {
        hit
    } else {
        first_meta_content(html)
    }
}

/// Whether a text, where there is one, is not empty and has its white space collapsed.
pub open spec fn normal_text(found: Option<Seq<char>>) -> bool {
    match found {
        Some(t) => t.len() > 0 && markup::collapsed(t) == t,
        None => true,
    }
}

proof fn lemma_cleaned_is_normal(s: Seq<char>)
    ensures
        normal_text(markup::cleaned(s)),
{
    if markup::cleaned(s) is Some {
        markup::cleaned_text_is_normal(s);
    }
}

proof fn lemma_first_text_is_normal(elements: Seq<Seq<Seq<char>>>, from: int)
    ensures
        normal_text(first_text(elements, from)),
    decreases elements.len() - from,
{
    if 0 <= from < elements.len() {
        lemma_cleaned_is_normal(text::join(elements[from], " "@));
        lemma_first_text_is_normal(elements, from + 1);
    }
}

proof fn lemma_first_selected_is_normal(html: Seq<char>, selectors: Seq<PageSelector>)
    ensures
        normal_text(first_selected(html, selectors)),
    decreases selectors.len(),
{
    if selectors.len() > 0 {
        if let Some(elements) = html_selected_text(html, css(selectors[0])) {
            lemma_first_text_is_normal(elements, 0);
        }
        lemma_first_selected_is_normal(html, selectors.skip(1));
    }
}

proof fn lemma_behind_heading_is_normal(sections: Seq<Seq<Seq<char>>>, from: int)
    ensures
        normal_text(behind_heading(sections, from)),
    decreases sections.len() - from,
{
    if 0 <= from < sections.len() {
        if let Some(found) = text_of_element(sections[from]) {
            lemma_cleaned_is_normal(found.skip("Abstract"@.len() as int));
        }
        lemma_behind_heading_is_normal(sections, from + 1);
    }
}

proof fn lemma_first_content_is_normal(contents: Seq<Option<Seq<char>>>, from: int)
    ensures
        normal_text(first_content(contents, from)),
        first_content(contents, from) matches Some(t) ==> !markup::boilerplate(t),
    decreases contents.len() - from,
{
    if 0 <= from < contents.len() {
        if let Some(content) = contents[from] {
            lemma_cleaned_is_normal(content);
        }
        lemma_first_content_is_normal(contents, from + 1);
    }
}

proof fn lemma_first_meta_is_normal(html: Seq<char>, selectors: Seq<PageSelector>)
    ensures
        normal_text(first_meta(html, selectors)),
        first_meta(html, selectors) matches Some(t) ==> !markup::boilerplate(t),
    decreases selectors.len(),
{
    if selectors.len() > 0 {
        if let Some(contents) = html_selected_attribute(html, css(selectors[0]), "content"@) {
            lemma_first_content_is_normal(contents, 0);
        }
        lemma_first_meta_is_normal(html, selectors.skip(1));
    }
}

proof fn lemma_ndss_is_normal(html: Seq<char>)
    ensures
        normal_text(ndss_page(html)),
{
    if let Some(data) = first_selected(html, seq![PageSelector::NdssData]) {
        lemma_cleaned_is_normal(data);
        if let Some(names) = first_selected(html, seq![PageSelector::NdssAuthors]) {
            lemma_cleaned_is_normal(without_separators(data.skip(names.len() as int)));
        }
    }
}

proof fn lemma_neurips_is_normal(html: Seq<char>)
    ensures
        normal_text(neurips_page(html)),
{
    if let Some(sections) = html_selected_text(html, css(PageSelector::NeuripsSection)) {
        lemma_behind_heading_is_normal(sections, 0);
    }
}

/// An abstract found on a page is not empty and has its white space collapsed, whatever the page
/// and its source.
pub proof fn page_abstracts_are_normal(html: Seq<char>, source: Option<AbstractSource>)
    ensures
        normal_text(page_abstract(html, source)),
{
    lemma_first_meta_is_normal(html, meta_selectors());
    lemma_ndss_is_normal(html);
    lemma_neurips_is_normal(html);
    assert forall|selectors: Seq<PageSelector>| normal_text(
        #[trigger] first_selected(html, selectors),
    ) by {
        lemma_first_selected_is_normal(html, selectors);
    }
    if let Some(known) = source {
        assert(normal_text(source_abstract(html, known)));
    }
}

/// The boilerplate description of a review platform is never taken from a meta tag.
pub proof fn boilerplate_is_rejected(html: Seq<char>)
    ensures
        first_meta(html, meta_selectors()) matches Some(t) ==> !markup::boilerplate(t),
{
    lemma_first_meta_is_normal(html, meta_selectors());
}

/// Where the place that the source keeps for abstracts holds one, the meta tags do not matter.
pub proof fn source_comes_before_meta(html: Seq<char>, source: AbstractSource)
    requires
        source_abstract(html, source) is Some,
    ensures
        page_abstract(html, Some(source)) == source_abstract(html, source),
{
}

/// The first readable content, no boilerplate, of the meta tags at a place.
pub open spec fn meta_content(html: Seq<char>, place: PageSelector) -> Option<Seq<char>> {
    match html_selected_attribute(html, css(place), "content"@) {
        Some(contents) => first_content(contents, 0),
        None => None,
    }
}

/// What an abstract on a page comes from, in this order: the place that the source keeps for it,
/// the citation tag, the tag for link previews, and the description. Where the tags stand on the
/// page does not matter.
pub proof fn descriptions_come_in_order(html: Seq<char>, source: Option<AbstractSource>)
    ensures
        page_abstract(html, source) == ({
            let hit = match source {
                Some(known) => source_abstract(html, known),
                None => None,
            };
            if hit is Some {
                hit
            } else if meta_content(html, PageSelector::CitationMeta) is Some {
                meta_content(html, PageSelector::CitationMeta)
            } else if meta_content(html, PageSelector::OpenGraphMeta) is Some {
                meta_content(html, PageSelector::OpenGraphMeta)
            } else {
                meta_content(html, PageSelector::DescriptionMeta)
            }
        }),
{
    reveal_with_fuel(first_meta, 4);
    let all = meta_selectors();
    assert(all.skip(1)[0] == PageSelector::OpenGraphMeta);
    assert(all.skip(1).skip(1)[0] == PageSelector::DescriptionMeta);
    assert(all.skip(1).skip(1).skip(1).len() == 0);
}

/// On a page without a citation tag, the tag for link previews comes before the description,
/// wherever the two stand, and both come behind the place that the source keeps for abstracts.
pub proof fn previews_come_before_descriptions(html: Seq<char>, source: Option<AbstractSource>)
    requires
        html_selected_attribute(html, css(PageSelector::CitationMeta), "content"@) matches Some(
            contents,
        ) ==> contents.len() == 0,
    ensures
        page_abstract(html, source) == ({
            let hit = match source {
                Some(known) => source_abstract(html, known),
                None => None,
            };
            if hit is Some {
                hit
            } else if meta_content(html, PageSelector::OpenGraphMeta) is Some {
                meta_content(html, PageSelector::OpenGraphMeta)
            } else {
                meta_content(html, PageSelector::DescriptionMeta)
            }
        }),
{
    descriptions_come_in_order(html, source);
}

/// The readable text of an element has the words of its text nodes, one node after the other and
/// with the references of each decoded; no word reaches from one node into the next. There is none
/// just where the nodes have no words.
pub proof fn elements_keep_the_words_of_their_nodes(pieces: Seq<Seq<char>>)
    requires
        forall|i: int|
            0 <= i < pieces.len() ==> markup::ends_outside(#[trigger] pieces[i])
                && markup::ends_outside(markup::decoded(pieces[i])),
    ensures
        match text_of_element(pieces) {
            Some(t) => text::words(t) == markup::words_of_all(pieces) && markup::singly_spaced(t),
            None => markup::words_of_all(pieces).len() == 0,
        },
{
    reveal_strlit(" ");
    assert(" "@ == seq![' ']);
    markup::joined_texts_keep_their_words(pieces);
    markup::cleaning_keeps_the_decoded_words(text::join(pieces, seq![' ']));
}

/// The words of a list of texts, one text after the other.
pub open spec fn node_words(pieces: Seq<Seq<char>>) -> Seq<Seq<char>>
    decreases pieces.len(),
{
    if pieces.len() == 0 {
        Seq::empty()
    } else {
        node_words(pieces.drop_last()) + text::words(pieces.last())
    }
}

/// The readable text of an element whose nodes hold no references has exactly the words of the
/// nodes, one node after the other.
pub proof fn plain_nodes_keep_their_words(pieces: Seq<Seq<char>>)
    requires
        forall|i: int, k: int|
            0 <= i < pieces.len() && 0 <= k < pieces[i].len() ==> #[trigger] pieces[i][k] != '&',
    ensures
        match text_of_element(pieces) {
            Some(t) => text::words(t) == node_words(pieces) && markup::singly_spaced(t),
            None => node_words(pieces).len() == 0,
        },
{
    assert forall|i: int| 0 <= i < pieces.len() implies markup::ends_outside(#[trigger] pieces[i])
        && markup::ends_outside(markup::decoded(pieces[i])) by {
        markup::plain_text_is_closed(pieces[i]);
        markup::decoding_keeps_plain_text(pieces[i]);
    }
    elements_keep_the_words_of_their_nodes(pieces);
    lemma_plain_words(pieces);
}

proof fn lemma_plain_words(pieces: Seq<Seq<char>>)
    requires
        forall|i: int, k: int|
            0 <= i < pieces.len() && 0 <= k < pieces[i].len() ==> #[trigger] pieces[i][k] != '&',
    ensures
        markup::words_of_all(pieces) == node_words(pieces),
    decreases pieces.len(),
{
    if pieces.len() > 0 {
        let last = pieces[pieces.len() - 1];
        assert(last == pieces.last());
        assert forall|k: int| 0 <= k < last.len() implies last[k] != '&' by {
            assert(pieces[pieces.len() - 1][k] != '&');
        }
        markup::decoding_keeps_plain_text(last);
        let front = pieces.drop_last();
        assert forall|i: int, k: int| 0 <= i < front.len() && 0 <= k < front[i].len() implies
            #[trigger] front[i][k] != '&' by {
            assert(pieces[i][k] != '&');
        }
        lemma_plain_words(front);
    }
}

/// Of several elements, the first that has readable text decides, and its own text is taken.
pub proof fn first_readable_element_decides(
    before: Seq<Seq<Seq<char>>>,
    element: Seq<Seq<char>>,
    behind: Seq<Seq<Seq<char>>>,
)
    requires
        forall|i: int| 0 <= i < before.len() ==> text_of_element(#[trigger] before[i]) is None,
    ensures
        text_of_element(element) is Some ==> first_text(before + seq![element] + behind, 0)
            == text_of_element(element),
        first_text(before, 0) is None,
{
    let all = before + seq![element] + behind;
    assert(all[before.len() as int] == element);
    assert forall|i: int| 0 <= i < before.len() implies text_of_element(#[trigger] all[i]) is None by {
        assert(all[i] == before[i]);
    }
    lemma_first_text_at(all, 0, before.len() as int);
    lemma_first_text_at(before, 0, before.len() as int);
}

proof fn lemma_first_text_at(elements: Seq<Seq<Seq<char>>>, from: int, at: int)
    requires
        0 <= from <= at <= elements.len(),
        forall|i: int| from <= i < at ==> text_of_element(#[trigger] elements[i]) is None,
    ensures
        first_text(elements, from) == first_text(elements, at),
    decreases at - from,
{
    if from < at {
        lemma_first_text_at(elements, from + 1, at);
    }
}

/// Of several meta tags, the first with readable content that is no boilerplate decides.
pub proof fn first_readable_content_decides(
    before: Seq<Option<Seq<char>>>,
    content: Seq<char>,
    behind: Seq<Option<Seq<char>>>,
)
    requires
        forall|i: int|
            0 <= i < before.len() ==> match #[trigger] before[i] {
                Some(other) => match markup::cleaned(other) {
                    Some(t) => markup::boilerplate(t),
                    None => true,
                },
                None => true,
            },
    ensures
        markup::cleaned(content) matches Some(t) && !markup::boilerplate(t) ==> first_content(
            before + seq![Some(content)] + behind,
            0,
        ) == markup::cleaned(content),
        first_content(before, 0) is None,
{
    let all = before + seq![Some(content)] + behind;
    assert(all[before.len() as int] == Some(content));
    assert forall|i: int| 0 <= i < before.len() implies #[trigger] all[i] == before[i] by {}
    lemma_first_content_at(all, before, 0);
    lemma_first_content_at(before, before, 0);
}

proof fn lemma_first_content_at(
    all: Seq<Option<Seq<char>>>,
    before: Seq<Option<Seq<char>>>,
    from: int,
)
    requires
        0 <= from <= before.len() <= all.len(),
        forall|i: int| 0 <= i < before.len() ==> #[trigger] all[i] == before[i],
        forall|i: int|
            0 <= i < before.len() ==> match #[trigger] before[i] {
                Some(other) => match markup::cleaned(other) {
                    Some(t) => markup::boilerplate(t),
                    None => true,
                },
                None => true,
            },
    ensures
        first_content(all, from) == first_content(all, before.len() as int),
    decreases before.len() - from,
{
    if from < before.len() {
        assert(all[from] == before[from]);
        lemma_first_content_at(all, before, from + 1);
    }
}

/// The first readable text at one place of a page.
pub open spec fn place_text(html: Seq<char>, place: PageSelector) -> Option<Seq<char>> {
    match html_selected_text(html, css(place)) {
        Some(elements) => first_text(elements, 0),
        None => None,
    }
}

/// Of several places, the first at which readable text stands decides.
pub proof fn first_readable_place_decides(
    html: Seq<char>,
    before: Seq<PageSelector>,
    place: PageSelector,
    behind: Seq<PageSelector>,
)
    requires
        forall|i: int| 0 <= i < before.len() ==> place_text(html, #[trigger] before[i]) is None,
    ensures
        place_text(html, place) is Some ==> first_selected(html, before + seq![place] + behind)
            == place_text(html, place),
        first_selected(html, before) is None,
    decreases before.len(),
{
    let all = before + seq![place] + behind;
    if before.len() == 0 {
        assert(all[0] == place);
    } else {
        let rest = before.skip(1);
        assert(place_text(html, before[0]) is None);
        assert(all[0] == before[0]);
        assert forall|i: int| 0 <= i < rest.len() implies place_text(html, #[trigger] rest[i]) is None by {
            assert(rest[i] == before[i + 1]);
        }
        first_readable_place_decides(html, rest, place, behind);
        assert(all.skip(1) == rest + seq![place] + behind);
    }
}

/// Each publisher keeps abstracts at one or two places, of which the first with readable text
/// decides.
pub proof fn publishers_keep_abstracts_in_their_places(html: Seq<char>)
    ensures
        source_abstract(html, AbstractSource::Acm) == if place_text(
            html,
            PageSelector::AcmFull,
        ) is Some {
            place_text(html, PageSelector::AcmFull)
        } else {
            place_text(html, PageSelector::AcmSection)
        },
        source_abstract(html, AbstractSource::Ieee) == place_text(html, PageSelector::Ieee),
        source_abstract(html, AbstractSource::Openreview) == place_text(
            html,
            PageSelector::Openreview,
        ),
        source_abstract(html, AbstractSource::Pmlr) == place_text(html, PageSelector::Pmlr),
        source_abstract(html, AbstractSource::Springer) == if place_text(
            html,
            PageSelector::SpringerSection,
        ) is Some {
            place_text(html, PageSelector::SpringerSection)
        } else {
            place_text(html, PageSelector::SpringerContent)
        },
        source_abstract(html, AbstractSource::Usenix) == if place_text(
            html,
            PageSelector::UsenixDescription,
        ) is Some {
            place_text(html, PageSelector::UsenixDescription)
        } else {
            place_text(html, PageSelector::UsenixSummary)
        },
{
    lemma_two_places(html, PageSelector::AcmFull, PageSelector::AcmSection);
    lemma_two_places(html, PageSelector::SpringerSection, PageSelector::SpringerContent);
    lemma_two_places(html, PageSelector::UsenixDescription, PageSelector::UsenixSummary);
    lemma_one_place(html, PageSelector::Ieee);
    lemma_one_place(html, PageSelector::Openreview);
    lemma_one_place(html, PageSelector::Pmlr);
}

proof fn lemma_one_place(html: Seq<char>, place: PageSelector)
    ensures
        first_selected(html, seq![place]) == place_text(html, place),
{
    assert(first_selected(html, seq![place].skip(1)) is None);
}

proof fn lemma_two_places(html: Seq<char>, first: PageSelector, second: PageSelector)
    ensures
        first_selected(html, seq![first, second]) == if place_text(html, first) is Some {
            place_text(html, first)
        } else {
            place_text(html, second)
        },
{
    lemma_one_place(html, second);
    assert(seq![first, second].skip(1) == seq![second]);
}

/// Only the white space, colons and dashes at the beginning are dropped, all of them.
pub proof fn only_leading_separators_are_dropped(separators: Seq<char>, rest: Seq<char>)
    requires
        forall|k: int|
            0 <= k < separators.len() ==> text::white_space(#[trigger] separators[k])
                || separators[k] == ':' || separators[k] == '-',
        rest.len() > 0 ==> !text::white_space(rest[0]) && rest[0] != ':' && rest[0] != '-',
    ensures
        without_separators(separators + rest) == rest,
    decreases separators.len(),
{
    let s = separators + rest;
    if separators.len() == 0 {
        assert(s == rest);
    } else {
        assert(s[0] == separators[0]);
        let fewer = separators.skip(1);
        assert forall|k: int| 0 <= k < fewer.len() implies text::white_space(#[trigger] fewer[k])
            || fewer[k] == ':' || fewer[k] == '-' by {
            assert(fewer[k] == separators[k + 1]);
        }
        only_leading_separators_are_dropped(fewer, rest);
        assert(s.skip(1) == fewer + rest);
    }
}

/// The abstract of an NDSS paper is what stands behind the authors and the separators that follow
/// them; data that does not begin with the authors is taken as it is.
pub proof fn authors_are_cut_off(
    authors: Seq<char>,
    separators: Seq<char>,
    rest: Seq<char>,
    other: Seq<char>,
)
    requires
        forall|k: int|
            0 <= k < separators.len() ==> text::white_space(#[trigger] separators[k])
                || separators[k] == ':' || separators[k] == '-',
        rest.len() > 0 ==> !text::white_space(rest[0]) && rest[0] != ':' && rest[0] != '-',
        !authors.is_prefix_of(other),
    ensures
        behind_authors(authors + separators + rest, Some(authors)) == markup::cleaned(rest),
        behind_authors(other, Some(authors)) == markup::cleaned(other),
        behind_authors(other, None) == markup::cleaned(other),
{
    let data = authors + separators + rest;
    assert(data.subrange(0, authors.len() as int) == authors);
    assert(authors.is_prefix_of(data));
    assert(data.skip(authors.len() as int) == separators + rest);
    only_leading_separators_are_dropped(separators, rest);
}

/// The abstract of a NeurIPS page stands behind the heading of the first section that begins with
/// it, as long as every section before has text.
pub proof fn first_headed_section_decides(
    before: Seq<Seq<Seq<char>>>,
    section: Seq<Seq<char>>,
    behind: Seq<Seq<Seq<char>>>,
    rest: Seq<char>,
)
    requires
        forall|i: int|
            0 <= i < before.len() ==> text_of_element(#[trigger] before[i]) is Some
                && !"Abstract"@.is_prefix_of(text_of_element(before[i]).unwrap()),
    ensures
        text_of_element(section) == Some("Abstract"@ + rest) ==> behind_heading(
            before + seq![section] + behind,
            0,
        ) == markup::cleaned(rest),
        text_of_element(section) is None ==> behind_heading(before + seq![section] + behind, 0) is None,
        behind_heading(before, 0) is None,
{
    let all = before + seq![section] + behind;
    let at = before.len() as int;
    assert(all[at] == section);
    assert forall|i: int| 0 <= i < at implies #[trigger] all[i] == before[i] by {}
    lemma_heading_at(all, before, 0);
    lemma_heading_at(before, before, 0);
    let found = "Abstract"@ + rest;
    assert(found.subrange(0, "Abstract"@.len() as int) == "Abstract"@);
    assert("Abstract"@.is_prefix_of(found));
    assert(found.skip("Abstract"@.len() as int) == rest);
}

proof fn lemma_heading_at(all: Seq<Seq<Seq<char>>>, before: Seq<Seq<Seq<char>>>, from: int)
    requires
        0 <= from <= before.len() <= all.len(),
        forall|i: int| 0 <= i < before.len() ==> #[trigger] all[i] == before[i],
        forall|i: int|
            0 <= i < before.len() ==> text_of_element(#[trigger] before[i]) is Some
                && !"Abstract"@.is_prefix_of(text_of_element(before[i]).unwrap()),
    ensures
        behind_heading(all, from) == behind_heading(all, before.len() as int),
    decreases before.len() - from,
{
    if from < before.len() {
        assert(all[from] == before[from]);
        lemma_heading_at(all, before, from + 1);
    }
}

/// A page of NDSS is read by the data and the authors at their places, a page of NeurIPS by its
/// sections, and markup without a page by its text nodes.
pub proof fn other_pages_are_read_by_their_parts(html: Seq<char>)
    ensures
        source_abstract(html, AbstractSource::Ndss) == match place_text(
            html,
            PageSelector::NdssData,
        ) {
            Some(data) => behind_authors(data, place_text(html, PageSelector::NdssAuthors)),
            None => None,
        },
        source_abstract(html, AbstractSource::Neurips) == match html_selected_text(
            html,
            "section.paper-section"@,
        ) {
            Some(sections) => behind_heading(sections, 0),
            None => None,
        },
        markup_text(html) == text_of_element(html_fragment_text(html)),
{
    lemma_one_place(html, PageSelector::NdssData);
    lemma_one_place(html, PageSelector::NdssAuthors);
}

/// The CSS selectors of all places.
pub proof fn places_have_these_selectors()
    ensures
        css(PageSelector::AcmFull) == "div.abstractInFull"@,
        css(PageSelector::AcmSection) == "div.abstractSection"@,
        css(PageSelector::Ieee) == "div.abstract-text"@,
        css(PageSelector::NdssData) == "div.paper-data"@,
        css(PageSelector::NdssAuthors) == "div.paper-data strong"@,
        css(PageSelector::NeuripsSection) == "section.paper-section"@,
        css(PageSelector::Openreview) == ".abstract-text-inner"@,
        css(PageSelector::Pmlr) == "div#abstract"@,
        css(PageSelector::SpringerSection)
            == "section[data-title='Abstract'] div.c-article-section__content"@,
        css(PageSelector::SpringerContent) == "#Abs1-content"@,
        css(PageSelector::UsenixDescription) == "div.field-name-field-paper-description"@,
        css(PageSelector::UsenixSummary) == "div.field-type-text-with-summary"@,
        css(PageSelector::CitationMeta) == "meta[name='citation_abstract']"@,
        css(PageSelector::OpenGraphMeta) == "meta[property='og:description']"@,
        css(PageSelector::DescriptionMeta) == "meta[name='description']"@,
{
}

/// The text of an element is its nodes with spaces between them, cleaned; and markup fits the
/// parser by its bytes.
pub proof fn nodes_are_joined_by_spaces(pieces: Seq<Seq<char>>, piece: Seq<char>)
    ensures
        text_of_element(pieces) == markup::cleaned(text::join(pieces, seq![' '])),
        text_of_element(seq![piece]) == markup::cleaned(piece),
        markup_fits(piece) <==> markup::byte_length(piece) <= 0x2AAA_AAAA,
{
    reveal_strlit(" ");
    assert(" "@ == seq![' ']);
}

} // verus!
