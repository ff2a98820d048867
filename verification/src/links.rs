//! The links of a page.
//!
//! Reading the HTML is the work of the `scraper` crate, which hands over the
//! `href` of every anchor. Which of them become crawl targets is decided
//! here: a navigational link that resolves to a URL in scope.

use vstd::prelude::*;
use crate::scope::{in_scope, is_same_domain};
use crate::text::{chars_of, starts_with};
use crate::text_set::{listing, strictly_sorted, texts, TextSet};
use crate::urls::{normalize_url, normalized};

verus! {

/// What `scraper` finds in the document `html`: for each element that the
/// selector `a[href]` matches, in document order, its `href` attribute.
pub uninterp spec fn document_hrefs(html: Seq<char>) -> Seq<Option<Seq<char>>>;

/// The character sequences of a list of attribute values.
pub open spec fn href_texts(hrefs: Seq<Option<String>>) -> Seq<Option<Seq<char>>> {
    hrefs.map_values(
        |href: Option<String>|
            match href {
                Some(value) => Some(value@),
                None => None,
            },
    )
}

/// Parses `html` with `scraper::Html::parse_document`, selects with
/// `Html::select` the elements that match `scraper::Selector::parse("a[href]")`
/// and reads the `href` of each with `Element::attr`. A selector that does not
/// parse gives no element. Not proved: that the list is `document_hrefs` of
/// the text, which only says that it depends on the text alone.
#[verifier::external_body]
pub(crate) fn anchor_hrefs(html: &str) -> (hrefs: Vec<Option<String>>)
    ensures
        href_texts(hrefs@) == document_hrefs(html@),
{
    let document = scraper::Html::parse_document(html);
    match scraper::Selector::parse("a[href]") {
        Ok(anchors) => document.select(&anchors).map(
            |anchor| anchor.value().attr("href").map(str::to_string),
        ).collect(),
        Err(_) => Vec::new(),
    }
}

/// A link that leads to a page: not a script, a mail address, a telephone
/// number or a place on the same page.
pub open spec fn navigational(href: Seq<char>) -> bool {
    &&& !"javascript:"@.is_prefix_of(href)
    &&& !"mailto:"@.is_prefix_of(href)
    &&& !"tel:"@.is_prefix_of(href)
    &&& !"#"@.is_prefix_of(href)
}

/// The crawl target that one attribute value gives on the page `source`: the
/// canonical form of a navigational link that resolves to a URL in the scope
/// of `base`.
pub open spec fn link_target(
    href: Option<Seq<char>>,
    source: Seq<char>,
    base: Seq<char>,
) -> Option<Seq<char>> {
    match href {
        Some(value) => match normalized(value, source) {
            Ok(target) => if navigational(value) && in_scope(target, base) {
                Some(target)
            } else {
                None
            },
            Err(_) => None,
        },
        None => None,
    }
}

/// The crawl targets that the attribute values `hrefs` give on the page
/// `source`.
pub open spec fn links_among(
    hrefs: Seq<Option<Seq<char>>>,
    source: Seq<char>,
    base: Seq<char>,
) -> Set<Seq<char>> {
    Set::new(
        |target: Seq<char>|
            exists|i: int|
                0 <= i < hrefs.len() && link_target(#[trigger] hrefs[i], source, base) == Some(
                    target,
                ),
    )
}

/// The crawl targets of the page `source` with text `html`.
pub open spec fn page_links(html: Seq<char>, source: Seq<char>, base: Seq<char>) -> Set<
    Seq<char>,
> {
    links_among(document_hrefs(html), source, base)
}

/// One more attribute value adds the target it gives, and nothing else.
proof fn lemma_links_push(
    hrefs: Seq<Option<Seq<char>>>,
    href: Option<Seq<char>>,
    source: Seq<char>,
    base: Seq<char>,
)
    ensures
        links_among(hrefs.push(href), source, base) == match link_target(href, source, base) {
            Some(target) => links_among(hrefs, source, base).insert(target),
            None => links_among(hrefs, source, base),
        },
{
    let more = hrefs.push(href);
    let expected = match link_target(href, source, base) {
        Some(target) => links_among(hrefs, source, base).insert(target),
        None => links_among(hrefs, source, base),
    };
    assert forall|target: Seq<char>|
        links_among(more, source, base).contains(target) <==> expected.contains(target) by {
        if links_among(more, source, base).contains(target) {
            let i = choose|i: int|
                0 <= i < more.len() && link_target(#[trigger] more[i], source, base) == Some(
                    target,
                );
            if i < hrefs.len() {
                assert(hrefs[i] == more[i]);
            }
        }
        if links_among(hrefs, source, base).contains(target) {
            let i = choose|i: int|
                0 <= i < hrefs.len() && link_target(#[trigger] hrefs[i], source, base) == Some(
                    target,
                );
            assert(more[i] == hrefs[i]);
        }
        if link_target(href, source, base) == Some(target) {
            assert(more[hrefs.len() as int] == href);
        }
    }
}

/// Whether `href` leads to a page: it starts with none of `javascript:`,
/// `mailto:`, `tel:` and `#`.
pub fn is_navigational(href: &str) -> (r: bool)
    ensures
        r == navigational(href@),
{
    let chars = chars_of(href);
    !starts_with(chars.as_slice(), chars_of("javascript:").as_slice()) && !starts_with(
        chars.as_slice(),
        chars_of("mailto:").as_slice(),
    ) && !starts_with(chars.as_slice(), chars_of("tel:").as_slice()) && !starts_with(
        chars.as_slice(),
        chars_of("#").as_slice(),
    )
}

/// The crawl targets among the `href` values of a page: each navigational
/// value is resolved against `source_url` and put in canonical form, and kept
/// where it is in the scope of `base_domain`. A value that cannot be resolved
/// is passed over. The targets come in increasing order, each once.
pub fn select_links(hrefs: &Vec<Option<String>>, source_url: &str, base_domain: &str) -> (out: Vec<
    String,
>)
    ensures
        texts(out@) == listing(links_among(href_texts(hrefs@), source_url@, base_domain@)),
        strictly_sorted(texts(out@)),
        texts(out@).to_set() == links_among(href_texts(hrefs@), source_url@, base_domain@),
        forall|i: int| 0 <= i < out@.len() ==> in_scope(#[trigger] out@[i]@, base_domain@),
{
    let mut found = TextSet::new();
    let mut i: usize = 0;
    while i < hrefs.len()
        invariant
            i <= hrefs@.len(),
            found.wf(),
            found.set() == links_among(href_texts(hrefs@).take(i as int), source_url@, base_domain@),
        decreases hrefs@.len() - i,
    {
        proof {
            lemma_links_push(
                href_texts(hrefs@).take(i as int),
                href_texts(hrefs@)[i as int],
                source_url@,
                base_domain@,
            );
            assert(href_texts(hrefs@).take(i + 1) =~= href_texts(hrefs@).take(i as int).push(
                href_texts(hrefs@)[i as int],
            ));
        }
        match &hrefs[i] {
            Some(href) => {
                if is_navigational(href.as_str()) {
                    match normalize_url(href.as_str(), source_url) {
                        Ok(target) => {
                            if is_same_domain(target.as_str(), base_domain) {
                                found.insert(chars_of(target.as_str()));
                            }
                        },
                        Err(_) => {},
                    }
                }
            },
            None => {},
        }
        i += 1;
    }
    assert(href_texts(hrefs@).take(i as int) =~= href_texts(hrefs@));
    let out = found.to_strings();
    assert forall|i: int| 0 <= i < out@.len() implies in_scope(#[trigger] out@[i]@, base_domain@) by {
        assert(found.set().contains(texts(out@)[i]));
    }
    out
}

/// The crawl targets of the page at `source_url` whose text is
/// `html_content`: the links of its anchors that lead to pages in the scope
/// of `base_domain`, in canonical form and increasing order, each once.
pub fn extract_links(html_content: &str, source_url: &str, base_domain: &str) -> (out: Vec<String>)
    ensures
        texts(out@) == listing(page_links(html_content@, source_url@, base_domain@)),
        strictly_sorted(texts(out@)),
        texts(out@).to_set() == page_links(html_content@, source_url@, base_domain@),
        forall|i: int| 0 <= i < out@.len() ==> in_scope(#[trigger] out@[i]@, base_domain@),
{
    let hrefs = anchor_hrefs(html_content);
    select_links(&hrefs, source_url, base_domain)
}

} // verus!
