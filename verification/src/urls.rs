//! URL resolution and the canonical form of a crawl target.
//!
//! Parsing and resolving are the work of the `url` crate. What the crawler
//! reads of a parsed URL (its serialization, its host and its path) is held
//! here as plain strings, and the canonical form is computed from them.

use vstd::prelude::*;
use crate::text::{chars_of, copy_range, find_first, find_last, string_of};

verus! {

/// What the crawler reads of a parsed URL.
#[derive(Debug)]
pub struct ParsedUrl {
    /// The serialization of the whole URL.
    pub href: String,
    /// The host, for a URL that has one.
    pub host: Option<String>,
    /// The path, percent-encoded.
    pub path: String,
}

/// The view of a `ParsedUrl`: the same three parts as character sequences.
pub struct UrlParts {
    pub href: Seq<char>,
    pub host: Option<Seq<char>>,
    pub path: Seq<char>,
}

impl View for ParsedUrl {
    type V = UrlParts;

    open spec fn view(&self) -> UrlParts {
        UrlParts {
            href: self.href@,
            host: match self.host {
                Some(h) => Some(h@),
                None => None,
            },
            path: self.path@,
        }
    }
}

/// The view of what a parser gave: the parts, where it gave any.
pub open spec fn parts_of(parsed: Option<ParsedUrl>) -> Option<UrlParts> {
    match parsed {
        Some(parts) => Some(parts@),
        None => None,
    }
}

/// The error type of the `url` crate's parser.
#[verifier::external_type_specification]
#[verifier::external_body]
pub struct ExParseError(url::ParseError);

/// What `url::Url::parse` makes of `input`: the parts of the URL, or `None`
/// where the parser rejects the input.
pub uninterp spec fn url_parsed(input: Seq<char>) -> Option<UrlParts>;

/// What `url::Url::join` makes of `link` on the URL parsed from `source`:
/// the parts of the resolved URL, or `None` where `source` does not parse or
/// `link` cannot be resolved against it.
pub uninterp spec fn url_joined(source: Seq<char>, link: Seq<char>) -> Option<UrlParts>;

/// Parses `input` with `url::Url::parse` and reads the serialization
/// (`as_str`), the host (`host_str`) and the path (`path`) of the result.
/// Not proved: that the parser's answer is `url_parsed` of the input, which
/// only says that the answer depends on the input alone.
#[verifier::external_body]
pub(crate) fn parse_url(input: &str) -> (r: Result<ParsedUrl, url::ParseError>)
    ensures
        match r {
            Ok(parts) => url_parsed(input@) == Some(parts@),
            Err(_) => url_parsed(input@) is None,
        },
{
    let url = url::Url::parse(input)?;
    Ok(
        ParsedUrl {
            href: url.as_str().to_string(),
            host: url.host_str().map(str::to_string),
            path: url.path().to_string(),
        },
    )
}

/// Parses `source` with `url::Url::parse`, resolves `link` against it with
/// `url::Url::join`, and reads the same three parts of the result.
/// Not proved: that the answer is `url_joined` of the two strings, which only
/// says that it depends on them alone.
#[verifier::external_body]
pub(crate) fn join_url(source: &str, link: &str) -> (r: Result<ParsedUrl, url::ParseError>)
    ensures
        match r {
            Ok(parts) => url_joined(source@, link@) == Some(parts@),
            Err(_) => url_joined(source@, link@) is None,
        },
{
    let url = url::Url::parse(source)?.join(link)?;
    Ok(
        ParsedUrl {
            href: url.as_str().to_string(),
            host: url.host_str().map(str::to_string),
            path: url.path().to_string(),
        },
    )
}

/// A link or the page it stands on could not be parsed as a URL.
#[derive(Clone, Copy, Debug, PartialEq, Eq, Structural)]
pub struct MalformedUrlError;

impl MalformedUrlError {
    /// The error in words.
    pub fn message(&self) -> (text: String)
        ensures
            text@ == "malformed URL"@,
    {
        "malformed URL".to_owned()
    }
}

/// `href` up to its first `#`: the serialization without its fragment.
pub open spec fn without_fragment(href: Seq<char>) -> Seq<char> {
    match href.index_of_first('#') {
        Some(i) => href.take(i),
        None => href,
    }
}

/// What follows the last `/` of `path`; all of `path` where it has no `/`.
pub open spec fn last_segment(path: Seq<char>) -> Seq<char> {
    match path.index_of_last('/') {
        Some(i) => path.skip(i + 1),
        None => path,
    }
}

/// A path that is not empty and whose last segment has no `.`, hence no file
/// extension, names a directory.
pub open spec fn directory_like(path: Seq<char>) -> bool {
    path.len() > 0 && !last_segment(path).contains('.')
}

/// `s` ends with `c`.
pub open spec fn ends_in(s: Seq<char>, c: char) -> bool {
    s.len() > 0 && s.last() == c
}

/// The canonical form of a URL with serialization `href` and path `path`:
/// the fragment is dropped, and a `/` is added at the end where the path is
/// directory-like and the text does not end in one yet.
pub open spec fn canonical(href: Seq<char>, path: Seq<char>) -> Seq<char> {
    let text = without_fragment(href);
    if directory_like(path) && !ends_in(text, '/') {
        text.push('/')
    } else {
        text
    }
}

/// The crawl target that `link`, found on the page `source`, points to.
pub open spec fn normalized(link: Seq<char>, source: Seq<char>) -> Result<
    Seq<char>,
    MalformedUrlError,
> {
    match url_joined(source, link) {
        Some(parts) => Ok(canonical(parts.href, parts.path)),
        None => Err(MalformedUrlError),
    }
}

/// A canonical form holds no `#`, and ends in `/` where the path it was made
/// for is directory-like.
pub proof fn lemma_canonical_shape(href: Seq<char>, path: Seq<char>)
    ensures
        !canonical(href, path).contains('#'),
        directory_like(path) ==> ends_in(canonical(href, path), '/'),
{
    href.index_of_first_ensures('#');
    let text = without_fragment(href);
    assert(!text.contains('#')) by {
        if text.contains('#') {
            let i = choose|i: int| 0 <= i < text.len() && text[i] == '#';
            assert(href[i] == '#');
        }
    }
    let out = canonical(href, path);
    if out.contains('#') {
        let i = choose|i: int| 0 <= i < out.len() && out[i] == '#';
        if i < text.len() {
            assert(text[i] == '#');
        }
    }
}

/// A text without `#` that ends in `/` wherever `path` is directory-like is
/// its own canonical form.
pub proof fn lemma_canonical_fixed(text: Seq<char>, path: Seq<char>)
    requires
        !text.contains('#'),
        directory_like(path) ==> ends_in(text, '/'),
    ensures
        canonical(text, path) == text,
{
    text.index_of_first_ensures('#');
}

/// Normalization leaves alone what is already normal: a URL that resolves to
/// itself against `base`, holds no fragment mark and ends in `/` where its
/// path is directory-like is the result of normalizing itself.
pub proof fn lemma_normalized_fixed_point(target: Seq<char>, base: Seq<char>)
    requires
        url_joined(base, target) is Some,
        url_joined(base, target)->0.href == target,
        !target.contains('#'),
        directory_like(url_joined(base, target)->0.path) ==> ends_in(target, '/'),
    ensures
        normalized(target, base) == Ok::<Seq<char>, MalformedUrlError>(target),
{
    lemma_canonical_fixed(target, url_joined(base, target)->0.path);
}

/// Normalizing twice gives what normalizing once gives, against whatever
/// base the second time, for every result that resolves to itself with a path
/// that agrees with its last character: a result is free of fragments and
/// absolute, so resolving it again changes nothing.
pub proof fn lemma_normalize_idempotent(link: Seq<char>, source: Seq<char>, base: Seq<char>)
    requires
        normalized(link, source) is Ok,
        url_joined(base, normalized(link, source)->Ok_0) is Some,
        url_joined(base, normalized(link, source)->Ok_0)->0.href == normalized(link, source)->Ok_0,
        directory_like(url_joined(base, normalized(link, source)->Ok_0)->0.path) ==> ends_in(
            normalized(link, source)->Ok_0,
            '/',
        ),
    ensures
        normalized(normalized(link, source)->Ok_0, base) == normalized(link, source),
{
    let parts = url_joined(source, link)->0;
    lemma_canonical_shape(parts.href, parts.path);
    lemma_normalized_fixed_point(normalized(link, source)->Ok_0, base);
}

/// The canonical form of a URL, from its serialization and its path.
pub fn canonical_form(href: &str, path: &str) -> (out: String)
    ensures
        out@ == canonical(href@, path@),
{
    let text = chars_of(href);
    let path = chars_of(path);
    let end = match find_first(text.as_slice(), '#') {
        Some(i) => i,
        None => text.len(),
    };
    let segment_start = match find_last(path.as_slice(), '/') {
        Some(i) => i + 1,
        None => 0,
    };
    let segment = copy_range(path.as_slice(), segment_start, path.len());
    assert(segment@ =~= last_segment(path@));
    let has_extension = find_first(segment.as_slice(), '.').is_some();
    let ends_in_slash = end > 0 && text[end - 1] == '/';
    let kept = copy_range(text.as_slice(), 0, end);
    let mut out = string_of(kept.as_slice());
    if path.len() > 0 && !has_extension && !ends_in_slash {
        out.push('/');
    }
    out
}

/// Resolves `url`, a link found on the page `source_url`, and gives its
/// canonical form. Fails where the page's URL does not parse or the link
/// cannot be resolved against it.
pub fn normalize_url(url: &str, source_url: &str) -> (r: Result<String, MalformedUrlError>)
    ensures
        match r {
            Ok(target) => normalized(url@, source_url@) == Ok::<Seq<char>, MalformedUrlError>(
                target@,
            ),
            Err(e) => normalized(url@, source_url@) == Err::<Seq<char>, MalformedUrlError>(e),
        },
        r matches Ok(target) ==> !target@.contains('#') && (directory_like(
            url_joined(source_url@, url@)->0.path,
        ) ==> ends_in(target@, '/')),
{
    match join_url(source_url, url) {
        Ok(parts) => {
            proof {
                lemma_canonical_shape(parts.href@, parts.path@);
            }
            Ok(canonical_form(parts.href.as_str(), parts.path.as_str()))
        },
        Err(_) => Err(MalformedUrlError),
    }
}

} // verus!
