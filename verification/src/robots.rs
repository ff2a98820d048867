//! The robots policy: which paths a site asks crawlers to leave alone.
//!
//! Of a `robots.txt` only the `Disallow` lines are read. Each gives a path
//! prefix; a URL is allowed when its path starts with none of them.

use vstd::prelude::*;
use vstd::string::StringExecFns;
use crate::text::{
    chars_of,
    copy_range,
    starts_with,
    string_of,
    strip_trailing,
    strip_trailing_len,
    trim,
    trim_bounds,
};
use crate::text_set::TextSet;
use crate::urls::{parse_url, url_parsed};

verus! {

/// What `str::to_lowercase` makes of `s`: its lower-case form by the rules
/// of Unicode.
pub uninterp spec fn lowercase(s: Seq<char>) -> Seq<char>;

/// Calls `str::to_lowercase`. Not proved: that the result is `lowercase` of
/// the argument, which only says that it depends on the argument alone.
#[verifier::external_body]
pub(crate) fn to_lowercase(s: &str) -> (r: String)
    ensures
        r@ == lowercase(s@),
{
    s.to_lowercase()
}

/// The path that a line names, once the line is trimmed and in lower case:
/// what follows `disallow:`, trimmed, unless nothing is left of it.
pub open spec fn directive(lowered: Seq<char>) -> Option<Seq<char>> {
    if "disallow:"@.is_prefix_of(lowered) && trim(lowered.skip("disallow:"@.len() as int)).len()
        > 0 {
        Some(trim(lowered.skip("disallow:"@.len() as int)))
    } else {
        None
    }
}

/// The path that a line of `robots.txt` disallows, if it is a `Disallow`
/// line with a path: the line is trimmed and put in lower case first.
pub open spec fn line_directive(line: Seq<char>) -> Option<Seq<char>> {
    directive(lowercase(trim(line)))
}

/// The lines of `text`: the runs of characters between its line feeds.
pub open spec fn split_lines(text: Seq<char>) -> Seq<Seq<char>>
    decreases text.len(),
{
    if text.len() == 0 {
        seq![Seq::<char>::empty()]
    } else if text.last() == '\n' {
        split_lines(text.drop_last()).push(Seq::<char>::empty())
    } else {
        let before = split_lines(text.drop_last());
        before.drop_last().push(before.last().push(text.last()))
    }
}

/// The paths that some line among `lines` disallows.
pub open spec fn directives(lines: Seq<Seq<char>>) -> Set<Seq<char>> {
    Set::new(
        |path: Seq<char>|
            exists|i: int| 0 <= i < lines.len() && line_directive(#[trigger] lines[i]) == Some(path),
    )
}

/// The set of path prefixes that the text of a `robots.txt` disallows.
pub open spec fn disallowed_paths(text: Seq<char>) -> Set<Seq<char>> {
    directives(split_lines(text))
}

/// `path` starts with no element of `disallowed`.
pub open spec fn path_allowed(path: Seq<char>, disallowed: Set<Seq<char>>) -> bool {
    forall|prefix: Seq<char>| disallowed.contains(prefix) ==> !prefix.is_prefix_of(path)
}

/// The policy on a URL. Without enforcement everything is allowed, and so is
/// a URL that does not parse; otherwise the URL's path decides.
pub open spec fn allowed(url: Seq<char>, respect_robots: bool, disallowed: Set<Seq<char>>) -> bool {
    !respect_robots || match url_parsed(url) {
        Some(parts) => path_allowed(parts.path, disallowed),
        None => true,
    }
}

/// The policy that the request for a `robots.txt` leaves behind: what the
/// text disallows, where the request gave a text, and nothing where it gave
/// none.
pub open spec fn policy(fetched: Option<Seq<char>>) -> Set<Seq<char>> {
    match fetched {
        Some(text) => disallowed_paths(text),
        None => Set::empty(),
    }
}

/// Where the policy of the site at `base_url` is found: `base_url` without
/// the slashes at its end, then `/robots.txt`.
pub open spec fn robots_location(base_url: Seq<char>) -> Seq<char> {
    strip_trailing(base_url, '/') + "/robots.txt"@
}

/// The policy fails open: where the `robots.txt` could not be had, every
/// URL is allowed, whether the policy is enforced or not.
pub proof fn lemma_fail_open(url: Seq<char>, respect_robots: bool)
    ensures
        allowed(url, respect_robots, policy(None)),
{
}

/// The URL of the `robots.txt` that belongs to `base_url`.
pub fn robots_url(base_url: &str) -> (out: String)
    ensures
        out@ == robots_location(base_url@),
{
    let chars = chars_of(base_url);
    let n = strip_trailing_len(chars.as_slice(), '/');
    let kept = copy_range(chars.as_slice(), 0, n);
    let mut out = string_of(kept.as_slice());
    out.append("/robots.txt");
    out
}

/// The path that a trimmed, lower-case line disallows, if any.
pub fn directive_path(lowered: &str) -> (r: Option<String>)
    ensures
        match r {
            Some(path) => directive(lowered@) == Some(path@),
            None => directive(lowered@) is None,
        },
{
    let chars = chars_of(lowered);
    let keyword = chars_of("disallow:");
    if !starts_with(chars.as_slice(), keyword.as_slice()) {
        return None;
    }
    let rest = copy_range(chars.as_slice(), keyword.len(), chars.len());
    let (from, to) = trim_bounds(rest.as_slice());
    if from == to {
        return None;
    }
    let path = copy_range(rest.as_slice(), from, to);
    Some(string_of(path.as_slice()))
}

/// Adds to `paths` what `line` disallows, if anything.
fn record_line(paths: &mut TextSet, line: &[char])
    requires
        old(paths).wf(),
    ensures
        final(paths).wf(),
        final(paths).set() == match line_directive(line@) {
            Some(path) => old(paths).set().insert(path),
            None => old(paths).set(),
        },
{
    let (from, to) = trim_bounds(line);
    let trimmed = copy_range(line, from, to);
    let lowered = to_lowercase(string_of(trimmed.as_slice()).as_str());
    match directive_path(lowered.as_str()) {
        Some(path) => {
            paths.insert(chars_of(path.as_str()));
        },
        None => {},
    }
}

/// Reads the text of a `robots.txt`: the set of path prefixes that its
/// `Disallow` lines name. Every other line is passed over.
pub fn parse_robots_txt(text: &str) -> (paths: TextSet)
    ensures
        paths.wf(),
        paths.set() == disallowed_paths(text@),
{
    let chars = chars_of(text);
    let mut paths = TextSet::new();
    let ghost mut done: Seq<Seq<char>> = Seq::empty();
    let mut start: usize = 0;
    let mut i: usize = 0;
    assert(chars@.take(0) =~= Seq::<char>::empty());
    while i < chars.len()
        invariant
            start <= i <= chars.len(),
            split_lines(chars@.take(i as int)) == done.push(
                chars@.subrange(start as int, i as int),
            ),
            paths.wf(),
            paths.set() == directives(done),
        decreases chars.len() - i,
    {
        let ghost line = chars@.subrange(start as int, i as int);
        proof {
            assert(chars@.take(i + 1).drop_last() =~= chars@.take(i as int));
        }
        if chars[i] == '\n' {
            let current = copy_range(chars.as_slice(), start, i);
            record_line(&mut paths, current.as_slice());
            proof {
                lemma_directives_push(done, line);
                done = done.push(line);
                assert(chars@.subrange(i + 1, i + 1) =~= Seq::<char>::empty());
            }
            start = i + 1;
        } else {
            assert(line.push(chars@[i as int]) =~= chars@.subrange(start as int, i + 1));
        }
        i += 1;
    }
    let last = copy_range(chars.as_slice(), start, i);
    record_line(&mut paths, last.as_slice());
    proof {
        lemma_directives_push(done, last@);
        assert(chars@.take(i as int) =~= chars@);
    }
    paths
}

/// One more line adds what it disallows, and nothing else.
proof fn lemma_directives_push(lines: Seq<Seq<char>>, line: Seq<char>)
    ensures
        directives(lines.push(line)) == match line_directive(line) {
            Some(path) => directives(lines).insert(path),
            None => directives(lines),
        },
{
    let more = lines.push(line);
    let expected = match line_directive(line) {
        Some(path) => directives(lines).insert(path),
        None => directives(lines),
    };
    assert forall|path: Seq<char>| directives(more).contains(path) <==> expected.contains(
        path,
    ) by {
        if directives(more).contains(path) {
            let i = choose|i: int|
                0 <= i < more.len() && line_directive(#[trigger] more[i]) == Some(path);
            if i < lines.len() {
                assert(lines[i] == more[i]);
            }
        }
        if directives(lines).contains(path) {
            let i = choose|i: int|
                0 <= i < lines.len() && line_directive(#[trigger] lines[i]) == Some(path);
            assert(more[i] == lines[i]);
        }
        if line_directive(line) == Some(path) {
            assert(more[lines.len() as int] == line);
        }
    }
}

/// The policy that the request for a `robots.txt` leaves behind. `fetched`
/// is the text of the file, or `None` where the request failed in any way:
/// then nothing is disallowed.
pub fn load_policy(fetched: Option<&str>) -> (paths: TextSet)
    ensures
        paths.wf(),
        paths.set() == policy(
            match fetched {
                Some(text) => Some(text@),
                None => None,
            },
        ),
{
    match fetched {
        Some(text) => parse_robots_txt(text),
        None => {
            let paths = TextSet::new();
            paths
        },
    }
}

/// Whether `path` starts with none of the `disallowed` prefixes.
pub fn path_is_allowed(path: &str, disallowed: &TextSet) -> (r: bool)
    ensures
        r == path_allowed(path@, disallowed.set()),
{
    let chars = chars_of(path);
    let mut i: usize = 0;
    while i < disallowed.len()
        invariant
            i <= disallowed@.len(),
            chars@ == path@,
            forall|j: int| 0 <= j < i ==> !(#[trigger] disallowed@[j]).is_prefix_of(chars@),
        decreases disallowed@.len() - i,
    {
        if starts_with(chars.as_slice(), disallowed.get(i).as_slice()) {
            proof {
                let prefix = disallowed@[i as int];
                assert(disallowed.set().contains(prefix) && prefix.is_prefix_of(path@));
            }
            return false;
        }
        i += 1;
    }
    assert forall|prefix: Seq<char>| disallowed.set().contains(prefix) implies !prefix.is_prefix_of(
        chars@,
    ) by {
        let j = choose|j: int| 0 <= j < disallowed@.len() && disallowed@[j] == prefix;
        assert(!disallowed@[j].is_prefix_of(chars@));
    }
    true
}

/// Whether the policy allows `url`. Allowed are: every URL where the policy
/// is not enforced, a URL that does not parse, and a URL whose path starts
/// with none of the `disallowed` prefixes.
pub fn is_allowed(url: &str, respect_robots: bool, disallowed: &TextSet) -> (r: bool)
    ensures
        r == allowed(url@, respect_robots, disallowed.set()),
{
    if !respect_robots {
        return true;
    }
    match parse_url(url) {
        Ok(parts) => path_is_allowed(parts.path.as_str(), disallowed),
        Err(_) => true,
    }
}

} // verus!
