//! The directory that a crawl target lies in.

use vstd::prelude::*;
use crate::text::{chars_of, copy_range, find_last, string_of};
use crate::urls::{ends_in, parse_url, url_parsed};

verus! {

/// The directory of `path`: none for the empty path and for `/`; the whole
/// path where it ends in `/`; else the path up to and including its last
/// `/`, unless that `/` is the one the path starts with.
pub open spec fn directory(path: Seq<char>) -> Option<Seq<char>> {
    if path.len() == 0 || path == seq!['/'] {
        None
    } else if ends_in(path, '/') {
        Some(path)
    } else {
        match path.index_of_last('/') {
            Some(i) => if i > 0 {
                Some(path.take(i + 1))
            } else {
                None
            },
            None => None,
        }
    }
}

/// The directory of the URL's path, if the URL parses and its path has one.
pub open spec fn url_directory(url: Seq<char>) -> Option<Seq<char>> {
    match url_parsed(url) {
        Some(parts) => directory(parts.path),
        None => None,
    }
}

/// The directory part of a URL path.
pub fn directory_of_path(path: &str) -> (r: Option<String>)
    ensures
        match r {
            Some(dir) => directory(path@) == Some(dir@),
            None => directory(path@) is None,
        },
{
    let chars = chars_of(path);
    if chars.len() == 0 {
        return None;
    }
    if chars.len() == 1 && chars[0] == '/' {
        assert(chars@ =~= seq!['/']);
        return None;
    }
    assert(chars@ != seq!['/']) by {
        if chars@ == seq!['/'] {
            assert(chars@.len() == 1 && chars@[0] == '/');
        }
    }
    if chars[chars.len() - 1] == '/' {
        return Some(string_of(chars.as_slice()));
    }
    match find_last(chars.as_slice(), '/') {
        Some(i) => {
            if i > 0 {
                let dir = copy_range(chars.as_slice(), 0, i + 1);
                Some(string_of(dir.as_slice()))
            } else {
                None
            }
        },
        None => None,
    }
}

/// The directory that `url` lies in, if it parses and has one.
pub fn extract_directory(url: &str) -> (r: Option<String>)
    ensures
        match r {
            Some(dir) => url_directory(url@) == Some(dir@),
            None => url_directory(url@) is None,
        },
{
    match parse_url(url) {
        Ok(parts) => directory_of_path(parts.path.as_str()),
        Err(_) => None,
    }
}

} // verus!
