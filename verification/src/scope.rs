//! The scope of a crawl: the seed's host and its subdomains.

use vstd::prelude::*;
use crate::text::{chars_of, copy_range, ends_with, same_text, string_of};
use crate::urls::{parse_url, url_parsed};

verus! {

/// `base` with a `.` in front: what the host of a subdomain ends with.
pub open spec fn dotted(base: Seq<char>) -> Seq<char> {
    seq!['.'] + base
}

/// `host` is `base` itself or ends with `.` and `base`. Hosts are compared
/// character by character.
pub open spec fn host_in_scope(host: Seq<char>, base: Seq<char>) -> bool {
    host == base || dotted(base).is_suffix_of(host)
}

/// What stands in `host` before `.` and `base`, for a host that ends with
/// them and is not `base` itself.
pub open spec fn subdomain(host: Seq<char>, base: Seq<char>) -> Option<Seq<char>> {
    if host != base && dotted(base).is_suffix_of(host) {
        Some(host.take(host.len() - base.len() - 1))
    } else {
        None
    }
}

/// The URL parses, has a host, and that host is in the scope of `base`.
pub open spec fn in_scope(url: Seq<char>, base: Seq<char>) -> bool {
    match url_parsed(url) {
        Some(parts) => match parts.host {
            Some(host) => host_in_scope(host, base),
            None => false,
        },
        None => false,
    }
}

/// The subdomain that the URL's host names under `base`, if the URL parses
/// and has such a host.
pub open spec fn url_subdomain(url: Seq<char>, base: Seq<char>) -> Option<Seq<char>> {
    match url_parsed(url) {
        Some(parts) => match parts.host {
            Some(host) => subdomain(host, base),
            None => None,
        },
        None => None,
    }
}

/// The characters of `base_domain` with a `.` in front.
fn dotted_chars(base_domain: &str) -> (out: Vec<char>)
    ensures
        out@ == dotted(base_domain@),
{
    let base = chars_of(base_domain);
    let mut out: Vec<char> = Vec::new();
    out.push('.');
    let mut i: usize = 0;
    while i < base.len()
        invariant
            i <= base.len(),
            out@ == seq!['.'] + base@.take(i as int),
        decreases base.len() - i,
    {
        out.push(base[i]);
        i += 1;
    }
    out
}

/// Whether `host` is `base_domain` or one of its subdomains.
pub fn host_matches(host: &str, base_domain: &str) -> (r: bool)
    ensures
        r == host_in_scope(host@, base_domain@),
{
    let host = chars_of(host);
    let base = chars_of(base_domain);
    if same_text(host.as_slice(), base.as_slice()) {
        return true;
    }
    let suffix = dotted_chars(base_domain);
    ends_with(host.as_slice(), suffix.as_slice())
}

/// The subdomain part of `host` under `base_domain`: none for the base domain
/// itself and for a host outside it.
pub fn subdomain_of_host(host: &str, base_domain: &str) -> (r: Option<String>)
    ensures
        match r {
            Some(label) => subdomain(host@, base_domain@) == Some(label@),
            None => subdomain(host@, base_domain@) is None,
        },
{
    let host = chars_of(host);
    let base = chars_of(base_domain);
    if same_text(host.as_slice(), base.as_slice()) {
        return None;
    }
    let suffix = dotted_chars(base_domain);
    if ends_with(host.as_slice(), suffix.as_slice()) {
        let label = copy_range(host.as_slice(), 0, host.len() - base.len() - 1);
        Some(string_of(label.as_slice()))
    } else {
        None
    }
}

/// Whether `url` is in the scope of `base_domain`: it parses, and its host is
/// the base domain or a subdomain of it.
pub fn is_same_domain(url: &str, base_domain: &str) -> (r: bool)
    ensures
        r == in_scope(url@, base_domain@),
{
    match parse_url(url) {
        Ok(parts) => match parts.host {
            Some(host) => host_matches(host.as_str(), base_domain),
            None => false,
        },
        Err(_) => false,
    }
}

/// The subdomain that `url` names under `base_domain`, if any.
pub fn extract_subdomain(url: &str, base_domain: &str) -> (r: Option<String>)
    ensures
        match r {
            Some(label) => url_subdomain(url@, base_domain@) == Some(label@),
            None => url_subdomain(url@, base_domain@) is None,
        },
{
    match parse_url(url) {
        Ok(parts) => match parts.host {
            Some(host) => subdomain_of_host(host.as_str(), base_domain),
            None => None,
        },
        Err(_) => None,
    }
}

} // verus!
