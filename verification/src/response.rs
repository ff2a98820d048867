//! What a fetch came to: a page to read, or the reason why there is none.

use vstd::prelude::*;
use crate::text::{chars_of, contains_text, has_infix};

verus! {

/// Why a fetch gave no page.
#[derive(Clone, Copy, Debug, PartialEq, Eq, Structural)]
pub enum SkipReason {
    /// The request failed before any response came.
    Transport,
    /// The response's status is not a success.
    Status,
    /// The response does not say that it is HTML.
    ContentType,
    /// The response's body could not be read as text.
    Body,
}

/// The end of one fetch.
#[derive(Debug)]
pub enum FetchOutcome {
    /// The text of an HTML page.
    Fetched(String),
    /// No page, and why.
    Skipped(SkipReason),
}

impl FetchOutcome {
    /// The text of the page, where there is one.
    pub open spec fn page(self) -> Option<Seq<char>> {
        match self {
            FetchOutcome::Fetched(body) => Some(body@),
            FetchOutcome::Skipped(_) => None,
        }
    }

    /// The text of the page, where there is one.
    pub fn body(&self) -> (r: Option<&str>)
        ensures
            match r {
                Some(text) => self.page() == Some(text@),
                None => self.page() is None,
            },
    {
        match self {
            FetchOutcome::Fetched(body) => Some(body.as_str()),
            FetchOutcome::Skipped(_) => None,
        }
    }
}

/// A status from 200 to 299 reports success.
pub open spec fn success_status(status: u16) -> bool {
    200 <= status < 300
}

/// A content type that holds `text/html` announces an HTML page.
pub open spec fn html_content_type(content_type: Option<Seq<char>>) -> bool {
    match content_type {
        Some(value) => has_infix(value, "text/html"@),
        None => false,
    }
}

/// Why a response with this status and content type gives no page, if it
/// gives none: the status is looked at first.
pub open spec fn screening(status: u16, content_type: Option<Seq<char>>) -> Option<SkipReason> {
    if !success_status(status) {
        Some(SkipReason::Status)
    } else if !html_content_type(content_type) {
        Some(SkipReason::ContentType)
    } else {
        None
    }
}

/// Whether `status` reports success.
pub fn is_success(status: u16) -> (r: bool)
    ensures
        r == success_status(status),
{
    200 <= status && status < 300
}

/// Decides from the head of a response whether its body is a page to read:
/// `None` where it is, else the reason why not. `content_type` is the value
/// of the response's `content-type` header, if it has one.
pub fn screen_response(status: u16, content_type: Option<&str>) -> (r: Option<SkipReason>)
    ensures
        r == screening(
            status,
            match content_type {
                Some(value) => Some(value@),
                None => None,
            },
        ),
{
    if !is_success(status) {
        return Some(SkipReason::Status);
    }
    match content_type {
        Some(value) => {
            let chars = chars_of(value);
            let wanted = chars_of("text/html");
            if contains_text(chars.as_slice(), wanted.as_slice()) {
                None
            } else {
                Some(SkipReason::ContentType)
            }
        },
        None => Some(SkipReason::ContentType),
    }
}

} // verus!
