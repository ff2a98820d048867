//! A crawler that stays on one site.
//!
//! From a seed URL the crawl follows the links of each page it fetches, as
//! long as they lead to the seed's host or to a subdomain of it, down to a
//! bounded depth and with a bounded number of fetches under way. It gathers
//! three sets: the URLs it visited, the directories they lie in, and the
//! subdomains they name.
//!
//! This library holds the rules and the state of such a crawl, and proves
//! what holds of them; it does no fetching of its own. [`crawler`] is the
//! engine that a program drives, [`state`] says what each step of a crawl
//! does and what every crawl keeps to, and the other modules hold the rules
//! on URLs, scope, robots policy, links and responses.

pub mod text;
pub mod text_set;
pub mod urls;
pub mod scope;
pub mod directory;
pub mod robots;
pub mod links;
pub mod response;
pub mod state;
pub mod crawler;

pub use crawler::{FrontierEntry, InvalidSeedError, Results, SilentCrawler};
pub use response::{FetchOutcome, SkipReason};
pub use urls::MalformedUrlError;
