//! A breadth-first, domain-scoped web crawler whose traversal rules are
//! verified: link resolution and scoping, page extraction, whole-word
//! content matching, and the depth-bounded frontier walk.

pub mod crawl;
pub mod matcher;
pub mod page;
pub mod strings;
pub mod timing;
pub mod url;

pub use crawl::Crawl;
pub use matcher::{find_matches, Fragment, PatternError, WordPattern};
pub use page::{find_links, Document};
pub use timing::{calibrated_timeout, request_timeout};
pub use url::{resolve_link, Scope, UrlParts};
