//! Resolving links against the page they were found on, and deciding
//! whether a resolved URL lies inside the crawl's scope.

use vstd::prelude::*;
use crate::strings::{chars_of, occurs_at};

verus! {

/// A resolved absolute URL, with the parts the scope rules read.
pub struct UrlParts {
    /// The serialized URL, without fragment.
    pub text: String,
    /// The host: a domain name or an IP address (IPv6 in brackets).
    pub host: Option<String>,
    /// The path component.
    pub path: String,
}

/// The model of a resolved URL: serialization, host, path.
pub type UrlModel = (Seq<char>, Option<Seq<char>>, Seq<char>);

impl View for UrlParts {
    type V = UrlModel;

    open spec fn view(&self) -> UrlModel {
        (self.text@, match self.host {
            Some(d) => Some(d@),
            None => None,
        }, self.path@)
    }
}

/// The model of a possibly absent resolved URL.
pub open spec fn parts_model(r: Option<UrlParts>) -> Option<UrlModel> {
    match r {
        Some(p) => Some(p@),
        None => None,
    }
}

/// What WHATWG URL resolution of `href` against the absolute URL `base`
/// yields once its fragment is removed; `None` where either does not parse.
pub uninterp spec fn joined_url(base: Seq<char>, href: Seq<char>) -> Option<UrlModel>;

/// Relies on the url crate (as re-exported by reqwest): `Url::parse` of the
/// base, `Url::join` of the reference, and `Url::set_fragment(None)` to drop
/// the fragment; `as_str`, `host_str` and `path` read the parts of the result.
#[verifier::external_body]
fn join_url(base: &str, href: &str) -> (r: Option<UrlParts>)
    ensures
        parts_model(r) == joined_url(base@, href@),
{
    match reqwest::Url::parse(base).and_then(|b| b.join(href)) {
        Ok(mut url) => {
            url.set_fragment(None);
            Some(UrlParts {
                text: url.as_str().to_string(),
                host: url.host_str().map(|h| h.to_string()),
                path: url.path().to_string(),
            })
        },
        Err(_) => None,
    }
}

/// A host is inside a seed's host when it is that host or a subdomain of it
/// (the seed's host follows a `.` at its end).
pub open spec fn host_within(host: Seq<char>, seed: Seq<char>) -> bool {
    host == seed || (seed.len() < host.len() && host.subrange(
        host.len() - seed.len(),
        host.len() as int,
    ) == seed && host[host.len() - seed.len() - 1] == '.')
}

/// A path is inside a seed's path when the seed's path is a prefix of it
/// that ends on a segment boundary: `/sub/x` is inside `/sub` and `/sub/`,
/// `/subpath` and `/sub2/` are not.
pub open spec fn path_within(path: Seq<char>, seed: Seq<char>) -> bool {
    seed.len() <= path.len() && path.subrange(0, seed.len() as int) == seed && (path.len()
        == seed.len() || (seed.len() > 0 && seed.last() == '/') || path[seed.len() as int]
        == '/')
}

/// The model of a scope: the seed's serialization, host and path, and
/// whether the scope is strict.
pub type ScopeModel = (Seq<char>, Option<Seq<char>>, Seq<char>, bool);

/// The scope of a crawl whose seed resolves to `seed`.
pub open spec fn seed_scope(seed: UrlModel, strict: bool) -> ScopeModel {
    (seed.0, seed.1, seed.2, strict)
}

/// Whether a resolved URL lies inside a scope: its host is the seed's host
/// or a subdomain of it, and, when the scope is strict, its path lies under
/// the seed's path. Where either has no host, nothing is inside.
pub open spec fn admits(scope: ScopeModel, u: UrlModel) -> bool {
    match (u.1, scope.1) {
        (Some(h), Some(s)) => host_within(h, s) && (!scope.3 || path_within(u.2, scope.2)),
        _ => false,
    }
}

/// The boundary within which discovered links are followed, taken from the
/// seed URL.
pub struct Scope {
    /// The seed, resolved and without fragment.
    pub seed: String,
    /// The seed's host; a seed without one (such as a `file:` URL) admits
    /// no link.
    pub host: Option<String>,
    /// The seed's path.
    pub path: String,
    /// Whether links must also lie under the seed's path.
    pub strict: bool,
}

impl View for Scope {
    type V = ScopeModel;

    open spec fn view(&self) -> ScopeModel {
        (self.seed@, match self.host {
            Some(h) => Some(h@),
            None => None,
        }, self.path@, self.strict)
    }
}

impl Scope {
    /// The scope of a crawl from `seed`: the seed is normalized as the
    /// resolution of the empty reference against it. `None` where the seed
    /// is not an absolute URL.
    pub fn new(seed: &str, strict: bool) -> (r: Option<Scope>)
        ensures
            match joined_url(seed@, Seq::empty()) {
                Some(u) => r matches Some(s) && s@ == seed_scope(u, strict),
                None => r is None,
            },
    {
        let empty = String::new();
        match join_url(seed, empty.as_str()) {
            Some(p) => Some(Scope { seed: p.text, host: p.host, path: p.path, strict }),
            None => None,
        }
    }

    /// Whether a resolved URL lies inside this scope.
    pub fn contains(&self, u: &UrlParts) -> (r: bool)
        ensures
            r == admits(self@, u@),
    {
        match (&u.host, &self.host) {
            (Some(h), Some(s)) => {
                let h = chars_of(h.as_str());
                let s = chars_of(s.as_str());
                let host_ok = if h.len() == s.len() {
                    occurs_at(&h, &s, 0)
                } else if s.len() < h.len() {
                    let at = h.len() - s.len();
                    occurs_at(&h, &s, at) && h[at - 1] == '.'
                } else {
                    false
                };
                proof {
                    if h@.len() == s@.len() {
                        assert(h@.subrange(0, h@.len() as int) =~= h@);
                    }
                }
                if !host_ok {
                    return false;
                }
                if !self.strict {
                    return true;
                }
                let p = chars_of(u.path.as_str());
                let sp = chars_of(self.path.as_str());
                if sp.len() > p.len() || !occurs_at(&p, &sp, 0) {
                    return false;
                }
                p.len() == sp.len() || (sp.len() > 0 && sp[sp.len() - 1] == '/') || p[sp.len()]
                    == '/'
            },
            _ => false,
        }
    }
}

/// The in-scope URL that `href`, found on the page at `base`, denotes.
pub open spec fn resolved_link(base: Seq<char>, href: Seq<char>, scope: ScopeModel) -> Option<
    Seq<char>,
> {
    match joined_url(base, href) {
        Some(u) => if admits(scope, u) {
            Some(u.0)
        } else {
            None
        },
        None => None,
    }
}

/// Resolves `href`, found on the page at `base`, to an absolute URL without
/// fragment, and keeps it only where it lies inside `scope`. An unparsable
/// reference yields no link.
pub fn resolve_link(base: &str, href: &str, scope: &Scope) -> (r: Option<String>)
    ensures
        match r {
            Some(s) => resolved_link(base@, href@, scope@) == Some(s@),
            None => resolved_link(base@, href@, scope@) is None,
        },
{
    match join_url(base, href) {
        Some(p) => if scope.contains(&p) {
            Some(p.text)
        } else {
            None
        },
        None => None,
    }
}

} // verus!
