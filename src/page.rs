//! A fetched page's markup, and the links it holds that are worth following.

use vstd::prelude::*;
use crate::strings::{holds, texts};
use crate::url::{resolve_link, resolved_link, Scope, ScopeModel};

verus! {

#[verifier::external_type_specification]
#[verifier::external_body]
pub struct ExHtml(scraper::Html);

/// A page's markup, parsed, together with the text it was parsed from.
///
/// `html` is always the parse of `source`: the fields are private and set
/// together in `Document::parse` alone, and the contracts of the selection
/// wrappers below, stated over `source`, rest on that.
pub struct Document {
    html: scraper::Html,
    source: String,
}

/// Relies on scraper's `Html::parse_document`, which parses any text: markup
/// errors are recovered from, never reported as failures.
#[verifier::external_body]
fn parse_html(body: &str) -> scraper::Html {
    scraper::Html::parse_document(body)
}

/// For each element of the document parsed from `source` that `selector`
/// matches, in the order scraper's `select` yields them, the value of its
/// attribute `attr`, or `None` where it has none; `None` as a whole where
/// `selector` is not a valid CSS selector.
pub uninterp spec fn attribute_values(source: Seq<char>, selector: Seq<char>, attr: Seq<char>) -> Option<Seq<Option<Seq<char>>>>;

/// The text nodes under the elements of the document parsed from `source`
/// that `selector` matches, element by element in the order scraper's
/// `select` yields them; `None` where `selector` is not a valid CSS selector.
pub uninterp spec fn text_nodes(source: Seq<char>, selector: Seq<char>) -> Option<Seq<Seq<char>>>;

/// The model of a possibly absent list of strings.
pub open spec fn texts_model(r: Option<Vec<String>>) -> Option<Seq<Seq<char>>> {
    match r {
        Some(v) => Some(texts(v@)),
        None => None,
    }
}

/// The model of a possibly absent list of possibly absent strings.
pub open spec fn values_model(r: Option<Vec<Option<String>>>) -> Option<Seq<Option<Seq<char>>>> {
    match r {
        Some(v) => Some(v@.map_values(|o: Option<String>| match o {
            Some(s) => Some(s@),
            None => None,
        })),
        None => None,
    }
}

/// Relies on scraper's `Selector::parse` (an error for an invalid selector),
/// `Html::select` (the matching elements) and `Element::attr` (the
/// attribute's value, where the element has it).
#[verifier::external_body]
fn select_attribute(doc: &Document, selector: &str, attr: &str) -> (r: Option<Vec<Option<String>>>)
    ensures
        values_model(r) == attribute_values(doc.source(), selector@, attr@),
{
    let sel = scraper::Selector::parse(selector).ok()?;
    Some(doc.html.select(&sel).map(|e| e.value().attr(attr).map(|v| v.to_string())).collect())
}

/// Relies on scraper's `Selector::parse` (an error for an invalid selector),
/// `Html::select` (the matching elements) and `ElementRef::text` (the text
/// nodes beneath an element, in order).
#[verifier::external_body]
fn select_text(doc: &Document, selector: &str) -> (r: Option<Vec<String>>)
    ensures
        texts_model(r) == text_nodes(doc.source(), selector@),
{
    let sel = scraper::Selector::parse(selector).ok()?;
    Some(doc.html.select(&sel).flat_map(|e| e.text()).map(|t| t.to_string()).collect())
}

impl Document {
    /// The text the document was parsed from.
    pub closed spec fn source(&self) -> Seq<char> {
        self.source@
    }

    /// Parses a page body; malformed markup is parsed as well as it can be.
    pub fn parse(body: &str) -> (r: Document)
        ensures
            r.source() == body@,
    {
        Document { html: parse_html(body), source: String::from_str(body) }
    }

    /// The value of `attr`, where present, on each element that `selector`
    /// matches, in the order scraper's `select` yields them; `None` for an
    /// invalid selector.
    pub fn attribute_values(&self, selector: &str, attr: &str) -> (r: Option<Vec<Option<String>>>)
        ensures
            values_model(r) == attribute_values(self.source(), selector@, attr@),
    {
        select_attribute(self, selector, attr)
    }

    /// The text nodes beneath the elements that `selector` matches, element
    /// by element in the order scraper's `select` yields them; `None` for an
    /// invalid selector.
    pub fn text_nodes(&self, selector: &str) -> (r: Option<Vec<String>>)
        ensures
            texts_model(r) == text_nodes(self.source(), selector@),
    {
        select_text(self, selector)
    }
}

/// The character sequences of a list of string slices.
pub open spec fn strs(v: Seq<&str>) -> Seq<Seq<char>> {
    v.map_values(|s: &str| s@)
}

/// The values that are present, in order.
pub open spec fn present(s: Seq<Option<Seq<char>>>) -> Seq<Seq<char>>
    decreases s.len(),
{
    if s.len() == 0 {
        Seq::empty()
    } else {
        match s.last() {
            Some(v) => present(s.drop_last()).push(v),
            None => present(s.drop_last()),
        }
    }
}

/// The `href` values on the elements that the selectors match: selector by
/// selector, each in the order scraper's `select` yields them, skipping
/// elements without one; an invalid selector contributes none.
pub open spec fn hrefs(source: Seq<char>, selectors: Seq<Seq<char>>) -> Seq<Seq<char>>
    decreases selectors.len(),
{
    if selectors.len() == 0 {
        Seq::empty()
    } else {
        hrefs(source, selectors.drop_last()) + match attribute_values(
            source,
            selectors.last(),
            "href"@,
        ) {
            Some(v) => present(v),
            None => Seq::empty(),
        }
    }
}

/// The in-scope URLs that the references denote, in order.
pub open spec fn resolved_links(base: Seq<char>, refs: Seq<Seq<char>>, scope: ScopeModel) -> Seq<
    Seq<char>,
>
    decreases refs.len(),
{
    if refs.len() == 0 {
        Seq::empty()
    } else {
        let prev = resolved_links(base, refs.drop_last(), scope);
        match resolved_link(base, refs.last(), scope) {
            Some(u) => prev.push(u),
            None => prev,
        }
    }
}

/// The elements of `s` with later repetitions left out.
pub open spec fn distinct(s: Seq<Seq<char>>) -> Seq<Seq<char>>
    decreases s.len(),
{
    if s.len() == 0 {
        Seq::empty()
    } else {
        let prev = distinct(s.drop_last());
        if prev.contains(s.last()) {
            prev
        } else {
            prev.push(s.last())
        }
    }
}

/// The links that `find_links` yields.
pub open spec fn page_links(base: Seq<char>, source: Seq<char>, selectors: Seq<Seq<char>>, scope: ScopeModel) -> Seq<Seq<char>> {
    distinct(resolved_links(base, hrefs(source, selectors), scope))
}

/// Each URL occurs in `distinct(s)` at most once.
pub proof fn lemma_distinct_unique(s: Seq<Seq<char>>)
    ensures
        distinct(s).no_duplicates(),
    decreases s.len(),
{
    if s.len() > 0 {
        lemma_distinct_unique(s.drop_last());
    }
}

/// The in-scope links of the page at `base`: the `href` of each element
/// that a selector matches, resolved against `base`, without fragment, kept
/// where it lies inside `scope`, each URL once, in order of first discovery.
pub fn find_links(base: &str, document: &Document, selectors: &[&str], scope: &Scope) -> (r: Vec<String>)
    ensures
        texts(r@) == page_links(base@, document.source(), strs(selectors@), scope@),
        texts(r@).no_duplicates(),
{
    let ghost src = document.source();
    let mut r: Vec<String> = Vec::new();
    let mut i: usize = 0;
    while i < selectors.len()
        invariant
            i <= selectors@.len(),
            src == document.source(),
            texts(r@) == distinct(
                resolved_links(base@, hrefs(src, strs(selectors@).subrange(0, i as int)), scope@),
            ),
        decreases selectors.len() - i,
    {
        let ghost done = hrefs(src, strs(selectors@).subrange(0, i as int));
        let found = document.attribute_values(selectors[i], "href");
        let ghost fm = values_model(found);
        let vals = match found {
            Some(v) => v,
            None => Vec::new(),
        };
        let ghost vs = values_model(Some(vals))->0;
        assert(strs(selectors@).subrange(0, i + 1).last() == selectors@[i as int]@);
        assert(present(vs) == match attribute_values(src, selectors@[i as int]@, "href"@) {
            Some(v) => present(v),
            None => Seq::<Seq<char>>::empty(),
        }) by {
            if fm is None {
                assert(vs =~= Seq::<Option<Seq<char>>>::empty());
            }
        }
        assert(strs(selectors@).subrange(0, i + 1).drop_last() =~= strs(selectors@).subrange(0, i as int));
        assert(hrefs(src, strs(selectors@).subrange(0, i + 1)) == done + present(vs));
        assert(done + present(vs.subrange(0, 0)) =~= done);
        let mut j: usize = 0;
        while j < vals.len()
            invariant
                j <= vals@.len(),
                vs == values_model(Some(vals))->0,
                texts(r@) == distinct(resolved_links(base@, done + present(vs.subrange(0, j as int)), scope@)),
            decreases vals.len() - j,
        {
            let ghost before = done + present(vs.subrange(0, j as int));
            assert(vs.subrange(0, j + 1).drop_last() =~= vs.subrange(0, j as int));
            match &vals[j] {
                Some(href) => {
                    assert(present(vs.subrange(0, j + 1)) == present(vs.subrange(0, j as int)).push(href@));
                    assert(done + present(vs.subrange(0, j + 1)) =~= before.push(href@));
                    assert(before.push(href@).drop_last() =~= before);
                    let link = resolve_link(base, href.as_str(), scope);
                    let ghost rl = resolved_links(base@, before, scope@);
                    match link {
                        Some(u) => {
                            assert(rl.push(u@).drop_last() =~= rl);
                            if !holds(&r, &u) {
                                let ghost prev = r@;
                                r.push(u);
                                assert(texts(r@) =~= texts(prev).push(u@));
                            }
                        },
                        None => {},
                    }
                },
                None => {
                    assert(present(vs.subrange(0, j + 1)) == present(vs.subrange(0, j as int)));
                },
            }
            j = j + 1;
        }
        assert(vs.subrange(0, vs.len() as int) =~= vs);
        i = i + 1;
    }
    assert(strs(selectors@).subrange(0, selectors@.len() as int) =~= strs(selectors@));
    proof {
        lemma_distinct_unique(resolved_links(base@, hrefs(src, strs(selectors@)), scope@));
    }
    r
}

} // verus!
