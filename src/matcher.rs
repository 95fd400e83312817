//! Whole-word, case-insensitive search of a page's readable text.

use vstd::prelude::*;
use crate::page::{strs, text_nodes, texts_model, Document};
use crate::strings::texts;

verus! {

#[verifier::external_type_specification]
#[verifier::external_body]
pub struct ExRegex(regex::Regex);

#[verifier::external_type_specification]
#[verifier::external_body]
pub struct ExRegexError(regex::Error);

/// The characters that have a meaning of their own in a regular expression.
pub open spec fn is_meta(c: char) -> bool {
    c == '\\' || c == '.' || c == '+' || c == '*' || c == '?' || c == '(' || c == ')' || c
        == '|' || c == '[' || c == ']' || c == '{' || c == '}' || c == '^' || c == '$' || c
        == '#' || c == '&' || c == '-' || c == '~'
}

/// `word` with a backslash before each meta character, so that the result
/// matches `word` literally.
pub open spec fn escaped(word: Seq<char>) -> Seq<char>
    decreases word.len(),
{
    if word.len() == 0 {
        Seq::empty()
    } else {
        escaped(word.drop_last()) + if is_meta(word.last()) {
            seq!['\\', word.last()]
        } else {
            seq![word.last()]
        }
    }
}

/// Relies on `regex::escape` (regex-syntax's `escape_into`), which puts a
/// backslash before each character that `is_meta_character` accepts.
#[verifier::external_body]
fn escape_word(word: &str) -> (r: String)
    ensures
        r@ == escaped(word@),
{
    regex::escape(word)
}

/// Whether `pattern` is a regular expression that the regex crate accepts
/// within its default size limits.
pub uninterp spec fn compiles(pattern: Seq<char>) -> bool;

/// Relies on `regex::Regex::new`, which fails on a pattern that does not
/// parse or exceeds the default size limits.
#[verifier::external_body]
fn compile(pattern: &str) -> (r: Result<regex::Regex, regex::Error>)
    ensures
        r is Ok == compiles(pattern@),
{
    regex::Regex::new(pattern)
}

/// The byte ranges `(start, end)` of the successive non-overlapping leftmost
/// matches of the regular expression `pattern` in `text`.
pub uninterp spec fn match_spans(pattern: Seq<char>, text: Seq<char>) -> Seq<(usize, usize)>;

/// The pattern that matches `word` as a whole word, in any letter case.
pub open spec fn word_pattern(word: Seq<char>) -> Seq<char> {
    "(?i)\\b"@ + escaped(word) + "\\b"@
}

/// Why a search word cannot be used.
#[derive(Debug, PartialEq, Eq, Structural)]
pub enum PatternError {
    /// The escaped word makes a pattern beyond the regex crate's limits.
    TooLarge,
}

/// A compiled whole-word, case-insensitive search pattern.
///
/// `regex` is always the compilation of `source`: the fields are private and
/// set together in `WordPattern::new` alone, and the contract of
/// `find_spans`, stated over `source`, rests on that.
pub struct WordPattern {
    regex: regex::Regex,
    source: String,
}

/// Relies on `Regex::find_iter` (the successive non-overlapping leftmost
/// matches) and `Match::start`/`Match::end` (their byte offsets).
#[verifier::external_body]
fn find_spans(p: &WordPattern, text: &str) -> (r: Vec<(usize, usize)>)
    ensures
        r@ == match_spans(p.source(), text@),
{
    p.regex.find_iter(text).map(|m| (m.start(), m.end())).collect()
}

impl WordPattern {
    /// The regular expression this pattern was compiled from.
    pub closed spec fn source(&self) -> Seq<char> {
        self.source@
    }

    /// Compiles the whole-word, case-insensitive pattern for `word`, taken
    /// literally.
    pub fn new(word: &str) -> (r: Result<WordPattern, PatternError>)
        ensures
            r is Ok == compiles(word_pattern(word@)),
            r is Ok ==> r->Ok_0.source() == word_pattern(word@),
    {
        let mut source = String::from_str("(?i)\\b");
        let esc = escape_word(word);
        source.append(esc.as_str());
        source.append("\\b");
        match compile(source.as_str()) {
            Ok(regex) => Ok(WordPattern { regex, source }),
            Err(_) => Err(PatternError::TooLarge),
        }
    }

    /// The byte ranges of the occurrences of the word in `text`.
    pub fn spans(&self, text: &str) -> (r: Vec<(usize, usize)>)
        ensures
            r@ == match_spans(self.source(), text@),
    {
        find_spans(self, text)
    }
}

/// A text node that holds the search word, with the byte ranges of the
/// occurrences, in order.
pub struct Fragment {
    pub text: String,
    pub spans: Vec<(usize, usize)>,
}

/// The model of a fragment: its text and its spans.
pub type FragmentModel = (Seq<char>, Seq<(usize, usize)>);

impl View for Fragment {
    type V = FragmentModel;

    open spec fn view(&self) -> FragmentModel {
        (self.text@, self.spans@)
    }
}

/// The models of a list of fragments.
pub open spec fn fragments(v: Seq<Fragment>) -> Seq<FragmentModel> {
    v.map_values(|f: Fragment| f@)
}

/// The element kinds whose text is searched, in the order searched.
pub open spec fn text_selectors() -> Seq<Seq<char>> {
    seq![
        "title"@,
        "text"@,
        "p"@,
        "h1"@,
        "h2"@,
        "h3"@,
        "h4"@,
        "h5"@,
        "h6"@,
    ]
}

/// The text nodes under the elements that the selectors match: selector by
/// selector, each in the order scraper's `select` yields the elements; an
/// invalid selector contributes none.
pub open spec fn texts_under(source: Seq<char>, selectors: Seq<Seq<char>>) -> Seq<Seq<char>>
    decreases selectors.len(),
{
    if selectors.len() == 0 {
        Seq::empty()
    } else {
        texts_under(source, selectors.drop_last()) + match text_nodes(source, selectors.last()) {
            Some(v) => v,
            None => Seq::empty(),
        }
    }
}

/// The texts that hold a match of `pattern`, each with its match spans.
pub open spec fn matching(pattern: Seq<char>, nodes: Seq<Seq<char>>) -> Seq<FragmentModel>
    decreases nodes.len(),
{
    if nodes.len() == 0 {
        Seq::empty()
    } else {
        let prev = matching(pattern, nodes.drop_last());
        let spans = match_spans(pattern, nodes.last());
        if spans.len() > 0 {
            prev.push((nodes.last(), spans))
        } else {
            prev
        }
    }
}

/// The fragments that `find_matches` yields for a document.
pub open spec fn page_matches(source: Seq<char>, pattern: Seq<char>) -> Seq<FragmentModel> {
    matching(pattern, texts_under(source, text_selectors()))
}

/// The text nodes under the elements that `selectors` match which hold the
/// pattern's word, in order, each with its match spans.
pub fn matches_under(document: &Document, pattern: &WordPattern, selectors: &[&str]) -> (r: Vec<Fragment>)
    ensures
        fragments(r@) == matching(pattern.source(), texts_under(document.source(), strs(selectors@))),
{
    let ghost src = document.source();
    let ghost pat = pattern.source();
    let mut r: Vec<Fragment> = Vec::new();
    let mut i: usize = 0;
    while i < selectors.len()
        invariant
            i <= selectors@.len(),
            src == document.source(),
            pat == pattern.source(),
            fragments(r@) == matching(pat, texts_under(src, strs(selectors@).subrange(0, i as int))),
        decreases selectors.len() - i,
    {
        let ghost done = texts_under(src, strs(selectors@).subrange(0, i as int));
        let found = document.text_nodes(selectors[i]);
        let ghost fm = texts_model(found);
        let nodes = match found {
            Some(v) => v,
            None => Vec::new(),
        };
        let ghost ns = texts(nodes@);
        assert(strs(selectors@).subrange(0, i + 1).last() == selectors@[i as int]@);
        assert(ns == match text_nodes(src, selectors@[i as int]@) {
            Some(v) => v,
            None => Seq::<Seq<char>>::empty(),
        }) by {
            if fm is None {
                assert(ns =~= Seq::<Seq<char>>::empty());
            }
        }
        assert(strs(selectors@).subrange(0, i + 1).drop_last() =~= strs(selectors@).subrange(0, i as int));
        assert(texts_under(src, strs(selectors@).subrange(0, i + 1)) == done + ns);
        assert(done + ns.subrange(0, 0) =~= done);
        let mut j: usize = 0;
        while j < nodes.len()
            invariant
                j <= nodes@.len(),
                pat == pattern.source(),
                ns == texts(nodes@),
                fragments(r@) == matching(pat, done + ns.subrange(0, j as int)),
            decreases nodes.len() - j,
        {
            let ghost before = done + ns.subrange(0, j as int);
            assert((done + ns.subrange(0, j + 1)).drop_last() =~= before);
            assert((done + ns.subrange(0, j + 1)).last() == nodes@[j as int]@);
            let spans = pattern.spans(nodes[j].as_str());
            if spans.len() > 0 {
                let ghost prev = r@;
                let text = nodes[j].clone();
                r.push(Fragment { text, spans });
                assert(fragments(r@) =~= fragments(prev).push(r@.last()@));
            }
            j = j + 1;
        }
        assert(done + ns.subrange(0, ns.len() as int) =~= done + ns);
        i = i + 1;
    }
    assert(strs(selectors@).subrange(0, selectors@.len() as int) =~= strs(selectors@));
    r
}

/// The fragments of a page that hold the search word: the text nodes under
/// its title, `text`, paragraph and heading elements, in that order of
/// element kinds and, within each, in the order scraper's `select` yields
/// the elements. Attribute values are not searched.
pub fn find_matches(document: &Document, pattern: &WordPattern) -> (r: Vec<Fragment>)
    ensures
        fragments(r@) == page_matches(document.source(), pattern.source()),
{
    let selectors: Vec<&str> = vec!["title", "text", "p", "h1", "h2", "h3", "h4", "h5", "h6"];
    assert(strs(selectors@) =~= text_selectors());
    matches_under(document, pattern, selectors.as_slice())
}

} // verus!
