//! The outside libraries the scraper relies on: `scraper` for HTML documents and
//! CSS selectors, `regex` for patterns, `chrono` for dates.

use vstd::prelude::*;
use chrono::{Datelike, Timelike};
use scraper::{ElementRef, Html, Selector};
use crate::db_structs::opt_view;

verus! {

#[verifier::external_type_specification]
#[verifier::external_body]
pub struct ExHtml(Html);

#[verifier::external_type_specification]
#[verifier::external_body]
pub struct ExSelector(Selector);

#[verifier::external_type_specification]
#[verifier::external_body]
pub struct ExElementRef<'a>(ElementRef<'a>);

#[verifier::external_type_specification]
#[verifier::external_body]
pub struct ExRegex(regex::Regex);

/// Parses a whole HTML document (`Html::parse_document`).
#[verifier::external_body]
fn parse_document(text: &str) -> Html {
    Html::parse_document(text)
}

/// Parses an HTML fragment (`Html::parse_fragment`).
#[verifier::external_body]
fn parse_fragment(text: &str) -> Html {
    Html::parse_fragment(text)
}

/// A parsed HTML document or fragment, with the text it was parsed from.
pub struct Document {
    source: String,
    fragment: bool,
    tree: Html,
}

impl View for Document {
    /// Whether it was parsed as a fragment, and its text.
    type V = (bool, Seq<char>);

    closed spec fn view(&self) -> (bool, Seq<char>) {
        (self.fragment, self.source@)
    }
}

impl Document {
    /// Parses `text` as a whole document.
    pub fn parse(text: &str) -> (d: Document)
        ensures
            d@ == (false, text@),
    {
        Document { source: text.to_owned(), fragment: false, tree: parse_document(text) }
    }

    /// Parses `text` as a fragment.
    pub fn parse_fragment(text: &str) -> (d: Document)
        ensures
            d@ == (true, text@),
    {
        Document { source: text.to_owned(), fragment: true, tree: parse_fragment(text) }
    }
}

/// Whether `css` is a selector group that `Selector::parse` accepts.
pub uninterp spec fn css_valid(css: Seq<char>) -> bool;

/// Parses a CSS selector group (`Selector::parse`); `None` when it is not valid CSS.
/// Claimed: the parse succeeds exactly for the texts `css_valid` names.
#[verifier::external_body]
fn parse_selector(css: &str) -> (r: Option<Selector>)
    ensures
        r is Some <==> css_valid(css@),
{
    Selector::parse(css).ok()
}

/// A compiled CSS selector group, with its text.
pub struct CssSelector {
    css: String,
    compiled: Selector,
}

impl View for CssSelector {
    type V = Seq<char>;

    closed spec fn view(&self) -> Seq<char> {
        self.css@
    }
}

impl CssSelector {
    /// Compiles `css`; `None` when it is not a valid selector group.
    pub fn new(css: &str) -> (s: Option<CssSelector>)
        ensures
            s is Some <==> css_valid(css@),
            s matches Some(x) ==> x@ == css@,
    {
        match parse_selector(css) {
            Some(compiled) => Some(CssSelector { css: css.to_owned(), compiled }),
            None => None,
        }
    }
}

/// One step of the way from a document to an element: `(false, css, i)` is the
/// `i`-th element (from 0, in the order `Html::select` or `ElementRef::select`
/// yields them) that the selector group `css` matches below the current place; `(true, _, i)` is its `i`-th child element.
pub type Step = (bool, Seq<char>, int);

/// Where an element stands: whether its document was parsed as a fragment, the
/// document's text, and the steps that lead from the document to the element.
pub type Locator = (bool, Seq<char>, Seq<Step>);

/// The place of the `i`-th match of `css` below the place `at`.
pub open spec fn below(at: Locator, css: Seq<char>, i: int) -> Locator {
    (at.0, at.1, at.2.push((false, css, i)))
}

/// The place of the `i`-th child element of the element at `at`.
pub open spec fn child_at(at: Locator, i: int) -> Locator {
    (at.0, at.1, at.2.push((true, Seq::empty(), i)))
}

/// The place of the `i`-th match of `css` in the document `(fragment, source)`,
/// counted in the order `Html::select` yields them.
pub open spec fn in_document(fragment: bool, source: Seq<char>, css: Seq<char>, i: int) -> Locator {
    (fragment, source, seq![(false, css, i)])
}

/// How many elements `Html::select` finds with the selector group `css` in the
/// HTML `source`, parsed as a fragment when `fragment` holds, as a whole document
/// otherwise.
pub uninterp spec fn html_match_count(fragment: bool, source: Seq<char>, css: Seq<char>) -> nat;

/// How many elements `ElementRef::select` finds with `css` below the element
/// reached by `path` in the document `(fragment, source)`.
pub uninterp spec fn element_match_count(fragment: bool, source: Seq<char>, path: Seq<Step>, css: Seq<char>) -> nat;

/// How many child elements (`ElementRef::child_elements`) the element reached by
/// `path` in the document `(fragment, source)` has.
pub uninterp spec fn element_child_count(fragment: bool, source: Seq<char>, path: Seq<Step>) -> nat;

/// The HTML inside (`ElementRef::inner_html`) the element reached by `path` in
/// the document `(fragment, source)`.
pub uninterp spec fn element_inner_html(fragment: bool, source: Seq<char>, path: Seq<Step>) -> Seq<char>;

/// The value of the attribute `name` (`ElementRef::attr`) of the element reached
/// by `path` in the document `(fragment, source)`.
pub uninterp spec fn element_attr(fragment: bool, source: Seq<char>, path: Seq<Step>, name: Seq<char>) -> Option<Seq<char>>;

/// How many matches of `css` there are below the element at `at`.
pub open spec fn match_count(at: Locator, css: Seq<char>) -> nat {
    element_match_count(at.0, at.1, at.2, css)
}

/// The HTML inside the element at `at`.
pub open spec fn inner_at(at: Locator) -> Seq<char> {
    element_inner_html(at.0, at.1, at.2)
}

/// The attribute `name` of the element at `at`.
pub open spec fn attr_at(at: Locator, name: Seq<char>) -> Option<Seq<char>> {
    element_attr(at.0, at.1, at.2, name)
}

/// The HTML inside the `k`-th match of `css` below the element at `at`, when
/// there are more than `k` matches.
pub open spec fn nth_inner(at: Locator, css: Seq<char>, k: int) -> Option<Seq<char>> {
    if k < match_count(at, css) {
        Some(inner_at(below(at, css, k)))
    } else {
        None
    }
}

/// The HTML inside the `k`-th match of `css` in the document `(fragment, source)`,
/// when there are more than `k` matches.
pub open spec fn doc_nth_inner(fragment: bool, source: Seq<char>, css: Seq<char>, k: int) -> Option<Seq<char>> {
    if k < html_match_count(fragment, source, css) {
        Some(inner_at(in_document(fragment, source, css, k)))
    } else {
        None
    }
}

/// An element of a parsed document, with its place in the document. Only the
/// selections of this module make elements, and each gives the place it found
/// the element at.
#[derive(Clone, Copy)]
pub struct Element<'a> {
    element: ElementRef<'a>,
    at: Ghost<Locator>,
}

impl<'a> View for Element<'a> {
    type V = Locator;

    closed spec fn view(&self) -> Locator {
        self.at@
    }
}

/// The elements of a document that match a selector, in the order `Html::select` yields them.
/// Claimed: there are `html_match_count` of them, and the `i`-th is given the place
/// of the `i`-th match of the selector in the document.
#[verifier::external_body]
fn select_in_document<'a>(doc: &'a Document, sel: &CssSelector) -> (found: Vec<Element<'a>>)
    ensures
        found@.len() == html_match_count(doc@.0, doc@.1, sel@),
        forall|i: int| 0 <= i < found@.len() ==> (#[trigger] found@[i])@ == in_document(doc@.0, doc@.1, sel@, i),
{
    doc.tree.select(&sel.compiled).enumerate().map(
        |(i, e)| Element { element: e, at: Ghost(in_document(doc@.0, doc@.1, sel@, i as int)) },
    ).collect()
}

impl Document {
    /// The elements of the document that match `sel`, in the order `Html::select` yields them.
    pub fn select<'a>(&'a self, sel: &CssSelector) -> (found: Vec<Element<'a>>)
        ensures
            found@.len() == html_match_count(self@.0, self@.1, sel@),
            forall|i: int| 0 <= i < found@.len() ==> (#[trigger] found@[i])@ == in_document(self@.0, self@.1, sel@, i),
    {
        select_in_document(self, sel)
    }
}

/// The descendants of an element that match a selector, in the order
/// `ElementRef::select` yields them. Claimed: there are `element_match_count` of them, and the
/// `i`-th is given the place of the `i`-th match below the element.
#[verifier::external_body]
pub(crate) fn select_in_element<'a>(el: &Element<'a>, sel: &CssSelector) -> (found: Vec<Element<'a>>)
    ensures
        found@.len() == element_match_count(el@.0, el@.1, el@.2, sel@),
        forall|i: int| 0 <= i < found@.len() ==> (#[trigger] found@[i])@ == below(el@, sel@, i),
{
    el.element.select(&sel.compiled).enumerate().map(
        |(i, e)| Element { element: e, at: Ghost(below(el@, sel@, i as int)) },
    ).collect()
}

/// The HTML inside an element (`ElementRef::inner_html`). Claimed: it is
/// `element_inner_html` of the element's place.
#[verifier::external_body]
pub(crate) fn inner_html(el: &Element) -> (s: String)
    ensures
        s@ == element_inner_html(el@.0, el@.1, el@.2),
{
    el.element.inner_html()
}

/// The value of an attribute of an element (`ElementRef::attr`). Claimed: it is
/// `element_attr` of the element's place and the name.
#[verifier::external_body]
pub(crate) fn attribute(el: &Element, name: &str) -> (v: Option<String>)
    ensures
        opt_view(v) == element_attr(el@.0, el@.1, el@.2, name@),
{
    el.element.attr(name).map(String::from)
}

/// An element with the elements below it, child by child.
pub struct ElementTree<'a> {
    pub element: Element<'a>,
    pub children: Vec<ElementTree<'a>>,
}

/// `t` is the tree of elements rooted at the place `at`: each node's children
/// are the child elements of its element, in order.
pub open spec fn tree_at(t: ElementTree, at: Locator) -> bool
    decreases t,
{
    &&& t.element@ == at
    &&& t.children@.len() == element_child_count(at.0, at.1, at.2)
    &&& forall|i: int| 0 <= i < t.children@.len() ==> tree_at(#[trigger] t.children@[i], child_at(at, i))
}

/// The tree of elements rooted at `el`, each node's children being what
/// `ElementRef::child_elements` gives for it, in order. Claimed: each node has
/// `element_child_count` children, the `i`-th given the place of the `i`-th child.
#[verifier::external_body]
pub(crate) fn element_tree<'a>(el: &Element<'a>) -> (t: ElementTree<'a>)
    ensures
        t.children@.len() == element_child_count(el@.0, el@.1, el@.2),
        tree_at(t, el@),
{
    let children = el.element.child_elements().enumerate().map(
        |(i, c)| element_tree(&Element { element: c, at: Ghost(child_at(el@, i as int)) }),
    ).collect();
    ElementTree { element: *el, children }
}

/// The text that `regex::Regex::find` matches: the leftmost-first match of the
/// regular expression `pattern` in `haystack`.
pub uninterp spec fn regex_find(pattern: Seq<char>, haystack: Seq<char>) -> Option<Seq<char>>;

/// Whether `source` is a regular expression that `regex::Regex::new` accepts.
pub uninterp spec fn regex_valid(source: Seq<char>) -> bool;

/// Compiles a regular expression (`regex::Regex::new`); `None` when it is not valid.
/// Claimed: the compilation succeeds exactly for the texts `regex_valid` names.
#[verifier::external_body]
fn compile_regex(source: &str) -> (r: Option<regex::Regex>)
    ensures
        r is Some <==> regex_valid(source@),
{
    regex::Regex::new(source).ok()
}

/// A compiled regular expression, with its source text.
pub struct Pattern {
    source: String,
    compiled: regex::Regex,
}

impl View for Pattern {
    type V = Seq<char>;

    closed spec fn view(&self) -> Seq<char> {
        self.source@
    }
}

impl Pattern {
    /// Compiles `source`; `None` when it is not a valid regular expression.
    pub fn new(source: &str) -> (p: Option<Pattern>)
        ensures
            p is Some <==> regex_valid(source@),
            p matches Some(q) ==> q@ == source@,
    {
        match compile_regex(source) {
            Some(compiled) => Some(Pattern { source: source.to_owned(), compiled }),
            None => None,
        }
    }

    /// The leftmost-first match of the pattern in `haystack` (`regex::Regex::find`).
    #[verifier::external_body]
    pub(crate) fn find(&self, haystack: &str) -> (m: Option<String>)
        ensures
            opt_view(m) == regex_find(self@, haystack@),
    {
        self.compiled.find(haystack).map(|m| m.as_str().to_string())
    }
}

/// The date and time that `chrono::NaiveDateTime::parse_from_str` reads in `text`
/// with `format`, as (year, month, day, hour, minute, second).
pub uninterp spec fn chrono_parse(text: Seq<char>, format: Seq<char>) -> Option<(i32, u32, u32, u32, u32, u32)>;

/// Reads a date and time (`chrono::NaiveDateTime::parse_from_str`).
#[verifier::external_body]
pub(crate) fn parse_datetime(text: &str, format: &str) -> (r: Option<(i32, u32, u32, u32, u32, u32)>)
    ensures
        r == chrono_parse(text@, format@),
{
    chrono::NaiveDateTime::parse_from_str(text, format).ok().map(
        |d| (d.year(), d.month(), d.day(), d.hour(), d.minute(), d.second()),
    )
}

} // verus!
