//! Reading a Wikidot forum: categories, threads and messages out of its pages.

use vstd::prelude::*;
use crate::db_structs::{opt_view, Author, Category, Message, Thread, Timestamp};
use crate::html::{
    attr_at, attribute, below, child_at, chrono_parse, css_valid, doc_nth_inner, element_child_count, element_tree,
    html_match_count, in_document, inner_at, inner_html, match_count, nth_inner, parse_datetime, regex_find,
    regex_valid, select_in_element, tree_at, CssSelector, Document, Element, ElementTree, Locator, Pattern,
};
use crate::errors::ApiError;
use crate::text::{
    concatenate, trim, trimmed, last_field, parse_i32, parse_i32_of, rsplit_once, same_text, signed_decimal, signed_decimal_of,
    split_first, split_last, split_last_field, split_once, strip_prefix, strip_prefix_of,
};

verus! {

/// Why a link to a category or a thread could not be read.
#[derive(Debug, Clone, Copy, PartialEq, Eq, Structural)]
pub enum LinkFault {
    /// There is no link.
    Missing,
    /// The link does not start with `/`.
    NotRelative,
    /// The link has no `/` after its first character.
    NoSlash,
}

/// The page path a forum link leads to: the link without its leading `/` and
/// without its last `/`-separated part (the page's title).
pub open spec fn link_path(href: Option<Seq<char>>) -> Result<Seq<char>, LinkFault> {
    match href {
        None => Err(LinkFault::Missing),
        Some(h) => match strip_prefix(h, "/"@) {
            None => Err(LinkFault::NotRelative),
            Some(rest) => match split_last(rest, '/') {
                None => Err(LinkFault::NoSlash),
                Some((dir, _)) => Ok(dir),
            },
        },
    }
}

/// The page path of a forum link.
pub fn read_link_path(href: Option<&str>) -> (r: Result<String, LinkFault>)
    ensures
        match r {
            Ok(p) => link_path(match href { Some(h) => Some(h@), None => None }) == Ok::<Seq<char>, LinkFault>(p@),
            Err(f) => link_path(match href { Some(h) => Some(h@), None => None }) == Err::<Seq<char>, LinkFault>(f),
        },
{
    match href {
        None => Err(LinkFault::Missing),
        Some(h) => match strip_prefix_of(h, "/") {
            None => Err(LinkFault::NotRelative),
            Some(rest) => match rsplit_once(rest.as_str(), '/') {
                None => Err(LinkFault::NoSlash),
                Some((dir, _)) => Ok(dir),
            },
        },
    }
}

/// The number written after the first `-` of `text`: `Err(None)` when there is no
/// text or no `-` in it, `Err(Some(t))` when the text `t` after the `-` is not an `i32`.
pub open spec fn id_after_dash(text: Option<Seq<char>>) -> Result<i32, Option<Seq<char>>> {
    match text {
        None => Err(None),
        Some(t) => match split_first(t, '-') {
            None => Err(None),
            Some((_, id)) => match parse_i32(id) {
                Some(v) => Ok(v),
                None => Err(Some(id)),
            },
        },
    }
}

/// The number written after the first `-` of `text`.
pub fn read_id_after_dash(text: Option<&str>) -> (r: Result<i32, Option<String>>)
    ensures
        match r {
            Ok(v) => id_after_dash(match text { Some(t) => Some(t@), None => None }) == Ok::<i32, Option<Seq<char>>>(v),
            Err(e) => id_after_dash(match text { Some(t) => Some(t@), None => None }) == Err::<i32, Option<Seq<char>>>(opt_view(e)),
        },
{
    match text {
        None => Err(None),
        Some(t) => match split_once(t, '-') {
            None => Err(None),
            Some((_, id)) => match parse_i32_of(id.as_str()) {
                Some(v) => Ok(v),
                None => Err(Some(id)),
            },
        },
    }
}

/// The number of pages a pager announces: the last space-separated word of the
/// pager's text when it is an `i32`, and 1 when there is no pager or no such number.
pub open spec fn page_count_of(pager: Option<Seq<char>>) -> i32 {
    match pager {
        Some(p) => match parse_i32(last_field(p, ' ')) {
            Some(n) => n,
            None => 1,
        },
        None => 1,
    }
}

/// The number of pages a pager announces.
pub fn page_count_from(pager: Option<&str>) -> (n: i32)
    ensures
        n == page_count_of(match pager { Some(p) => Some(p@), None => None }),
{
    match pager {
        Some(p) => {
            let last = split_last_field(p, ' ');
            match parse_i32_of(last.as_str()) {
                Some(n) => n,
                None => 1,
            }
        },
        None => 1,
    }
}

/// The user names of `authors`, in order.
pub open spec fn usernames(authors: Seq<Author>) -> Seq<Seq<char>> {
    authors.map_values(|a: Author| a.username@)
}

/// The names `known`, followed by each name of `names` that is not among them yet,
/// in the order of first appearance.
pub open spec fn recorded(known: Seq<Seq<char>>, names: Seq<Option<Seq<char>>>) -> Seq<Seq<char>>
    decreases names.len(),
{
    if names.len() == 0 {
        known
    } else {
        let k = recorded(known, names.drop_last());
        match names.last() {
            Some(n) => if k.contains(n) { k } else { k.push(n) },
            None => k,
        }
    }
}

/// `authors` is `before` followed by the authors of `names` not recorded yet, in
/// the order of their first appearance in `names`: without duplicates when
/// `before` has none, and every name of `names` is among `authors`.
pub open spec fn authors_added(before: Seq<Author>, authors: Seq<Author>, names: Seq<Option<Seq<char>>>) -> bool {
    &&& usernames(authors) == recorded(usernames(before), names)
    &&& authors.len() >= before.len()
    &&& authors.take(before.len() as int) == before
    &&& forall|k: int| 0 <= k < names.len() && (#[trigger] names[k]) is Some ==> has_author(authors, names[k]->0)
    &&& forall|j: int| before.len() <= j < authors.len() ==>
        exists|k: int| 0 <= k < names.len() && #[trigger] names[k] == Some((#[trigger] authors[j]).username@)
    &&& distinct_authors(before) ==> distinct_authors(authors)
}

proof fn lemma_has_author_in_usernames(authors: Seq<Author>, name: Seq<char>)
    ensures
        has_author(authors, name) <==> usernames(authors).contains(name),
{
    if has_author(authors, name) {
        let w = choose|w: int| 0 <= w < authors.len() && #[trigger] authors[w].username@ == name;
        assert(usernames(authors)[w] == name);
    }
    if usernames(authors).contains(name) {
        let w = choose|w: int| 0 <= w < usernames(authors).len() && usernames(authors)[w] == name;
        assert(authors[w].username@ == name);
    }
}

fn add_authors(authors: &mut Vec<Author>, names: &Vec<Option<String>>)
    ensures
        authors_added(old(authors)@, final(authors)@, names@.map_values(|n: Option<String>| opt_view(n))),
{
    let ghost before = authors@;
    let ghost nv = names@.map_values(|n: Option<String>| opt_view(n));
    let mut i: usize = 0;
    assert(before.take(before.len() as int) =~= before);
    while i < names.len()
        invariant
            i <= names.len(),
            before == old(authors)@,
            nv == names@.map_values(|n: Option<String>| opt_view(n)),
            authors_added(before, authors@, nv.take(i as int)),
        decreases names.len() - i,
    {
        let ghost prev = authors@;
        proof {
            let taken = nv.take(i + 1);
            assert(taken.drop_last() =~= nv.take(i as int));
            assert(taken.last() == opt_view(names@[i as int]));
        }
        if let Some(name) = &names[i] {
            add_author(authors, name.as_str());
            proof {
                lemma_has_author_in_usernames(prev, name@);
                if !has_author(prev, name@) {
                    assert(usernames(authors@) =~= usernames(prev).push(name@)) by {
                        assert forall|j: int| 0 <= j < prev.len() implies authors@[j] == prev[j] by {
                            assert(authors@.take(prev.len() as int)[j] == authors@[j]);
                        }
                    }
                }
                if distinct_authors(before) {
                    lemma_add_author_keeps_distinct(prev, authors@, name@);
                }
                if !has_author(prev, name@) {
                    assert(authors@.take(prev.len() as int) == prev);
                    assert forall|k: int| 0 <= k < nv.take(i as int).len() && (#[trigger] nv.take(i as int)[k]) is Some
                        implies has_author(authors@, nv.take(i as int)[k]->0) by {
                        let n = nv.take(i as int)[k]->0;
                        let w = choose|w: int| 0 <= w < prev.len() && #[trigger] prev[w].username@ == n;
                        assert(authors@[w] == authors@.take(prev.len() as int)[w]);
                    }
                } else {
                    let w = choose|w: int| 0 <= w < prev.len() && #[trigger] prev[w].username@ == name@;
                    assert(authors@[w].username@ == name@);
                }
            }
        }
        proof {
            let taken = nv.take(i + 1);
            assert(taken.take(i as int) =~= nv.take(i as int));
            assert(authors@.take(before.len() as int) =~= before) by {
                assert(prev.take(before.len() as int) == before);
                assert(authors@.take(prev.len() as int) == prev);
            }
            assert forall|k: int| 0 <= k < taken.len() && (#[trigger] taken[k]) is Some implies has_author(authors@, taken[k]->0) by {
                if k < i {
                    assert(taken[k] == nv.take(i as int)[k]);
                } else {
                    assert(taken[k] == opt_view(names@[k]));
                    let w = choose|w: int| 0 <= w < authors@.len() && #[trigger] authors@[w].username@ == taken[k]->0;
                }
            }
            assert forall|j: int| before.len() <= j < authors@.len() implies
                exists|k: int| 0 <= k < taken.len() && #[trigger] taken[k] == Some((#[trigger] authors@[j]).username@) by {
                if j < prev.len() {
                    assert(authors@[j] == authors@.take(prev.len() as int)[j]);
                    let k = choose|k: int| 0 <= k < nv.take(i as int).len() && #[trigger] nv.take(i as int)[k] == Some(prev[j].username@);
                    assert(taken[k] == nv.take(i as int)[k]);
                } else {
                    assert(taken[i as int] == opt_view(names@[i as int]));
                }
            }
        }
        i = i + 1;
    }
    assert(nv.take(names@.len() as int) =~= nv);
}

/// The authors of `threads`, as plain values.
pub open spec fn thread_authors(threads: Seq<(Thread, String)>) -> Seq<Option<Seq<char>>> {
    threads.map_values(|t: (Thread, String)| opt_view(t.0.author_username))
}

/// The authors of `messages`, as plain values.
pub open spec fn message_authors(messages: Seq<Message>) -> Seq<Option<Seq<char>>> {
    messages.map_values(|m: Message| opt_view(m.author_username))
}

/// Records the authors of `threads` that are not recorded yet, in order.
pub fn add_thread_authors(authors: &mut Vec<Author>, threads: &Vec<(Thread, String)>)
    ensures
        authors_added(old(authors)@, final(authors)@, thread_authors(threads@)),
{
    let mut names: Vec<Option<String>> = Vec::new();
    let mut i: usize = 0;
    while i < threads.len()
        invariant
            i <= threads.len(),
            names@.map_values(|n: Option<String>| opt_view(n)) == thread_authors(threads@).take(i as int),
        decreases threads.len() - i,
    {
        let name = copy_opt(&threads[i].0.author_username);
        let ghost old_names = names@;
        names.push(name);
        assert(names@.map_values(|n: Option<String>| opt_view(n)) =~= old_names.map_values(
            |n: Option<String>| opt_view(n),
        ).push(opt_view(name)));
        assert(thread_authors(threads@).take(i + 1) =~= thread_authors(threads@).take(i as int).push(thread_authors(threads@)[i as int]));
        assert(names@.map_values(|n: Option<String>| opt_view(n)) =~= thread_authors(threads@).take(i + 1));
        i = i + 1;
    }
    assert(thread_authors(threads@).take(threads@.len() as int) =~= thread_authors(threads@));
    add_authors(authors, &names);
}

/// Records the authors of `messages` that are not recorded yet, in order.
pub fn add_message_authors(authors: &mut Vec<Author>, messages: &Vec<Message>)
    ensures
        authors_added(old(authors)@, final(authors)@, message_authors(messages@)),
{
    let mut names: Vec<Option<String>> = Vec::new();
    let mut i: usize = 0;
    while i < messages.len()
        invariant
            i <= messages.len(),
            names@.map_values(|n: Option<String>| opt_view(n)) == message_authors(messages@).take(i as int),
        decreases messages.len() - i,
    {
        let name = copy_opt(&messages[i].author_username);
        let ghost old_names = names@;
        names.push(name);
        assert(names@.map_values(|n: Option<String>| opt_view(n)) =~= old_names.map_values(
            |n: Option<String>| opt_view(n),
        ).push(opt_view(name)));
        assert(message_authors(messages@).take(i + 1) =~= message_authors(messages@).take(i as int).push(message_authors(messages@)[i as int]));
        assert(names@.map_values(|n: Option<String>| opt_view(n)) =~= message_authors(messages@).take(i + 1));
        i = i + 1;
    }
    assert(message_authors(messages@).take(messages@.len() as int) =~= message_authors(messages@));
    add_authors(authors, &names);
}

/// The address of page `path` of the site `site`: `http://<site>.wikidot.com/<path>`.
pub open spec fn site_page_url(site: Seq<char>, path: Seq<char>) -> Seq<char> {
    "http://"@ + site + ".wikidot.com/"@ + path
}

/// The address of a page of a Wikidot site.
pub fn page_url(site: &str, path: &str) -> (u: String)
    ensures
        u@ == site_page_url(site@, path@),
{
    let a = concatenate("http://", site);
    let b = concatenate(a.as_str(), ".wikidot.com/");
    concatenate(b.as_str(), path)
}

/// The address of page `i` of a paged list at `base`: `<base>/p/<i>`.
pub open spec fn numbered_page_url(base: Seq<char>, i: int) -> Seq<char> {
    base + "/p/"@ + signed_decimal(i)
}

/// The addresses of pages 1 to `count` of the paged list at `base`
/// (none when `count` is below 1).
pub fn numbered_page_urls(base: &str, count: i32) -> (urls: Vec<String>)
    ensures
        urls@.len() == (if count < 1 { 0 } else { count as int }),
        forall|k: int| 0 <= k < urls@.len() ==> #[trigger] urls@[k]@ == numbered_page_url(base@, k + 1),
{
    let mut urls: Vec<String> = Vec::new();
    let mut i: i64 = 1;
    while i <= count as i64
        invariant
            1 <= i,
            i <= (if count < 1 { 1 } else { count + 1 }),
            urls@.len() == i - 1,
            forall|k: int| 0 <= k < urls@.len() ==> #[trigger] urls@[k]@ == numbered_page_url(base@, k + 1),
        decreases count - i + 1,
    {
        let n = signed_decimal_of(i);
        let a = concatenate(base, "/p/");
        let u = concatenate(a.as_str(), n.as_str());
        urls.push(u);
        i = i + 1;
    }
    urls
}

/// Whether one of `authors` has the user name `name`.
pub open spec fn has_author(authors: Seq<Author>, name: Seq<char>) -> bool {
    exists|i: int| 0 <= i < authors.len() && #[trigger] authors[i].username@ == name
}

/// No two of `authors` have the same user name.
pub open spec fn distinct_authors(authors: Seq<Author>) -> bool {
    forall|i: int, j: int|
        0 <= i < j < authors.len() ==> #[trigger] authors[i].username@ != #[trigger] authors[j].username@
}

/// Records the author `name`, unless an author with that name is already recorded.
pub fn add_author(authors: &mut Vec<Author>, name: &str)
    ensures
        has_author(old(authors)@, name@) ==> final(authors)@ == old(authors)@,
        !has_author(old(authors)@, name@) ==> final(authors)@.len() == old(authors)@.len() + 1
            && final(authors)@.take(old(authors)@.len() as int) == old(authors)@
            && final(authors)@.last().username@ == name@,
{
    let mut i: usize = 0;
    while i < authors.len()
        invariant
            i <= authors.len(),
            authors@ == old(authors)@,
            forall|j: int| 0 <= j < i ==> #[trigger] authors@[j].username@ != name@,
        decreases authors.len() - i,
    {
        if same_text(authors[i].username.as_str(), name) {
            return;
        }
        i = i + 1;
    }
    authors.push(Author { username: name.to_owned() });
    assert(authors@.take(old(authors)@.len() as int) =~= old(authors)@);
}

/// Recording an author keeps the recorded authors free of duplicates, and the
/// author is recorded afterwards.
pub proof fn lemma_add_author_keeps_distinct(before: Seq<Author>, after: Seq<Author>, name: Seq<char>)
    requires
        distinct_authors(before),
        has_author(before, name) ==> after == before,
        !has_author(before, name) ==> after.len() == before.len() + 1
            && after.take(before.len() as int) == before && after.last().username@ == name,
    ensures
        distinct_authors(after),
        has_author(after, name),
{
    if !has_author(before, name) {
        let n = before.len() as int;
        assert forall|i: int, j: int| 0 <= i < j < after.len() implies
            #[trigger] after[i].username@ != #[trigger] after[j].username@ by {
            assert(after[i] == after.take(n)[i]);
            if j < n {
                assert(after[j] == after.take(n)[j]);
            } else {
                assert(before[i].username@ != name);
            }
        }
        assert(after[n].username@ == name);
    }
}


/// The format of dates on Wikidot forum pages (`chrono` syntax).
pub const WIKIDOT_DATE_FORMAT: &'static str = "%d %b %Y %H:%M";

/// The date that `text` shows, read with `format`.
pub open spec fn date_of(text: Seq<char>, format: Seq<char>) -> Option<Timestamp> {
    match chrono_parse(text, format) {
        Some((year, month, day, hour, minute, second)) => Some(
            Timestamp { year, month, day, hour, minute, second },
        ),
        None => None,
    }
}

/// The date shown by the text of a date element, when there is one.
pub open spec fn page_date(text: Option<Seq<char>>) -> Option<Timestamp> {
    match text {
        Some(t) => date_of(t, WIKIDOT_DATE_FORMAT@),
        None => None,
    }
}

/// The text of an element without surrounding white space, when there is one.
pub open spec fn trimmed_opt(text: Option<Seq<char>>) -> Option<Seq<char>> {
    match text {
        Some(t) => Some(trimmed(t)),
        None => None,
    }
}

fn read_page_date(text: &Option<String>) -> (d: Option<Timestamp>)
    ensures
        d == page_date(opt_view(*text)),
{
    match text {
        Some(t) => match parse_datetime(t.as_str(), WIKIDOT_DATE_FORMAT) {
            Some((year, month, day, hour, minute, second)) => Some(
                Timestamp { year, month, day, hour, minute, second },
            ),
            None => None,
        },
        None => None,
    }
}

fn trim_opt(text: &Option<String>) -> (t: Option<String>)
    ensures
        opt_view(t) == trimmed_opt(opt_view(*text)),
{
    match text {
        Some(s) => Some(trim(s.as_str())),
        None => None,
    }
}

fn copy_opt(text: &Option<String>) -> (t: Option<String>)
    ensures
        opt_view(t) == opt_view(*text),
{
    match text {
        Some(s) => Some(s.clone()),
        None => None,
    }
}

fn opt_str(text: &Option<String>) -> (t: Option<&str>)
    ensures
        match t { Some(s) => Some(s@), None => None } == opt_view(*text),
{
    match text {
        Some(s) => Some(s.as_str()),
        None => None,
    }
}

/// `r` is the parsing error with the given details, found at the text `at`.
pub open spec fn fails_with<T>(r: Result<T, ApiError>, details: Seq<char>, at: Seq<char>) -> bool {
    r matches Err(ApiError::ParsingError { details: d, at: a }) && d@ == details && a@ == at
}

/// What the scraper reads in a row of a forum's list of categories.
pub struct CategoryRow {
    /// The link of the category's title.
    pub href: Option<String>,
    /// The HTML inside the category's title.
    pub title_html: Option<String>,
    /// The HTML inside the row.
    pub row_html: String,
}

/// The details of the error for a category link that cannot be read.
pub open spec fn category_link_details(f: LinkFault) -> Seq<char> {
    match f {
        LinkFault::Missing => "Category: can't find link"@,
        LinkFault::NotRelative => "Category: url not prefixed by '/'"@,
        LinkFault::NoSlash => "Category: url does not contain '/'"@,
    }
}

/// The regular expression that finds a category's id in its path.
pub open spec fn category_id_pattern() -> Seq<char> {
    "c-(\\d+)"@
}

/// The regular expression that finds a thread's id in its path.
pub open spec fn thread_id_pattern() -> Seq<char> {
    "t-(\\d+)"@
}

/// `r` is what reading a category row gives, whose title link is `href`, whose
/// title is `title` and whose HTML is `row_html`, on the site `site`: the category,
/// with the path of its page, or the parsing error of the first step that fails.
pub open spec fn category_result(
    href: Option<Seq<char>>,
    title: Option<Seq<char>>,
    row_html: Seq<char>,
    site: Seq<char>,
    r: Result<(Category, String), ApiError>,
) -> bool {
    match link_path(href) {
        Err(f) => fails_with(r, category_link_details(f), row_html),
        Ok(path) => match id_after_dash(regex_find(category_id_pattern(), path)) {
            Err(None) => fails_with(r, "Category: could not find id"@, path),
            Err(Some(t)) => fails_with(r, "Category: could not parse id"@, t),
            Ok(id) => r matches Ok((c, url)) && c.id == id && opt_view(c.name) == title
                && c.site_url@ == site && url@ == path,
        },
    }
}

/// `r` is what reading the category row `row` of the site `site` gives.
pub open spec fn category_parsed(row: CategoryRow, site: Seq<char>, r: Result<(Category, String), ApiError>) -> bool {
    category_result(opt_view(row.href), opt_view(row.title_html), row.row_html@, site, r)
}

/// The link of the category title in the row at `at`.
pub open spec fn category_href_at(at: Locator) -> Option<Seq<char>> {
    if 0 < match_count(at, "td.name div.title a"@) {
        attr_at(below(at, "td.name div.title a"@, 0), "href"@)
    } else {
        None
    }
}

/// `r` is what reading the category row at `at` of the site `site` gives.
pub open spec fn category_at(at: Locator, site: Seq<char>, r: Result<(Category, String), ApiError>) -> bool {
    category_result(category_href_at(at), nth_inner(at, "td.name div.title a"@, 0), inner_at(at), site, r)
}

/// The category row at `at` reads without error.
pub open spec fn category_ok(at: Locator) -> bool {
    link_path(category_href_at(at)) matches Ok(path) && id_after_dash(regex_find(category_id_pattern(), path)) is Ok
}

/// `r` is what reading the category rows at `rows` one after the other gives:
/// the category of each, or the error of the first one that cannot be read.
pub open spec fn categories_read(rows: Seq<Locator>, site: Seq<char>, r: Result<Vec<(Category, String)>, ApiError>) -> bool {
    match r {
        Ok(v) => v@.len() == rows.len() && forall|k: int| 0 <= k < rows.len() ==>
            category_at(#[trigger] rows[k], site, Ok(v@[k])),
        Err(e) => exists|k: int| 0 <= k < rows.len()
            && (forall|j: int| 0 <= j < k ==> category_ok(#[trigger] rows[j]))
            && #[trigger] category_at(rows[k], site, Err(e)),
    }
}

/// The rows of category group `g` of the forum page `page`, its header row left out.
pub open spec fn group_rows(page: Seq<char>, g: int) -> Seq<Locator> {
    let group = in_document(false, page, "div.forum-group"@, g);
    Seq::new(after_header(match_count(group, "tr"@) as int) as nat, |i: int| below(group, "tr"@, i + 1))
}

/// The rows of the first `n` category groups of the forum page `page`.
pub open spec fn rows_of_groups(page: Seq<char>, n: int) -> Seq<Locator>
    decreases n,
{
    if n <= 0 {
        Seq::empty()
    } else {
        rows_of_groups(page, n - 1) + group_rows(page, n - 1)
    }
}

/// The category rows of the forum page `page`: every row but the first of each
/// category group, in order.
pub open spec fn forum_rows(page: Seq<char>) -> Seq<Locator> {
    rows_of_groups(page, html_match_count(false, page, "div.forum-group"@) as int)
}

proof fn lemma_rows_of_groups_prefix(page: Seq<char>, a: int, b: int)
    requires
        0 <= a <= b,
    ensures
        rows_of_groups(page, a).len() <= rows_of_groups(page, b).len(),
        rows_of_groups(page, b).take(rows_of_groups(page, a).len() as int) == rows_of_groups(page, a),
    decreases b,
{
    if a < b {
        lemma_rows_of_groups_prefix(page, a, b - 1);
        let x = rows_of_groups(page, a);
        let y = rows_of_groups(page, b - 1);
        assert(rows_of_groups(page, b).take(x.len() as int) =~= y.take(x.len() as int));
    } else {
        assert(rows_of_groups(page, b).take(rows_of_groups(page, a).len() as int) =~= rows_of_groups(page, a));
    }
}

/// What the scraper reads in a row of a category's list of threads.
pub struct ThreadRow {
    /// The link of the thread's title.
    pub href: Option<String>,
    /// The HTML inside the row.
    pub row_html: String,
    /// The HTML inside the thread's title.
    pub title_html: Option<String>,
    /// The HTML inside the thread's description.
    pub description_html: Option<String>,
    /// The HTML inside the thread's start date.
    pub date_html: Option<String>,
    /// The HTML inside the second user link of the thread's start (its author).
    pub author_html: Option<String>,
}

/// The details of the error for a thread link that cannot be read.
pub open spec fn thread_link_details(f: LinkFault) -> Seq<char> {
    match f {
        LinkFault::Missing => "Thread: can't find link"@,
        LinkFault::NotRelative => "Thread: url not prefixed by '/'"@,
        LinkFault::NoSlash => "Thread: url does not contain '/'"@,
    }
}

/// `r` is what reading a thread row of the category `category_id` gives, whose
/// title link is `href`, whose HTML is `row_html` and whose title, description,
/// date and author show the HTML `title`, `description`, `date` and `author`: the
/// thread, with the path of its page, or the parsing error of the first step that
/// fails.
pub open spec fn thread_result(
    href: Option<Seq<char>>,
    row_html: Seq<char>,
    title: Option<Seq<char>>,
    description: Option<Seq<char>>,
    date: Option<Seq<char>>,
    author: Option<Seq<char>>,
    category_id: i32,
    r: Result<(Thread, String), ApiError>,
) -> bool {
    match link_path(href) {
        Err(f) => fails_with(r, thread_link_details(f), row_html),
        Ok(path) => match id_after_dash(regex_find(thread_id_pattern(), path)) {
            Err(None) => fails_with(r, "Thread: could not find id"@, path),
            Err(Some(t)) => fails_with(r, "Thread: could not parse id"@, t),
            Ok(id) => r matches Ok((t, url)) && t.id == id
                && opt_view(t.title) == trimmed_opt(title)
                && opt_view(t.description) == trimmed_opt(description)
                && t.creation_date == page_date(date)
                && opt_view(t.author_username) == trimmed_opt(author)
                && t.category_id == category_id && url@ == path,
        },
    }
}

/// `r` is what reading the thread row `row` of the category `category_id` gives.
pub open spec fn thread_parsed(row: ThreadRow, category_id: i32, r: Result<(Thread, String), ApiError>) -> bool {
    thread_result(
        opt_view(row.href),
        row.row_html@,
        opt_view(row.title_html),
        opt_view(row.description_html),
        opt_view(row.date_html),
        opt_view(row.author_html),
        category_id,
        r,
    )
}

/// The link of the thread title in the row at `at`.
pub open spec fn thread_href_at(at: Locator) -> Option<Seq<char>> {
    if 0 < match_count(at, ".name .title a"@) {
        attr_at(below(at, ".name .title a"@, 0), "href"@)
    } else {
        None
    }
}

/// `r` is what reading the thread row at `at` of the category `category_id` gives.
pub open spec fn thread_at(at: Locator, category_id: i32, r: Result<(Thread, String), ApiError>) -> bool {
    thread_result(
        thread_href_at(at),
        inner_at(at),
        nth_inner(at, ".name .title a"@, 0),
        nth_inner(at, ".name .description"@, 0),
        nth_inner(at, ".started .odate"@, 0),
        nth_inner(at, ".started .printuser a"@, 1),
        category_id,
        r,
    )
}

/// The thread row at `at` reads without error.
pub open spec fn thread_ok(at: Locator) -> bool {
    link_path(thread_href_at(at)) matches Ok(path) && id_after_dash(regex_find(thread_id_pattern(), path)) is Ok
}

/// `r` is what reading the thread rows at `rows` one after the other gives: the
/// thread of each, or the error of the first one that cannot be read.
pub open spec fn threads_read(rows: Seq<Locator>, category_id: i32, r: Result<Vec<(Thread, String)>, ApiError>) -> bool {
    match r {
        Ok(v) => v@.len() == rows.len() && forall|k: int| 0 <= k < rows.len() ==>
            thread_at(#[trigger] rows[k], category_id, Ok(v@[k])),
        Err(e) => exists|k: int| 0 <= k < rows.len()
            && (forall|j: int| 0 <= j < k ==> thread_ok(#[trigger] rows[j]))
            && #[trigger] thread_at(rows[k], category_id, Err(e)),
    }
}

/// The thread rows of the category page `page`: every row of its thread table
/// but the first.
pub open spec fn page_rows(page: Seq<char>) -> Seq<Locator> {
    Seq::new(
        after_header(html_match_count(false, page, ".table tr"@) as int) as nat,
        |i: int| in_document(false, page, ".table tr"@, i + 1),
    )
}

/// The thread rows of the first `n` pages of `pages`, page after page.
pub open spec fn rows_of_pages(pages: Seq<Seq<char>>, n: int) -> Seq<Locator>
    decreases n,
{
    if n <= 0 {
        Seq::empty()
    } else {
        rows_of_pages(pages, n - 1) + page_rows(pages[n - 1])
    }
}

proof fn lemma_rows_of_pages_prefix(pages: Seq<Seq<char>>, a: int, b: int)
    requires
        0 <= a <= b,
    ensures
        rows_of_pages(pages, a).len() <= rows_of_pages(pages, b).len(),
        rows_of_pages(pages, b).take(rows_of_pages(pages, a).len() as int) == rows_of_pages(pages, a),
    decreases b,
{
    if a < b {
        lemma_rows_of_pages_prefix(pages, a, b - 1);
        let x = rows_of_pages(pages, a);
        let y = rows_of_pages(pages, b - 1);
        assert(rows_of_pages(pages, b).take(x.len() as int) =~= y.take(x.len() as int));
    } else {
        assert(rows_of_pages(pages, b).take(rows_of_pages(pages, a).len() as int) =~= rows_of_pages(pages, a));
    }
}

/// What the scraper reads in the first element of a post container: the message.
pub struct MessageParts {
    /// The element's `id` attribute.
    pub id_attr: Option<String>,
    /// The HTML inside the element.
    pub html: String,
    /// The HTML inside the message's title.
    pub title_html: Option<String>,
    /// The HTML inside the message's date.
    pub date_html: Option<String>,
    /// The HTML inside the second user link of the message's header (its author).
    pub author_html: Option<String>,
    /// The HTML inside the message's content.
    pub content_html: Option<String>,
}

/// The first element of a post container, or the HTML inside the container when
/// it has no element.
pub enum PostHead {
    Empty(String),
    Post(MessageParts),
}

/// A post container: its message, and the elements after it, each read as a
/// post container of the answers.
pub struct PostTree {
    pub head: PostHead,
    pub replies: Vec<PostTree>,
}

/// A message as plain values: id, title, content, author, publication date,
/// thread and the message it answers.
pub type MessageView = (i32, Option<Seq<char>>, Option<Seq<char>>, Option<Seq<char>>, Option<Timestamp>, i32, Option<i32>);

/// The plain values of a message.
pub open spec fn message_view(m: Message) -> MessageView {
    (m.id, opt_view(m.title), opt_view(m.content), opt_view(m.author_username), m.publication_date, m.thread_id, m.answers_to)
}

/// The message that `p` shows, with id `id`, in thread `thread_id`, answering `answers_to`.
pub open spec fn message_of(p: MessageParts, id: i32, thread_id: i32, answers_to: Option<i32>) -> MessageView {
    (
        id,
        trimmed_opt(opt_view(p.title_html)),
        trimmed_opt(opt_view(p.content_html)),
        trimmed_opt(opt_view(p.author_html)),
        page_date(opt_view(p.date_html)),
        thread_id,
        answers_to,
    )
}

/// The messages of a post container, or the parsing error that stops their reading.
pub enum PostOutcome {
    Messages(Seq<MessageView>),
    Failure(Seq<char>, Seq<char>),
}

/// What reading the post container `t` gives: its message, then the messages of
/// each answer container in order, each answering the container's message; or the
/// first parsing error met in that order.
pub open spec fn post_outcome(t: PostTree, thread_id: i32, answers_to: Option<i32>) -> PostOutcome
    decreases t, t.replies@.len() + 1,
{
    match t.head {
        PostHead::Empty(html) => PostOutcome::Failure("Message: empty post-container"@, html@),
        PostHead::Post(p) => match id_after_dash(opt_view(p.id_attr)) {
            Err(None) => PostOutcome::Failure("Message: could not find id"@, p.html@),
            Err(Some(idt)) => PostOutcome::Failure("Message: could not parse id"@, idt),
            Ok(id) => match replies_outcome(t, t.replies@.len() as int, thread_id, id) {
                PostOutcome::Messages(rest) => PostOutcome::Messages(
                    seq![message_of(p, id, thread_id, answers_to)] + rest,
                ),
                PostOutcome::Failure(d, a) => PostOutcome::Failure(d, a),
            },
        },
    }
}

/// What reading the first `n` answer containers of `t` gives.
pub open spec fn replies_outcome(t: PostTree, n: int, thread_id: i32, parent: i32) -> PostOutcome
    decreases t, if n <= 0 { 0 } else { n },
{
    if n <= 0 || n > t.replies@.len() {
        PostOutcome::Messages(Seq::empty())
    } else {
        match replies_outcome(t, n - 1, thread_id, parent) {
            PostOutcome::Failure(d, a) => PostOutcome::Failure(d, a),
            PostOutcome::Messages(before) => match post_outcome(t.replies@[n - 1], thread_id, Some(parent)) {
                PostOutcome::Failure(d, a) => PostOutcome::Failure(d, a),
                PostOutcome::Messages(these) => PostOutcome::Messages(before + these),
            },
        }
    }
}

/// `r` is the outcome `o`.
pub open spec fn messages_agree(r: Result<Vec<Message>, ApiError>, o: PostOutcome) -> bool {
    match o {
        PostOutcome::Messages(ms) => r matches Ok(v) && v@.map_values(|m: Message| message_view(m)) == ms,
        PostOutcome::Failure(d, a) => fails_with(r, d, a),
    }
}


proof fn lemma_replies_failure_persists(t: PostTree, k: int, n: int, thread_id: i32, parent: i32)
    requires
        0 <= k <= n <= t.replies@.len(),
        replies_outcome(t, k, thread_id, parent) is Failure,
    ensures
        replies_outcome(t, n, thread_id, parent) == replies_outcome(t, k, thread_id, parent),
    decreases n - k,
{
    if n > k {
        lemma_replies_failure_persists(t, k, n - 1, thread_id, parent);
    }
}

fn message_from_parts(p: &MessageParts, id: i32, thread_id: i32, answers_to: Option<i32>) -> (m: Message)
    ensures
        message_view(m) == message_of(*p, id, thread_id, answers_to),
{
    Message {
        id,
        title: trim_opt(&p.title_html),
        content: trim_opt(&p.content_html),
        author_username: trim_opt(&p.author_html),
        publication_date: read_page_date(&p.date_html),
        thread_id,
        answers_to,
    }
}

/// Reads the messages of a post container of thread `thread_id`, whose message
/// answers `answers_to`: the container's message, then those of its answers.
pub fn messages_of_post(tree: &PostTree, thread_id: i32, answers_to: Option<i32>) -> (r: Result<Vec<Message>, ApiError>)
    ensures
        messages_agree(r, post_outcome(*tree, thread_id, answers_to)),
    decreases tree,
{
    let p = match &tree.head {
        PostHead::Empty(html) => {
            return Err(ApiError::ParsingError { details: "Message: empty post-container", at: html.clone() });
        },
        PostHead::Post(p) => p,
    };
    let id = match read_id_after_dash(opt_str(&p.id_attr)) {
        Ok(id) => id,
        Err(None) => {
            return Err(ApiError::ParsingError { details: "Message: could not find id", at: p.html.clone() });
        },
        Err(Some(t)) => {
            return Err(ApiError::ParsingError { details: "Message: could not parse id", at: t });
        },
    };
    let first = message_from_parts(p, id, thread_id, answers_to);
    let ghost head = message_of(*p, id, thread_id, answers_to);
    let mut out: Vec<Message> = Vec::new();
    out.push(first);
    let mut i: usize = 0;
    while i < tree.replies.len()
        invariant
            i <= tree.replies@.len(),
            tree.head == PostHead::Post(*p),
            id_after_dash(opt_view(p.id_attr)) == Ok::<i32, Option<Seq<char>>>(id),
            replies_outcome(*tree, i as int, thread_id, id) matches PostOutcome::Messages(before)
                && out@.map_values(|m: Message| message_view(m)) == seq![head] + before,
        decreases tree.replies@.len() - i,
    {
        let ghost before = match replies_outcome(*tree, i as int, thread_id, id) {
            PostOutcome::Messages(b) => b,
            PostOutcome::Failure(_, _) => Seq::empty(),
        };
        let sub = messages_of_post(&tree.replies[i], thread_id, Some(id));
        match sub {
            Err(e) => {
                proof {
                    lemma_replies_failure_persists(*tree, i + 1, tree.replies@.len() as int, thread_id, id);
                }
                return Err(e);
            },
            Ok(mut ms) => {
                let ghost these = ms@.map_values(|m: Message| message_view(m));
                out.append(&mut ms);
                assert(out@.map_values(|m: Message| message_view(m)) =~= seq![head] + before + these);
            },
        }
        i = i + 1;
    }
    Ok(out)
}

/// The texts of `parts` one after the other, with `sep` between two of them.
pub open spec fn joined(parts: Seq<Seq<char>>, sep: Seq<char>) -> Seq<char>
    decreases parts.len(),
{
    if parts.len() == 0 {
        Seq::empty()
    } else if parts.len() == 1 {
        parts[0]
    } else {
        joined(parts.drop_last(), sep) + sep + parts.last()
    }
}

/// The views of a list of strings.
pub open spec fn views(v: Seq<String>) -> Seq<Seq<char>> {
    v.map_values(|s: String| s@)
}

/// The texts of `parts` joined by `sep` (`Itertools::join`).
pub fn join_texts(parts: &Vec<String>, sep: &str) -> (s: String)
    ensures
        s@ == joined(views(parts@), sep@),
{
    let mut out = String::new();
    let mut i: usize = 0;
    while i < parts.len()
        invariant
            i <= parts.len(),
            out@ == joined(views(parts@).take(i as int), sep@),
        decreases parts.len() - i,
    {
        let ghost before = views(parts@).take(i as int);
        assert(views(parts@).take(i + 1).drop_last() =~= before);
        if i == 0 {
            out = parts[i].clone();
            assert(views(parts@).take(1)[0] == parts@[0]@);
        } else {
            let a = concatenate(out.as_str(), sep);
            out = concatenate(a.as_str(), parts[i].as_str());
        }
        i = i + 1;
    }
    assert(views(parts@).take(parts@.len() as int) =~= views(parts@));
    out
}

/// Every message of the outcome belongs to thread `thread_id`.
pub open spec fn all_in_thread(o: PostOutcome, thread_id: i32) -> bool {
    o matches PostOutcome::Messages(ms) ==> forall|k: int| 0 <= k < ms.len() ==> (#[trigger] ms[k]).5 == thread_id
}

/// The messages read from a post container all belong to the thread it was read for.
pub proof fn lemma_post_messages_in_thread(t: PostTree, thread_id: i32, answers_to: Option<i32>)
    ensures
        all_in_thread(post_outcome(t, thread_id, answers_to), thread_id),
    decreases t, t.replies@.len() + 1,
{
    if let PostHead::Post(p) = t.head {
        if let Ok(id) = id_after_dash(opt_view(p.id_attr)) {
            lemma_replies_messages_in_thread(t, t.replies@.len() as int, thread_id, id);
        }
    }
}

/// The messages read from the first `n` answer containers all belong to the thread.
pub proof fn lemma_replies_messages_in_thread(t: PostTree, n: int, thread_id: i32, parent: i32)
    ensures
        all_in_thread(replies_outcome(t, n, thread_id, parent), thread_id),
    decreases t, if n <= 0 { 0 } else { n },
{
    if 0 < n <= t.replies@.len() {
        lemma_replies_messages_in_thread(t, n - 1, thread_id, parent);
        lemma_post_messages_in_thread(t.replies@[n - 1], thread_id, Some(parent));
    }
}

/// Message `k` of `ms` answers a message that comes before it in `ms`.
pub open spec fn answers_earlier(ms: Seq<MessageView>, k: int) -> bool {
    exists|j: int| 0 <= j < k && ms[k].6 == Some(ms[j].0)
}

/// The messages read from a post container form a hierarchy: the first answers
/// `answers_to`, and each other one answers a message read before it.
pub open spec fn well_nested(o: PostOutcome, answers_to: Option<i32>) -> bool {
    o matches PostOutcome::Messages(ms) ==> {
        &&& ms.len() > 0
        &&& ms[0].6 == answers_to
        &&& forall|k: int| 1 <= k < ms.len() ==> #[trigger] answers_earlier(ms, k)
    }
}

/// Each message read from answer containers answers `parent` or a message read
/// before it.
pub open spec fn replies_nested(o: PostOutcome, parent: i32) -> bool {
    o matches PostOutcome::Messages(ms) ==> forall|k: int| 0 <= k < ms.len() ==>
        (#[trigger] ms[k]).6 == Some(parent) || answers_earlier(ms, k)
}

/// Reading a post container gives a hierarchy of messages: the first answers the
/// message it was read for, each other one answers a message read before it.
#[verifier::spinoff_prover]
pub proof fn lemma_post_messages_nested(t: PostTree, thread_id: i32, answers_to: Option<i32>)
    ensures
        well_nested(post_outcome(t, thread_id, answers_to), answers_to),
    decreases t, t.replies@.len() + 1,
{
    if let PostHead::Post(p) = t.head {
        if let Ok(id) = id_after_dash(opt_view(p.id_attr)) {
            let n = t.replies@.len() as int;
            lemma_replies_messages_nested(t, n, thread_id, id);
            if let PostOutcome::Messages(rest) = replies_outcome(t, n, thread_id, id) {
                let head = message_of(p, id, thread_id, answers_to);
                let ms = seq![head] + rest;
                assert forall|k: int| 1 <= k < ms.len() implies #[trigger] answers_earlier(ms, k) by {
                    assert(ms[k] == rest[k - 1]);
                    if rest[k - 1].6 == Some(id) {
                        assert(ms[0].0 == id);
                    } else {
                        assert(answers_earlier(rest, k - 1));
                        let j = choose|j: int| 0 <= j < k - 1 && rest[k - 1].6 == Some(rest[j].0);
                        assert(ms[j + 1] == rest[j]);
                    }
                }
            }
        }
    }
}

/// The messages read from the first `n` answer containers each answer `parent`
/// or a message read before them.
pub proof fn lemma_replies_messages_nested(t: PostTree, n: int, thread_id: i32, parent: i32)
    ensures
        replies_nested(replies_outcome(t, n, thread_id, parent), parent),
    decreases t, if n <= 0 { 0 } else { n },
{
    if 0 < n <= t.replies@.len() {
        lemma_replies_messages_nested(t, n - 1, thread_id, parent);
        lemma_post_messages_nested(t.replies@[n - 1], thread_id, Some(parent));
        if let PostOutcome::Messages(before) = replies_outcome(t, n - 1, thread_id, parent) {
            if let PostOutcome::Messages(these) = post_outcome(t.replies@[n - 1], thread_id, Some(parent)) {
                let ms = before + these;
                let b = before.len() as int;
                assert forall|k: int| 0 <= k < ms.len() implies (#[trigger] ms[k]).6 == Some(parent)
                    || answers_earlier(ms, k) by {
                    if k < b {
                        assert(ms[k] == before[k]);
                        if before[k].6 != Some(parent) {
                            let j = choose|j: int| 0 <= j < k && before[k].6 == Some(before[j].0);
                            assert(ms[j] == before[j]);
                        }
                    } else {
                        assert(ms[k] == these[k - b]);
                        if k > b {
                            assert(answers_earlier(these, k - b));
                            let j = choose|j: int| 0 <= j < k - b && these[k - b].6 == Some(these[j].0);
                            assert(ms[j + b] == these[j]);
                        }
                    }
                }
            }
        }
    }
}

/// The number of rows of a table after its header row.
pub open spec fn after_header(rows: int) -> int {
    if rows > 1 { rows - 1 } else { 0 }
}

/// The HTML inside each post list of the thread page `page`, in the order the
/// selection yields them.
pub open spec fn page_post_lists(page: Seq<char>) -> Seq<Seq<char>> {
    Seq::new(
        html_match_count(false, page, "#thread-container-posts"@),
        |j: int| inner_at(in_document(false, page, "#thread-container-posts"@, j)),
    )
}

/// The HTML inside the post lists of each of `pages`.
pub open spec fn post_lists(pages: Seq<Seq<char>>) -> Seq<Seq<Seq<char>>> {
    pages.map_values(|p: Seq<char>| page_post_lists(p))
}

/// The texts of the post lists of each page joined by new lines, then the pages
/// joined by new lines.
pub open spec fn posts_html(lists: Seq<Seq<Seq<char>>>) -> Seq<char> {
    joined(lists.map_values(|l: Seq<Seq<char>>| joined(l, "\n"@)), "\n"@)
}

/// What reading the post containers `trees` of thread `thread_id` one after the
/// other gives: the messages of each, in order, or the first parsing error met.
pub open spec fn containers_outcome(trees: Seq<PostTree>, thread_id: i32) -> PostOutcome
    decreases trees.len(),
{
    if trees.len() == 0 {
        PostOutcome::Messages(Seq::empty())
    } else {
        match containers_outcome(trees.drop_last(), thread_id) {
            PostOutcome::Failure(d, a) => PostOutcome::Failure(d, a),
            PostOutcome::Messages(before) => match post_outcome(trees.last(), thread_id, None) {
                PostOutcome::Failure(d, a) => PostOutcome::Failure(d, a),
                PostOutcome::Messages(these) => PostOutcome::Messages(before + these),
            },
        }
    }
}

/// `p` holds what the message element at `at` shows: its `id`, its HTML, and the
/// HTML of its title, date, author (the second user link of its header) and content.
pub open spec fn parts_at(p: MessageParts, at: Locator) -> bool {
    &&& opt_view(p.id_attr) == attr_at(at, "id"@)
    &&& p.html@ == inner_at(at)
    &&& opt_view(p.title_html) == nth_inner(at, ".long .head .title"@, 0)
    &&& opt_view(p.date_html) == nth_inner(at, ".long .head .info .odate"@, 0)
    &&& opt_view(p.author_html) == nth_inner(at, ".long .head .info .printuser a"@, 1)
    &&& opt_view(p.content_html) == nth_inner(at, ".long .content"@, 0)
}

/// `t` is the post container at `at`: without child elements it is an empty
/// container showing its inner HTML; otherwise its first child element is the
/// message and each later child element is an answer container.
pub open spec fn post_tree_at(t: PostTree, at: Locator) -> bool
    decreases t,
{
    if element_child_count(at.0, at.1, at.2) == 0 {
        t.head matches PostHead::Empty(h) && h@ == inner_at(at) && t.replies@.len() == 0
    } else {
        &&& t.head matches PostHead::Post(p) && parts_at(p, child_at(at, 0))
        &&& t.replies@.len() == element_child_count(at.0, at.1, at.2) - 1
        &&& forall|i: int| 0 <= i < t.replies@.len() ==> post_tree_at(#[trigger] t.replies@[i], child_at(at, i + 1))
    }
}

/// Two readings of the same post container give the same messages, or the same
/// error: what a post container reads as is fixed by the page.
pub proof fn lemma_post_outcome_unique(
    t1: PostTree,
    t2: PostTree,
    at: Locator,
    thread_id: i32,
    answers_to: Option<i32>,
)
    requires
        post_tree_at(t1, at),
        post_tree_at(t2, at),
    ensures
        post_outcome(t1, thread_id, answers_to) == post_outcome(t2, thread_id, answers_to),
    decreases t1, t1.replies@.len() + 1,
{
    if element_child_count(at.0, at.1, at.2) != 0 {
        if let PostHead::Post(p1) = t1.head {
            if let PostHead::Post(p2) = t2.head {
                if let Ok(id) = id_after_dash(opt_view(p1.id_attr)) {
                    lemma_replies_outcome_unique(t1, t2, at, t1.replies@.len() as int, thread_id, id);
                }
            }
        }
    }
}

/// Two readings of the same post container read its first `n` answer containers
/// alike.
pub proof fn lemma_replies_outcome_unique(t1: PostTree, t2: PostTree, at: Locator, n: int, thread_id: i32, parent: i32)
    requires
        post_tree_at(t1, at),
        post_tree_at(t2, at),
    ensures
        replies_outcome(t1, n, thread_id, parent) == replies_outcome(t2, n, thread_id, parent),
    decreases t1, if n <= 0 { 0 } else { n },
{
    if 0 < n <= t1.replies@.len() {
        lemma_replies_outcome_unique(t1, t2, at, n - 1, thread_id, parent);
        lemma_post_outcome_unique(t1.replies@[n - 1], t2.replies@[n - 1], child_at(at, n), thread_id, Some(parent));
    }
}

/// The outcome of reading a category row is a success exactly when the row can be read.
proof fn lemma_category_ok(at: Locator, site: Seq<char>, r: Result<(Category, String), ApiError>)
    requires
        category_at(at, site, r),
    ensures
        r is Ok <==> category_ok(at),
{
}

/// The outcome of reading a thread row is a success exactly when the row can be read.
proof fn lemma_thread_ok(at: Locator, category_id: i32, r: Result<(Thread, String), ApiError>)
    requires
        thread_at(at, category_id, r),
    ensures
        r is Ok <==> thread_ok(at),
{
}

/// The selectors and patterns of the scraper all compile.
pub open spec fn scraper_compiles() -> bool {
    &&& css_valid("div.forum-group"@)
    &&& css_valid("tr"@)
    &&& css_valid("td.name div.title a"@)
    &&& css_valid(".table tr"@)
    &&& css_valid(".name .title a"@)
    &&& css_valid(".name .description"@)
    &&& css_valid(".started .odate"@)
    &&& css_valid(".started .printuser a"@)
    &&& css_valid(".post-container"@)
    &&& css_valid(".long .head .title"@)
    &&& css_valid(".long .head .info .odate"@)
    &&& css_valid(".long .head .info .printuser a"@)
    &&& css_valid(".long .content"@)
    &&& css_valid("#thread-container-posts"@)
    &&& css_valid(".pager span"@)
    &&& regex_valid(category_id_pattern())
    &&& regex_valid(thread_id_pattern())
}

/// The HTML of the posts of the thread shown on `pages`.
pub open spec fn thread_html(pages: Seq<Seq<char>>) -> Seq<char> {
    posts_html(post_lists(pages))
}

/// The place of post container `i` in the posts of the thread shown on `pages`.
pub open spec fn container_at(pages: Seq<Seq<char>>, i: int) -> Locator {
    in_document(true, thread_html(pages), ".post-container"@, i)
}

/// `trees` are the first post containers of the thread shown on `pages`.
pub open spec fn containers_at(pages: Seq<Seq<char>>, trees: Seq<PostTree>) -> bool {
    &&& trees.len() <= html_match_count(true, thread_html(pages), ".post-container"@)
    &&& forall|i: int| 0 <= i < trees.len() ==> post_tree_at(#[trigger] trees[i], container_at(pages, i))
}

/// The compiled selectors and patterns that read Wikidot forum pages.
pub struct Scraper {
    forum_group: CssSelector,
    row: CssSelector,
    category_title: CssSelector,
    thread_row: CssSelector,
    thread_title: CssSelector,
    thread_description: CssSelector,
    thread_date: CssSelector,
    thread_author: CssSelector,
    post_container: CssSelector,
    post_title: CssSelector,
    post_date: CssSelector,
    post_author: CssSelector,
    post_content: CssSelector,
    thread_posts: CssSelector,
    pager: CssSelector,
    category_id: Pattern,
    thread_id: Pattern,
}

impl Scraper {
    #[verifier::type_invariant]
    spec fn patterns(&self) -> bool {
        &&& self.category_id@ == category_id_pattern()
        &&& self.thread_id@ == thread_id_pattern()
        &&& self.forum_group@ == "div.forum-group"@
        &&& self.row@ == "tr"@
        &&& self.category_title@ == "td.name div.title a"@
        &&& self.thread_row@ == ".table tr"@
        &&& self.thread_title@ == ".name .title a"@
        &&& self.thread_description@ == ".name .description"@
        &&& self.thread_date@ == ".started .odate"@
        &&& self.thread_author@ == ".started .printuser a"@
        &&& self.post_container@ == ".post-container"@
        &&& self.post_title@ == ".long .head .title"@
        &&& self.post_date@ == ".long .head .info .odate"@
        &&& self.post_author@ == ".long .head .info .printuser a"@
        &&& self.post_content@ == ".long .content"@
        &&& self.thread_posts@ == "#thread-container-posts"@
        &&& self.pager@ == ".pager span"@
    }

    /// Compiles the selectors and patterns; `None` if one of them does not compile.
    pub fn new() -> (s: Option<Scraper>)
        ensures
            s is Some <==> scraper_compiles(),
    {
        let forum_group = CssSelector::new("div.forum-group")?;
        let row = CssSelector::new("tr")?;
        let category_title = CssSelector::new("td.name div.title a")?;
        let thread_row = CssSelector::new(".table tr")?;
        let thread_title = CssSelector::new(".name .title a")?;
        let thread_description = CssSelector::new(".name .description")?;
        let thread_date = CssSelector::new(".started .odate")?;
        let thread_author = CssSelector::new(".started .printuser a")?;
        let post_container = CssSelector::new(".post-container")?;
        let post_title = CssSelector::new(".long .head .title")?;
        let post_date = CssSelector::new(".long .head .info .odate")?;
        let post_author = CssSelector::new(".long .head .info .printuser a")?;
        let post_content = CssSelector::new(".long .content")?;
        let thread_posts = CssSelector::new("#thread-container-posts")?;
        let pager = CssSelector::new(".pager span")?;
        let category_id = Pattern::new("c-(\\d+)")?;
        let thread_id = Pattern::new("t-(\\d+)")?;
        Some(
            Scraper {
                forum_group,
                row,
                category_title,
                thread_row,
                thread_title,
                thread_description,
                thread_date,
                thread_author,
                post_container,
                post_title,
                post_date,
                post_author,
                post_content,
                thread_posts,
                pager,
                category_id,
                thread_id,
            },
        )
    }

    /// Reads a row of a forum's list of categories of the site `site_url`.
    pub fn category_from_row(&self, row: &CategoryRow, site_url: &str) -> (r: Result<(Category, String), ApiError>)
        ensures
            category_parsed(*row, site_url@, r),
    {
        proof { use_type_invariant(self); }
        let path = match read_link_path(opt_str(&row.href)) {
            Ok(p) => p,
            Err(f) => {
                let details = match f {
                    LinkFault::Missing => "Category: can't find link",
                    LinkFault::NotRelative => "Category: url not prefixed by '/'",
                    LinkFault::NoSlash => "Category: url does not contain '/'",
                };
                return Err(ApiError::ParsingError { details, at: row.row_html.clone() });
            },
        };
        let found = self.category_id.find(path.as_str());
        let id = match read_id_after_dash(opt_str(&found)) {
            Ok(id) => id,
            Err(None) => {
                return Err(ApiError::ParsingError { details: "Category: could not find id", at: path });
            },
            Err(Some(t)) => {
                return Err(ApiError::ParsingError { details: "Category: could not parse id", at: t });
            },
        };
        Ok((Category { id, name: copy_opt(&row.title_html), site_url: site_url.to_owned() }, path))
    }

    /// Reads a row of the list of threads of the category `category_id`.
    pub fn thread_from_row(&self, row: &ThreadRow, category_id: i32) -> (r: Result<(Thread, String), ApiError>)
        ensures
            thread_parsed(*row, category_id, r),
    {
        proof { use_type_invariant(self); }
        let path = match read_link_path(opt_str(&row.href)) {
            Ok(p) => p,
            Err(f) => {
                let details = match f {
                    LinkFault::Missing => "Thread: can't find link",
                    LinkFault::NotRelative => "Thread: url not prefixed by '/'",
                    LinkFault::NoSlash => "Thread: url does not contain '/'",
                };
                return Err(ApiError::ParsingError { details, at: row.row_html.clone() });
            },
        };
        let found = self.thread_id.find(path.as_str());
        let id = match read_id_after_dash(opt_str(&found)) {
            Ok(id) => id,
            Err(None) => {
                return Err(ApiError::ParsingError { details: "Thread: could not find id", at: path });
            },
            Err(Some(t)) => {
                return Err(ApiError::ParsingError { details: "Thread: could not parse id", at: t });
            },
        };
        let thread = Thread {
            id,
            title: trim_opt(&row.title_html),
            description: trim_opt(&row.description_html),
            creation_date: read_page_date(&row.date_html),
            author_username: trim_opt(&row.author_html),
            category_id,
        };
        Ok((thread, path))
    }

    fn first_inner_html(&self, el: &Element, sel: &CssSelector) -> (r: Option<String>)
        ensures
            opt_view(r) == nth_inner(el@, sel@, 0),
    {
        let found = select_in_element(el, sel);
        if found.len() > 0 {
            Some(inner_html(&found[0]))
        } else {
            None
        }
    }

    fn category_row(&self, tr: &Element) -> (row: CategoryRow)
        ensures
            opt_view(row.href) == category_href_at(tr@),
            opt_view(row.title_html) == nth_inner(tr@, "td.name div.title a"@, 0),
            row.row_html@ == inner_at(tr@),
    {
        proof { use_type_invariant(self); }
        let titles = select_in_element(tr, &self.category_title);
        let (href, title_html) = if titles.len() > 0 {
            (attribute(&titles[0], "href"), Some(inner_html(&titles[0])))
        } else {
            (None, None)
        };
        CategoryRow { href, title_html, row_html: inner_html(tr) }
    }

    /// Reads the category row `tr` of a forum's list of categories of the site
    /// `site_url`; when its link is found, so is its name.
    pub fn parse_category(&self, tr: &Element, site_url: &str) -> (r: Result<(Category, String), ApiError>)
        ensures
            category_at(tr@, site_url@, r),
            r matches Ok((c, _)) ==> c.name is Some,
    {
        let row = self.category_row(tr);
        self.category_from_row(&row, site_url)
    }

    /// Reads the categories listed on the forum's start page `page` of the site
    /// `site_url`: every row but the first of each category group, in order; the
    /// first error met stops the reading.
    pub fn categories_of_forum(&self, page: &str, site_url: &str) -> (r: Result<Vec<(Category, String)>, ApiError>)
        ensures
            categories_read(forum_rows(page@), site_url@, r),
    {
        proof { use_type_invariant(self); }
        let ghost all = forum_rows(page@);
        let doc = Document::parse(page);
        let groups = doc.select(&self.forum_group);
        let mut out: Vec<(Category, String)> = Vec::new();
        let mut g: usize = 0;
        while g < groups.len()
            invariant
                g <= groups.len(),
                groups@.len() == html_match_count(false, page@, "div.forum-group"@),
                forall|j: int| 0 <= j < groups@.len() ==> (#[trigger] groups@[j])@ == in_document(false, page@, "div.forum-group"@, j),
                self.row@ == "tr"@,
                all == forum_rows(page@),
                out@.len() == rows_of_groups(page@, g as int).len(),
                out@.len() <= all.len(),
                forall|k: int| 0 <= k < out@.len() ==> category_at(#[trigger] all[k], site_url@, Ok(out@[k])),
            decreases groups.len() - g,
        {
            proof {
                lemma_rows_of_groups_prefix(page@, g + 1, groups@.len() as int);
                lemma_rows_of_groups_prefix(page@, g as int, g + 1);
            }
            let ghost done = rows_of_groups(page@, g as int);
            let ghost here = group_rows(page@, g as int);
            assert(rows_of_groups(page@, g + 1) == done + here);
            let rows = select_in_element(&groups[g], &self.row);
            let mut i: usize = 1;
            while i < rows.len()
                invariant
                    1 <= i,
                    i <= rows.len() || i == 1,
                    rows@.len() == match_count(in_document(false, page@, "div.forum-group"@, g as int), "tr"@),
                    forall|j: int| 0 <= j < rows@.len() ==> (#[trigger] rows@[j])@ == below(in_document(false, page@, "div.forum-group"@, g as int), "tr"@, j),
                    here == group_rows(page@, g as int),
                    all == forum_rows(page@),
                    (done + here).len() <= all.len(),
                    all.take((done + here).len() as int) == done + here,
                    out@.len() == done.len() + i - 1,
                    forall|k: int| 0 <= k < out@.len() ==> category_at(#[trigger] all[k], site_url@, Ok(out@[k])),
                decreases rows.len() - i,
            {
                let ghost k = out@.len() as int;
                assert(here.len() == rows@.len() - 1);
                assert(k < (done + here).len());
                assert(all.take((done + here).len() as int)[k] == all[k]);
                assert(all[k] == (done + here)[k]);
                assert(all[k] == rows@[i as int]@);
                let parsed = self.parse_category(&rows[i], site_url);
                match parsed {
                    Ok(c) => {
                        let ghost old_out = out@;
                        out.push(c);
                        assert forall|m: int| 0 <= m < out@.len() implies
                            category_at(#[trigger] all[m], site_url@, Ok(out@[m])) by {
                            if m < old_out.len() {
                                assert(out@[m] == old_out[m]);
                            }
                        }
                    },
                    Err(e) => {
                        proof {
                            assert forall|j: int| 0 <= j < k implies category_ok(#[trigger] all[j]) by {
                                lemma_category_ok(all[j], site_url@, Ok(out@[j]));
                            }
                            assert(category_at(all[k], site_url@, Err::<(Category, String), ApiError>(e)));
                            assert(categories_read(all, site_url@, Err::<Vec<(Category, String)>, ApiError>(e)));
                        }
                        return Err(e);
                    },
                }
                i = i + 1;
            }
            assert(out@.len() == rows_of_groups(page@, g + 1).len());
            g = g + 1;
        }
        assert(rows_of_groups(page@, groups@.len() as int) == all);
        Ok(out)
    }

    fn thread_row(&self, tr: &Element) -> (row: ThreadRow)
        ensures
            opt_view(row.href) == thread_href_at(tr@),
            row.row_html@ == inner_at(tr@),
            opt_view(row.title_html) == nth_inner(tr@, ".name .title a"@, 0),
            opt_view(row.description_html) == nth_inner(tr@, ".name .description"@, 0),
            opt_view(row.date_html) == nth_inner(tr@, ".started .odate"@, 0),
            opt_view(row.author_html) == nth_inner(tr@, ".started .printuser a"@, 1),
    {
        proof { use_type_invariant(self); }
        let titles = select_in_element(tr, &self.thread_title);
        let (href, title_html) = if titles.len() > 0 {
            (attribute(&titles[0], "href"), Some(inner_html(&titles[0])))
        } else {
            (None, None)
        };
        let authors = select_in_element(tr, &self.thread_author);
        let author_html = if authors.len() > 1 {
            Some(inner_html(&authors[1]))
        } else {
            None
        };
        ThreadRow {
            href,
            row_html: inner_html(tr),
            title_html,
            description_html: self.first_inner_html(tr, &self.thread_description),
            date_html: self.first_inner_html(tr, &self.thread_date),
            author_html,
        }
    }

    /// Reads the thread row `tr` of the list of threads of the category
    /// `category_id`; when its link is found, so is its title.
    pub fn parse_thread(&self, tr: &Element, category_id: i32) -> (r: Result<(Thread, String), ApiError>)
        ensures
            thread_at(tr@, category_id, r),
            r matches Ok((t, _)) ==> t.title is Some,
    {
        let row = self.thread_row(tr);
        self.thread_from_row(&row, category_id)
    }

    /// Reads the threads listed on the pages `pages` of the category `category_id`:
    /// every row but the first of each page's thread table, page after page; the
    /// first error met stops the reading.
    pub fn threads_of_pages(&self, pages: &Vec<String>, category_id: i32) -> (r: Result<Vec<(Thread, String)>, ApiError>)
        ensures
            threads_read(rows_of_pages(views(pages@), pages@.len() as int), category_id, r),
    {
        proof { use_type_invariant(self); }
        let ghost pv = views(pages@);
        let ghost all = rows_of_pages(pv, pages@.len() as int);
        let mut out: Vec<(Thread, String)> = Vec::new();
        let mut p: usize = 0;
        while p < pages.len()
            invariant
                p <= pages.len(),
                pv == views(pages@),
                all == rows_of_pages(pv, pages@.len() as int),
                self.thread_row@ == ".table tr"@,
                pv.len() == pages@.len(),
                out@.len() == rows_of_pages(pv, p as int).len(),
                out@.len() <= all.len(),
                forall|k: int| 0 <= k < out@.len() ==> thread_at(#[trigger] all[k], category_id, Ok(out@[k])),
            decreases pages.len() - p,
        {
            proof {
                lemma_rows_of_pages_prefix(pv, p + 1, pages@.len() as int);
                lemma_rows_of_pages_prefix(pv, p as int, p + 1);
            }
            let ghost done = rows_of_pages(pv, p as int);
            let ghost here = page_rows(pv[p as int]);
            assert(rows_of_pages(pv, p + 1) == done + here);
            assert(pv[p as int] == pages@[p as int]@);
            let doc = Document::parse(pages[p].as_str());
            let rows = doc.select(&self.thread_row);
            let mut i: usize = 1;
            while i < rows.len()
                invariant
                    1 <= i,
                    i <= rows.len() || i == 1,
                    p < pv.len(),
                    rows@.len() == html_match_count(false, pv[p as int], ".table tr"@),
                    forall|j: int| 0 <= j < rows@.len() ==> (#[trigger] rows@[j])@ == in_document(false, pv[p as int], ".table tr"@, j),
                    here == page_rows(pv[p as int]),
                    pv == views(pages@),
                    all == rows_of_pages(pv, pages@.len() as int),
                    (done + here).len() <= all.len(),
                    all.take((done + here).len() as int) == done + here,
                    out@.len() == done.len() + i - 1,
                    forall|k: int| 0 <= k < out@.len() ==> thread_at(#[trigger] all[k], category_id, Ok(out@[k])),
                decreases rows.len() - i,
            {
                let ghost k = out@.len() as int;
                assert(here.len() == rows@.len() - 1);
                assert(k < (done + here).len());
                assert(all.take((done + here).len() as int)[k] == all[k]);
                assert(all[k] == (done + here)[k]);
                assert(all[k] == rows@[i as int]@);
                let parsed = self.parse_thread(&rows[i], category_id);
                match parsed {
                    Ok(t) => {
                        let ghost old_out = out@;
                        out.push(t);
                        assert forall|m: int| 0 <= m < out@.len() implies
                            thread_at(#[trigger] all[m], category_id, Ok(out@[m])) by {
                            if m < old_out.len() {
                                assert(out@[m] == old_out[m]);
                            }
                        }
                    },
                    Err(e) => {
                        proof {
                            assert forall|j: int| 0 <= j < k implies thread_ok(#[trigger] all[j]) by {
                                lemma_thread_ok(all[j], category_id, Ok(out@[j]));
                            }
                            assert(thread_at(all[k], category_id, Err::<(Thread, String), ApiError>(e)));
                            assert(threads_read(all, category_id, Err::<Vec<(Thread, String)>, ApiError>(e)));
                        }
                        return Err(e);
                    },
                }
                i = i + 1;
            }
            assert(out@.len() == rows_of_pages(pv, p + 1).len());
            p = p + 1;
        }
        Ok(out)
    }

    /// The number of pages the pager of the page `page` announces: read from the
    /// HTML inside its first pager element, 1 without pager.
    pub fn page_count(&self, page: &str) -> (n: i32)
        ensures
            n == page_count_of(doc_nth_inner(false, page@, ".pager span"@, 0)),
    {
        proof { use_type_invariant(self); }
        let doc = Document::parse(page);
        let spans = doc.select(&self.pager);
        if spans.len() > 0 {
            let text = inner_html(&spans[0]);
            page_count_from(Some(text.as_str()))
        } else {
            page_count_from(None)
        }
    }

    fn message_parts(&self, el: &Element) -> (p: MessageParts)
        ensures
            parts_at(p, el@),
    {
        proof { use_type_invariant(self); }
        let authors = select_in_element(el, &self.post_author);
        let author_html = if authors.len() > 1 {
            Some(inner_html(&authors[1]))
        } else {
            None
        };
        MessageParts {
            id_attr: attribute(el, "id"),
            html: inner_html(el),
            title_html: self.first_inner_html(el, &self.post_title),
            date_html: self.first_inner_html(el, &self.post_date),
            author_html,
            content_html: self.first_inner_html(el, &self.post_content),
        }
    }

    fn post_tree(&self, node: &ElementTree) -> (pt: PostTree)
        requires
            tree_at(*node, node.element@),
        ensures
            post_tree_at(pt, node.element@),
        decreases node,
    {
        let ghost at = node.element@;
        if node.children.len() == 0 {
            return PostTree { head: PostHead::Empty(inner_html(&node.element)), replies: Vec::new() };
        }
        assert(tree_at(node.children@[0], child_at(at, 0)));
        let head = PostHead::Post(self.message_parts(&node.children[0].element));
        let mut replies: Vec<PostTree> = Vec::new();
        let mut i: usize = 1;
        while i < node.children.len()
            invariant
                1 <= i <= node.children@.len(),
                at == node.element@,
                tree_at(*node, at),
                replies@.len() == i - 1,
                forall|k: int| 0 <= k < replies@.len() ==> post_tree_at(#[trigger] replies@[k], child_at(at, k + 1)),
            decreases node.children.len() - i,
        {
            assert(tree_at(node.children@[i as int], child_at(at, i as int)));
            let sub = self.post_tree(&node.children[i]);
            let ghost old_replies = replies@;
            replies.push(sub);
            assert forall|k: int| 0 <= k < replies@.len() implies post_tree_at(#[trigger] replies@[k], child_at(at, k + 1)) by {
                if k < old_replies.len() {
                    assert(replies@[k] == old_replies[k]);
                }
            }
            i = i + 1;
        }
        PostTree { head, replies }
    }

    /// Reads the messages of the post container `container` of thread `thread_id`,
    /// whose message answers `answers_to`. The reading of the container is fixed
    /// by the page (see `lemma_post_outcome_unique`).
    pub fn parse_message(&self, container: &Element, thread_id: i32, answers_to: Option<i32>) -> (r: Result<Vec<Message>, ApiError>)
        ensures
            exists|t: PostTree| post_tree_at(t, container@) && messages_agree(r, post_outcome(t, thread_id, answers_to)),
    {
        let tree = element_tree(container);
        let posts = self.post_tree(&tree);
        messages_of_post(&posts, thread_id, answers_to)
    }

    /// The HTML of the posts of a thread shown on `pages`: the inner HTML of each
    /// page's post lists, page after page, separated by new lines.
    pub fn thread_posts_html(&self, pages: &Vec<String>) -> (s: String)
        ensures
            s@ == thread_html(views(pages@)),
    {
        proof { use_type_invariant(self); }
        let ghost pv = views(pages@);
        let ghost f = |l: Seq<Seq<char>>| joined(l, "\n"@);
        let mut parts: Vec<String> = Vec::new();
        let mut p: usize = 0;
        while p < pages.len()
            invariant
                p <= pages.len(),
                pv == views(pages@),
                f == |l: Seq<Seq<char>>| joined(l, "\n"@),
                self.thread_posts@ == "#thread-container-posts"@,
                views(parts@) == post_lists(pv).take(p as int).map_values(f),
            decreases pages.len() - p,
        {
            assert(pv[p as int] == pages@[p as int]@);
            let doc = Document::parse(pages[p].as_str());
            let found = doc.select(&self.thread_posts);
            let mut inner: Vec<String> = Vec::new();
            let mut i: usize = 0;
            while i < found.len()
                invariant
                    i <= found.len(),
                    found@.len() == html_match_count(false, pv[p as int], "#thread-container-posts"@),
                    forall|j: int| 0 <= j < found@.len() ==> (#[trigger] found@[j])@ == in_document(false, pv[p as int], "#thread-container-posts"@, j),
                    views(inner@) == page_post_lists(pv[p as int]).take(i as int),
                decreases found.len() - i,
            {
                let h = inner_html(&found[i]);
                let ghost old_inner = inner@;
                inner.push(h);
                assert(views(inner@) =~= views(old_inner).push(h@));
                assert(views(inner@) =~= page_post_lists(pv[p as int]).take(i + 1));
                i = i + 1;
            }
            assert(views(inner@) =~= page_post_lists(pv[p as int]));
            let joined_page = join_texts(&inner, "\n");
            let ghost old_parts = parts@;
            parts.push(joined_page);
            proof {
                assert(post_lists(pv)[p as int] == page_post_lists(pv[p as int]));
                assert(views(parts@) =~= views(old_parts).push(joined_page@));
                assert(views(parts@) =~= post_lists(pv).take(p + 1).map_values(f));
            }
            p = p + 1;
        }
        assert(post_lists(pv).take(pages@.len() as int) =~= post_lists(pv));
        join_texts(&parts, "\n")
    }

    /// Reads the messages of thread `thread_id` shown on `pages`: the messages of
    /// every post container of the thread's posts, in the order the selection
    /// yields them, each with those of the containers inside it; the first error met stops the reading.
    pub fn messages_of_thread(&self, pages: &Vec<String>, thread_id: i32) -> (r: Result<Vec<Message>, ApiError>)
        ensures
            r matches Ok(v) ==> forall|k: int| 0 <= k < v@.len() ==> (#[trigger] v@[k]).thread_id == thread_id,
            exists|trees: Seq<PostTree>| {
                &&& containers_at(views(pages@), trees)
                &&& (r is Ok ==> trees.len() == html_match_count(true, thread_html(views(pages@)), ".post-container"@))
                &&& messages_agree(r, containers_outcome(trees, thread_id))
            },
    {
        proof { use_type_invariant(self); }
        let ghost pv = views(pages@);
        let html = self.thread_posts_html(pages);
        let fragment = Document::parse_fragment(html.as_str());
        let containers = fragment.select(&self.post_container);
        let ghost mut trees: Seq<PostTree> = Seq::empty();
        let mut out: Vec<Message> = Vec::new();
        assert(out@.map_values(|m: Message| message_view(m)) =~= Seq::<MessageView>::empty());
        let mut i: usize = 0;
        while i < containers.len()
            invariant
                i <= containers.len(),
                pv == views(pages@),
                containers@.len() == html_match_count(true, thread_html(pv), ".post-container"@),
                forall|j: int| 0 <= j < containers@.len() ==> (#[trigger] containers@[j])@ == container_at(pv, j),
                trees.len() == i,
                containers_at(pv, trees),
                containers_outcome(trees, thread_id) == PostOutcome::Messages(out@.map_values(|m: Message| message_view(m))),
                forall|k: int| 0 <= k < out@.len() ==> (#[trigger] out@[k]).thread_id == thread_id,
            decreases containers.len() - i,
        {
            let parsed = self.parse_message(&containers[i], thread_id, None);
            let ghost t = choose|t: PostTree| post_tree_at(t, containers@[i as int]@)
                && messages_agree(parsed, post_outcome(t, thread_id, None));
            let ghost old_trees = trees;
            proof {
                trees = trees.push(t);
                assert(trees.drop_last() =~= old_trees);
                assert forall|j: int| 0 <= j < trees.len() implies post_tree_at(#[trigger] trees[j], container_at(pv, j)) by {
                    if j < old_trees.len() {
                        assert(trees[j] == old_trees[j]);
                    }
                }
            }
            match parsed {
                Ok(mut ms) => {
                    proof {
                        lemma_post_messages_in_thread(t, thread_id, None);
                        assert forall|k: int| 0 <= k < ms@.len() implies (#[trigger] ms@[k]).thread_id == thread_id by {
                            assert(ms@.map_values(|m: Message| message_view(m))[k] == message_view(ms@[k]));
                        }
                    }
                    let ghost old_out = out@;
                    let ghost added = ms@;
                    out.append(&mut ms);
                    assert forall|k: int| 0 <= k < out@.len() implies (#[trigger] out@[k]).thread_id == thread_id by {
                        if k < old_out.len() {
                            assert(out@[k] == old_out[k]);
                        } else {
                            assert(out@[k] == added[k - old_out.len()]);
                        }
                    }
                    assert(out@.map_values(|m: Message| message_view(m)) =~= old_out.map_values(
                        |m: Message| message_view(m),
                    ) + added.map_values(|m: Message| message_view(m)));
                },
                Err(e) => {
                    assert(messages_agree(Err::<Vec<Message>, ApiError>(e), containers_outcome(trees, thread_id)));
                    return Err(e);
                },
            }
            i = i + 1;
        }
        assert(messages_agree(Ok::<Vec<Message>, ApiError>(out), containers_outcome(trees, thread_id)));
        Ok(out)
    }
}

/// The date chrono reads in the date text `date` with the format of Wikidot
/// pages, `%d %b %Y %H:%M`, as a timestamp.
pub open spec fn chrono_date(date: Option<Seq<char>>) -> Option<Timestamp> {
    match date {
        None => None,
        Some(d) => match chrono_parse(d, "%d %b %Y %H:%M"@) {
            Some((year, month, day, hour, minute, second)) => Some(
                Timestamp { year, month, day, hour, minute, second },
            ),
            None => None,
        },
    }
}

/// A message's publication date is the date its date element shows, with the
/// year, month, day, hour, minute and second that chrono reads there with the
/// date format of Wikidot pages.
pub proof fn lemma_message_date(p: MessageParts, id: i32, thread_id: i32, answers_to: Option<i32>)
    ensures
        message_of(p, id, thread_id, answers_to).4 == chrono_date(opt_view(p.date_html)),
{
}

/// A thread's creation date is the date its row's date element shows, as chrono
/// reads it with the date format of Wikidot pages.
pub proof fn lemma_thread_date(
    href: Option<Seq<char>>,
    row_html: Seq<char>,
    title: Option<Seq<char>>,
    description: Option<Seq<char>>,
    date: Option<Seq<char>>,
    author: Option<Seq<char>>,
    category_id: i32,
    r: Result<(Thread, String), ApiError>,
)
    requires
        thread_result(href, row_html, title, description, date, author, category_id, r),
        r is Ok,
    ensures
        r->Ok_0.0.creation_date == chrono_date(date),
{
}

/// The thread rows of a category's pages are those of each page in turn: the
/// rows read from the first `n` pages are the rows of page 0, then those of page
/// 1, and so on, each page contributing its own rows once.
pub proof fn lemma_rows_of_pages_concatenate(pages: Seq<Seq<char>>, n: int)
    requires
        0 <= n <= pages.len(),
    ensures
        rows_of_pages(pages, n) == pages.take(n).map_values(|p: Seq<char>| page_rows(p)).flatten(),
    decreases n,
{
    let f = |p: Seq<char>| page_rows(p);
    if n == 0 {
        assert(pages.take(0).map_values(f) =~= Seq::<Seq<Locator>>::empty());
    } else {
        lemma_rows_of_pages_concatenate(pages, n - 1);
        assert(pages.take(n).map_values(f) =~= pages.take(n - 1).map_values(f).push(page_rows(pages[n - 1])));
        pages.take(n - 1).map_values(f).lemma_flatten_push(page_rows(pages[n - 1]));
    }
}

/// The category rows of a forum page are those of each category group in turn:
/// the rows read from the first `n` groups are the rows of group 0, then those of
/// group 1, and so on, each group contributing its own rows once.
pub proof fn lemma_rows_of_groups_concatenate(page: Seq<char>, n: int)
    requires
        0 <= n,
    ensures
        rows_of_groups(page, n) == Seq::new(n as nat, |g: int| group_rows(page, g)).flatten(),
    decreases n,
{
    if n == 0 {
        assert(Seq::new(0, |g: int| group_rows(page, g)) =~= Seq::<Seq<Locator>>::empty());
    } else {
        lemma_rows_of_groups_concatenate(page, n - 1);
        let before = Seq::new((n - 1) as nat, |g: int| group_rows(page, g));
        assert(Seq::new(n as nat, |g: int| group_rows(page, g)) =~= before.push(group_rows(page, n - 1)));
        before.lemma_flatten_push(group_rows(page, n - 1));
    }
}

/// A page's thread rows are the rows of its thread table after the header row,
/// each once and in the order they are found; a category group's rows likewise.
pub proof fn lemma_rows_skip_header(page: Seq<char>, g: int)
    ensures
        page_rows(page).len() == if html_match_count(false, page, ".table tr"@) > 0 {
            html_match_count(false, page, ".table tr"@) - 1
        } else {
            0
        },
        forall|i: int| 1 <= i < html_match_count(false, page, ".table tr"@) ==>
            #[trigger] page_rows(page)[i - 1] == in_document(false, page, ".table tr"@, i),
        group_rows(page, g).len() == if match_count(in_document(false, page, "div.forum-group"@, g), "tr"@) > 0 {
            match_count(in_document(false, page, "div.forum-group"@, g), "tr"@) - 1
        } else {
            0
        },
        forall|i: int| 1 <= i < match_count(in_document(false, page, "div.forum-group"@, g), "tr"@) ==>
            #[trigger] group_rows(page, g)[i - 1] == below(in_document(false, page, "div.forum-group"@, g), "tr"@, i),
{
}

} // verus!
