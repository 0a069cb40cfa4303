//! The records that the indexer stores: sites, categories, authors, threads and messages.

use vstd::prelude::*;
use vstd::std_specs::cmp::PartialEqSpecImpl;
use vstd::std_specs::cmp::PartialEqSpec;

verus! {

/// A date and time without time zone, as Wikidot pages show them.
#[derive(Debug, Clone, Copy, PartialEq, Eq, Structural)]
pub struct Timestamp {
    pub year: i32,
    pub month: u32,
    pub day: u32,
    pub hour: u32,
    pub minute: u32,
    pub second: u32,
}

/// The view of an optional string: its characters, when present.
pub open spec fn opt_view(o: Option<String>) -> Option<Seq<char>> {
    match o {
        Some(s) => Some(s@),
        None => None,
    }
}

/// A Wikidot site, known by the prefix of its URL (`<url>.wikidot.com`).
#[derive(Debug, Clone)]
pub struct Site {
    pub url: String,
    pub name: Option<String>,
}

impl PartialEq for Site {
    fn eq(&self, other: &Self) -> (r: bool) {
        self.url == other.url
    }
}

impl PartialEqSpecImpl for Site {
    open spec fn obeys_eq_spec() -> bool {
        true
    }

    open spec fn eq_spec(&self, other: &Self) -> bool {
        self.url@ == other.url@
    }
}

impl Eq for Site {}

/// A forum category of a site.
#[derive(Debug, Clone)]
pub struct Category {
    pub id: i32,
    pub name: Option<String>,
    pub site_url: String,
}

impl PartialEq for Category {
    fn eq(&self, other: &Self) -> (r: bool) {
        self.id == other.id
    }
}

impl PartialEqSpecImpl for Category {
    open spec fn obeys_eq_spec() -> bool {
        true
    }

    open spec fn eq_spec(&self, other: &Self) -> bool {
        self.id == other.id
    }
}

impl Eq for Category {}

/// An author of threads and messages.
#[derive(Debug, Clone)]
pub struct Author {
    pub username: String,
}

impl PartialEq for Author {
    fn eq(&self, other: &Self) -> (r: bool) {
        self.username == other.username
    }
}

impl PartialEqSpecImpl for Author {
    open spec fn obeys_eq_spec() -> bool {
        true
    }

    open spec fn eq_spec(&self, other: &Self) -> bool {
        self.username@ == other.username@
    }
}

impl Eq for Author {}

/// A thread of a forum category.
#[derive(Debug, Clone)]
pub struct Thread {
    pub id: i32,
    pub title: Option<String>,
    pub description: Option<String>,
    pub creation_date: Option<Timestamp>,
    pub author_username: Option<String>,
    pub category_id: i32,
}

impl PartialEq for Thread {
    fn eq(&self, other: &Self) -> (r: bool) {
        self.id == other.id
    }
}

impl PartialEqSpecImpl for Thread {
    open spec fn obeys_eq_spec() -> bool {
        true
    }

    open spec fn eq_spec(&self, other: &Self) -> bool {
        self.id == other.id
    }
}

impl Eq for Thread {}

/// A message of a thread; `answers_to` is the message it replies to.
#[derive(Debug, Clone)]
pub struct Message {
    pub id: i32,
    pub title: Option<String>,
    pub content: Option<String>,
    pub author_username: Option<String>,
    pub publication_date: Option<Timestamp>,
    pub thread_id: i32,
    pub answers_to: Option<i32>,
}

impl PartialEq for Message {
    fn eq(&self, other: &Self) -> (r: bool) {
        self.id == other.id
    }
}

impl PartialEqSpecImpl for Message {
    open spec fn obeys_eq_spec() -> bool {
        true
    }

    open spec fn eq_spec(&self, other: &Self) -> bool {
        self.id == other.id
    }
}

impl Eq for Message {}

/// Records are told apart by their keys: two sites are the same record exactly
/// when their addresses are, two categories, threads or messages exactly when
/// their ids are, two authors exactly when their user names are, whatever their
/// other fields hold.
pub proof fn lemma_records_equal_by_key(
    s1: Site, s2: Site,
    c1: Category, c2: Category,
    a1: Author, a2: Author,
    t1: Thread, t2: Thread,
    m1: Message, m2: Message,
)
    ensures
        PartialEqSpec::eq_spec(&s1, &s2) <==> s1.url@ == s2.url@,
        PartialEqSpec::eq_spec(&c1, &c2) <==> c1.id == c2.id,
        PartialEqSpec::eq_spec(&a1, &a2) <==> a1.username@ == a2.username@,
        PartialEqSpec::eq_spec(&t1, &t2) <==> t1.id == t2.id,
        PartialEqSpec::eq_spec(&m1, &m2) <==> m1.id == m2.id,
{
}

} // verus!
