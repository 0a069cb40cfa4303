//! The values that the HTTP API exchanges, and the small decisions it makes.

use vstd::prelude::*;
use vstd::std_specs::convert::FromSpecImpl;
use vstd::std_specs::convert::FromSpec;
use crate::db_structs::{Message, Thread, Timestamp};
use crate::text::{first_field, same_text, split_first_field};

verus! {

/// How many rows a page of results holds.
pub const MAX_PER_PAGE: i32 = 25;

/// The order in which lists of threads and messages are sorted.
#[derive(Debug, Clone, Copy, PartialEq, Eq, Structural)]
pub enum Order {
    ID,
    Alpha,
    Date,
}

/// The label of an order, as the queries match it.
pub open spec fn order_label(o: Order) -> Seq<char> {
    match o {
        Order::ID => "ID"@,
        Order::Alpha => "Alpha"@,
        Order::Date => "Date"@,
    }
}

impl Default for Order {
    fn default() -> (o: Self)
        ensures
            o == Order::Date,
    {
        Order::Date
    }
}

impl Order {
    /// The label of the order (its `Display` text).
    pub fn to_text(&self) -> (s: String)
        ensures
            s@ == order_label(*self),
    {
        match self {
            Order::ID => String::from_str("ID"),
            Order::Alpha => String::from_str("Alpha"),
            Order::Date => String::from_str("Date"),
        }
    }
}

/// Different orders have different labels, so a query can tell them apart.
pub proof fn lemma_order_labels_distinct(a: Order, b: Order)
    ensures
        order_label(a) == order_label(b) <==> a == b,
{
    reveal_strlit("ID");
    reveal_strlit("Alpha");
    reveal_strlit("Date");
    assert("ID"@.len() == 2);
    assert("Alpha"@.len() == 5);
    assert("Date"@.len() == 4);
}

/// The token that a writing request carries.
#[derive(Debug, Default, Clone, Copy, PartialEq, Eq, Structural)]
pub struct WriteToken {
    pub token: u64,
}

impl From<WriteToken> for u64 {
    fn from(value: WriteToken) -> (r: u64) {
        value.token
    }
}

impl FromSpecImpl<WriteToken> for u64 {
    open spec fn obeys_from_spec() -> bool {
        true
    }

    open spec fn from_spec(v: WriteToken) -> u64 {
        v.token
    }
}

/// The number of rows skipped before page `page` (the first page when none is asked).
pub open spec fn page_offset_of(page: Option<i32>) -> int {
    match page {
        Some(p) => p * MAX_PER_PAGE,
        None => 0,
    }
}

/// The offset of the first row of the requested page.
pub fn page_offset(page: Option<i32>) -> (r: i32)
    requires
        i32::MIN <= page_offset_of(page) <= i32::MAX,
    ensures
        r == page_offset_of(page),
{
    match page {
        Some(p) => p * MAX_PER_PAGE,
        None => 0,
    }
}

/// The site prefix in a site URL: what comes before its first dot.
pub fn url_prefix(url: &str) -> (p: String)
    ensures
        p@ == first_field(url@, '.'),
{
    split_first_field(url, '.')
}

/// Whether a database error code reports a duplicate key.
pub fn is_duplicate_key(code: Option<&str>) -> (r: bool)
    ensures
        r == (code matches Some(c) && c@ == "23000"@),
{
    match code {
        Some(c) => same_text(c, "23000"),
        None => false,
    }
}

/// A message together with the messages that answer it.
#[derive(Debug)]
pub struct FullMessage {
    pub id: i32,
    pub title: Option<String>,
    pub content: Option<String>,
    pub author_username: Option<String>,
    pub publication_date: Option<Timestamp>,
    pub thread_id: i32,
    pub answers: Vec<FullMessage>,
}

impl FullMessage {
    /// `message` with its answers.
    pub fn build(message: Message, answers: Vec<FullMessage>) -> (m: Self)
        ensures
            m.id == message.id,
            m.title == message.title,
            m.content == message.content,
            m.author_username == message.author_username,
            m.publication_date == message.publication_date,
            m.thread_id == message.thread_id,
            m.answers == answers,
    {
        FullMessage {
            id: message.id,
            title: message.title,
            content: message.content,
            author_username: message.author_username,
            publication_date: message.publication_date,
            thread_id: message.thread_id,
            answers,
        }
    }
}

/// A thread together with its messages.
#[derive(Debug)]
pub struct FullThread {
    pub id: i32,
    pub title: Option<String>,
    pub description: Option<String>,
    pub creation_date: Option<Timestamp>,
    pub author_username: Option<String>,
    pub messages: Vec<FullMessage>,
}

impl FullThread {
    /// `thread` with its messages.
    pub fn build(thread: Thread, messages: Vec<FullMessage>) -> (t: Self)
        ensures
            t.id == thread.id,
            t.title == thread.title,
            t.description == thread.description,
            t.creation_date == thread.creation_date,
            t.author_username == thread.author_username,
            t.messages == messages,
    {
        FullThread {
            id: thread.id,
            title: thread.title,
            description: thread.description,
            creation_date: thread.creation_date,
            author_username: thread.author_username,
            messages,
        }
    }
}

/// The number a write request's token turns into is the token itself, so the
/// token checked against the configured ones is the token the request carries.
pub proof fn lemma_write_token_number(t: WriteToken)
    ensures
        <u64 as FromSpec<WriteToken>>::from_spec(t) == t.token,
{
}

} // verus!
