use wikidot_fi::db_structs::{Author, Timestamp};
use wikidot_fi::errors::ApiError;
use wikidot_fi::html::{CssSelector, Document};
use wikidot_fi::scraping::{
    add_author, add_message_authors, add_thread_authors, join_texts, numbered_page_urls, page_count_from,
    page_url, read_id_after_dash, read_link_path, CategoryRow, LinkFault, MessageParts, PostHead, PostTree,
    Scraper, ThreadRow, messages_of_post,
};

const FORUM_PAGE: &str = r#"<html><body>
<div class="forum-group">
  <table>
    <tr><th>Category</th></tr>
    <tr><td class="name"><div class="title"><a href="/forum/c-12345/general-discussion">General Discussion</a></div></td></tr>
    <tr><td class="name"><div class="title"><a href="/forum/c-678/help">Help</a></div></td></tr>
  </table>
</div>
<div class="forum-group">
  <table>
    <tr><th>Other</th></tr>
    <tr><td class="name"><div class="title"><a href="/forum/c-9/news">News</a></div></td></tr>
  </table>
</div>
</body></html>"#;

const THREAD_LIST_PAGE: &str = r#"<html><body>
<div class="pager"><span class="pager-no">page 1 of 3</span></div>
<table class="table">
  <tr><th>Thread</th></tr>
  <tr>
    <td class="name"><div class="title"><a href="/forum/t-999/hello-world">  Hello World </a></div><div class="description"> A thread </div></td>
    <td class="started"><span class="printuser"><a href="/u"><img src="a.png"></a><a href="/user">Alice</a></span> <span class="odate">12 Mar 2020 14:05</span></td>
  </tr>
  <tr>
    <td class="name"><div class="title"><a href="/forum/t-1000/second">Second</a></div></td>
    <td class="started"></td>
  </tr>
</table>
</body></html>"#;

const THREAD_PAGE: &str = r#"<html><body>
<div id="thread-container-posts">
  <div class="post-container" id="fpc-1">
    <div class="post" id="post-100"><div class="long"><div class="head"><div class="title"> Hi </div><div class="info"><span class="printuser"><a href="/u">i</a><a href="/b">Bob</a></span> <span class="odate">01 Jan 2021 10:00</span></div></div><div class="content"> <p>Hello</p> </div></div></div>
    <div class="post-container" id="fpc-2">
      <div class="post" id="post-101"><div class="long"><div class="head"><div class="title">Re: Hi</div><div class="info"><span class="printuser"><a href="/u">i</a><a href="/c">Carol</a></span></div></div><div class="content">Answer</div></div></div>
    </div>
  </div>
</div>
</body></html>"#;

fn scraper() -> Scraper {
    Scraper::new().expect("selectors and patterns compile")
}

#[test]
fn link_paths() {
    assert_eq!(read_link_path(Some("/forum/c-1/general")), Ok("forum/c-1".to_string()));
    assert_eq!(read_link_path(None), Err(LinkFault::Missing));
    assert_eq!(read_link_path(Some("forum/c-1/general")), Err(LinkFault::NotRelative));
    assert_eq!(read_link_path(Some("/forum")), Err(LinkFault::NoSlash));
}

#[test]
fn ids_after_dash() {
    assert_eq!(read_id_after_dash(Some("post-123")), Ok(123));
    assert_eq!(read_id_after_dash(Some("c-12-3")), Err(Some("12-3".to_string())));
    assert_eq!(read_id_after_dash(Some("post")), Err(None));
    assert_eq!(read_id_after_dash(None), Err(None));
    assert_eq!(read_id_after_dash(Some("t-99999999999")), Err(Some("99999999999".to_string())));
}

#[test]
fn page_counts() {
    assert_eq!(page_count_from(Some("page 1 of 12")), 12);
    assert_eq!(page_count_from(Some("page 1 of many")), 1);
    assert_eq!(page_count_from(None), 1);
    assert_eq!(scraper().page_count(THREAD_LIST_PAGE), 3);
    assert_eq!(scraper().page_count(FORUM_PAGE), 1);
}

#[test]
fn page_addresses() {
    assert_eq!(page_url("scp-wiki", "forum:start"), "http://scp-wiki.wikidot.com/forum:start");
    assert_eq!(
        numbered_page_urls("http://s.wikidot.com/forum/c-1", 3),
        vec![
            "http://s.wikidot.com/forum/c-1/p/1".to_string(),
            "http://s.wikidot.com/forum/c-1/p/2".to_string(),
            "http://s.wikidot.com/forum/c-1/p/3".to_string(),
        ]
    );
    assert!(numbered_page_urls("x", 0).is_empty());
    assert!(numbered_page_urls("x", -4).is_empty());
}

#[test]
fn categories_of_a_forum_page() {
    let cats = scraper().categories_of_forum(FORUM_PAGE, "scp-wiki").unwrap();
    assert_eq!(cats.len(), 3);
    assert_eq!(cats[0].0.id, 12345);
    assert_eq!(cats[0].0.name.as_deref(), Some("General Discussion"));
    assert_eq!(cats[0].0.site_url, "scp-wiki");
    assert_eq!(cats[0].1, "forum/c-12345");
    assert_eq!(cats[1].0.id, 678);
    assert_eq!(cats[2].0.id, 9);
    assert_eq!(cats[2].1, "forum/c-9");
}

#[test]
fn category_row_errors() {
    let s = scraper();
    let row = |href: Option<&str>| CategoryRow {
        href: href.map(String::from),
        title_html: None,
        row_html: "<td>row</td>".to_string(),
    };
    match s.category_from_row(&row(None), "x") {
        Err(ApiError::ParsingError { details, at }) => {
            assert_eq!(details, "Category: can't find link");
            assert_eq!(at, "<td>row</td>");
        },
        _ => panic!("expected a parsing error"),
    }
    match s.category_from_row(&row(Some("forum/c-1/x")), "x") {
        Err(ApiError::ParsingError { details, .. }) => assert_eq!(details, "Category: url not prefixed by '/'"),
        _ => panic!("expected a parsing error"),
    }
    match s.category_from_row(&row(Some("/forum")), "x") {
        Err(ApiError::ParsingError { details, .. }) => assert_eq!(details, "Category: url does not contain '/'"),
        _ => panic!("expected a parsing error"),
    }
    match s.category_from_row(&row(Some("/forum/general/x")), "x") {
        Err(ApiError::ParsingError { details, at }) => {
            assert_eq!(details, "Category: could not find id");
            assert_eq!(at, "forum/general");
        },
        _ => panic!("expected a parsing error"),
    }
    match s.category_from_row(&row(Some("/forum/c-99999999999/x")), "x") {
        Err(ApiError::ParsingError { details, at }) => {
            assert_eq!(details, "Category: could not parse id");
            assert_eq!(at, "99999999999");
        },
        _ => panic!("expected a parsing error"),
    }
}

#[test]
fn threads_of_a_category_page() {
    let pages = vec![THREAD_LIST_PAGE.to_string()];
    let threads = scraper().threads_of_pages(&pages, 12345).unwrap();
    assert_eq!(threads.len(), 2);
    let (t, url) = &threads[0];
    assert_eq!(t.id, 999);
    assert_eq!(url, "forum/t-999");
    assert_eq!(t.title.as_deref(), Some("Hello World"));
    assert_eq!(t.description.as_deref(), Some("A thread"));
    assert_eq!(t.author_username.as_deref(), Some("Alice"));
    assert_eq!(t.creation_date, Some(Timestamp { year: 2020, month: 3, day: 12, hour: 14, minute: 5, second: 0 }));
    assert_eq!(t.category_id, 12345);
    assert_eq!(threads[1].0.id, 1000);
    assert_eq!(threads[1].0.author_username, None);
    assert_eq!(threads[1].0.creation_date, None);
    assert_eq!(threads[1].0.description, None);
}

#[test]
fn thread_row_errors() {
    let s = scraper();
    let row = ThreadRow {
        href: Some("/forum/x-3/y".to_string()),
        row_html: "r".to_string(),
        title_html: None,
        description_html: None,
        date_html: Some("not a date".to_string()),
        author_html: None,
    };
    match s.thread_from_row(&row, 1) {
        Err(ApiError::ParsingError { details, at }) => {
            assert_eq!(details, "Thread: could not find id");
            assert_eq!(at, "forum/x-3");
        },
        _ => panic!("expected a parsing error"),
    }
    let ok = ThreadRow { href: Some("/forum/t-3/y".to_string()), ..row };
    let (t, _) = s.thread_from_row(&ok, 1).unwrap();
    assert_eq!(t.id, 3);
    assert_eq!(t.creation_date, None);
}

#[test]
fn messages_of_a_thread_page() {
    let pages = vec![THREAD_PAGE.to_string()];
    let ms = scraper().messages_of_thread(&pages, 999).unwrap();
    // Every post container is read, the nested one too, so message 101 is read twice.
    assert_eq!(ms.len(), 3);
    assert_eq!(ms[0].id, 100);
    assert_eq!(ms[0].answers_to, None);
    assert_eq!(ms[0].title.as_deref(), Some("Hi"));
    assert_eq!(ms[0].content.as_deref(), Some("<p>Hello</p>"));
    assert_eq!(ms[0].author_username.as_deref(), Some("Bob"));
    assert_eq!(ms[0].publication_date, Some(Timestamp { year: 2021, month: 1, day: 1, hour: 10, minute: 0, second: 0 }));
    assert_eq!(ms[1].id, 101);
    assert_eq!(ms[1].answers_to, Some(100));
    assert_eq!(ms[1].author_username.as_deref(), Some("Carol"));
    assert_eq!(ms[1].publication_date, None);
    assert_eq!(ms[2].id, 101);
    assert_eq!(ms[2].answers_to, None);
    assert!(ms.iter().all(|m| m.thread_id == 999));
}

fn parts(id: Option<&str>) -> MessageParts {
    MessageParts {
        id_attr: id.map(String::from),
        html: "<b>m</b>".to_string(),
        title_html: Some(" T ".to_string()),
        date_html: None,
        author_html: None,
        content_html: None,
    }
}

#[test]
fn message_tree_reading() {
    let tree = PostTree {
        head: PostHead::Post(parts(Some("post-1"))),
        replies: vec![
            PostTree { head: PostHead::Post(parts(Some("post-2"))), replies: vec![] },
            PostTree {
                head: PostHead::Post(parts(Some("post-3"))),
                replies: vec![PostTree { head: PostHead::Post(parts(Some("post-4"))), replies: vec![] }],
            },
        ],
    };
    let ms = messages_of_post(&tree, 5, Some(77)).unwrap();
    let ids: Vec<(i32, Option<i32>)> = ms.iter().map(|m| (m.id, m.answers_to)).collect();
    assert_eq!(ids, vec![(1, Some(77)), (2, Some(1)), (3, Some(1)), (4, Some(3))]);
    assert_eq!(ms[0].title.as_deref(), Some("T"));
}

#[test]
fn message_tree_errors() {
    let empty = PostTree { head: PostHead::Empty("<i></i>".to_string()), replies: vec![] };
    match messages_of_post(&empty, 1, None) {
        Err(ApiError::ParsingError { details, at }) => {
            assert_eq!(details, "Message: empty post-container");
            assert_eq!(at, "<i></i>");
        },
        _ => panic!("expected a parsing error"),
    }
    let no_id = PostTree { head: PostHead::Post(parts(Some("post"))), replies: vec![] };
    match messages_of_post(&no_id, 1, None) {
        Err(ApiError::ParsingError { details, at }) => {
            assert_eq!(details, "Message: could not find id");
            assert_eq!(at, "<b>m</b>");
        },
        _ => panic!("expected a parsing error"),
    }
    let bad_reply = PostTree {
        head: PostHead::Post(parts(Some("post-1"))),
        replies: vec![PostTree { head: PostHead::Post(parts(Some("post-x"))), replies: vec![] }],
    };
    match messages_of_post(&bad_reply, 1, None) {
        Err(ApiError::ParsingError { details, at }) => {
            assert_eq!(details, "Message: could not parse id");
            assert_eq!(at, "x");
        },
        _ => panic!("expected a parsing error"),
    }
}

#[test]
fn authors_are_recorded_once() {
    let mut authors: Vec<Author> = Vec::new();
    add_author(&mut authors, "alice");
    add_author(&mut authors, "bob");
    add_author(&mut authors, "alice");
    let names: Vec<&str> = authors.iter().map(|a| a.username.as_str()).collect();
    assert_eq!(names, vec!["alice", "bob"]);
}

#[test]
fn authors_of_threads_and_messages() {
    let pages = vec![THREAD_LIST_PAGE.to_string()];
    let s = scraper();
    let threads = s.threads_of_pages(&pages, 1).unwrap();
    let mut authors = vec![Author { username: "Alice".to_string() }];
    add_thread_authors(&mut authors, &threads);
    assert_eq!(authors.len(), 1);
    let ms = s.messages_of_thread(&vec![THREAD_PAGE.to_string()], 2).unwrap();
    add_message_authors(&mut authors, &ms);
    let names: Vec<&str> = authors.iter().map(|a| a.username.as_str()).collect();
    assert_eq!(names, vec!["Alice", "Bob", "Carol"]);
}

#[test]
fn joining_texts() {
    assert_eq!(join_texts(&vec!["a".to_string(), "b".to_string(), "c".to_string()], "\n"), "a\nb\nc");
    assert_eq!(join_texts(&vec![], "\n"), "");
    assert_eq!(join_texts(&vec!["x".to_string()], ", "), "x");
}

#[test]
fn thread_posts_html_of_pages() {
    let s = scraper();
    let html = s.thread_posts_html(&vec!["<div id=\"thread-container-posts\">A</div>".to_string(), "<p>none</p>".to_string()]);
    assert_eq!(html, "A\n");
}

#[test]
fn category_and_thread_rows_read_from_their_elements() {
    let s = scraper();
    let forum = Document::parse(FORUM_PAGE);
    let rows_sel = CssSelector::new(".forum-group tr").expect("valid selector");
    let rows = forum.select(&rows_sel);
    assert_eq!(rows.len(), 5);
    let (c, path) = s.parse_category(&rows[2], "scp-wiki").unwrap();
    assert_eq!(c.id, 678);
    assert_eq!(c.name.as_deref(), Some("Help"));
    assert_eq!(path, "forum/c-678");
    match s.parse_category(&rows[0], "scp-wiki") {
        Err(ApiError::ParsingError { details, .. }) => assert_eq!(details, "Category: can't find link"),
        _ => panic!("expected a parsing error"),
    }
    let list = Document::parse(THREAD_LIST_PAGE);
    let thread_rows = list.select(&CssSelector::new(".table tr").expect("valid selector"));
    let (t, path) = s.parse_thread(&thread_rows[1], 7).unwrap();
    assert_eq!(t.id, 999);
    assert_eq!(t.title.as_deref(), Some("Hello World"));
    assert_eq!(t.author_username.as_deref(), Some("Alice"));
    assert_eq!(t.category_id, 7);
    assert_eq!(path, "forum/t-999");
}

#[test]
fn first_unreadable_category_row_stops_the_forum() {
    let page = r#"<div class="forum-group"><table>
        <tr><th>h</th></tr>
        <tr><td class="name"><div class="title"><a href="/forum/c-1/a">A</a></div></td></tr>
        <tr><td class="name"><div class="title"><a href="forum/c-2/b">B</a></div></td></tr>
        <tr><td class="name"><div class="title"><a href="/forum">C</a></div></td></tr>
    </table></div>"#;
    match scraper().categories_of_forum(page, "x") {
        Err(ApiError::ParsingError { details, .. }) => assert_eq!(details, "Category: url not prefixed by '/'"),
        _ => panic!("expected a parsing error"),
    }
}

#[test]
fn thread_messages_follow_their_containers() {
    let s = scraper();
    let doc = Document::parse(THREAD_PAGE);
    let containers = doc.select(&CssSelector::new(".post-container").expect("valid selector"));
    assert_eq!(containers.len(), 2);
    let ms = s.parse_message(&containers[0], 5, None).unwrap();
    assert_eq!(ms.len(), 2);
    assert_eq!(ms[0].id, 100);
    assert_eq!(ms[1].id, 101);
    assert_eq!(ms[1].answers_to, Some(100));
    let html = s.thread_posts_html(&vec![THREAD_PAGE.to_string(), THREAD_PAGE.to_string()]);
    assert_eq!(html.matches("fpc-1").count(), 2);
}

#[test]
fn new_authors_come_in_order_of_first_appearance() {
    let mut ms = scraper().messages_of_thread(&vec![THREAD_PAGE.to_string()], 2).unwrap();
    ms.reverse();
    let mut doubled = ms.clone();
    doubled.extend(ms.clone());
    let mut authors = vec![Author { username: "Dave".to_string() }];
    add_message_authors(&mut authors, &doubled);
    let names: Vec<&str> = authors.iter().map(|a| a.username.as_str()).collect();
    assert_eq!(names, vec!["Dave", "Carol", "Bob"]);
}
