use wikidot_fi::db_structs::{Author, Category, Message, Site, Thread};

#[test]
fn sites_are_equal_by_url() {
    let a = Site { url: "scp".to_string(), name: Some("SCP".to_string()) };
    let b = Site { url: "scp".to_string(), name: None };
    let c = Site { url: "fr".to_string(), name: Some("SCP".to_string()) };
    assert!(a == b);
    assert!(a != c);
}

#[test]
fn records_are_equal_by_key() {
    let c1 = Category { id: 1, name: Some("a".to_string()), site_url: "x".to_string() };
    let c2 = Category { id: 1, name: None, site_url: "y".to_string() };
    assert!(c1 == c2);
    assert!(Author { username: "a".to_string() } == Author { username: "a".to_string() });
    assert!(Author { username: "a".to_string() } != Author { username: "b".to_string() });
    let t = |id| Thread { id, title: None, description: None, creation_date: None, author_username: None, category_id: 0 };
    assert!(t(3) == t(3));
    assert!(t(3) != t(4));
    let m = |id, thread_id| Message {
        id,
        title: None,
        content: None,
        author_username: None,
        publication_date: None,
        thread_id,
        answers_to: None,
    };
    assert!(m(1, 2) == m(1, 5));
    assert!(m(1, 2) != m(2, 2));
}
