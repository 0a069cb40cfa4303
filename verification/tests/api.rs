use wikidot_fi::api::{is_duplicate_key, page_offset, url_prefix, FullMessage, FullThread, Order, WriteToken};
use wikidot_fi::db_structs::{Message, Thread, Timestamp};
use wikidot_fi::errors::ApiError;

#[test]
fn order_labels() {
    assert_eq!(Order::default(), Order::Date);
    assert_eq!(Order::ID.to_text(), "ID");
    assert_eq!(Order::Alpha.to_text(), "Alpha");
    assert_eq!(Order::Date.to_text(), "Date");
}

#[test]
fn write_token_into_u64() {
    assert_eq!(u64::from(WriteToken { token: 77 }), 77);
    assert_eq!(u64::from(WriteToken::default()), 0);
}

#[test]
fn page_offsets() {
    assert_eq!(page_offset(None), 0);
    assert_eq!(page_offset(Some(0)), 0);
    assert_eq!(page_offset(Some(3)), 75);
    assert_eq!(page_offset(Some(-1)), -25);
}

#[test]
fn site_prefix_of_url() {
    assert_eq!(url_prefix("scp-wiki.wikidot.com"), "scp-wiki");
    assert_eq!(url_prefix("fondationscp"), "fondationscp");
}

#[test]
fn duplicate_key_code() {
    assert!(is_duplicate_key(Some("23000")));
    assert!(!is_duplicate_key(Some("42000")));
    assert!(!is_duplicate_key(None));
}

#[test]
fn error_status_codes() {
    assert_eq!(ApiError::NotFound.status_code(), 404);
    assert_eq!(ApiError::AccessForbidden.status_code(), 401);
    assert_eq!(ApiError::Duplicate.status_code(), 409);
    assert_eq!(ApiError::ParsingError { details: "x", at: String::new() }.status_code(), 500);
}

#[test]
fn error_texts() {
    assert_eq!(ApiError::NotFound.describe(), "Not found");
    assert_eq!(ApiError::AccessForbidden.describe(), "Access forbiden");
    assert_eq!(ApiError::Duplicate.describe(), "Duplicate key");
    assert_eq!(
        ApiError::ParsingError { details: "Thread: could not find id", at: "forum/x".to_string() }.describe(),
        "Error while parsing during scraping:\nThread: could not find id\nAt: forum/x"
    );
    let e = ApiError::Sqlx(sqlx::Error::RowNotFound);
    assert_eq!(e.describe(), format!("Database error: {:?}", sqlx::Error::RowNotFound));
    assert_eq!(e.status_code(), 500);
}

#[test]
fn full_message_and_thread() {
    let date = Timestamp { year: 2021, month: 1, day: 2, hour: 3, minute: 4, second: 0 };
    let m = Message {
        id: 7,
        title: Some("t".to_string()),
        content: None,
        author_username: Some("a".to_string()),
        publication_date: Some(date),
        thread_id: 3,
        answers_to: None,
    };
    let full = FullMessage::build(m, vec![]);
    assert_eq!(full.id, 7);
    assert_eq!(full.title.as_deref(), Some("t"));
    assert_eq!(full.publication_date, Some(date));
    assert_eq!(full.thread_id, 3);
    assert!(full.answers.is_empty());
    let t = Thread {
        id: 3,
        title: None,
        description: Some("d".to_string()),
        creation_date: None,
        author_username: None,
        category_id: 9,
    };
    let ft = FullThread::build(t, vec![full]);
    assert_eq!(ft.id, 3);
    assert_eq!(ft.description.as_deref(), Some("d"));
    assert_eq!(ft.messages.len(), 1);
}
