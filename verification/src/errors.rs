//! The errors of the API and of the forum scraper.

use vstd::prelude::*;
use crate::text::concatenate;

verus! {

#[verifier::external_type_specification]
#[verifier::external_body]
pub struct ExSqlxError(sqlx::Error);

#[verifier::external_type_specification]
#[verifier::external_body]
pub struct ExReqwestError(reqwest::Error);

/// Errors that can occur during the execution of the API.
#[derive(Debug)]
pub enum ApiError {
    /// Database error.
    Sqlx(sqlx::Error),
    /// Object not found.
    NotFound,
    /// Unauthorized token.
    AccessForbidden,
    /// Key already exists in the database.
    Duplicate,
    /// Error while parsing during scraping a forum.
    ParsingError { details: &'static str, at: String },
    /// Error while downloading during scraping a forum.
    ConnectionError(reqwest::Error),
}

/// The HTTP status that answers a request failing with `e`.
pub open spec fn status_of(e: ApiError) -> u16 {
    match e {
        ApiError::NotFound => 404,
        ApiError::AccessForbidden => 401,
        ApiError::Duplicate => 409,
        _ => 500,
    }
}

/// `sqlx::Error`'s `Debug` text (`format!("{:?}", e)`).
#[verifier::external_body]
fn sqlx_debug_text(e: &sqlx::Error) -> String {
    format!("{:?}", e)
}

/// `reqwest::Error`'s `Debug` text (`format!("{:?}", e)`).
#[verifier::external_body]
fn reqwest_debug_text(e: &reqwest::Error) -> String {
    format!("{:?}", e)
}

impl ApiError {
    /// The HTTP status of the response that reports this error.
    pub fn status_code(&self) -> (s: u16)
        ensures
            s == status_of(*self),
    {
        match self {
            ApiError::NotFound => 404,
            ApiError::AccessForbidden => 401,
            ApiError::Duplicate => 409,
            _ => 500,
        }
    }

    /// The text of the error, as the body of the response that reports it.
    pub fn describe(&self) -> (s: String)
        ensures
            match *self {
                ApiError::Sqlx(_) => exists|d: Seq<char>| s@ == "Database error: "@ + d,
                ApiError::NotFound => s@ == "Not found"@,
                ApiError::AccessForbidden => s@ == "Access forbiden"@,
                ApiError::Duplicate => s@ == "Duplicate key"@,
                ApiError::ParsingError { details, at } => s@
                    == "Error while parsing during scraping:\n"@ + details@ + "\nAt: "@ + at@,
                ApiError::ConnectionError(_) => exists|d: Seq<char>|
                    s@ == "Error while downloading during scraping: "@ + d,
            },
    {
        match self {
            ApiError::Sqlx(e) => {
                let d = sqlx_debug_text(e);
                let r = concatenate("Database error: ", d.as_str());
                assert(r@ == "Database error: "@ + d@);
                r
            },
            ApiError::NotFound => String::from_str("Not found"),
            ApiError::AccessForbidden => String::from_str("Access forbiden"),
            ApiError::Duplicate => String::from_str("Duplicate key"),
            ApiError::ParsingError { details, at } => {
                let a = concatenate("Error while parsing during scraping:\n", details);
                let b = concatenate(a.as_str(), "\nAt: ");
                concatenate(b.as_str(), at.as_str())
            },
            ApiError::ConnectionError(e) => {
                let d = reqwest_debug_text(e);
                let r = concatenate("Error while downloading during scraping: ", d.as_str());
                assert(r@ == "Error while downloading during scraping: "@ + d@);
                r
            },
        }
    }
}

} // verus!
