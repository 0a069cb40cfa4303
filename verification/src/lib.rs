//! Wikidot forum indexing: the verified core of a service that downloads
//! Wikidot forums into a database and answers queries about them.

pub mod text;
pub mod db_structs;
pub mod errors;
pub mod config;
pub mod api;
pub mod html;
pub mod scraping;
pub mod tools;
