//! A job watcher: it reads job postings out of rendered search pages and alert
//! mails, compares them with the stored postings, and reports what changed.

pub mod text;
pub mod scan;
pub mod number;
pub mod html;
pub mod job;
pub mod change;
pub mod clock;
pub mod json;
pub mod encoding;
pub mod source;
pub mod store;
pub mod summary;
pub mod report;
pub mod smtp;
pub mod mail;
pub mod line;
pub mod listing;
pub mod batch;
pub mod sync;
pub mod search;
pub mod service;
