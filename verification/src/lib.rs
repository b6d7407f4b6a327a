//! Reading-time estimation for web pages, together with URL-candidate
//! selection from free-form messages.
//!
//! The crate has two independent parts:
//!
//! - a reading-time estimator: given raw HTML and a words-per-minute rate,
//!   it extracts the readable text of the document and converts the word
//!   count into a ceiling-rounded minute count;
//! - a URL selector: given a message made of rich-text link annotations and
//!   up to two free-text fields, it picks the single most relevant URL
//!   candidate following a fixed source-priority order.
//!
//! Two extraction strategies are offered: a tolerant full-document walk that
//! never fails ([`dom`]), and a readability-style article extraction that can
//! fail with a typed error ([`article`], the shipped default).

pub mod article;
pub mod dom;
pub mod select;
pub mod text;
pub mod urlfind;
