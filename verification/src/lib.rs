//! The logic of a web-endpoint discovery tool.
//!
//! Given a base URL and a word list, the tool requests one target for each
//! word, keeps the responses whose status is of interest, and may first walk
//! the site to discover more targets. This crate holds what is decided and
//! computed on the way; sending requests, reading files and printing are the
//! caller's part.
//!
//! - [`config`]: options, their defaults, and the matcher list.
//! - [`targets`]: the words of a run, their mutations, and the target list.
//! - [`request`]: the headers of a request, in sending order.
//! - [`classify`]: reflection, error signatures, and which outcomes are kept.
//! - [`dispatch`]: the admission gate that bounds the requests in flight, and
//!   the result store.
//! - [`crawler`]: the breadth-first, same-domain crawl under its two budgets.
//! - [`report`]: the summary and the table of a result list.
//! - [`pattern`], [`text`]: regular-expression searches and string
//!   primitives that the others build on.

pub mod classify;
pub mod config;
pub mod crawler;
pub mod dispatch;
pub mod pattern;
pub mod report;
pub mod request;
pub mod targets;
pub mod text;

pub use crate::classify::{has_error_signature, is_reflected, FuzzResult};
pub use crate::config::split_kv;
pub use crate::crawler::crawl;
pub use crate::dispatch::Dispatcher;
pub use crate::report::truncate;
pub use crate::targets::{mutate_wordlist, parse_openapi};
