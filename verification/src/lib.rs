//! The verified core of a proxy that lets a web view embed third-party pages.
//!
//! A page under `webproxy://host/path` is fetched from `https://host/path`, freed of the policies
//! that forbid framing, and given a script that keeps the embedding window informed. This crate
//! decides and computes. Sockets, windows and files are the business of its caller.

pub mod ascii;
pub mod bridge;
pub mod cache;
pub mod error_page;
pub mod forward;
pub mod guarantees;
pub mod header_rules;
pub mod html;
pub mod message;
pub mod message_laws;
pub mod page_laws;
pub mod policy;
pub mod replies;
pub mod reply_laws;
pub mod script;
pub mod target;
pub mod text;
pub mod uri;

pub use cache::{configure_cache, CacheConfig, CacheMode, CacheState};
pub use forward::{conclude, handle, Action, Outcome, UpstreamRequest};
pub use message::{Header, Request, Response};
pub use target::{extract_target, Target, WEBPROXY_SCHEME};
pub use uri::{allows_navigation, RequestUri};
