//! A page that greets whom a request names and lists the headers that the request came with.
//!
//! `handler` answers a `lambda_http` request with that page. `template` says what the page is,
//! character by character, and renders it; `escape` says how the texts that it shows are
//! escaped. `request` and `response` state what is taken on trust of the crates that hold the
//! request and build the response. `laws` proves what holds of every page.

pub mod escape;
pub mod handler;
pub mod laws;
pub mod request;
pub mod response;
pub mod template;
pub mod text;
