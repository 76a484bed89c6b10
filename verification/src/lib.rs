//! A small web framework: an HTTP path router, HTTP request and response
//! values, and an HTML renderer with css-in-rust class deduplication.
pub mod route_core;
pub mod route_http;
pub mod route_router;
pub mod route_server;
pub mod text;
pub mod route_html;
