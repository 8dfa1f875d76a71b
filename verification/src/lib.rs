//! A small event-driven HTTP/1.x server engine: an incremental request
//! parser, a response writer, and the rules that tie connections to
//! workers and requests to handlers.
//!
//! The library holds every decision and no socket. A transport accepts
//! clients, waits for readiness and moves bytes; it asks the library what
//! to do with each event and each chunk of bytes.

pub mod app_server;
pub mod event_loop;
pub mod fields;
pub mod handler_lib;
pub mod handlers;
pub mod http;
pub mod http_file;
pub mod pattern;
pub mod server;
pub mod text;

pub use handler_lib::Handler;
pub use server::WebServer;
