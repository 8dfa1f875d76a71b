//! The HTTP side of the server: requests, the incremental request parser,
//! and responses.

pub mod laws;
pub mod parser;
pub mod request;
pub mod response;
pub mod written;

pub use parser::{BuilderView, RequestBuilder, State};
pub use request::{Method, Request, RequestView};
pub use response::{Response, ResponseView, Status, StatusView};
