//! Decoding of HTTP/1.x requests from raw bytes and encoding of responses
//! into wire text, with the grammar of protocol versions, methods and status
//! codes that both sides share.
pub mod grammar;
pub mod request;
pub mod response;
pub mod strmap;
pub mod text;

pub use grammar::{parse_method, parse_protocol, render_protocol, render_status};
pub use grammar::{Error, Method, Protocol, StatusCode};
pub use request::{Request, RequestView};
pub use response::{Response, ResponseView};
pub use strmap::StrMap;
