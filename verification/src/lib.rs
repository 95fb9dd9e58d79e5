//! CoAP over a caller's datagram transport, in bounded memory.
pub mod app;
pub mod bytes;
pub mod error;
pub mod message;
pub mod storage;

pub use app::{
    delete, fetch, get, ipatch, patch, post, put, App, Call, CallFailure, Error, Method, Outgoing,
    Request, Response, ResponseError,
};
pub use error::BuildError;
pub use message::{Code, ContentFormat, ProblemDetails};
pub use storage::profiles;
pub use storage::{Endpoint, Metrics};
