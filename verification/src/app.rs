//! The app: routes inbound requests, sends outbound ones.
pub mod answer;
pub mod api;
pub mod bodies;
pub mod calls;
pub mod client;
pub mod complete;
pub mod dealings;
pub mod dedup;
pub mod echo;
pub mod ending;
pub mod error;
pub mod exchanges;
pub mod forms;
pub mod identity;
pub mod inbound;
pub mod inbox;
pub mod notify;
pub mod observers;
pub mod outbound;
pub mod owned;
pub mod path;
pub mod poll;
pub mod queries;
pub mod reactor;
pub mod released;
pub mod replies;
pub mod reply;
pub mod request;
pub mod resource;
pub mod respond;
pub mod response;
pub mod rounds;
pub mod routing;
pub mod send;
pub mod sequence;
pub mod serve;
pub mod site;
pub mod texts;
pub mod transfers;
pub mod turn;
pub mod unsent;
pub mod upload;
pub mod uploads;
pub mod wish;

pub use api::{App, AppBuilder};
pub use calls::{
    Call, CallFailure, OBSERVE_REQUEST_BYTES, RESPONSE_OPTION_BYTES, RESPONSE_OPTION_COUNT,
};
pub use client::Outgoing;
pub use echo::{EchoCheck, EchoDecision, EchoPolicy};
pub use error::Error;
pub use identity::{IdentityError, RandomSource};
pub use path::{split_path, IntoPath, PathError, MAX_PATH_SEGMENTS};
pub use request::Request;
pub use resource::Resource;
pub use response::{
    IntoResponse, Response, ResponseError, INLINE_PAYLOAD, LOCATION_MAX, RESPONSE_BODY,
};
pub use routing::{
    delete, fetch, get, ipatch, patch, post, put, Handler, Method, MethodRouter, ObserveSource,
};
pub use site::{
    link_format_capacity, LinkFormatScratch, Site, DEFAULT_ROUTES, LINK_FORMAT_PER_ROUTE,
};
pub mod laws;
