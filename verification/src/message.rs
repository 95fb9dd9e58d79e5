//! CoAP messages: types, options, and the datagram codec.
pub mod cbor;
pub mod code;
pub mod echo;
pub mod fields;
pub mod laws;
pub mod missing;
pub mod params;
pub mod option;
pub mod problem;
pub mod value;
pub mod wire;

pub use code::{Code, MessageId, Token, Type};
pub use params::{ObserveTransmission, OptionNumber, QBlockTransmission, Transmission};
pub use value::{encode_uint, BlockValue, ContentFormat, EncodedUint};
pub use option::{Opt, OptionsBuilder};
pub use wire::{decode, encode, Message, ParsedMessage};
pub use missing::MissingBlocks;
pub use problem::ProblemDetails;
pub use cbor::CborError;
pub use echo::Echo;
pub use fields::{NoResponse, Precondition};
