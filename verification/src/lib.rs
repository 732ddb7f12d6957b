//! The core of a client for a streamed chat-completion API.
//!
//! The server answers a request with a stream of events, each a line of
//! JSON behind `data: `, ended by the line `data: [DONE]`. The bytes arrive
//! in chunks cut at any place. [`Assembler`] takes the chunks one by one and
//! reports what they amount to as an ordered run of [`Event`]s; `laws`
//! states what holds of that run whatever the stream and however it is cut.

pub mod assembler;
pub mod chat;
pub mod completion;
pub mod error;
pub mod event;
pub mod json;
pub mod laws;
pub mod request;
pub mod sse;
pub mod text;

pub use assembler::Assembler;
pub use completion::{Choice, CompletionFragment, Message};
pub use error::Error;
pub use event::{CallbackReason, Event};
