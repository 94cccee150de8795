//! An email transport: sender policy, reply-thread metadata codec, reply
//! composition and the decisions of the inbound polling loop.
pub mod address;
pub mod channel;
pub mod inbound;
pub mod markdown;
pub mod reply;
pub mod thread_meta;
