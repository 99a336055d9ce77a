//! Live order tracking for a shared pizza order.
//!
//! The heart of the crate is [`registry::Registry`], the in-memory fan-out
//! table that delivers fresh order snapshots to every subscriber of an order
//! and reclaims the channels of subscribers that went away. Around it sit the
//! snapshot types ([`order`]), money handling ([`millicents`]), and the
//! request admission rules ([`handlers`], [`validate`]).

pub mod errors;
pub mod handlers;
pub mod live_streaming_indicator;
pub mod millicents;
pub mod order;
pub mod registry;
pub mod toast;
pub mod validate;

pub use millicents::Millicents;
pub use millicents::MillicentsError;
pub use order::create_example_order;
