//! A verified core of a STOMP 1.2 client: header model and escaping, frame
//! and transmission types, an incremental wire codec, heartbeat negotiation,
//! and the session state machine that tracks subscriptions, receipts and
//! transactions. Network I/O and timers live outside this crate; the session
//! engine is driven with plain values.

pub mod byte_buffer;
pub mod codec;
pub mod connection;
pub mod decimal;
pub mod frame;
pub mod frame_buffer;
pub mod header;
pub mod message_builder;
pub mod option_setter;
pub mod session;
pub mod session_builder;
pub mod string_map;
pub mod string_pool;
pub mod subscription;
pub mod subscription_builder;
pub mod transaction;
