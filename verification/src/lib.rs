//! A payment-channel settlement engine.
//!
//! A sender escrows funds once and then authorizes many small transfers to
//! one or more recipients through sequence-numbered cheques that are redeemed
//! only when a recipient cashes them or the channel is closed.  The engine
//! covers the channel lifecycle: opening and topping up channels, admitting
//! claims through monotonically increasing sequence numbers, computing exact
//! remaining balances, and the dispute-window based closing protocol.
//!
//! All state lives in plain values handed in by the caller: the host that
//! provides durable storage, message transport, commitment verification and
//! the current time drives these functions and persists what they return.

pub mod error;
pub mod handler;
pub mod laws;
pub mod model;
pub mod msg;
pub mod state;
