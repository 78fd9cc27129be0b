//! Signaling for y-webrtc: peers subscribe to topics, and what one publishes on a topic is
//! forwarded to the subscribers of it.
//!
//! - [`message`]: frames and the signals in them
//! - [`topics`]: who is subscribed to what
//! - [`publication`]: the delivery of one message
//! - [`service`]: subscribing, publishing, closing
//! - [`state`]: what is kept of a connection, and the reaction to a frame
//! - [`conn`]: the life of a connection
//! - [`meaning`]: what each message and each event means
//! - [`laws`]: what holds of all this together, over any history
//!
//! Nothing here waits, sends or locks. Whoever does tells these functions what has happened
//! and is told what to do next.

pub mod conn;
pub mod laws;
pub mod meaning;
pub mod message;
pub mod publication;
pub mod service;
pub mod state;
pub mod topics;
