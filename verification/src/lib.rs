//! Chat-room server logic and load-test bookkeeping, verified with Verus.
//!
//! `server::ChatServer` holds the clients, names, rooms and per-room history
//! and turns each received line into the messages to send; `chat` is its
//! mathematical model and `laws` what holds of it across lines and states.
//! `loadtest` holds the load tester's decisions; `text` and `number` the
//! string and decimal utilities both rest on.

pub mod text;
pub mod number;
pub mod json;
pub mod chat;
pub mod server;
pub mod loadtest;
pub mod clock;
pub mod laws;
