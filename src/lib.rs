//! Synchronisation core of a peer-to-peer card game: the card codec, the
//! shared deck, the turn order, the binary event protocol and the
//! deterministic engine that every peer runs on the same event stream.

pub mod card;
pub mod deck;
pub mod engine;
pub mod info;
pub mod protocol;
mod rng;
pub mod storage;
