//! Core of a notes-and-todos manager: an in-memory document of notes and
//! todos with normalized tags, a once-per-day reset rule for daily todos,
//! and a JSON codec for whole-document persistence. All logic is verified;
//! the thin shell around it (file reads and writes, locking) lives outside
//! this crate and exchanges plain values with it.

pub mod data;
pub mod tags;
pub mod reset;
pub mod store;
pub mod codec;
