//! Tarot card draws paired with affinity scores read from a hot-reloaded text file.
pub mod deck;
pub mod format;
pub mod table;
pub mod watch;
pub mod tarot;

pub use tarot::{Tarot, TarotError};
