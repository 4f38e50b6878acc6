//! Foundational value types shared by every layer.
pub mod display_name;
pub mod key;
pub mod quantity;
pub mod revision;
pub mod time;
pub mod uid;
