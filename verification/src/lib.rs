//! Obel: the verified core of a local-first music library manager.

pub mod discord;
pub mod library;
pub mod metadata;
pub mod playback;
pub mod schema;
pub mod settings;
pub mod sync;
pub mod sync_plan;
pub mod text;
pub mod youtube;
