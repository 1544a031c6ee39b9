//! Jarlid: the verified core of an unofficial desktop client for Pandora.

pub mod clock;
pub mod digits;
pub mod engine;
pub mod json;
pub mod lyrics;
pub mod media;
pub mod seconds;
pub mod ssdp;
pub mod text;
pub mod title;
pub mod upnp;
pub mod url;
pub mod watcher;
pub mod xml;
