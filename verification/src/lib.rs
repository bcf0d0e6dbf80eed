//! The interactive core of a modal terminal editor: a text buffer, the cursor
//! and viewport engine on top of it, a command prompt, and the tiled layout
//! and event rules of the host that runs them.

pub mod client;
pub mod module;
pub mod roundtrip;
pub mod text;
pub mod utils;
