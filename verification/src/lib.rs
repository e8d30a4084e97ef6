//! Pure logic of a compact-disc player: disc identification, table-of-contents
//! arithmetic, metadata selection and the local disc collection.
use vstd::prelude::*;

pub mod base64;
pub mod commands;
pub mod cover;
pub mod discid;
pub mod json;
pub mod library;
pub mod lrclib;
pub mod mb;
pub mod netease;
pub mod player;
pub mod text;
pub mod toc;
pub mod url;

verus! {

/// User agent sent to the web services.
pub const USER_AGENT: &'static str = "SoundDisc/0.1 (local self-use; contact: local user)";

} // verus!
