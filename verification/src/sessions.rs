//! Which projects have sessions, of which tools, how many and how fresh.
pub mod census;
pub mod decode;
pub mod laws;
pub mod read;
pub mod roundtrip;
pub mod stores;

pub use census::{census, mark_orphans, SessionGroup, ToolSessions};
pub use decode::{
    decode_claude_project_dir, decode_encoded_name, encode_project_path, DecodeConfidence,
};
pub use stores::resolve_stores;
