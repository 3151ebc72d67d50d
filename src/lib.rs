//! A small record store of posts with a secondary index that groups post
//! snapshots by tag.

mod host;
pub mod laws;
pub mod network;
pub mod post;

pub use network::SocialNetworking;
pub use post::{parse_tags, Post};
