//! oLLM: the policy of a disk-cache proxy in front of llama.cpp's llama-server.
//!
//! llama.cpp persists KV state to disk only when an operator asks for it. This
//! crate is the policy that asks: it restores a session's blob into a slot before
//! a turn is forwarded, and publishes the slot's state when the turn is over.
//! Everything here decides on plain values; whoever embeds the crate performs the
//! requests and the file operations that it names, and tells it what came of
//! them.
//!
//! Four rules hold throughout:
//!
//! 1. a lookup never runs while a blob is being published ([`lock`]);
//! 2. a blob becomes visible complete or not at all ([`publish`]);
//! 3. a slot whose state is unpublished is neither restored over nor taken by
//!    anyone else, whatever turns run side by side ([`registry`], [`admission`],
//!    [`policy`]);
//! 4. a blob saved under one backend is restored into another only if the two
//!    agree on all that decides whether it fits, as long as no two of their
//!    shortened digests collide ([`keys`]).

pub mod admission;
pub mod assoc;
pub mod backend;
pub mod config;
pub mod digest;
pub mod evict;
pub mod header;
pub mod json;
pub mod keys;
pub mod lock;
pub mod policy;
pub mod publish;
pub mod registry;
pub mod seed;
pub mod text;
pub mod turn;

pub use config::Config;
pub use keys::sanitize;
pub use keys::session_key;
pub use turn::Bytes;
