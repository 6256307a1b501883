//! Gun: a graph database that keeps replicas in step by the state of each property.
pub mod strmap;
pub mod json;
pub mod valid;
pub mod clock;
pub mod state;
pub mod error;
pub mod graph;
pub mod dup;
pub mod events;
pub mod text;
pub mod crypto;
pub mod sea;
pub mod gun_core;
pub mod chain;
pub mod parse;
pub mod put;
pub mod read;
pub mod laws;
pub mod webrtc;
pub mod gun;
pub mod dam;
pub mod wire;

pub use chain::Chain;
pub use error::GunError;
pub use gun::GunOptions;
pub use valid::{valid, is_valid_data, valid_soul};
pub use webrtc::WebRTCOptions;
