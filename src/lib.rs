//! Framing codecs for the control and game-network packet protocols, together
//! with the small pieces of account and token logic that surround them.

pub mod packet;
pub mod text;
pub mod time;
pub mod token;
pub mod account;
pub mod srtools;
pub mod hotfix;
