//! Verified core of a download-list manager: named target lists with a
//! flat-file record store, a persisted selection cursor, and the staging
//! logic that makes batch retrieval transactional on the local side.

pub mod cli;
pub mod codec;
pub mod config;
pub mod data;
pub mod engine;
pub mod hexnum;
pub mod names;
pub mod persistent_state;
pub mod state;
pub mod store;
pub mod strutil;
pub mod target;
pub mod target_list;
