//! A segmented download manager: the planning, naming, resuming and queueing
//! rules, stated as contracts and proved.

pub mod categorize;
pub mod cli;
pub mod client;
pub mod config;
pub mod desktop;
pub mod digest;
pub mod download;
pub mod error;
pub mod frame;
pub mod framing;
pub mod header_list;
pub mod headers;
pub mod host;
pub mod link;
pub mod lock;
pub mod manager;
pub mod media;
pub mod model;
pub mod naming;
pub mod pipe;
pub mod plan;
pub mod probe;
pub mod progress;
pub mod protocol;
pub mod scratch;
pub mod session;
pub mod state;
pub mod store;
pub mod text;
pub mod wire;
pub mod writer;
