pub mod cache;
pub mod channel;
pub mod sink;
pub mod config;
pub mod errors;
pub mod group;
pub mod intake;
pub mod node_id;
pub mod pool;
pub mod replica;
pub mod rng;
