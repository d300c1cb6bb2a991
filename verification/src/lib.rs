pub mod block;
pub mod blockchain;
pub mod config;
pub mod hash;
pub mod mempool;
pub mod merkle;
pub mod miner;
pub mod transaction;
