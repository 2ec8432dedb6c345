pub mod config;
pub mod coordinator;
pub mod generators;
pub mod jwt;
pub mod keyspace;
pub mod search;

pub use generators::base::AlphabetGenerator as AlphabetBaseGenerator;
