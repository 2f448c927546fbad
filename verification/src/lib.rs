pub mod auth;
pub mod cli_client;
pub mod codec;
pub mod decimal;
pub mod metadata;
pub mod protocol;
pub mod retention;
pub mod sweeper;
pub mod tables;
