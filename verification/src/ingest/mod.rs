pub mod inbox;
pub mod token;
pub mod server;
