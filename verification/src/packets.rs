pub mod handshake;
pub mod login;
pub mod play;
