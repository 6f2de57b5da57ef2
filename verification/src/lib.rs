//! The core of a document viewer for terminals that speak the Kitty graphics protocol: what is
//! sent to the terminal, what its responses mean, and what the user's input leads to.
pub mod drivers;
pub mod encoding;
pub mod globals;
pub mod handshake;
pub mod input;
pub mod messages;
pub mod session;
pub mod text;
