//! What speaks to the terminal.
pub mod graphics;
pub mod response;
