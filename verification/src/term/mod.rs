pub mod input;
pub mod kitty;
pub mod probe;
pub mod session;
