//! What the library promises as a whole, beyond what each function states.
pub mod index;
pub mod install;
pub mod intake;
pub mod numbers;
pub mod patterns;
pub mod router;
pub mod session;
pub mod status;
pub mod symbols;
pub mod tasks;
pub mod text;
pub mod tools;
