//! The logic of the built-in commands. Reading and writing files, the
//! environment and the terminal is left to the caller; what a built-in
//! decides from its arguments is here.
pub mod alias;
pub mod bind;
pub mod cd;
pub mod echo;
pub mod export;
pub mod find;
pub mod grep;
pub mod help;
pub mod history;
pub mod ls;
pub mod sleep;
