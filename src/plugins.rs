//! The logic of the bundled plugins: what each one registers, and what it
//! answers to the events it is handed.
pub mod crate_info;
pub mod playground;
pub mod gist;
pub mod help;
pub mod genword;
pub mod egg;
