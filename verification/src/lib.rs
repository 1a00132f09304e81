pub mod ansi;
pub mod cli;
pub mod configs;
pub mod error;
pub mod keymap;
pub mod marks;
pub mod picker;
pub mod repos;
pub mod session;
pub mod strmap;
pub mod strutil;
pub mod tmux;

pub use error::Suggestion;
pub use error::TmsError;
