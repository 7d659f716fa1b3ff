//! The chat commands.
pub mod quotes;

pub use quotes::Quotes;
pub mod tree;

pub use tree::CommandM;
pub mod botsnack;
pub mod join;

pub use botsnack::Snack;
pub use join::Join;
