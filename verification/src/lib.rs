//! A streaming artifact-verification library: a recipe catalog resolves a
//! version to an artifact descriptor, and a multi-algorithm hasher checks the
//! fetched bytes against the descriptor's expected digests in a single pass.

pub mod error;
pub mod hash;
pub mod hex;
pub mod recipe;
pub mod source;
pub mod util;

pub use error::Error;
pub use hash::Verifier;
pub use recipe::{Ingredients, RecipeVersion};
pub use source::Source;
