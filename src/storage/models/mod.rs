//! Model-side data: feature lists and candidate examples.
pub mod example;
pub mod list;

pub use self::example::{BasicExample, ListPosition};
pub use self::list::FeatureList;
