//! Recommendation: candidate selection, view intake and training steps.
pub mod conf;
pub mod request;
pub mod train;
pub mod view;

pub use self::conf::{MetaFeature, PartConfig};
pub use self::request::Request;
