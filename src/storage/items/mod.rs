//! Items and the decaying ranked lists kept about them.
pub mod list;
pub mod scope;

pub use self::list::ItemList;
pub use self::scope::TimeScope;
