pub mod binder;
pub mod enums;
pub mod mapping;
pub mod style;

pub use mapping::{DataSource, Enum, Error, Mapping};
