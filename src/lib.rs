//! Exact integers written in classical Chinese numerals.

pub mod decimal;
pub mod error;
pub mod numeral;
pub mod wenyan_int;

pub use error::{ParseWenyanIntError, WenyanIntErrorKind};
pub use wenyan_int::WenyanInt;
