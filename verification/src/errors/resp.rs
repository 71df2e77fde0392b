//! The codec error kinds, reachable from the error module as well.
pub use crate::resp::errors::DeserializeError;
pub use crate::resp::errors::SerializeError;
