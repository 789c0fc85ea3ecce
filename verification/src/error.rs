//! Error codes of the services, under the name they had first.
pub use crate::message::ErrorCode;
