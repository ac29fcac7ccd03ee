//! The request and response models.

pub mod request;
pub mod response;
pub mod strmap;
