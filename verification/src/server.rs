//! Routing, and what each route answers.

pub mod handlers;
pub mod router;
