//! A local folder/file index layered over a remote message-oriented blob
//! store: hierarchy, soft-delete trash, starring and usage accounting, plus
//! the arithmetic of chunked uploads.

pub mod commands;
pub mod errors;
mod ids;
pub mod store;
pub mod text;
pub mod transfer;
pub mod trash;
