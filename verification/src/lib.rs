//! Core logic of a ranked-choice voting service: configuration lookup,
//! password hashing and checking, session expiry and ballot editing.

pub mod env;
pub mod encoding;
pub mod user_data;
pub mod ballot;
pub mod election;
pub mod graphql;
pub mod session;
