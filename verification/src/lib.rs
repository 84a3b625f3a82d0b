//! A dictionary-lookup bot: word entries from a dictionary service and the
//! decisions of a chat-bot client around them.
pub mod text;
pub mod json;
pub mod dictionary;
pub mod botlib;
pub mod replies;
