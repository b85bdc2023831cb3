//! Configuration of a directory watcher that reports new, settled files to a webhook.

pub mod args;
pub mod duration;
pub mod header;
pub mod json;
pub mod text;
