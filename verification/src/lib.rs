pub mod command;
pub mod models;
pub mod render;
pub mod router;
pub mod scan;
pub mod select;
pub mod store;
pub mod text;
pub mod utterance;
