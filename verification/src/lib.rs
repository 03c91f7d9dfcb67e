pub mod text;
pub mod geo;
pub mod location;
pub mod http;
pub mod terminal;
pub mod settings;
pub mod display;
pub mod bookmarks;
pub mod cache;
