//! A static site generator's content pipeline: front-matter parsing, the
//! section/page model, relative addressing, validation and the render plan.
pub mod text;
pub mod paths;
pub mod front_matter;
pub mod markdown;
pub mod content;
pub mod validate;
pub mod render;
