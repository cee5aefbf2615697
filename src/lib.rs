//! A line-oriented Markdown subset rendered to HTML, with its classification
//! rules and its renderer proved against mathematical models.

pub mod chars;
pub mod markdown_parser;
pub mod node;
pub mod square_thing;
