//! Gazetta: the model, planning and text-generation core of a static site generator.

pub mod text;
pub mod url;
pub mod datetime;
pub mod index;
pub mod collate;
pub mod glob_match;
pub mod error;
pub mod yaml;
pub mod entry;
pub mod order;
pub mod source;
pub mod meta;
pub mod link;
pub mod person;
pub mod page_meta;
pub mod path;
pub mod util;
pub mod view;
pub mod render;
pub mod markdown;
pub mod content;
pub mod css;
pub mod cli;
pub mod md_html;
pub mod md_parse;
pub mod highlight;
