//! A small web-document rendering engine: style resolution, box-tree layout,
//! painting into a display list, and the page session that drives them.

pub mod css;
pub mod css_parse;
pub mod display_item;
pub mod dom;
pub mod error;
pub mod html;
pub mod http;
pub mod layout;
pub mod lines;
pub mod page;
pub mod style;
pub mod text;
pub mod url;
