//! Online translation of a text through a web provider, and the reader view
//! that shows the translated paragraphs page by page.

pub mod geom;
pub mod json;
pub mod text;
pub mod translator;
pub mod view;
