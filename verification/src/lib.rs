//! A small markdown to HTML compiler: front matter, block and inline parsing,
//! HTML rendering and template substitution.

pub mod text;
pub mod html;
pub mod inline;
pub mod block;
pub mod body;
pub mod date;
pub mod slug;
pub mod names;
pub mod post;
pub mod order;
pub mod site;
