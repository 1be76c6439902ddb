//! A small markup parser that builds a simplified document tree, with
//! structural queries over that tree.

pub mod chars;
pub mod dom;
pub mod syntax;
pub mod parser;
pub mod render;
