//! Conversion of the Typst documentation from Markdown to Typst markup.
pub mod convert;
pub mod md;
pub mod outside;
pub mod parse;
pub mod paths;
pub mod passes;
pub mod text;
pub mod visitor;
