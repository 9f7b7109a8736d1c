//! Localized messages: templates with numbered placeholders, checked so that
//! every message takes exactly its declared arguments, and message trees
//! checked to agree in shape and argument counts across languages.

/// Errors and checks of placeholder indices against an argument count.
pub mod args;
/// Total maps over a closed set of keys.
pub mod enum_map;
/// Key paths joined with dots.
pub mod hierarchy;
/// Messages in every language and the choice of the current language.
pub mod local_fmt;
/// Messages over owned or static segments, of a fixed argument count.
pub mod message;
/// Named references put into parsed templates.
pub mod named;
/// Keys of enum variants, and the example languages and keys.
pub mod names;
/// Numbers written in decimal into byte buffers.
pub mod number;
/// Messages over owned segments.
pub mod owned;
/// Messages over borrowed segments, with numbers.
pub mod refer;
/// The template syntax: parsing and its meaning.
pub mod template;
/// Text helpers.
pub mod text;
/// Templates whose argument count is inferred.
pub mod token;
/// Message trees of several languages, checked against one schema.
pub mod tree;
