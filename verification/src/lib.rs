//! Minifier for markup-language text (HTML/XML).
//!
//! The library removes redundant whitespace from markup text: every
//! whitespace character that does not sit at a word boundary is elided.
//! A position after a whitespace character is a word boundary exactly
//! when the following character is a word character (ASCII letter,
//! digit or underscore), so whitespace that runs up against tag
//! delimiters, punctuation, further whitespace or the end of the text
//! disappears, while a single space between words survives.
//!
//! `model` states the transformation over `Seq<char>` and proves its
//! laws; `minify_markup_language::minify` is the executable scanner,
//! proved to compute exactly the modelled transformation.

pub mod charclass;
pub mod minify_markup_language;
pub mod model;
