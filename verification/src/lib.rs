//! Convert GitHub Copilot chat exports to Markdown.
//!
//! The library decodes the JSON export format into typed values
//! ([`parser`]) and renders those values as Markdown ([`renderer`]).
//! Both directions carry full functional contracts: decoding is specified
//! against a generic JSON value tree, and rendering is specified as a pure
//! function from the decoded conversation and the options to the exact
//! output text.

pub mod json;
pub mod parser;
pub mod renderer;
pub mod text;
