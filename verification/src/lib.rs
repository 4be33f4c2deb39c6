//! Structural analysis of declaration-level source text.
//!
//! A text goes through four stages, each of which works on what the stage
//! before it made of the text and reports what it could not read:
//!
//! - [`lexer`] splits the text into tokens ([`stream`] does so on demand);
//! - [`parser`] reads the declarations into a tree, following [`grammar`];
//! - [`resolver`] registers the names and resolves what implementations
//!   refer to, as [`resolution`] says;
//! - [`graph`] builds the graph of symbols and their relationships.
//!
//! [`analysis`] runs all four and gathers their diagnostics. [`merge`] puts
//! the graphs of several texts together, and [`exchange`] writes a graph
//! out as JSON.
//!
//! Every stage is stated against a mathematical model of its output and
//! proved to compute it. What holds of the stages on every input is proved
//! in [`spans`] (tokens are spans of the text), [`canon`] (the canonical
//! form of a text lexes to the tokens of the text), [`layout`] (the shape
//! of a tree does not depend on the layout of the text), [`progress`] (the
//! parser reads every token) and [`laws`] (resolution and graph building).
//!
//! [`session`] and [`shapes`] hold two small models, of login sessions and
//! of points, whose sources are typical of what the analyser reads.

pub mod text;
pub mod token;
pub mod lexer;
pub mod stream;
pub mod canon;
pub mod spans;
pub mod syntax;
pub mod grammar;
pub mod parser;
pub mod layout;
pub mod progress;
pub mod symbols;
pub mod resolution;
pub mod resolver;
pub mod graph;
pub mod merge;
pub mod exchange;
pub mod laws;
pub mod analysis;
pub mod session;
pub mod shapes;
