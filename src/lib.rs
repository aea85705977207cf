//! Synthesis of data transformers between two JSON Schemas.
//!
//! A [`schema::Schema`] is read from a JSON tree, a [`searcher::SchemaSearcher`]
//! relates two schemas by a linear program of [`ir::IR`] instructions, and a
//! [`codegen::JSCodegen`] turns such a program into JavaScript source text.
mod text;

pub mod codegen;
pub mod ext_nat;
pub mod ir;
pub mod json;
pub mod schema;
pub mod searcher;
pub mod synth;
