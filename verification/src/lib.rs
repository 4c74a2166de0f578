//! A small source-to-source compiler: it reads a line-oriented script that
//! describes a sequence of external-process invocations with string
//! templating, and renders a standalone C translation unit that performs
//! those invocations, captures each process's output, and stores or prints
//! the result.
//!
//! The pipeline has three stages, each a verified function with an exact
//! contract over sequence models of the strings involved:
//! parsing script lines into a command model ([`parser`]), turning raw
//! template strings into ordered literal/variable segments ([`template`],
//! [`encode`]), and emitting the text of the generated program ([`codegen`]).

pub mod codegen;
pub mod encode;
pub mod parser;
pub mod template;
pub mod text;
