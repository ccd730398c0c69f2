//! A verified core of a runner for HTTP scenarios written in a small,
//! human-readable DSL: a recursive-descent parser for response queries with
//! exact source spans, and a template evaluator substituting `{{var}}`
//! expressions with typed values.

pub mod ast;
pub mod text;
pub mod reader;
pub mod strutil;
pub mod primitives;
pub mod stringparse;
pub mod cookiepath;
pub mod query;
pub mod value;
pub mod template;
pub mod laws;
