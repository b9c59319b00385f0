//! A multi-pass source-to-source transform for the Walnut DSL embedded in
//! TypeScript/JSX sources.
//!
//! The pipeline works on the crate's own syntax tree model (`ast`): a shallow
//! import scan with a verbatim fast path (`scan_first`), a rewrite pass over
//! variable declarators and JSX subtrees (`transform`, `select`), a dead-code
//! cleanup pass (`finalize`), label extraction from resolver origin modules
//! (`resolver`), a printer for the model (`printer`), and a stateful session
//! protocol tying them together (`session`). Parsing, printing of foreign
//! trees, and filesystem module resolution live outside this crate; callers
//! hand in already-converted trees.

pub mod ast;
pub mod finalize;
pub mod printer;
pub mod resolver;
pub mod scan_first;
pub mod select;
pub mod session;
pub mod text;
pub mod transform;
