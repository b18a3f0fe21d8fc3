//! An incremental, resumable CSS fragment parser and serializer for
//! CSS-in-JS tooling.
//!
//! A tagged template literal is split into raw text chunks around embedded
//! expressions. `parse_css` consumes one chunk at a time, threading a
//! `ParserState` between calls, and emits a flat, scope-annotated list of
//! `Declaration`s. `to_css` is the inverse: it rebuilds properly nested,
//! indented CSS text from such a list, hoisting blocks that must not be
//! nested (e.g. `@property`) to the top level.

pub mod model;
pub mod text;
pub mod parse;
pub mod serialize;
pub mod roundtrip;
pub mod imports;
pub mod vars;
pub mod yak_file;

pub use model::{CssScope, Declaration, ScopeType, SpecDecl, SpecScope};
pub use parse::{parse_css, ParserState, LexMode};
pub use serialize::{get_non_nestable_declarations, to_css};
pub use imports::{encode_percent, ImportKind, ImportType};
pub use vars::{import_source_type, ImportSourceType, ScopedVariableReference, VariableId};
pub use yak_file::is_yak_file;
