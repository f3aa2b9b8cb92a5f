//! SIE 4B editor support: the logic behind a language server and a CLI for
//! SIE bookkeeping files, with its contracts proved by Verus.

pub mod document;
pub mod text;
pub mod lines;
pub mod completion;
pub mod labels;
pub mod semtok;
pub mod accounts;
pub mod lsp;
pub mod cli;
pub mod store;
pub mod parsing;

pub use semtok::{token_types, tokens_for as semantic_tokens, SemanticToken, SemanticTokenKind};
