//! Repository paths, source symbols and the repository map.
pub mod churn;
pub mod error;
pub mod languages;
pub mod laws;
pub mod map;
pub mod path;
pub mod rust_symbols;
pub mod symbols;
pub mod typescript_laws;
pub mod typescript_symbols;
pub mod typescript_tokens;

pub use crate::repo::churn::{ChurnLedger, FileChurn};
pub use crate::repo::error::RepoError;
pub use crate::repo::languages::{Language, RepoLanguages};
pub use crate::repo::map::{
    build_repo_map, build_repo_map_with_languages, format_repo_map, parse_directory,
    parse_directory_with_languages, parse_file_for_language, ChurnScore, LanguageCounts, RepoMap,
    SourceFile,
};
pub use crate::repo::path::{PathEntry, RepoRelativePath};
pub use crate::repo::rust_symbols::parse_file;
pub use crate::repo::symbols::{Symbol, SymbolKind};
pub use crate::repo::typescript_symbols::parse_typescript_file;
