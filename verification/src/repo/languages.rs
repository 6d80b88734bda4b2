//! Languages that can be indexed.
use crate::text::chars::same;
use vstd::prelude::*;

verus! {

/// A language of source files.
#[derive(Debug, Clone, Copy, PartialEq, Eq, Hash, Structural)]
pub enum Language {
    Rust,
    Python,
    TypeScript,
    Go,
    Java,
}

/// The language of files with the given extension.
pub open spec fn language_of(ext: Seq<char>) -> Option<Language> {
    if ext == "rs"@ {
        Some(Language::Rust)
    } else if ext == "py"@ {
        Some(Language::Python)
    } else if ext == "ts"@ || ext == "tsx"@ || ext == "mts"@ || ext == "cts"@ {
        Some(Language::TypeScript)
    } else if ext == "go"@ {
        Some(Language::Go)
    } else if ext == "java"@ {
        Some(Language::Java)
    } else {
        None
    }
}

/// The name of a language.
pub open spec fn language_name(l: Language) -> Seq<char> {
    match l {
        Language::Rust => "rust"@,
        Language::Python => "python"@,
        Language::TypeScript => "typescript"@,
        Language::Go => "go"@,
        Language::Java => "java"@,
    }
}

impl Language {
    /// The language of files with the given extension.
    pub fn from_extension(ext: &str) -> (r: Option<Language>)
        ensures
            r == language_of(ext@),
    {
        if same(ext, "rs") {
            Some(Language::Rust)
        } else if same(ext, "py") {
            Some(Language::Python)
        } else if same(ext, "ts") || same(ext, "tsx") || same(ext, "mts") || same(ext, "cts") {
            Some(Language::TypeScript)
        } else if same(ext, "go") {
            Some(Language::Go)
        } else if same(ext, "java") {
            Some(Language::Java)
        } else {
            None
        }
    }

    /// The name of the language.
    pub fn as_str(self) -> (r: &'static str)
        ensures
            r@ == language_name(self),
    {
        match self {
            Language::Rust => "rust",
            Language::Python => "python",
            Language::TypeScript => "typescript",
            Language::Go => "go",
            Language::Java => "java",
        }
    }
}

/// Which languages are indexed.
#[derive(Debug, Clone, Copy, PartialEq, Eq, Structural)]
pub struct RepoLanguages {
    pub rust: bool,
    pub python: bool,
    pub typescript: bool,
    pub go: bool,
    pub java: bool,
}

impl Default for RepoLanguages {
    /// Rust alone.
    fn default() -> (r: Self)
        ensures
            r == (RepoLanguages {
                rust: true,
                python: false,
                typescript: false,
                go: false,
                java: false,
            }),
    {
        RepoLanguages { rust: true, python: false, typescript: false, go: false, java: false }
    }
}

impl RepoLanguages {
    /// Whether a language is indexed.
    pub open spec fn enables(self, l: Language) -> bool {
        match l {
            Language::Rust => self.rust,
            Language::Python => self.python,
            Language::TypeScript => self.typescript,
            Language::Go => self.go,
            Language::Java => self.java,
        }
    }

    /// The language of a file with the given extension, if it is indexed.
    pub open spec fn visits(self, ext: Seq<char>) -> Option<Language> {
        match language_of(ext) {
            Some(l) => if self.enables(l) {
                Some(l)
            } else {
                None
            },
            None => None,
        }
    }

    /// Whether a language is indexed.
    pub fn is_enabled(&self, lang: Language) -> (r: bool)
        ensures
            r == self.enables(lang),
    {
        match lang {
            Language::Rust => self.rust,
            Language::Python => self.python,
            Language::TypeScript => self.typescript,
            Language::Go => self.go,
            Language::Java => self.java,
        }
    }

    /// The language of a file with the given extension, if it is indexed.
    pub fn indexed_language(&self, ext: &str) -> (r: Option<Language>)
        ensures
            r == self.visits(ext@),
    {
        match Language::from_extension(ext) {
            Some(l) => {
                if self.is_enabled(l) {
                    Some(l)
                } else {
                    None
                }
            },
            None => None,
        }
    }
}

} // verus!
