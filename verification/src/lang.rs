//! The languages that are indexed, the kinds of entities that are reported,
//! and how a file's extension selects its language.

use crate::text::str_eq;
use vstd::prelude::*;

verus! {

/// A language of source files.
#[derive(Clone, Copy, Debug, PartialEq, Eq, Structural)]
pub enum SourceLanguage {
    Rust,
    Python,
    JavaScript,
    TypeScript,
    Cpp,
    Java,
    CSharp,
    Swift,
    Go,
    /// A language for which no grammar and no extraction rule is known.
    Other,
}

/// The kind of a reported entity.
#[derive(Clone, Copy, Debug, PartialEq, Eq, Structural)]
pub enum EntityKind {
    Class,
    Struct,
    Enum,
    Protocol,
    Interface,
    Function,
    Field,
    Variable,
    Import,
    Template,
    Decorator,
    Type,
}

/// The name under which records report a language.
pub open spec fn language_name(language: SourceLanguage) -> Seq<char> {
    match language {
        SourceLanguage::Rust => "rust"@,
        SourceLanguage::Python => "python"@,
        SourceLanguage::JavaScript => "javascript"@,
        SourceLanguage::TypeScript => "typescript"@,
        SourceLanguage::Cpp => "cpp"@,
        SourceLanguage::Java => "java"@,
        SourceLanguage::CSharp => "c_sharp"@,
        SourceLanguage::Swift => "swift"@,
        SourceLanguage::Go => "go"@,
        SourceLanguage::Other => "other"@,
    }
}

/// The name under which records report an entity kind.
pub open spec fn kind_name(kind: EntityKind) -> Seq<char> {
    match kind {
        EntityKind::Class => "class"@,
        EntityKind::Struct => "struct"@,
        EntityKind::Enum => "enum"@,
        EntityKind::Protocol => "protocol"@,
        EntityKind::Interface => "interface"@,
        EntityKind::Function => "function"@,
        EntityKind::Field => "field"@,
        EntityKind::Variable => "variable"@,
        EntityKind::Import => "import"@,
        EntityKind::Template => "template"@,
        EntityKind::Decorator => "decorator"@,
        EntityKind::Type => "type"@,
    }
}

/// The language that a file extension selects, if any.
pub open spec fn extension_language(extension: Seq<char>) -> Option<SourceLanguage> {
    if extension == "rs"@ {
        Some(SourceLanguage::Rust)
    } else if extension == "py"@ {
        Some(SourceLanguage::Python)
    } else if extension == "js"@ {
        Some(SourceLanguage::JavaScript)
    } else if extension == "ts"@ || extension == "tsx"@ {
        Some(SourceLanguage::TypeScript)
    } else if extension == "cpp"@ || extension == "cc"@ || extension == "cxx"@ || extension
        == "hpp"@ || extension == "h"@ {
        Some(SourceLanguage::Cpp)
    } else if extension == "java"@ {
        Some(SourceLanguage::Java)
    } else if extension == "cs"@ {
        Some(SourceLanguage::CSharp)
    } else if extension == "swift"@ {
        Some(SourceLanguage::Swift)
    } else if extension == "go"@ {
        Some(SourceLanguage::Go)
    } else {
        None
    }
}

impl SourceLanguage {
    /// The name under which records report the language.
    pub fn name(self) -> (name: &'static str)
        ensures
            name@ == language_name(self),
    {
        match self {
            SourceLanguage::Rust => "rust",
            SourceLanguage::Python => "python",
            SourceLanguage::JavaScript => "javascript",
            SourceLanguage::TypeScript => "typescript",
            SourceLanguage::Cpp => "cpp",
            SourceLanguage::Java => "java",
            SourceLanguage::CSharp => "c_sharp",
            SourceLanguage::Swift => "swift",
            SourceLanguage::Go => "go",
            SourceLanguage::Other => "other",
        }
    }
}

impl EntityKind {
    /// The name under which records report the kind.
    pub fn name(self) -> (name: &'static str)
        ensures
            name@ == kind_name(self),
    {
        match self {
            EntityKind::Class => "class",
            EntityKind::Struct => "struct",
            EntityKind::Enum => "enum",
            EntityKind::Protocol => "protocol",
            EntityKind::Interface => "interface",
            EntityKind::Function => "function",
            EntityKind::Field => "field",
            EntityKind::Variable => "variable",
            EntityKind::Import => "import",
            EntityKind::Template => "template",
            EntityKind::Decorator => "decorator",
            EntityKind::Type => "type",
        }
    }
}

/// The language that the file extension `extension` selects, if any.
pub fn language_for_extension(extension: &str) -> (language: Option<SourceLanguage>)
    ensures
        language == extension_language(extension@),
{
    if str_eq(extension, "rs") {
        Some(SourceLanguage::Rust)
    } else if str_eq(extension, "py") {
        Some(SourceLanguage::Python)
    } else if str_eq(extension, "js") {
        Some(SourceLanguage::JavaScript)
    } else if str_eq(extension, "ts") || str_eq(extension, "tsx") {
        Some(SourceLanguage::TypeScript)
    } else if str_eq(extension, "cpp") || str_eq(extension, "cc") || str_eq(extension, "cxx")
        || str_eq(extension, "hpp") || str_eq(extension, "h") {
        Some(SourceLanguage::Cpp)
    } else if str_eq(extension, "java") {
        Some(SourceLanguage::Java)
    } else if str_eq(extension, "cs") {
        Some(SourceLanguage::CSharp)
    } else if str_eq(extension, "swift") {
        Some(SourceLanguage::Swift)
    } else if str_eq(extension, "go") {
        Some(SourceLanguage::Go)
    } else {
        None
    }
}

/// The language of a file, given the extension of its path, if it has one:
/// the language that the extension selects.
pub fn detect_language(extension: Option<&str>) -> (language: Option<SourceLanguage>)
    ensures
        language == match extension {
            Some(e) => extension_language(e@),
            None => None,
        },
{
    match extension {
        Some(e) => language_for_extension(e),
        None => None,
    }
}

} // verus!
