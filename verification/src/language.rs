//! The source languages that the analyzer recognises by file extension.
use vstd::prelude::*;
use crate::text::text_is;

verus! {

/// A language the analyzer has a grammar for.
#[derive(Debug, Clone, Copy, PartialEq, Eq)]
pub enum SourceLanguage {
    Cpp,
    Python,
}

/// The extensions of C++ sources and headers.
pub open spec fn is_cpp_extension(ext: Seq<char>) -> bool {
    ||| ext == "cpp"@
    ||| ext == "cc"@
    ||| ext == "cxx"@
    ||| ext == "h"@
    ||| ext == "hpp"@
}

/// The language of a file with this extension, if it is one the analyzer
/// knows.
pub open spec fn language_of(ext: Seq<char>) -> Option<SourceLanguage> {
    if is_cpp_extension(ext) {
        Some(SourceLanguage::Cpp)
    } else if ext == "py"@ {
        Some(SourceLanguage::Python)
    } else {
        None
    }
}

/// The language of a file with this extension: C++ for `cpp`, `cc`, `cxx`,
/// `h` and `hpp`, Python for `py`, none otherwise.
pub fn source_language(extension: &str) -> (r: Option<SourceLanguage>)
    ensures
        r == language_of(extension@),
{
    if text_is(extension, "cpp") || text_is(extension, "cc") || text_is(extension, "cxx")
        || text_is(extension, "h") || text_is(extension, "hpp") {
        Some(SourceLanguage::Cpp)
    } else if text_is(extension, "py") {
        Some(SourceLanguage::Python)
    } else {
        None
    }
}

impl SourceLanguage {
    /// The directory, under the rules directory, that holds the language's rules.
    pub open spec fn rules_dir_spec(self) -> Seq<char> {
        match self {
            SourceLanguage::Cpp => "cpp"@,
            SourceLanguage::Python => "python"@,
        }
    }

    /// The directory, under the rules directory, that holds the language's rules.
    pub fn rules_dir(&self) -> (r: &'static str)
        ensures
            r@ == self.rules_dir_spec(),
    {
        match self {
            SourceLanguage::Cpp => "cpp",
            SourceLanguage::Python => "python",
        }
    }
}

} // verus!
