//! The codes that classify validation and parse errors.

use vstd::prelude::*;

verus! {

/// The kind of a reported error.
#[derive(PartialEq, Eq, Structural, Clone, Copy, Debug)]
pub enum ErrorCode {
    /// The document text is not valid YAML.
    YamlParse,
    /// The schema itself was refused.
    SchemaCompile,
    /// The front matter block is missing or unreadable.
    FrontmatterParse,
    /// The front matter fields are invalid.
    FrontmatterValidation,
    /// The document does not conform to its schema.
    SchemaValidation,
    /// Anything else.
    Unknown,
}

/// The wire name of an error code.
pub open spec fn code_name(c: ErrorCode) -> Seq<char> {
    match c {
        ErrorCode::YamlParse => "YamlParse"@,
        ErrorCode::SchemaCompile => "SchemaCompile"@,
        ErrorCode::FrontmatterParse => "FrontmatterParse"@,
        ErrorCode::FrontmatterValidation => "FrontmatterValidation"@,
        ErrorCode::SchemaValidation => "SchemaValidation"@,
        ErrorCode::Unknown => "Unknown"@,
    }
}

impl ErrorCode {
    /// The wire name of the code.
    pub fn name(&self) -> (r: String)
        ensures
            r@ == code_name(*self),
    {
        match self {
            ErrorCode::YamlParse => String::from_str("YamlParse"),
            ErrorCode::SchemaCompile => String::from_str("SchemaCompile"),
            ErrorCode::FrontmatterParse => String::from_str("FrontmatterParse"),
            ErrorCode::FrontmatterValidation => String::from_str("FrontmatterValidation"),
            ErrorCode::SchemaValidation => String::from_str("SchemaValidation"),
            ErrorCode::Unknown => String::from_str("Unknown"),
        }
    }
}

} // verus!
