//! Error taxonomy and the validation result returned across the boundary:
//! structured error records with a line, a message, a path and a code, and
//! the result envelope rendered as JSON text.

use vstd::prelude::*;

use crate::codec::YamlError;
use crate::codec::encode_json_raw;
use crate::codec::json_text_of;
use crate::error_code::ErrorCode;
use crate::error_code::code_name;
use crate::path::index_digits;
use crate::path::nat_digits;
use crate::tree::Tree;
use crate::tree::TreeV;

verus! {

/// An error of the document core.
#[derive(Debug)]
pub enum CoreError {
    /// The document text is not valid YAML.
    YamlParseError(YamlError),
    /// A JSON text did not parse.
    JsonParseError(String),
    /// The schema was refused.
    SchemaError(String),
    /// A document failed validation.
    ValidationError(String),
    /// The front matter block is missing or unreadable.
    FrontmatterParseError(String),
    /// The front matter fields are invalid.
    FrontmatterValidationError(String),
}

/// The rendered message of a core error: its kind, a colon, and the
/// carried detail.
pub open spec fn core_error_message(e: CoreError) -> Seq<char> {
    match e {
        CoreError::YamlParseError(y) => "YAML parse error: "@ + y.message@,
        CoreError::JsonParseError(m) => "JSON parse error: "@ + m@,
        CoreError::SchemaError(m) => "Schema error: "@ + m@,
        CoreError::ValidationError(m) => "Validation error: "@ + m@,
        CoreError::FrontmatterParseError(m) => "Frontmatter parse error: "@ + m@,
        CoreError::FrontmatterValidationError(m) => "Frontmatter validation error: "@ + m@,
    }
}

impl CoreError {
    /// The error rendered as one message line.
    pub fn to_message(&self) -> (r: String)
        ensures
            r@ == core_error_message(*self),
    {
        match self {
            CoreError::YamlParseError(y) => {
                let mut s = String::from_str("YAML parse error: ");
                s.append(y.message.as_str());
                proof {
                    assert(s@ =~= core_error_message(*self));
                }
                s
            },
            CoreError::JsonParseError(m) => {
                let mut s = String::from_str("JSON parse error: ");
                s.append(m.as_str());
                proof {
                    assert(s@ =~= core_error_message(*self));
                }
                s
            },
            CoreError::SchemaError(m) => {
                let mut s = String::from_str("Schema error: ");
                s.append(m.as_str());
                proof {
                    assert(s@ =~= core_error_message(*self));
                }
                s
            },
            CoreError::ValidationError(m) => {
                let mut s = String::from_str("Validation error: ");
                s.append(m.as_str());
                proof {
                    assert(s@ =~= core_error_message(*self));
                }
                s
            },
            CoreError::FrontmatterParseError(m) => {
                let mut s = String::from_str("Frontmatter parse error: ");
                s.append(m.as_str());
                proof {
                    assert(s@ =~= core_error_message(*self));
                }
                s
            },
            CoreError::FrontmatterValidationError(m) => {
                let mut s = String::from_str("Frontmatter validation error: ");
                s.append(m.as_str());
                proof {
                    assert(s@ =~= core_error_message(*self));
                }
                s
            },
        }
    }
}

/// One reported error: the line it points at (0 when unknown), its
/// message, the path of the offending node, and its code.
pub struct ErrorInfo {
    pub line: u32,
    pub message: String,
    pub path: String,
    pub code: ErrorCode,
}

/// Model of one reported error.
pub struct ErrorInfoV {
    pub line: u32,
    pub message: Seq<char>,
    pub path: Seq<char>,
    pub code: ErrorCode,
}

impl View for ErrorInfo {
    type V = ErrorInfoV;

    open spec fn view(&self) -> ErrorInfoV {
        ErrorInfoV { line: self.line, message: self.message@, path: self.path@, code: self.code }
    }
}

impl DeepView for ErrorInfo {
    type V = ErrorInfoV;

    open spec fn deep_view(&self) -> ErrorInfoV {
        self@
    }
}

impl ErrorInfo {
    /// A new error record.
    pub fn new(line: u32, message: String, path: String, code: ErrorCode) -> (r: ErrorInfo)
        ensures
            r@ == (ErrorInfoV { line, message: message@, path: path@, code }),
    {
        ErrorInfo { line, message, path, code }
    }

    /// An error record carrying a decode failure's line and message.
    pub fn from_yaml_error(error: &YamlError, code: ErrorCode) -> (r: ErrorInfo)
        ensures
            r@ == (ErrorInfoV {
                line: error.line,
                message: error.message@,
                path: Seq::<char>::empty(),
                code,
            }),
    {
        ErrorInfo { line: error.line, message: error.message.clone(), path: String::new(), code }
    }
}

/// The result of a validation: a success flag and the errors found.
pub struct ValidationResult {
    pub success: bool,
    pub errors: Vec<ErrorInfo>,
}

/// Model of a validation result.
pub struct ValidationResultV {
    pub success: bool,
    pub errors: Seq<ErrorInfoV>,
}

impl View for ValidationResult {
    type V = ValidationResultV;

    open spec fn view(&self) -> ValidationResultV {
        ValidationResultV { success: self.success, errors: self.errors.deep_view() }
    }
}

/// The wire tree of one error record.
pub open spec fn error_info_tree(e: ErrorInfoV) -> TreeV {
    TreeV::Mapping(
        seq![
            ("line"@, TreeV::Number(nat_digits(e.line as int))),
            ("message"@, TreeV::Text(e.message)),
            ("path"@, TreeV::Text(e.path)),
            ("code"@, TreeV::Text(code_name(e.code))),
        ],
    )
}

/// The wire tree of a validation result.
pub open spec fn validation_result_tree(v: ValidationResultV) -> TreeV {
    TreeV::Mapping(
        seq![
            ("success"@, TreeV::Bool(v.success)),
            (
                "errors"@,
                TreeV::Sequence(Seq::new(v.errors.len(), |i: int| error_info_tree(v.errors[i]))),
            ),
        ],
    )
}

/// The JSON text of a validation result, with the fixed fallback for an
/// encoder refusal.
pub open spec fn render_result(v: ValidationResultV) -> Seq<char> {
    match json_text_of(validation_result_tree(v)) {
        Some(s) => s,
        None =>
            "{\"success\":false,\"errors\":[{\"line\":0,\"message\":\"Failed to serialize errors\",\"path\":\"\"}]}"@,
    }
}

impl ValidationResult {
    /// The result of a validation that found nothing wrong.
    pub fn success() -> (r: ValidationResult)
        ensures
            r@.success == true,
            r@.errors == Seq::<ErrorInfoV>::empty(),
    {
        let r = ValidationResult { success: true, errors: Vec::new() };
        proof {
            assert(r@.errors =~= Seq::<ErrorInfoV>::empty());
        }
        r
    }

    /// A failed validation carrying its errors.
    pub fn error(errors: Vec<ErrorInfo>) -> (r: ValidationResult)
        ensures
            r@.success == false,
            r@.errors == errors.deep_view(),
    {
        ValidationResult { success: false, errors }
    }

    /// A failed validation carrying one error.
    pub fn single_error(error: ErrorInfo) -> (r: ValidationResult)
        ensures
            r@.success == false,
            r@.errors == seq![error@],
    {
        let mut errors: Vec<ErrorInfo> = Vec::new();
        errors.push(error);
        let r = ValidationResult { success: false, errors };
        proof {
            assert(r@.errors =~= seq![error@]);
        }
        r
    }

    /// The result rendered as JSON text.
    #[verifier::loop_isolation(false)]
    pub fn to_json(&self) -> (r: String)
        ensures
            r@ == render_result(self@),
    {
        proof {
            reveal_strlit("line");
            reveal_strlit("message");
            reveal_strlit("path");
            reveal_strlit("code");
            reveal_strlit("success");
            reveal_strlit("errors");
        }
        let ghost ev = self.errors.deep_view();
        let mut items: Vec<Tree> = Vec::new();
        for i in 0..self.errors.len()
            invariant
                items@.len() == i,
                forall|j: int| 0 <= j < i ==> items@[j]@ == error_info_tree(ev[j]),
            decreases self.errors@.len() - i,
        {
            let e = &self.errors[i];
            let lk = String::from_str("line");
            let lv = Tree::Number(index_digits(e.line as usize));
            let mk = String::from_str("message");
            let mv = Tree::Text(e.message.clone());
            let pk = String::from_str("path");
            let pv = Tree::Text(e.path.clone());
            let ck = String::from_str("code");
            let cv = Tree::Text(e.code.name());
            proof {
                assert(ev[i as int] == self.errors@[i as int]@);
                assert(lv@ == TreeV::Number(nat_digits(ev[i as int].line as int)));
            }
            let mut entry: Vec<(String, Tree)> = Vec::new();
            entry.push((lk, lv));
            entry.push((mk, mv));
            entry.push((pk, pv));
            entry.push((ck, cv));
            let item = Tree::Mapping(entry);
            proof {
                assert(crate::tree::entries_view(entry@)[0] == (
                    "line"@,
                    TreeV::Number(nat_digits(ev[i as int].line as int)),
                ));
                assert(crate::tree::entries_view(entry@)[1] == (
                    "message"@,
                    TreeV::Text(ev[i as int].message),
                ));
                assert(crate::tree::entries_view(entry@)[2] == (
                    "path"@,
                    TreeV::Text(ev[i as int].path),
                ));
                assert(crate::tree::entries_view(entry@)[3] == (
                    "code"@,
                    TreeV::Text(code_name(ev[i as int].code)),
                ));
                assert(item@ == TreeV::Mapping(crate::tree::entries_view(entry@)));
                assert(item@->Mapping_0 =~~= error_info_tree(ev[i as int])->Mapping_0);
                assert(item@ =~~= error_info_tree(ev[i as int]));
            }
            items.push(item);
        }
        let ghost itemsv = crate::tree::elems_view(items@);
        let errors_tree = Tree::Sequence(items);
        proof {
            assert(errors_tree@ == TreeV::Sequence(itemsv));
            assert(itemsv =~~= validation_result_tree(self@)->Mapping_0[1].1->Sequence_0);
        }
        let sk = String::from_str("success");
        let sv = Tree::Bool(self.success);
        let ek = String::from_str("errors");
        let mut entries: Vec<(String, Tree)> = Vec::new();
        entries.push((sk, sv));
        entries.push((ek, errors_tree));
        let t = Tree::Mapping(entries);
        proof {
            assert(crate::tree::entries_view(entries@)[0] == ("success"@, TreeV::Bool(
                self.success,
            )));
            assert(crate::tree::entries_view(entries@)[1] == ("errors"@, TreeV::Sequence(itemsv)));
            assert(t@ == TreeV::Mapping(crate::tree::entries_view(entries@)));
            assert(t@->Mapping_0 =~~= validation_result_tree(self@)->Mapping_0);
            assert(t@ =~~= validation_result_tree(self@));
        }
        match encode_json_raw(&t) {
            Some(s) => s,
            None => String::from_str(
                "{\"success\":false,\"errors\":[{\"line\":0,\"message\":\"Failed to serialize errors\",\"path\":\"\"}]}",
            ),
        }
    }
}

} // verus!
