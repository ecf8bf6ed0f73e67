//! Front matter handling: extracting the `---`-delimited YAML block at the
//! top of a document, reading its fields, and checking them.

use vstd::prelude::*;

use crate::codec::decode_yaml;
use crate::codec::yaml_doc_of;
use crate::error::CoreError;
use crate::error::ErrorInfo;
use crate::error::ErrorInfoV;
use crate::error::ValidationResult;
use crate::error::ValidationResultV;
use crate::error::render_result;
use crate::error_code::ErrorCode;
use crate::strings::join_lines;
use crate::strings::join_nl;
use crate::strings::lines_of;
use crate::strings::split_lines;
use crate::strings::trim;
use crate::strings::trim_of;
use crate::tree::Tree;
use crate::tree::TreeV;
use crate::tree::entries_view;
use crate::tree::has_key;
use crate::tree::lemma_key_idx;
use crate::tree::map_val;

verus! {

/// The front matter of a document: an optional schema path and a
/// validation flag (on by default), plus the raw block text.
pub struct Frontmatter {
    pub schema_path: Option<String>,
    pub validated: bool,
    pub raw: String,
}

/// Model of a front matter block.
pub struct FrontmatterV {
    pub schema_path: Option<Seq<char>>,
    pub validated: bool,
    pub raw: Seq<char>,
}

impl View for Frontmatter {
    type V = FrontmatterV;

    open spec fn view(&self) -> FrontmatterV {
        FrontmatterV {
            schema_path: match self.schema_path {
                Some(ref s) => Some(s@),
                None => None,
            },
            validated: self.validated,
            raw: self.raw@,
        }
    }
}

/// The default of the validation flag.
pub fn default_validated() -> (r: bool)
    ensures
        r == true,
{
    true
}

/// Index of the first line at or after `from` that reads `---` once
/// trimmed, or the number of lines.
pub open spec fn marker_idx(lines: Seq<Seq<char>>, from: int) -> int
    decreases lines.len() - from,
{
    if from < 0 || from >= lines.len() {
        lines.len() as int
    } else if trim_of(lines[from]) == "---"@ {
        from
    } else {
        marker_idx(lines, from + 1)
    }
}

/// The fields a front matter tree carries, when it is a mapping whose
/// `schema_path` is text or null (or absent) and whose `validated` is a
/// boolean (or absent, defaulting to on); other keys are ignored.
pub open spec fn fm_fields_of_tree(t: TreeV) -> Option<(Option<Seq<char>>, bool)> {
    match t {
        TreeV::Mapping(m) => {
            let sp: Option<Option<Seq<char>>> = if has_key(m, "schema_path"@) {
                match map_val(m, "schema_path"@) {
                    TreeV::Text(s) => Some(Some(s)),
                    TreeV::Null => Some(None),
                    _ => None,
                }
            } else {
                Some(None)
            };
            let vd: Option<bool> = if has_key(m, "validated"@) {
                match map_val(m, "validated"@) {
                    TreeV::Bool(b) => Some(b),
                    _ => None,
                }
            } else {
                Some(true)
            };
            match (sp, vd) {
                (Some(a), Some(b)) => Some((a, b)),
                _ => None,
            }
        },
        _ => None,
    }
}

/// What parsing the front matter of `md` yields: its fields and raw
/// block, or the message of the failure.
pub open spec fn parse_frontmatter_spec(md: Seq<char>) -> Result<FrontmatterV, Seq<char>> {
    let lines = lines_of(md);
    let s = marker_idx(lines, 0);
    if s >= lines.len() {
        Err("\u{30d5}\u{30ed}\u{30f3}\u{30c8}\u{30de}\u{30bf}\u{30fc}\u{304c}\u{898b}\u{3064}\u{304b}\u{3089}\u{306a}\u{3044}\u{304b}\u{4e0d}\u{5b8c}\u{5168}\u{3067}\u{3059}"@)
    } else {
        let e = marker_idx(lines, s + 1);
        if e >= lines.len() {
            Err(
                "\u{30d5}\u{30ed}\u{30f3}\u{30c8}\u{30de}\u{30bf}\u{30fc}\u{304c}\u{898b}\u{3064}\u{304b}\u{3089}\u{306a}\u{3044}\u{304b}\u{4e0d}\u{5b8c}\u{5168}\u{3067}\u{3059}"@,
            )
        } else {
            let content = join_nl(lines.subrange(s + 1, e));
            match yaml_doc_of(content) {
                Err(err) => Err(
                    "\u{30d5}\u{30ed}\u{30f3}\u{30c8}\u{30de}\u{30bf}\u{30fc}\u{306e}\u{30d1}\u{30fc}\u{30b9}\u{306b}\u{5931}\u{6557}\u{3057}\u{307e}\u{3057}\u{305f}: "@
                        + err.1,
                ),
                Ok(t) => match fm_fields_of_tree(t) {
                    None => Err(
                        "\u{30d5}\u{30ed}\u{30f3}\u{30c8}\u{30de}\u{30bf}\u{30fc}\u{306e}\u{30d1}\u{30fc}\u{30b9}\u{306b}\u{5931}\u{6557}\u{3057}\u{307e}\u{3057}\u{305f}: "@
                            + "\u{4e0d}\u{6b63}\u{306a}\u{30d5}\u{30a3}\u{30fc}\u{30eb}\u{30c9}\u{3067}\u{3059}"@,
                    ),
                    Some(fields) => Ok(
                        FrontmatterV {
                            schema_path: fields.0,
                            validated: fields.1,
                            raw: content,
                        },
                    ),
                },
            }
        }
    }
}

/// Index of the first `---` line at or after `from`.
#[verifier::loop_isolation(false)]
pub fn find_marker(lines: &Vec<String>, from: usize) -> (r: usize)
    requires
        from <= lines@.len(),
    ensures
        r == marker_idx(lines.deep_view(), from as int),
        from <= r <= lines@.len(),
    decreases lines@.len() - from,
{
    proof {
        reveal_strlit("---");
    }
    let marker = String::from_str("---");
    let mut i = from;
    while i < lines.len()
        invariant
            from <= i <= lines@.len(),
            forall|q: int|
                from <= q < i ==> trim_of(#[trigger] lines.deep_view()[q]) != "---"@,
        decreases lines@.len() - i,
    {
        let t = trim(lines[i].as_str());
        if t.eq(&marker) {
            proof {
                lemma_marker_idx(lines.deep_view(), from as int, i - from);
            }
            return i;
        }
        i = i + 1;
    }
    proof {
        lemma_marker_idx(lines.deep_view(), from as int, lines@.len() - from);
    }
    lines.len()
}

/// The first marker of `ls[from..]` sits at distance `d`.
proof fn lemma_marker_idx(ls: Seq<Seq<char>>, from: int, d: int)
    requires
        0 <= from,
        from + d <= ls.len(),
        0 <= d,
        forall|q: int| from <= q < from + d ==> trim_of(#[trigger] ls[q]) != "---"@,
        from + d < ls.len() ==> trim_of(ls[from + d]) == "---"@,
    ensures
        marker_idx(ls, from) == if from + d < ls.len() {
            from + d
        } else {
            ls.len() as int
        },
    decreases d,
{
    if d > 0 {
        lemma_marker_idx(ls, from + 1, d - 1);
    }
}

/// Extracts and parses the front matter block of a document: the block
/// sits between the first two lines reading `---`; its YAML content must
/// decode and carry well-typed `schema_path` and `validated` fields.
#[verifier::loop_isolation(false)]
pub fn parse_frontmatter(md_str: &str) -> (r: Result<Frontmatter, CoreError>)
    ensures
        ({
            let spec = parse_frontmatter_spec(md_str@);
            match r {
                Ok(fm) => spec == Ok::<FrontmatterV, Seq<char>>(fm@),
                Err(e) => e matches CoreError::FrontmatterParseError(m) && spec == Err::<
                    FrontmatterV,
                    Seq<char>,
                >(m@),
            }
        }),
{
    let ghost linesv = lines_of(md_str@);
    let lines = split_lines(md_str);
    let start = find_marker(&lines, 0);
    if start == lines.len() {
        return Err(
            CoreError::FrontmatterParseError(
                String::from_str(
                    "\u{30d5}\u{30ed}\u{30f3}\u{30c8}\u{30de}\u{30bf}\u{30fc}\u{304c}\u{898b}\u{3064}\u{304b}\u{3089}\u{306a}\u{3044}\u{304b}\u{4e0d}\u{5b8c}\u{5168}\u{3067}\u{3059}",
                ),
            ),
        );
    }
    let end = find_marker(&lines, start + 1);
    if end == lines.len() {
        return Err(
            CoreError::FrontmatterParseError(
                String::from_str(
                    "\u{30d5}\u{30ed}\u{30f3}\u{30c8}\u{30de}\u{30bf}\u{30fc}\u{304c}\u{898b}\u{3064}\u{304b}\u{3089}\u{306a}\u{3044}\u{304b}\u{4e0d}\u{5b8c}\u{5168}\u{3067}\u{3059}",
                ),
            ),
        );
    }
    let content = join_lines(&lines, start + 1, end);
    let tree = match decode_yaml(content.as_str()) {
        Ok(t) => t,
        Err(e) => {
            let mut msg = String::from_str(
                "\u{30d5}\u{30ed}\u{30f3}\u{30c8}\u{30de}\u{30bf}\u{30fc}\u{306e}\u{30d1}\u{30fc}\u{30b9}\u{306b}\u{5931}\u{6557}\u{3057}\u{307e}\u{3057}\u{305f}: ",
            );
            msg.append(e.message.as_str());
            return Err(CoreError::FrontmatterParseError(msg));
        },
    };
    match read_fields(&tree) {
        Some((schema_path, validated)) => Ok(
            Frontmatter { schema_path, validated, raw: content },
        ),
        None => {
            let mut msg = String::from_str(
                "\u{30d5}\u{30ed}\u{30f3}\u{30c8}\u{30de}\u{30bf}\u{30fc}\u{306e}\u{30d1}\u{30fc}\u{30b9}\u{306b}\u{5931}\u{6557}\u{3057}\u{307e}\u{3057}\u{305f}: ",
            );
            msg.append("\u{4e0d}\u{6b63}\u{306a}\u{30d5}\u{30a3}\u{30fc}\u{30eb}\u{30c9}\u{3067}\u{3059}");
            Err(CoreError::FrontmatterParseError(msg))
        },
    }
}

/// Reads the `schema_path` and `validated` fields out of a front matter
/// tree.
fn read_fields(t: &Tree) -> (r: Option<(Option<String>, bool)>)
    ensures
        ({
            let spec = fm_fields_of_tree(t@);
            match r {
                Some(fields) => spec == Some(
                    (
                        match fields.0 {
                            Some(ref s) => Some(s@),
                            None => None::<Seq<char>>,
                        },
                        fields.1,
                    ),
                ),
                None => spec is None,
            }
        }),
{
    proof {
        reveal_strlit("schema_path");
        reveal_strlit("validated");
    }
    match t {
        Tree::Mapping(entries) => {
            let ghost m = entries_view(entries@);
            let sp_key = String::from_str("schema_path");
            let vd_key = String::from_str("validated");
            let schema_path: Option<String> = match Tree::map_find(entries, &sp_key) {
                Some(j) => {
                    proof {
                        lemma_key_idx(m, "schema_path"@);
                        assert(m[j as int] == (entries@[j as int].0@, entries@[j as int].1@));
                    }
                    match &entries[j].1 {
                        Tree::Text(s) => Some(s.clone()),
                        Tree::Null => None,
                        _ => {
                            return None;
                        },
                    }
                },
                None => None,
            };
            let validated: bool = match Tree::map_find(entries, &vd_key) {
                Some(j) => {
                    proof {
                        lemma_key_idx(m, "validated"@);
                        assert(m[j as int] == (entries@[j as int].0@, entries@[j as int].1@));
                    }
                    match &entries[j].1 {
                        Tree::Bool(b) => *b,
                        _ => {
                            return None;
                        },
                    }
                },
                None => true,
            };
            Some((schema_path, validated))
        },
        _ => None,
    }
}

/// What checking a front matter yields: an error exactly when a
/// `schema_path` is present but blank.
pub open spec fn validate_frontmatter_spec(fm: FrontmatterV) -> Seq<ErrorInfoV> {
    match fm.schema_path {
        Some(p) => if trim_of(p).len() == 0 {
            seq![
                ErrorInfoV {
                    line: 0,
                    message:
                        "schema_path\u{304c}\u{7a7a}\u{3067}\u{3059}"@,
                    path: "schema_path"@,
                    code: ErrorCode::FrontmatterValidation,
                },
            ]
        } else {
            Seq::empty()
        },
        None => Seq::empty(),
    }
}

/// Checks a front matter's fields: a present `schema_path` must not be
/// blank; the result is a success exactly when nothing is wrong.
pub fn validate_frontmatter(frontmatter: &Frontmatter) -> (r: ValidationResult)
    ensures
        r@.errors == validate_frontmatter_spec(frontmatter@),
        r@.success == (validate_frontmatter_spec(frontmatter@).len() == 0),
{
    if let Some(path) = &frontmatter.schema_path {
        let t = trim(path.as_str());
        if t.unicode_len() == 0 {
            let info = ErrorInfo::new(
                0,
                String::from_str("schema_path\u{304c}\u{7a7a}\u{3067}\u{3059}"),
                String::from_str("schema_path"),
                ErrorCode::FrontmatterValidation,
            );
            proof {
                reveal_strlit("schema_path\u{304c}\u{7a7a}\u{3067}\u{3059}");
                reveal_strlit("schema_path");
            }
            let r = ValidationResult::single_error(info);
            proof {
                assert(r@.errors =~= validate_frontmatter_spec(frontmatter@));
            }
            return r;
        }
    }
    let r = ValidationResult::success();
    proof {
        assert(r@.errors =~= validate_frontmatter_spec(frontmatter@));
    }
    r
}

/// What parsing and then checking the front matter of `md` reports, as
/// JSON text.
pub open spec fn parse_and_validate_frontmatter_spec(md: Seq<char>) -> Seq<char> {
    match parse_frontmatter_spec(md) {
        Ok(fmv) => {
            let errs = validate_frontmatter_spec(fmv);
            render_result(ValidationResultV { success: errs.len() == 0, errors: errs })
        },
        Err(m) => render_result(
            ValidationResultV {
                success: false,
                errors: seq![
                    ErrorInfoV {
                        line: 0,
                        message: "Frontmatter parse error: "@ + m,
                        path: Seq::empty(),
                        code: ErrorCode::FrontmatterParse,
                    },
                ],
            },
        ),
    }
}

/// Parses the front matter of a document and checks its fields, reporting
/// the outcome as JSON text.
pub fn parse_and_validate_frontmatter(md_str: &str) -> (r: String)
    ensures
        r@ == parse_and_validate_frontmatter_spec(md_str@),
{
    match parse_frontmatter(md_str) {
        Ok(frontmatter) => {
            let result = validate_frontmatter(&frontmatter);
            result.to_json()
        },
        Err(e) => {
            let msg = e.to_message();
            let info = ErrorInfo::new(0, msg, String::new(), ErrorCode::FrontmatterParse);
            let vr = ValidationResult::single_error(info);
            proof {
                assert(vr@.errors =~= (match parse_frontmatter_spec(md_str@) {
                    Err(m) => seq![
                        ErrorInfoV {
                            line: 0,
                            message: "Frontmatter parse error: "@ + m,
                            path: Seq::<char>::empty(),
                            code: ErrorCode::FrontmatterParse,
                        },
                    ],
                    Ok(_) => vr@.errors,
                }));
            }
            vr.to_json()
        },
    }
}

} // verus!
