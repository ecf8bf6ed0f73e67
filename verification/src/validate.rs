//! Validation of a YAML document against a structural schema: the
//! document and the schema are decoded, the schema is compiled and run by
//! the validator, and each reported error is mapped to a structured record
//! with a best-effort line number.

use vstd::prelude::*;

use crate::codec::SchemaOutcome;
use crate::codec::SchemaOutcomeV;
use crate::codec::decode_yaml;
use crate::codec::doc_integral;
use crate::codec::float_marked;
use crate::codec::is_float_marker;
use crate::codec::schema_check_of;
use crate::codec::schema_entry_ok;
use crate::codec::schema_safe;
use crate::codec::schema_wants_integral_doc;
use crate::codec::uint_number_text;
use crate::codec::validate_with_schema;
use crate::codec::validator_safe;
use crate::codec::yaml_doc_of;
use crate::path::ParsedIndex;
use crate::path::parse_index_value;
use crate::tree::Tree;
use crate::tree::TreeV;
use crate::tree::entries_view;
use crate::tree::elems_view;
use crate::error::ErrorInfo;
use crate::error::ErrorInfoV;
use crate::error::ValidationResult;
use crate::error::ValidationResultV;
use crate::error::render_result;
use crate::error_code::ErrorCode;
use crate::strings::contains;
use crate::strings::contains_of;
use crate::strings::join_slash;
use crate::strings::join_pieces_slash;
use crate::strings::last_segment;
use crate::strings::last_segment_exec;
use crate::strings::lines_of;
use crate::strings::split_lines;

verus! {

broadcast use vstd::std_specs::vec::axiom_vec_index_decreases, vstd::seq::axiom_seq_index_decreases;

/// Index of the first line holding both the key and a colon, or the
/// number of lines.
pub open spec fn hit_idx(lines: Seq<Seq<char>>, from: int, k: Seq<char>) -> int
    decreases lines.len() - from,
{
    if from < 0 || from >= lines.len() {
        lines.len() as int
    } else if contains_of(lines[from], k) && contains_of(lines[from], ":"@) {
        from
    } else {
        hit_idx(lines, from + 1, k)
    }
}

/// The one-based number of the first line that mentions the last segment
/// of `path` together with a colon, or 0 when no line does.
pub open spec fn find_line_spec(y: Seq<char>, path: Seq<char>) -> u32 {
    let lines = lines_of(y);
    let hit = hit_idx(lines, 0, last_segment(path));
    if hit >= lines.len() || hit + 1 > u32::MAX {
        0u32
    } else {
        (hit + 1) as u32
    }
}

proof fn lemma_hit_idx(lines: Seq<Seq<char>>, from: int, d: int, k: Seq<char>)
    requires
        0 <= from,
        from + d <= lines.len(),
        0 <= d,
        forall|q: int|
            from <= q < from + d ==> !(contains_of(#[trigger] lines[q], k) && contains_of(
                lines[q],
                ":"@,
            )),
        from + d < lines.len() ==> contains_of(lines[from + d], k) && contains_of(
            lines[from + d],
            ":"@,
        ),
    ensures
        hit_idx(lines, from, k) == if from + d < lines.len() {
            from + d
        } else {
            lines.len() as int
        },
    decreases d,
{
    if d > 0 {
        lemma_hit_idx(lines, from + 1, d - 1, k);
    }
}

/// Finds the one-based line of the last path segment: the first line that
/// mentions it together with a colon, or 0.
#[verifier::loop_isolation(false)]
pub fn find_line_for_path(yaml_str: &str, path: String) -> (r: u32)
    ensures
        r == find_line_spec(yaml_str@, path@),
{
    let ghost lsv = lines_of(yaml_str@);
    let lines = split_lines(yaml_str);
    let last_key = last_segment_exec(path.as_str());
    let mut i: usize = 0;
    while i < lines.len()
        invariant
            i <= lines@.len(),
            forall|q: int|
                0 <= q < i ==> !(contains_of(#[trigger] lines.deep_view()[q], last_key@)
                    && contains_of(lines.deep_view()[q], ":"@)),
        decreases lines@.len() - i,
    {
        proof {
            assert(lines.deep_view()[i as int] == lines@[i as int]@);
            reveal_strlit(":");
        }
        if contains(lines[i].as_str(), last_key.as_str()) && contains(lines[i].as_str(), ":") {
            proof {
                lemma_hit_idx(lines.deep_view(), 0, i as int, last_key@);
            }
            if i < 0xffff_ffff {
                return (i + 1) as u32;
            }
            return 0;
        }
        i = i + 1;
    }
    proof {
        lemma_hit_idx(lines.deep_view(), 0, lines@.len() as int, last_key@);
    }
    0
}


/// Whether the number text carries a fraction or exponent marker.
#[verifier::loop_isolation(false)]
fn has_float_marker(s: &str) -> (r: bool)
    ensures
        r == float_marked(s@),
{
    let n = s.unicode_len();
    let mut i: usize = 0;
    while i < n
        invariant
            i <= n,
            forall|j: int| 0 <= j < i ==> !is_float_marker(#[trigger] s@[j]),
        decreases n - i,
    {
        let c = s.get_char(i);
        if c == '.' || c == 'e' || c == 'E' {
            return true;
        }
        i = i + 1;
    }
    false
}

/// Whether the number text is a non-negative machine integer.
fn number_text_uint(s: &String) -> (r: bool)
    ensures
        r == uint_number_text(s@),
{
    match parse_index_value(s.as_str()) {
        ParsedIndex::Val(_) => true,
        ParsedIndex::Huge => false,
        ParsedIndex::NotDigits => false,
    }
}

/// Whether one schema entry is one the validator processes totally.
fn check_schema_entry(k: &String, v: &Tree) -> (r: bool)
    ensures
        r == schema_entry_ok(k@, v@),
{
    if k.eq(&String::from_str("$ref")) {
        return false;
    }
    let is_count = k.eq(&String::from_str("minItems")) || k.eq(&String::from_str("maxItems"))
        || k.eq(&String::from_str("minLength")) || k.eq(&String::from_str("maxLength")) || k.eq(
        &String::from_str("minProperties"),
    ) || k.eq(&String::from_str("maxProperties"));
    if is_count {
        if let Tree::Number(t) = v {
            if !number_text_uint(t) {
                return false;
            }
        }
    }
    if k.eq(&String::from_str("multipleOf")) {
        if let Tree::Number(t) = v {
            if has_float_marker(t.as_str()) {
                return true;
            }
            match parse_index_value(t.as_str()) {
                ParsedIndex::Val(x) => {
                    return x >= 1;
                },
                _ => {
                    return false;
                },
            }
        }
    }
    true
}

/// Whether one schema entry is an integral `multipleOf`.
fn check_integral_multiple(k: &String, v: &Tree) -> (r: bool)
    ensures
        r == (k@ == "multipleOf"@ && (v@ matches TreeV::Number(tx) && uint_number_text(tx))),
{
    if !k.eq(&String::from_str("multipleOf")) {
        return false;
    }
    match v {
        Tree::Number(t) => number_text_uint(t),
        _ => false,
    }
}

/// Walks a schema tree, deciding whether the validator processes it
/// totally and whether it carries an integral `multipleOf`.
#[verifier::loop_isolation(false)]
fn schema_scan(t: &Tree) -> (r: (bool, bool))
    ensures
        r.0 == schema_safe(t@),
        r.1 == schema_wants_integral_doc(t@),
    decreases t,
{
    match t {
        Tree::Mapping(entries) => {
            let ghost m = entries_view(entries@);
            let mut ok = true;
            let mut wants = false;
            for i in 0..entries.len()
                invariant
                    ok == (forall|j: int|
                        #![trigger m[j]]
                        0 <= j < i ==> schema_entry_ok(m[j].0, m[j].1) && schema_safe(m[j].1)),
                    wants == (exists|j: int|
                        #![trigger m[j]]
                        0 <= j < i && ((m[j].0 == "multipleOf"@ && (m[j].1
                            matches TreeV::Number(tx) && uint_number_text(tx)))
                            || schema_wants_integral_doc(m[j].1))),
                decreases entries@.len() - i,
            {
                proof {
                    assert(m[i as int] == (entries@[i as int].0@, entries@[i as int].1@));
                }
                let e_ok = check_schema_entry(&entries[i].0, &entries[i].1);
                let here_mult = check_integral_multiple(&entries[i].0, &entries[i].1);
                let child = schema_scan(&entries[i].1);
                let ghost old_ok = ok;
                let ghost old_wants = wants;
                ok = ok && e_ok && child.0;
                wants = wants || here_mult || child.1;
                proof {
                    if wants {
                        if old_wants {
                            let j = choose|j: int|
                                #![trigger m[j]]
                                0 <= j < i && ((m[j].0 == "multipleOf"@ && (m[j].1
                                    matches TreeV::Number(tx) && uint_number_text(tx)))
                                    || schema_wants_integral_doc(m[j].1));
                            assert(0 <= j < i + 1 && ((m[j].0 == "multipleOf"@ && (m[j].1
                                matches TreeV::Number(tx) && uint_number_text(tx)))
                                || schema_wants_integral_doc(m[j].1)));
                        } else {
                            assert(0 <= i < i + 1 && ((m[i as int].0 == "multipleOf"@ && (m[
                            i as int].1 matches TreeV::Number(tx) && uint_number_text(tx)))
                                || schema_wants_integral_doc(m[i as int].1)));
                        }
                    }
                }
            }
            proof {
                assert(t@ == TreeV::Mapping(m));
            }
            (ok, wants)
        },
        Tree::Sequence(elems) => {
            let ghost sv = elems_view(elems@);
            let mut ok = true;
            let mut wants = false;
            for i in 0..elems.len()
                invariant
                    ok == (forall|j: int| 0 <= j < i ==> schema_safe(#[trigger] sv[j])),
                    wants == (exists|j: int|
                        0 <= j < i && schema_wants_integral_doc(#[trigger] sv[j])),
                decreases elems@.len() - i,
            {
                proof {
                    assert(sv[i as int] == elems@[i as int]@);
                }
                let child = schema_scan(&elems[i]);
                let ghost old_wants = wants;
                ok = ok && child.0;
                wants = wants || child.1;
                proof {
                    if wants {
                        if old_wants {
                            let j = choose|j: int|
                                0 <= j < i && schema_wants_integral_doc(#[trigger] sv[j]);
                            assert(0 <= j < i + 1 && schema_wants_integral_doc(sv[j]));
                        } else {
                            assert(schema_wants_integral_doc(sv[i as int]));
                        }
                    }
                }
            }
            (ok, wants)
        },
        _ => (true, false),
    }
}

/// Whether every number of the document is a machine integer.
#[verifier::loop_isolation(false)]
fn check_doc_integral(t: &Tree) -> (r: bool)
    ensures
        r == doc_integral(t@),
    decreases t, 0int,
{
    match t {
        Tree::Number(s) => {
            proof {
                assert(t@ == TreeV::Number(s@));
            }
            number_text_uint(s)
        },
        Tree::Sequence(elems) => {
            let ghost sv = elems_view(elems@);
            proof {
                assert(t@ == TreeV::Sequence(sv));
            }
            let mut ok = true;
            for i in 0..elems.len()
                invariant
                    crate::codec::seq_doc_integral(sv, 0) == (ok
                        && crate::codec::seq_doc_integral(sv, i as int)),
                decreases elems@.len() - i,
            {
                proof {
                    assert(sv[i as int] == elems@[i as int]@);
                }
                let child = check_doc_integral(&elems[i]);
                ok = ok && child;
                proof {
                    assert(crate::codec::seq_doc_integral(sv, i as int) == (doc_integral(
                        sv[i as int],
                    ) && crate::codec::seq_doc_integral(sv, i as int + 1)));
                }
            }
            proof {
                assert(crate::codec::seq_doc_integral(sv, sv.len() as int));
            }
            ok
        },
        Tree::Mapping(entries) => {
            let ghost m = entries_view(entries@);
            proof {
                assert(t@ == TreeV::Mapping(m));
            }
            let mut ok = true;
            for i in 0..entries.len()
                invariant
                    crate::codec::map_doc_integral(m, 0) == (ok
                        && crate::codec::map_doc_integral(m, i as int)),
                decreases entries@.len() - i,
            {
                proof {
                    assert(m[i as int] == (entries@[i as int].0@, entries@[i as int].1@));
                }
                let child = check_doc_integral(&entries[i].1);
                ok = ok && child;
                proof {
                    assert(crate::codec::map_doc_integral(m, i as int) == (doc_integral(
                        m[i as int].1,
                    ) && crate::codec::map_doc_integral(m, i as int + 1)));
                }
            }
            proof {
                assert(crate::codec::map_doc_integral(m, m.len() as int));
            }
            ok
        },
        Tree::Null => {
            proof {
                assert(t@ == TreeV::Null);
            }
            true
        },
        Tree::Bool(b) => {
            proof {
                assert(t@ == TreeV::Bool(*b));
            }
            true
        },
        Tree::Text(x) => {
            proof {
                assert(t@ == TreeV::Text(x@));
            }
            true
        },
    }
}

/// The structured record of one validator error: its message, the pointer
/// of the offending node, and that node's best-effort line in the source
/// text.
pub open spec fn schema_error_info(y: Seq<char>, e: (Seq<char>, Seq<Seq<char>>)) -> ErrorInfoV {
    let path = if e.1.len() > 0 {
        seq!['/'] + join_slash(e.1)
    } else {
        Seq::<char>::empty()
    };
    ErrorInfoV {
        line: find_line_spec(y, path),
        message: e.0,
        path,
        code: ErrorCode::SchemaValidation,
    }
}

/// What validating `y` against `s` reports.
pub open spec fn validate_yaml_spec(y: Seq<char>, s: Seq<char>) -> Seq<char> {
    let vr: ValidationResultV = match yaml_doc_of(y) {
        Err(e) => ValidationResultV {
            success: false,
            errors: seq![
                ErrorInfoV {
                    line: e.0,
                    message: e.1,
                    path: Seq::empty(),
                    code: ErrorCode::YamlParse,
                },
            ],
        },
        Ok(doc) => match yaml_doc_of(s) {
            Err(e) => ValidationResultV {
                success: false,
                errors: seq![
                    ErrorInfoV {
                        line: e.0,
                        message: e.1,
                        path: Seq::empty(),
                        code: ErrorCode::YamlParse,
                    },
                ],
            },
            Ok(schema) => if !validator_safe(schema, doc) {
                ValidationResultV { success: false, errors: unsafe_pair_errors() }
            } else {
                match schema_check_of(schema, doc) {
                    SchemaOutcomeV::SchemaError(m) => ValidationResultV {
                        success: false,
                        errors: seq![
                            ErrorInfoV {
                                line: 0,
                                message: "Schema compile error: "@ + m,
                                path: Seq::empty(),
                                code: ErrorCode::SchemaCompile,
                            },
                        ],
                    },
                    SchemaOutcomeV::Valid => ValidationResultV {
                        success: true,
                        errors: Seq::empty(),
                    },
                    SchemaOutcomeV::Invalid(errs) => ValidationResultV {
                        success: false,
                        errors: Seq::new(errs.len(), |i: int| schema_error_info(y, errs[i])),
                    },
                }
            },
        },
    };
    render_result(vr)
}

/// The error list reported when the validator cannot be run on the pair.
pub open spec fn unsafe_pair_errors() -> Seq<ErrorInfoV> {
    seq![
        ErrorInfoV {
            line: 0,
            message: "Schema compile error: unsupported schema for validation"@,
            path: Seq::empty(),
            code: ErrorCode::SchemaCompile,
        },
    ]
}

/// Validates a YAML document against a schema (itself YAML or JSON
/// shaped), reporting the result as JSON text: a decode failure of either
/// input, a refused schema, or each validator error, with its message,
/// pointer and best-effort line. A pair the wrapped validator cannot
/// process totally (a reference walk, an ill-typed count bound, an
/// integral `multipleOf` against a fractional document) is refused up
/// front with a schema-compile error instead of being handed to it.
#[verifier::loop_isolation(false)]
pub fn validate_yaml(yaml_str: &str, schema_str: &str) -> (r: String)
    ensures
        r@ == validate_yaml_spec(yaml_str@, schema_str@),
{
    let doc = match decode_yaml(yaml_str) {
        Ok(t) => t,
        Err(e) => {
            let info = ErrorInfo::from_yaml_error(&e, ErrorCode::YamlParse);
            let vr = ValidationResult::single_error(info);
            proof {
                assert(vr@.errors =~= validate_result_errors_one(e.line, e.message@));
            }
            return vr.to_json();
        },
    };
    let schema = match decode_yaml(schema_str) {
        Ok(t) => t,
        Err(e) => {
            let info = ErrorInfo::from_yaml_error(&e, ErrorCode::YamlParse);
            let vr = ValidationResult::single_error(info);
            proof {
                assert(vr@.errors =~= validate_result_errors_one(e.line, e.message@));
            }
            return vr.to_json();
        },
    };
    let scan = schema_scan(&schema);
    let safe = scan.0 && (!scan.1 || check_doc_integral(&doc));
    if !safe {
        let info = ErrorInfo::new(
            0,
            String::from_str("Schema compile error: unsupported schema for validation"),
            String::new(),
            ErrorCode::SchemaCompile,
        );
        let vr = ValidationResult::single_error(info);
        proof {
            reveal_strlit("Schema compile error: unsupported schema for validation");
            assert(!validator_safe(schema@, doc@));
            assert(vr@.errors =~= unsafe_pair_errors());
        }
        return vr.to_json();
    }
    proof {
        assert(validator_safe(schema@, doc@));
    }
    match validate_with_schema(&doc, &schema) {
        SchemaOutcome::SchemaError(m) => {
            let mut msg = String::from_str("Schema compile error: ");
            msg.append(m.as_str());
            let info = ErrorInfo::new(0, msg, String::new(), ErrorCode::SchemaCompile);
            let vr = ValidationResult::single_error(info);
            proof {
                assert(validate_yaml_inner(yaml_str@, schema_str@) is Some);
                assert(vr@ =~~= validate_yaml_inner(yaml_str@, schema_str@)->Some_0);
            }
            vr.to_json()
        },
        SchemaOutcome::Valid => {
            let vr = ValidationResult::success();
            proof {
                assert(validate_yaml_inner(yaml_str@, schema_str@) is Some);
                assert(vr@ =~~= validate_yaml_inner(yaml_str@, schema_str@)->Some_0);
            }
            vr.to_json()
        },
        SchemaOutcome::Invalid(errs) => {
            let ghost errsv = (SchemaOutcome::Invalid(errs)@)->Invalid_0;
            let mut infos: Vec<ErrorInfo> = Vec::new();
            let mut i: usize = 0;
            while i < errs.len()
                invariant
                    i <= errs@.len(),
                    errsv.len() == errs@.len(),
                    forall|j: int|
                        0 <= j < errs@.len() ==> #[trigger] errsv[j] == (
                            errs@[j].0@,
                            errs@[j].1.deep_view(),
                        ),
                    infos@.len() == i,
                    forall|j: int|
                        0 <= j < i ==> #[trigger] infos@[j]@ == schema_error_info(
                            yaml_str@,
                            errsv[j],
                        ),
                decreases errs@.len() - i,
            {
                let segs = &errs[i].1;
                let path: String = if segs.len() > 0 {
                    let mut p = String::from_str("/");
                    let joined = join_pieces_slash(segs, 0);
                    p.append(joined.as_str());
                    proof {
                        reveal_strlit("/");
                        assert(segs.deep_view().subrange(0, segs@.len() as int)
                            =~= segs.deep_view());
                        assert(p@ =~= seq!['/'] + join_slash(segs.deep_view()));
                    }
                    p
                } else {
                    String::new()
                };
                let line = find_line_for_path(yaml_str, path.clone());
                let info = ErrorInfo::new(
                    line,
                    errs[i].0.clone(),
                    path,
                    ErrorCode::SchemaValidation,
                );
                infos.push(info);
                proof {
                    assert(infos@[i as int]@ == schema_error_info(yaml_str@, errsv[i as int]));
                }
                i = i + 1;
            }
            let vr = ValidationResult::error(infos);
            proof {
                assert(vr@.errors =~= Seq::new(
                    errsv.len(),
                    |j: int| schema_error_info(yaml_str@, errsv[j]),
                ));
            }
            vr.to_json()
        },
    }
}

/// The validation result of the happy path (both inputs decode), when
/// there is one.
pub open spec fn validate_yaml_inner(y: Seq<char>, s: Seq<char>) -> Option<ValidationResultV> {
    match (yaml_doc_of(y), yaml_doc_of(s)) {
        (Ok(doc), Ok(schema)) => Some(
            if !validator_safe(schema, doc) {
                ValidationResultV { success: false, errors: unsafe_pair_errors() }
            } else {
                match schema_check_of(schema, doc) {
                SchemaOutcomeV::SchemaError(m) => ValidationResultV {
                    success: false,
                    errors: seq![
                        ErrorInfoV {
                            line: 0,
                            message: "Schema compile error: "@ + m,
                            path: Seq::empty(),
                            code: ErrorCode::SchemaCompile,
                        },
                    ],
                },
                SchemaOutcomeV::Valid => ValidationResultV { success: true, errors: Seq::empty() },
                    SchemaOutcomeV::Invalid(errs) => ValidationResultV {
                        success: false,
                        errors: Seq::new(errs.len(), |i: int| schema_error_info(y, errs[i])),
                    },
                }
            },
        ),
        _ => None,
    }
}

/// One decode-failure error list.
pub open spec fn validate_result_errors_one(line: u32, message: Seq<char>) -> Seq<ErrorInfoV> {
    seq![
        ErrorInfoV { line, message, path: Seq::empty(), code: ErrorCode::YamlParse },
    ]
}

} // verus!
