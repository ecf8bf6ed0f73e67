//! The boundary to the textual document formats: decoding YAML and JSON
//! text into trees, encoding trees back to text, and structural schema
//! validation. Each outside call sits behind a trusted wrapper whose
//! contract names the call's result; everything around the calls is
//! verified.

use vstd::prelude::*;

use crate::path::digits_val;
use crate::path::valid_index_digits;
use crate::tree::Tree;
use crate::tree::TreeV;
use crate::tree::wf;

verus! {

/// A failed decode: a best-effort one-based line number (0 when the format
/// reports none) and the reporter's message.
#[derive(Debug)]
pub struct YamlError {
    pub line: u32,
    pub message: String,
}

/// What parsing YAML text yields: the tree, or the error's line and
/// message. The result depends on the text alone.
pub uninterp spec fn yaml_doc_of(text: Seq<char>) -> Result<TreeV, (u32, Seq<char>)>;

/// What rendering a tree as YAML text yields, when the encoder accepts it.
/// The result depends on the tree alone.
pub uninterp spec fn yaml_text_of(t: TreeV) -> Option<Seq<char>>;

/// What parsing JSON text yields, when it parses. The result depends on
/// the text alone.
pub uninterp spec fn json_doc_of(text: Seq<char>) -> Option<TreeV>;

/// What rendering a tree as JSON text yields, when the encoder accepts it.
/// The result depends on the tree alone.
pub uninterp spec fn json_text_of(t: TreeV) -> Option<Seq<char>>;

#[verifier::external_type_specification]
#[verifier::external_body]
pub struct ExYamlValue(serde_yaml::Value);

#[verifier::external_type_specification]
#[verifier::external_body]
pub struct ExJsonValue(serde_json::Value);

/// Relies on serde_yaml's `Value` model: converts a parsed dynamic value
/// into a tree, one node for one node; a mapping key that is not a string
/// refuses the whole document, numbers keep their decimal rendering, a
/// tagged value stands for its payload.
#[verifier::external_body]
fn yaml_value_to_tree(v: &serde_yaml::Value) -> (r: Option<Tree>) {
    match v {
        serde_yaml::Value::Null => Some(Tree::Null),
        serde_yaml::Value::Bool(b) => Some(Tree::Bool(*b)),
        serde_yaml::Value::Number(n) => Some(Tree::Number(n.to_string())),
        serde_yaml::Value::String(s) => Some(Tree::Text(s.clone())),
        serde_yaml::Value::Sequence(xs) => xs.iter().map(yaml_value_to_tree).collect::<Option<
            Vec<Tree>,
        >>().map(Tree::Sequence),
        serde_yaml::Value::Mapping(m) => m.iter().map(|(k, x)| yaml_entry_to_pair(k, x)).collect::<
            Option<Vec<(String, Tree)>>,
        >().map(Tree::Mapping),
        serde_yaml::Value::Tagged(t) => yaml_value_to_tree(&t.value),
    }
}

/// Relies on serde_yaml's `Value` model: one mapping entry; a key that is
/// not a string is refused.
#[verifier::external_body]
fn yaml_entry_to_pair(k: &serde_yaml::Value, x: &serde_yaml::Value) -> (r: Option<(String, Tree)>) {
    match (k, yaml_value_to_tree(x)) {
        (serde_yaml::Value::String(ks), Some(t)) => Some((ks.clone(), t)),
        _ => None,
    }
}

/// Relies on serde_yaml::from_str::<Value>: the parse result depends on
/// the text alone; duplicate mapping keys are rejected by the parser and
/// non-string keys by the conversion, so a decoded tree is well formed.
#[verifier::external_body]
pub(crate) fn decode_yaml(text: &str) -> (r: Result<Tree, YamlError>)
    ensures
        (match r {
            Ok(t) => Ok::<TreeV, (u32, Seq<char>)>(t@),
            Err(e) => Err::<TreeV, (u32, Seq<char>)>((e.line, e.message@)),
        }) == yaml_doc_of(text@),
        r matches Ok(t) ==> wf(t@),
{
    match serde_yaml::from_str::<serde_yaml::Value>(text) {
        Ok(v) => match yaml_value_to_tree(&v) {
            Some(t) => Ok(t),
            None => Err(
                YamlError { line: 0, message: "unsupported mapping key".to_string() },
            ),
        },
        Err(e) => Err(
            YamlError {
                line: e.location().map(|l| l.line() as u32).unwrap_or(0),
                message: e.to_string(),
            },
        ),
    }
}

/// Relies on serde_yaml's `Value` model: converts a tree into a dynamic
/// value, one node for one node; a number keeps its decimal rendering.
#[verifier::external_body]
fn tree_to_yaml_value(t: &Tree) -> (r: serde_yaml::Value) {
    match t {
        Tree::Null => serde_yaml::Value::Null,
        Tree::Bool(b) => serde_yaml::Value::Bool(*b),
        Tree::Number(s) => yaml_number_of(s),
        Tree::Text(s) => serde_yaml::Value::String(s.clone()),
        Tree::Sequence(v) => serde_yaml::Value::Sequence(
            v.iter().map(tree_to_yaml_value).collect(),
        ),
        Tree::Mapping(v) => serde_yaml::Value::Mapping(
            v.iter().map(
                |(k, c)| (serde_yaml::Value::String(k.clone()), tree_to_yaml_value(c)),
            ).collect(),
        ),
    }
}

/// Relies on serde_yaml's `Number` parse: a number keeps its decimal
/// rendering, anything unparseable falls back to text.
#[verifier::external_body]
fn yaml_number_of(s: &String) -> (r: serde_yaml::Value) {
    match s.parse::<serde_yaml::Number>() {
        Ok(n) => serde_yaml::Value::Number(n),
        Err(_) => serde_yaml::Value::String(s.clone()),
    }
}

/// Relies on serde_yaml::to_string: the rendering depends on the tree
/// alone.
#[verifier::external_body]
pub(crate) fn encode_yaml_raw(t: &Tree) -> (r: Option<String>)
    ensures
        (match r {
            Some(s) => Some(s@),
            None => None::<Seq<char>>,
        }) == yaml_text_of(t@),
{
    let v = tree_to_yaml_value(t);
    serde_yaml::to_string(&v).ok()
}

/// Relies on serde_json's `Value` model: converts a parsed dynamic value
/// into a tree, one node for one node.
#[verifier::external_body]
fn json_value_to_tree(v: &serde_json::Value) -> (r: Tree) {
    match v {
        serde_json::Value::Null => Tree::Null,
        serde_json::Value::Bool(b) => Tree::Bool(*b),
        serde_json::Value::Number(n) => Tree::Number(n.to_string()),
        serde_json::Value::String(s) => Tree::Text(s.clone()),
        serde_json::Value::Array(xs) => Tree::Sequence(
            xs.iter().map(|x| json_value_to_tree(x)).collect(),
        ),
        serde_json::Value::Object(m) => Tree::Mapping(
            m.iter().map(|(k, x)| (k.clone(), json_value_to_tree(x))).collect(),
        ),
    }
}

/// Relies on serde_json::from_str::<Value>: the parse result depends on
/// the text alone; object keys are unique after parsing, so a decoded
/// tree is well formed.
#[verifier::external_body]
pub(crate) fn decode_json(text: &str) -> (r: Option<Tree>)
    ensures
        (match r {
            Some(t) => Some(t@),
            None => None::<TreeV>,
        }) == json_doc_of(text@),
        r matches Some(t) ==> wf(t@),
{
    serde_json::from_str::<serde_json::Value>(text).ok().map(|v| json_value_to_tree(&v))
}

/// Relies on serde_json's `Value` model: converts a tree into a dynamic
/// value, one node for one node; a number keeps its decimal rendering.
#[verifier::external_body]
fn tree_to_json_value(t: &Tree) -> (r: serde_json::Value) {
    match t {
        Tree::Null => serde_json::Value::Null,
        Tree::Bool(b) => serde_json::Value::Bool(*b),
        Tree::Number(s) => json_number_of(s),
        Tree::Text(s) => serde_json::Value::String(s.clone()),
        Tree::Sequence(v) => serde_json::Value::Array(
            v.iter().map(tree_to_json_value).collect(),
        ),
        Tree::Mapping(v) => serde_json::Value::Object(
            v.iter().map(|(k, c)| (k.clone(), tree_to_json_value(c))).collect(),
        ),
    }
}

/// Relies on serde_json's `Number` parse: a number keeps its decimal
/// rendering, anything unparseable falls back to text.
#[verifier::external_body]
fn json_number_of(s: &String) -> (r: serde_json::Value) {
    match serde_json::from_str::<serde_json::Number>(s) {
        Ok(n) => serde_json::Value::Number(n),
        Err(_) => serde_json::Value::String(s.clone()),
    }
}

/// Relies on serde_json::to_string: the rendering depends on the tree
/// alone.
#[verifier::external_body]
pub(crate) fn encode_json_raw(t: &Tree) -> (r: Option<String>)
    ensures
        (match r {
            Some(s) => Some(s@),
            None => None::<Seq<char>>,
        }) == json_text_of(t@),
{
    let v = tree_to_json_value(t);
    serde_json::to_string(&v).ok()
}

/// A character that makes a JSON number non-integral to the reader.
pub open spec fn is_float_marker(c: char) -> bool {
    c == '.' || c == 'e' || c == 'E'
}

/// The number text contains a fraction or exponent marker, so the JSON
/// reader holds it as a float.
pub open spec fn float_marked(t: Seq<char>) -> bool {
    exists|i: int| 0 <= i < t.len() && is_float_marker(#[trigger] t[i])
}

/// A number text the JSON reader holds as a non-negative machine integer.
pub open spec fn uint_number_text(t: Seq<char>) -> bool {
    valid_index_digits(t) && digits_val(t) <= usize::MAX
}

/// The keywords whose numeric values the wrapped validator reads as
/// unsigned machine integers.
pub open spec fn count_keyword(k: Seq<char>) -> bool {
    ||| k == "minItems"@
    ||| k == "maxItems"@
    ||| k == "minLength"@
    ||| k == "maxLength"@
    ||| k == "minProperties"@
    ||| k == "maxProperties"@
}

/// One schema mapping entry the wrapped validator processes totally: no
/// reference walk, count bounds that are unsigned machine integers, and a
/// `multipleOf` that is either fractional or a positive integer.
pub open spec fn schema_entry_ok(k: Seq<char>, v: TreeV) -> bool {
    &&& k != "$ref"@
    &&& (count_keyword(k) ==> match v {
        TreeV::Number(t) => uint_number_text(t),
        _ => true,
    })
    &&& (k == "multipleOf"@ ==> match v {
        TreeV::Number(t) => float_marked(t) || (uint_number_text(t) && digits_val(t) >= 1),
        _ => true,
    })
}

/// Every mapping entry of the schema tree, at every level, is one the
/// wrapped validator processes totally.
pub open spec fn schema_safe(t: TreeV) -> bool
    decreases t,
{
    match t {
        TreeV::Mapping(m) => forall|i: int|
            #![trigger m[i]]
            0 <= i < m.len() ==> schema_entry_ok(m[i].0, m[i].1) && schema_safe(m[i].1),
        TreeV::Sequence(s) => forall|i: int| 0 <= i < s.len() ==> schema_safe(#[trigger] s[i]),
        _ => true,
    }
}

/// The schema carries an integral `multipleOf` somewhere, so the wrapped
/// validator reads the numbers of the document as machine integers.
pub open spec fn schema_wants_integral_doc(t: TreeV) -> bool
    decreases t,
{
    match t {
        TreeV::Mapping(m) => exists|i: int|
            #![trigger m[i]]
            0 <= i < m.len() && ((m[i].0 == "multipleOf"@ && (m[i].1 matches TreeV::Number(tx)
                && uint_number_text(tx))) || schema_wants_integral_doc(m[i].1)),
        TreeV::Sequence(s) => exists|i: int|
            0 <= i < s.len() && schema_wants_integral_doc(#[trigger] s[i]),
        _ => false,
    }
}

/// Every number of the document is a non-negative machine integer.
pub open spec fn doc_integral(t: TreeV) -> bool
    decreases t, 0int,
{
    match t {
        TreeV::Number(tx) => uint_number_text(tx),
        TreeV::Sequence(s) => seq_doc_integral(s, 0),
        TreeV::Mapping(m) => map_doc_integral(m, 0),
        _ => true,
    }
}

/// Every number of the elements `s[i..]` is a machine integer.
pub open spec fn seq_doc_integral(s: Seq<TreeV>, i: int) -> bool
    decreases s, 1int, s.len() - i,
{
    if i < 0 || i >= s.len() {
        true
    } else {
        doc_integral(s[i]) && seq_doc_integral(s, i + 1)
    }
}

/// Every number of the entry values `m[i..]` is a machine integer.
pub open spec fn map_doc_integral(m: Seq<(Seq<char>, TreeV)>, i: int) -> bool
    decreases m, 1int, m.len() - i,
{
    if i < 0 || i >= m.len() {
        true
    } else {
        doc_integral(m[i].1) && map_doc_integral(m, i + 1)
    }
}

/// The pairs of schema and document on which the wrapped validator is
/// total: a safe schema, and an all-integer document wherever the schema
/// carries an integral `multipleOf`.
pub open spec fn validator_safe(schema: TreeV, doc: TreeV) -> bool {
    schema_safe(schema) && (schema_wants_integral_doc(schema) ==> doc_integral(doc))
}

/// Outcome of validating a document against a structural schema.
pub enum SchemaOutcome {
    /// The schema itself was refused, with the compiler's message.
    SchemaError(String),
    /// The document conforms.
    Valid,
    /// The document does not conform: each error's message and its
    /// instance path segments, in the validator's order.
    Invalid(Vec<(String, Vec<String>)>),
}

/// Model of a validation outcome.
pub enum SchemaOutcomeV {
    SchemaError(Seq<char>),
    Valid,
    Invalid(Seq<(Seq<char>, Seq<Seq<char>>)>),
}

impl View for SchemaOutcome {
    type V = SchemaOutcomeV;

    open spec fn view(&self) -> SchemaOutcomeV {
        match self {
            SchemaOutcome::SchemaError(m) => SchemaOutcomeV::SchemaError(m@),
            SchemaOutcome::Valid => SchemaOutcomeV::Valid,
            SchemaOutcome::Invalid(v) => SchemaOutcomeV::Invalid(
                Seq::new(
                    v@.len(),
                    |i: int|
                        if 0 <= i < v@.len() {
                            (v@[i].0@, v@[i].1.deep_view())
                        } else {
                            (Seq::<char>::empty(), Seq::<Seq<char>>::empty())
                        },
                ),
            ),
        }
    }
}

/// What validating `doc` against `schema` yields. The outcome depends on
/// the two trees alone.
pub uninterp spec fn schema_check_of(schema: TreeV, doc: TreeV) -> SchemaOutcomeV;

/// Relies on jsonschema_valid::Config::from_schema (draft 7) and
/// Config::validate: compiling the schema and walking the document are
/// deterministic in the two values, and on every pair that
/// `validator_safe` admits the calls return: the validator's unsigned
/// reads of the count keywords and of `multipleOf` cannot fail, its
/// `multipleOf` reads of the document's numbers cannot fail, and no
/// reference walk happens. Each reported error carries its message and
/// its instance path.
#[verifier::external_body]
pub(crate) fn validate_with_schema(doc: &Tree, schema: &Tree) -> (r: SchemaOutcome)
    requires
        validator_safe(schema@, doc@),
    ensures
        r@ == schema_check_of(schema@, doc@),
{
    let sv = tree_to_json_value(schema);
    let dv = tree_to_json_value(doc);
    match jsonschema_valid::Config::from_schema(
        &sv,
        Some(jsonschema_valid::schemas::Draft::Draft7),
    ) {
        Err(e) => SchemaOutcome::SchemaError(e.to_string()),
        Ok(cfg) => match cfg.validate(&dv) {
            Ok(()) => SchemaOutcome::Valid,
            Err(errors) => SchemaOutcome::Invalid(
                errors.map(|e| (e.to_string(), e.instance_path.clone())).collect(),
            ),
        },
    }
}

} // verus!
