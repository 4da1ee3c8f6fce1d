//! Choice of the reader for a dataset file: its format, from an explicit
//! argument or from the file's extension.

use vstd::prelude::*;

use crate::document::{DataType, Field};
use arrow_schema::DataType as ArrowType;

verus! {

/// The formats a dataset file can be read in.
#[derive(Clone, Copy, Debug, PartialEq, Eq, Structural)]
pub enum DatasetType {
    /// One JSON object per line (the default).
    JSONL,
    /// A JSON document.
    JSON,
}

/// The names of the supported formats, as an error message lists them.
pub const SUPPORTED_DATASET_TYPES: [&'static str; 2] = ["JSONL", "JSON"];

/// A character folded to lower case when it is an ASCII upper-case letter, as a code point.
pub open spec fn ascii_lower(c: char) -> u32 {
    if 'A' <= c && c <= 'Z' {
        (c as u32 + 32) as u32
    } else {
        c as u32
    }
}

/// Whether `s` is `lower` (a lower-case name) up to the case of ASCII letters.
pub open spec fn names_match(s: Seq<char>, lower: Seq<char>) -> bool {
    &&& s.len() == lower.len()
    &&& forall|i: int| 0 <= i < s.len() ==> ascii_lower(#[trigger] s[i]) == lower[i] as u32
}

/// The format named `s`: its name in any mix of cases (`jsonl`, `Json`, ...).
pub open spec fn spec_from_name(s: Seq<char>) -> Option<DatasetType> {
    if names_match(s, "jsonl"@) {
        Some(DatasetType::JSONL)
    } else if names_match(s, "json"@) {
        Some(DatasetType::JSON)
    } else {
        None
    }
}

/// The name of a format.
pub open spec fn spec_name(t: DatasetType) -> Seq<char> {
    match t {
        DatasetType::JSONL => "JSONL"@,
        DatasetType::JSON => "JSON"@,
    }
}

/// Each format is found again from its name.
pub proof fn law_format_names_round_trip(t: DatasetType)
    ensures
        spec_from_name(spec_name(t)) == Some(t),
{
    reveal_strlit("JSONL");
    reveal_strlit("JSON");
    reveal_strlit("jsonl");
    reveal_strlit("json");
    match t {
        DatasetType::JSONL => {
            assert(names_match("JSONL"@, "jsonl"@));
        },
        DatasetType::JSON => {
            assert(!names_match("JSON"@, "jsonl"@));
            assert(names_match("JSON"@, "json"@));
        },
    }
}

fn names_match_exec(s: &str, lower: &str) -> (b: bool)
    ensures
        b == names_match(s@, lower@),
{
    let n = s.unicode_len();
    if n != lower.unicode_len() {
        return false;
    }
    for i in 0..n
        invariant
            n == s@.len() == lower@.len(),
            forall|j: int| 0 <= j < i ==> ascii_lower(#[trigger] s@[j]) == lower@[j] as u32,
    {
        let c = s.get_char(i);
        let t = lower.get_char(i);
        let folded: u32 = if 'A' <= c && c <= 'Z' { c as u32 + 32 } else { c as u32 };
        if folded != t as u32 {
            return false;
        }
    }
    true
}

/// The reason a format name was refused.
#[derive(Clone, Copy, Debug, PartialEq, Eq, Structural)]
pub struct ParseDatasetTypeError;

impl DatasetType {
    /// The format named `s`, case-insensitively; `None` for another name.
    pub fn from_name(s: &str) -> (r: Option<DatasetType>)
        ensures
            r == spec_from_name(s@),
    {
        proof {
            reveal_strlit("jsonl");
            reveal_strlit("json");
        }
        if names_match_exec(s, "jsonl") {
            Some(DatasetType::JSONL)
        } else if names_match_exec(s, "json") {
            Some(DatasetType::JSON)
        } else {
            None
        }
    }

    /// Every format, each once.
    pub fn all() -> (r: Vec<DatasetType>)
        ensures
            forall|t: DatasetType| #[trigger] r@.contains(t),
            forall|i: int, j: int| 0 <= i < j < r@.len() ==> r@[i] != r@[j],
    {
        let r = vec![DatasetType::JSONL, DatasetType::JSON];
        assert forall|t: DatasetType| #[trigger] r@.contains(t) by {
            match t {
                DatasetType::JSONL => assert(r@[0] == t),
                DatasetType::JSON => assert(r@[1] == t),
            }
        }
        r
    }

    /// The name of the format.
    pub fn as_str(&self) -> (s: &'static str)
        ensures
            s@ == spec_name(*self),
    {
        match self {
            DatasetType::JSONL => "JSONL",
            DatasetType::JSON => "JSON",
        }
    }
}

impl Default for DatasetType {
    fn default() -> (r: DatasetType)
        ensures
            r == DatasetType::JSONL,
    {
        DatasetType::JSONL
    }
}

impl std::str::FromStr for DatasetType {
    type Err = ParseDatasetTypeError;

    fn from_str(s: &str) -> (r: Result<DatasetType, ParseDatasetTypeError>)
        ensures
            r == match spec_from_name(s@) {
                Some(t) => Ok::<DatasetType, ParseDatasetTypeError>(t),
                None => Err::<DatasetType, ParseDatasetTypeError>(ParseDatasetTypeError),
            },
    {
        match DatasetType::from_name(s) {
            Some(t) => Ok(t),
            None => Err(ParseDatasetTypeError),
        }
    }
}

/// The extension of the file that `path` names, as `std::path::Path::extension` gives it.
pub uninterp spec fn path_extension(path: Seq<char>) -> Option<Seq<char>>;

/// `std::path::Path::extension` of `path`, converted back to a string slice with
/// `std::ffi::OsStr::to_str` (which succeeds, the path being UTF-8). The contract
/// claims that the result depends on the path alone; which extension a path has
/// (the part of its file name after the last dot) is not stated.
#[verifier::external_body]
fn extension_of(path: &str) -> (r: Option<&str>)
    ensures
        match r {
            Some(e) => path_extension(path@) == Some(e@),
            None => path_extension(path@) is None,
        },
{
    match std::path::Path::new(path).extension() {
        Some(e) => e.to_str(),
        None => None,
    }
}

/// The format of a file with extension `ext`: JSON when the extension names it,
/// else (another extension, or none) the default, JSONL.
pub open spec fn spec_type_from_extension(ext: Option<Seq<char>>) -> DatasetType {
    match ext {
        Some(e) => match spec_from_name(e) {
            Some(t) => t,
            None => DatasetType::JSONL,
        },
        None => DatasetType::JSONL,
    }
}

/// A file is read as JSON exactly when its extension is `json` in some mix of
/// cases; any other extension, or none, gives the default format, JSONL.
pub proof fn law_extension_chooses_json_only_when_named(ext: Option<Seq<char>>)
    ensures
        (spec_type_from_extension(ext) == DatasetType::JSON) == (ext matches Some(e) && names_match(e, "json"@)),
        spec_type_from_extension(ext) != DatasetType::JSON ==> spec_type_from_extension(ext) == DatasetType::JSONL,
{
    reveal_strlit("json");
    reveal_strlit("jsonl");
    if let Some(e) = ext {
        if names_match(e, "jsonl"@) {
            assert(!names_match(e, "json"@));
        }
    }
}

/// The refusal of a format argument that names no supported format.
#[derive(Debug)]
pub struct UnsupportedDatasetType {
    /// The argument that was refused.
    pub given: String,
}

impl UnsupportedDatasetType {
    /// The message that explains the refusal and lists the supported formats.
    pub fn message(&self) -> (m: String)
        ensures
            m@ == "could not parse the dataset type. Supported dataset types are [\n    \"JSONL\",\n    \"JSON\",\n]"@,
    {
        String::from_str("could not parse the dataset type. Supported dataset types are [\n    \"JSONL\",\n    \"JSON\",\n]")
    }
}

impl DatasetType {
    /// The format of a file with extension `ext`.
    pub fn from_extension(ext: Option<&str>) -> (t: DatasetType)
        ensures
            t == spec_type_from_extension(
                match ext {
                    Some(e) => Some(e@),
                    None => None,
                },
            ),
    {
        match ext {
            Some(e) => match DatasetType::from_name(e) {
                Some(t) => t,
                None => DatasetType::default(),
            },
            None => DatasetType::default(),
        }
    }

    /// The format to read `path` in: the one `arg` names when it is given (an
    /// error when it names none), else the one the file's extension names,
    /// JSONL by default.
    pub fn parse_from_arg_or_path(arg: Option<String>, path: &str) -> (r: Result<
        DatasetType,
        UnsupportedDatasetType,
    >)
        ensures
            match arg {
                None => r == Ok::<DatasetType, UnsupportedDatasetType>(
                    spec_type_from_extension(path_extension(path@)),
                ),
                Some(v) => match spec_from_name(v@) {
                    Some(t) => r == Ok::<DatasetType, UnsupportedDatasetType>(t),
                    None => r matches Err(e) && e.given@ == v@,
                },
            },
    {
        match arg {
            None => Ok(DatasetType::from_extension(extension_of(path))),
            Some(v) => match DatasetType::from_name(v.as_str()) {
                Some(t) => Ok(t),
                None => Err(UnsupportedDatasetType { given: v }),
            },
        }
    }
}

/// The schema type of `arrow_schema`, which a JSON reader is built with.
#[verifier::external_type_specification]
#[verifier::external_body]
pub struct ExArrowSchema(arrow_schema::Schema);

/// The fields (name and type, in order) that `arrow_json` infers from the first
/// `max_records` records of the JSON text `bytes`; `None` where it fails.
pub uninterp spec fn inferred_fields(bytes: Seq<u8>, max_records: nat) -> Option<Seq<(Seq<char>, DataType)>>;

/// The names and types of a list of fields, in order.
pub open spec fn fields_view(fields: Seq<Field>) -> Seq<(Seq<char>, DataType)> {
    fields.map_values(|f: Field| (f.name@, f.data_type))
}

/// `arrow_json::reader::infer_json_schema_from_seekable` on a cursor over
/// `bytes`, reading at most `max_records` records, with the schema it infers and
/// that schema's fields, each arrow type mapped to the library's `DataType`
/// (`Unsupported` for every type that no linter reads). The contract claims
/// that the fields depend on `bytes` and `max_records` alone (`arrow_json`
/// gathers them in maps that keep insertion order) and that the call fails or
/// succeeds by the same token; which fields a text has is not stated.
#[verifier::external_body]
fn infer_fields(bytes: &[u8], max_records: usize) -> (r: Option<(arrow_schema::Schema, Vec<Field>)>)
    ensures
        match r {
            Some(s) => inferred_fields(bytes@, max_records as nat) == Some(fields_view(s.1@)),
            None => inferred_fields(bytes@, max_records as nat) is None,
        },
{
    let (schema, _) = arrow_json::reader::infer_json_schema_from_seekable(std::io::Cursor::new(bytes), Some(max_records)).ok()?;
    let fields = schema.fields().iter().map(|f| Field { name: f.name().clone(), data_type: match f.data_type() {
        ArrowType::Utf8 => DataType::Utf8,
        ArrowType::LargeUtf8 => DataType::LargeUtf8,
        ArrowType::Utf8View => DataType::Utf8View,
        ArrowType::Float16 => DataType::Float16,
        ArrowType::Float32 => DataType::Float32,
        ArrowType::Float64 => DataType::Float64,
        ArrowType::Decimal128(p, s) => DataType::Decimal128(*p, *s),
        ArrowType::Decimal256(p, s) => DataType::Decimal256(*p, *s),
        _ => DataType::Unsupported,
    } }).collect();
    Some((schema, fields))
}

/// How many records the schema of a dataset is inferred from.
pub const SCHEMA_INFERENCE_RECORDS: usize = 100;

/// What is needed to open a dataset: the file's path and, optionally, the name
/// of its format.
pub struct DatasetReaderBuilder {
    path: String,
    arg: Option<String>,
}

impl DatasetReaderBuilder {
    /// The path of the dataset file.
    pub closed spec fn spec_path(self) -> Seq<char> {
        self.path@
    }

    /// The name of the format given for the file, if any.
    pub closed spec fn spec_arg(self) -> Option<String> {
        self.arg
    }

    /// A builder for the file at `path`, with no format given.
    pub fn new(path: String) -> (b: DatasetReaderBuilder)
        ensures
            b.spec_path() == path@,
            b.spec_arg() is None,
    {
        DatasetReaderBuilder { path, arg: None }
    }

    /// The path of the dataset file and the format to read it in.
    pub fn resolve(self) -> (r: (String, Result<DatasetType, UnsupportedDatasetType>))
        ensures
            r.0@ == self.spec_path(),
            match self.spec_arg() {
                None => r.1 == Ok::<DatasetType, UnsupportedDatasetType>(
                    spec_type_from_extension(path_extension(self.spec_path())),
                ),
                Some(v) => match spec_from_name(v@) {
                    Some(t) => r.1 == Ok::<DatasetType, UnsupportedDatasetType>(t),
                    None => r.1 matches Err(e) && e.given@ == v@,
                },
            },
    {
        let dataset_type = DatasetType::parse_from_arg_or_path(self.arg, self.path.as_str());
        (self.path, dataset_type)
    }

    /// How to read the dataset whose file holds `bytes`: its format (as
    /// `resolve` chooses it; the file's bytes are not looked at when the format
    /// is refused) and the schema inferred from its first
    /// `SCHEMA_INFERENCE_RECORDS` records, with its fields; `None` where no
    /// schema could be inferred.
    pub fn plan(self, bytes: &[u8]) -> (r: Result<
        (DatasetType, Option<(arrow_schema::Schema, Vec<Field>)>),
        UnsupportedDatasetType,
    >)
        ensures
            match self.spec_arg() {
                None => r matches Ok((t, _)) && t == spec_type_from_extension(path_extension(self.spec_path())),
                Some(v) => match spec_from_name(v@) {
                    Some(t) => r matches Ok((u, _)) && u == t,
                    None => r matches Err(e) && e.given@ == v@,
                },
            },
            r matches Ok((_, inferred)) ==> match inferred {
                Some(s) => inferred_fields(bytes@, SCHEMA_INFERENCE_RECORDS as nat) == Some(fields_view(s.1@)),
                None => inferred_fields(bytes@, SCHEMA_INFERENCE_RECORDS as nat) is None,
            },
    {
        match DatasetType::parse_from_arg_or_path(self.arg, self.path.as_str()) {
            Ok(t) => Ok((t, infer_fields(bytes, SCHEMA_INFERENCE_RECORDS))),
            Err(e) => Err(e),
        }
    }
}

} // verus!
