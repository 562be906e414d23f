//! The whole conversion pipeline: read the delimited input, adapt it under
//! an optional schema, and serialize it in the chosen format.

use vstd::prelude::*;

use crate::emit::emit_json;
use crate::emit::emit_toml;
use crate::emit::emit_yaml;
use crate::emit::json_doc;
use crate::emit::quoted;
use crate::emit::toml_doc;
use crate::emit::yaml_doc;
use crate::opts::spec_extension;
use crate::opts::OutputFormat;
use crate::reader::parse_rows_spec;
use crate::reader::read_records;
use crate::reader::read_spec;
use crate::reader::ReadError;
use crate::schema::adapt;
use crate::schema::adapt_spec;
use crate::schema::spec_schema_of;
use crate::schema::CoerceError;
use crate::schema::Schema;
use crate::schema::SpecSchema;
use crate::text::chars_to_string;
use crate::text::str_to_chars;

verus! {

/// One conversion failure: a reading failure, or a coercion failure.
#[derive(Clone, Copy, Debug, PartialEq, Eq, Structural)]
pub enum ConvertError {
    Read(ReadError),
    Coerce(CoerceError),
}

/// What converting one input text yields: the parsed records adapted under
/// the optional schema and serialized in the chosen format, or the first
/// failure. `root` names the wrapper field of the TOML form.
pub open spec fn convert_spec(
    input: Seq<char>,
    d: char,
    schema: Option<SpecSchema>,
    format: OutputFormat,
    root: Seq<char>,
) -> Result<Seq<char>, ConvertError> {
    match read_spec(input, d) {
        Err(e) => Err(ConvertError::Read(e)),
        Ok(rs) => match adapt_spec(rs, schema) {
            Err(e) => Err(ConvertError::Coerce(e)),
            Ok(t) => Ok(
                match format {
                    OutputFormat::Json => json_doc(t),
                    OutputFormat::Yaml => yaml_doc(t),
                    OutputFormat::Toml => toml_doc(root, t),
                },
            ),
        },
    }
}

/// Converts one delimited input text into the chosen format. `root` names
/// the wrapper field that the TOML form needs for its top-level array of
/// tables; the other forms ignore it.
pub fn convert(
    input: &str,
    delimiter: char,
    schema: Option<&Schema>,
    format: OutputFormat,
    root: &str,
) -> (r: Result<String, ConvertError>)
    requires
        schema matches Some(sc) ==> sc@.wf(),
    ensures
        r is Ok <==> convert_spec(input@, delimiter, spec_schema_of(schema), format, root@) is Ok,
        r matches Ok(s) ==> convert_spec(input@, delimiter, spec_schema_of(schema), format, root@)
            matches Ok(o) && s@ == o,
        r matches Err(e) ==> convert_spec(input@, delimiter, spec_schema_of(schema), format, root@)
            matches Err(e2) && e == e2,
{
    let rs = match read_records(input, delimiter) {
        Ok(rs) => rs,
        Err(e) => {
            return Err(ConvertError::Read(e));
        },
    };
    let t = match adapt(rs, schema) {
        Ok(t) => t,
        Err(e) => {
            return Err(ConvertError::Coerce(e));
        },
    };
    let chars = match format {
        OutputFormat::Json => emit_json(&t),
        OutputFormat::Yaml => emit_yaml(&t),
        OutputFormat::Toml => {
            let root_chars = str_to_chars(root);
            emit_toml(&t, &root_chars)
        },
    };
    Ok(chars_to_string(&chars))
}

/// The output path for a stem: the stem, a dot, and the format's canonical
/// extension.
pub fn output_file_name(stem: &str, format: OutputFormat) -> (r: String)
    ensures
        r@ == stem@ + seq!['.'] + spec_extension(format),
{
    let mut s = stem.to_owned();
    s.append(".");
    s.append(format.extension());
    proof {
        reveal_strlit(".");
        assert("."@ =~= seq!['.']);
        assert(s@ =~= stem@ + seq!['.'] + spec_extension(format));
    }
    s
}

/// Law: the conversion is a function of its inputs alone. Two runs on the
/// same input text, delimiter, schema, format and wrapper name yield the
/// same result, so repeating a conversion writes byte-identical output.
pub proof fn lemma_conversion_idempotent(
    input: Seq<char>,
    d: char,
    schema: Option<SpecSchema>,
    format: OutputFormat,
    root: Seq<char>,
    r1: Result<Seq<char>, ConvertError>,
    r2: Result<Seq<char>, ConvertError>,
)
    requires
        r1 == convert_spec(input, d, schema, format, root),
        r2 == convert_spec(input, d, schema, format, root),
    ensures
        r1 == r2,
{
}

/// Law: an input whose parsed content is a header row alone converts, in
/// schema-less mode, to the empty sequence form of its format — the empty
/// array in the JSON and YAML forms and an empty array-of-tables
/// assignment in the TOML form — never to an error.
pub proof fn lemma_header_only(input: Seq<char>, d: char, root: Seq<char>)
    requires
        parse_rows_spec(input, d).len() == 1,
    ensures
        convert_spec(input, d, None, OutputFormat::Json, root) == Ok::<Seq<char>, ConvertError>(
            seq!['[', ']'],
        ),
        convert_spec(input, d, None, OutputFormat::Yaml, root) == Ok::<Seq<char>, ConvertError>(
            seq!['[', ']', '\n'],
        ),
        convert_spec(input, d, None, OutputFormat::Toml, root) == Ok::<Seq<char>, ConvertError>(
            quoted(root) + seq![' ', '=', ' ', '[', ']', '\n'],
        ),
{
    let rows = parse_rows_spec(input, d);
    assert(read_spec(input, d) is Ok);
    let rs = read_spec(input, d)->Ok_0;
    assert(rs.rows.len() == 0);
    let t = adapt_spec(rs, None)->Ok_0;
    assert(t.rows.len() == 0);
}

} // verus!
