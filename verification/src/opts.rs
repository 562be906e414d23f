//! Invocation options for the three operations of the tool, and the output
//! format selector with its parsing rules.

use vstd::prelude::*;

use crate::text::str_eq;

verus! {

/// The structured text format an invocation writes.
#[derive(Clone, Copy, Debug, PartialEq, Eq, Structural)]
pub enum OutputFormat {
    Json,
    Yaml,
    Toml,
}

/// The canonical file extension of a format.
pub open spec fn spec_extension(f: OutputFormat) -> Seq<char> {
    match f {
        OutputFormat::Json => "json"@,
        OutputFormat::Yaml => "yaml"@,
        OutputFormat::Toml => "toml"@,
    }
}

/// What parsing a format token yields: exactly the three format names are
/// recognized.
pub open spec fn spec_parse_format(s: Seq<char>) -> Option<OutputFormat> {
    if s == "json"@ {
        Some(OutputFormat::Json)
    } else if s == "yaml"@ {
        Some(OutputFormat::Yaml)
    } else if s == "toml"@ {
        Some(OutputFormat::Toml)
    } else {
        None
    }
}

/// The error for an unrecognized format token.
#[derive(Clone, Copy, Debug, PartialEq, Eq, Structural)]
pub enum FormatError {
    Unrecognized,
}

impl OutputFormat {
    /// The canonical extension of this format.
    pub fn extension(&self) -> (r: &'static str)
        ensures
            r@ == spec_extension(*self),
    {
        match self {
            OutputFormat::Json => "json",
            OutputFormat::Yaml => "yaml",
            OutputFormat::Toml => "toml",
        }
    }

    /// Parses a format token; only `json`, `yaml` and `toml` are accepted.
    pub fn from_str(s: &str) -> (r: Result<OutputFormat, FormatError>)
        ensures
            match spec_parse_format(s@) {
                Some(f) => r == Ok::<OutputFormat, FormatError>(f),
                None => r == Err::<OutputFormat, FormatError>(FormatError::Unrecognized),
            },
    {
        if str_eq(s, "json") {
            Ok(OutputFormat::Json)
        } else if str_eq(s, "yaml") {
            Ok(OutputFormat::Yaml)
        } else if str_eq(s, "toml") {
            Ok(OutputFormat::Toml)
        } else {
            Err(FormatError::Unrecognized)
        }
    }
}

/// Parses a format token given on the command line.
pub fn parse_format(format: &str) -> (r: Result<OutputFormat, FormatError>)
    ensures
        match spec_parse_format(format@) {
            Some(f) => r == Ok::<OutputFormat, FormatError>(f),
            None => r == Err::<OutputFormat, FormatError>(FormatError::Unrecognized),
        },
{
    OutputFormat::from_str(format)
}

/// Accepts an input designator: either the caller reports that the file
/// exists, or the designator is `-`, which stands for standard input.
pub fn verify_input_file(filename: &str, file_exists: bool) -> (r: Result<String, &'static str>)
    ensures
        r is Ok <==> (file_exists || filename@ == "-"@),
        r matches Ok(f) ==> f@ == filename@,
        r matches Err(m) ==> m@ == "File does not exist"@,
{
    if file_exists || str_eq(filename, "-") {
        Ok(filename.to_owned())
    } else {
        Err("File does not exist")
    }
}

/// Options of the record-conversion operation.
#[derive(Debug)]
pub struct CsvOpts {
    pub input: String,
    pub output: String,
    pub header: bool,
    pub delimiter: char,
    pub format: OutputFormat,
}

/// Options of the password generator.
#[derive(Debug)]
pub struct GenPassOpts {
    pub length: u8,
    pub lower: bool,
    pub upper: bool,
    pub special: bool,
    pub numbers: bool,
}

/// Options of the binary-to-text encoder.
#[derive(Debug)]
pub struct EncodeOpts {
    pub input: String,
    pub output: String,
}

/// Options of the binary-to-text decoder.
#[derive(Debug)]
pub struct DecodeOpts {
    pub input: String,
    pub output: String,
}

/// The two directions of the binary-to-text codec.
#[derive(Debug)]
pub enum Base64Opts {
    Encode(EncodeOpts),
    Decode(DecodeOpts),
}

} // verus!
