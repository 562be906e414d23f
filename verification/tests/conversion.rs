//! Tests of the record reader, the schema adapter, the format emitters and
//! the whole conversion pipeline.

use rcli::convert::convert;
use rcli::convert::output_file_name;
use rcli::convert::ConvertError;
use rcli::opts::parse_format;
use rcli::opts::verify_input_file;
use rcli::opts::FormatError;
use rcli::opts::OutputFormat;
use rcli::reader::read_records;
use rcli::reader::parse_rows;
use rcli::reader::ReadError;
use rcli::schema::adapt;
use rcli::schema::parse_u8;
use rcli::schema::CoerceError;
use rcli::schema::FieldKind;
use rcli::schema::Schema;

fn chars(s: &str) -> Vec<char> {
    s.chars().collect()
}

fn rows_to_strings(rows: Vec<Vec<Vec<char>>>) -> Vec<Vec<String>> {
    rows.into_iter()
        .map(|r| r.into_iter().map(|f| f.into_iter().collect()).collect())
        .collect()
}

fn player_schema() -> Schema {
    Schema {
        names: vec![
            chars("name"),
            chars("position"),
            chars("DOB"),
            chars("nationality"),
            chars("Kit Number"),
        ],
        kinds: vec![
            FieldKind::Text,
            FieldKind::Text,
            FieldKind::Text,
            FieldKind::Text,
            FieldKind::Number,
        ],
    }
}

const BUFFON: &str =
    "name,position,DOB,nationality,Kit Number\nGianluigi Buffon,Goalkeeper,28/01/1978,Italy,1\n";

#[test]
fn parse_rows_plain() {
    let rows = rows_to_strings(parse_rows("a,b\n1,2\n", ','));
    assert_eq!(rows, vec![vec!["a".to_string(), "b".to_string()], vec![
        "1".to_string(),
        "2".to_string()
    ]]);
}

#[test]
fn parse_rows_quoting() {
    let rows = rows_to_strings(parse_rows("a,\"b,c\"\n\"x\"\"y\",\"1\n2\"\n", ','));
    assert_eq!(rows, vec![vec!["a".to_string(), "b,c".to_string()], vec![
        "x\"y".to_string(),
        "1\n2".to_string()
    ]]);
}

#[test]
fn parse_rows_crlf_and_blank_lines() {
    let a = rows_to_strings(parse_rows("a,b\r\n1,2\r\n", ','));
    let b = rows_to_strings(parse_rows("a,b\n\n1,2\n", ','));
    let c = rows_to_strings(parse_rows("a,b\n1,2", ','));
    let plain = rows_to_strings(parse_rows("a,b\n1,2\n", ','));
    assert_eq!(a, plain);
    assert_eq!(b, plain);
    assert_eq!(c, plain);
}

#[test]
fn read_records_counts_rows() {
    let rs = read_records("h1,h2\nr1,r2\nr3,r4\nr5,r6\n", ',').unwrap();
    assert_eq!(rs.header.len(), 2);
    assert_eq!(rs.rows.len(), 3);
    for row in &rs.rows {
        assert_eq!(row.len(), rs.header.len());
    }
}

#[test]
fn read_records_empty_input() {
    assert_eq!(read_records("", ',').unwrap_err(), ReadError::Empty);
    assert_eq!(read_records("\n\n", ',').unwrap_err(), ReadError::Empty);
}

#[test]
fn read_records_width_mismatch() {
    let r = read_records("a,b\n1,2\n3,4,5\n", ',');
    assert_eq!(
        r.unwrap_err(),
        ReadError::WidthMismatch { row: 2, expected: 2, found: 3 }
    );
}

#[test]
fn parse_u8_values() {
    assert_eq!(parse_u8(&chars("0")), Some(0));
    assert_eq!(parse_u8(&chars("007")), Some(7));
    assert_eq!(parse_u8(&chars("255")), Some(255));
    assert_eq!(parse_u8(&chars("256")), None);
    assert_eq!(parse_u8(&chars("9999")), None);
    assert_eq!(parse_u8(&chars("")), None);
    assert_eq!(parse_u8(&chars("-1")), None);
    assert_eq!(parse_u8(&chars("1a")), None);
}

#[test]
fn adapt_header_mismatch() {
    let rs = read_records("name,position\nx,y\n", ',').unwrap();
    let sc = player_schema();
    assert_eq!(adapt(rs, Some(&sc)).unwrap_err(), CoerceError::HeaderMismatch);
}

// A row holding a non-numeric value in the numeric field is rejected with a
// coercion error naming that cell.
#[test]
fn schema_rejects_non_numeric() {
    let input =
        "name,position,DOB,nationality,Kit Number\nGianluigi Buffon,Goalkeeper,28/01/1978,Italy,one\n";
    let rs = read_records(input, ',').unwrap();
    let sc = player_schema();
    assert_eq!(
        adapt(rs, Some(&sc)).unwrap_err(),
        CoerceError::BadValue { row: 0, col: 4 }
    );
    let r = convert(input, ',', Some(&sc), OutputFormat::Json, "player");
    assert_eq!(
        r,
        Err(ConvertError::Coerce(CoerceError::BadValue { row: 0, col: 4 }))
    );
}

// A single record with the sample schema serializes to a one-element JSON
// array whose kit number is a JSON number, not a string.
#[test]
fn buffon_to_json() {
    let sc = player_schema();
    let out = convert(BUFFON, ',', Some(&sc), OutputFormat::Json, "player").unwrap();
    let expected = "[\n  {\n    \"name\": \"Gianluigi Buffon\",\n    \"position\": \"Goalkeeper\",\n    \"DOB\": \"28/01/1978\",\n    \"nationality\": \"Italy\",\n    \"Kit Number\": 1\n  }\n]";
    assert_eq!(out, expected);
    let parsed: serde_json::Value = serde_json::from_str(&out).unwrap();
    let arr = parsed.as_array().unwrap();
    assert_eq!(arr.len(), 1);
    assert!(arr[0]["Kit Number"].is_number());
    assert_eq!(arr[0]["Kit Number"].as_u64(), Some(1));
    assert_eq!(arr[0]["name"].as_str(), Some("Gianluigi Buffon"));
}

// The same record in the TOML form sits in a top-level array of tables
// named by the wrapper, with the kit number as an integer.
#[test]
fn buffon_to_toml() {
    let sc = player_schema();
    let out = convert(BUFFON, ',', Some(&sc), OutputFormat::Toml, "player").unwrap();
    let expected = "[[\"player\"]]\n\"name\" = \"Gianluigi Buffon\"\n\"position\" = \"Goalkeeper\"\n\"DOB\" = \"28/01/1978\"\n\"nationality\" = \"Italy\"\n\"Kit Number\" = 1\n";
    assert_eq!(out, expected);
    let parsed: toml::Value = out.parse().unwrap();
    let players = parsed.get("player").unwrap().as_array().unwrap();
    assert_eq!(players.len(), 1);
    assert_eq!(players[0].get("Kit Number").unwrap().as_integer(), Some(1));
    assert_eq!(
        players[0].get("name").unwrap().as_str(),
        Some("Gianluigi Buffon")
    );
}

#[test]
fn buffon_to_yaml() {
    let sc = player_schema();
    let out = convert(BUFFON, ',', Some(&sc), OutputFormat::Yaml, "player").unwrap();
    let expected = "- \"name\": \"Gianluigi Buffon\"\n  \"position\": \"Goalkeeper\"\n  \"DOB\": \"28/01/1978\"\n  \"nationality\": \"Italy\"\n  \"Kit Number\": 1\n";
    assert_eq!(out, expected);
    let parsed: serde_yaml::Value = serde_yaml::from_str(&out).unwrap();
    let seq = parsed.as_sequence().unwrap();
    assert_eq!(seq.len(), 1);
    assert_eq!(seq[0]["Kit Number"].as_u64(), Some(1));
    assert_eq!(seq[0]["name"].as_str(), Some("Gianluigi Buffon"));
}

// Serializing the same record set to JSON and to YAML and parsing each back
// yields the same field values.
#[test]
fn json_yaml_equivalence() {
    let input = "name,position,DOB,nationality,Kit Number\nGianluigi Buffon,Goalkeeper,28/01/1978,Italy,1\nNeymar,Forward,05/02/1992,Brazil,10\n";
    let sc = player_schema();
    let j = convert(input, ',', Some(&sc), OutputFormat::Json, "player").unwrap();
    let y = convert(input, ',', Some(&sc), OutputFormat::Yaml, "player").unwrap();
    let jv: serde_json::Value = serde_json::from_str(&j).unwrap();
    let yv: serde_yaml::Value = serde_yaml::from_str(&y).unwrap();
    let ja = jv.as_array().unwrap();
    let ya = yv.as_sequence().unwrap();
    assert_eq!(ja.len(), ya.len());
    for (jo, yo) in ja.iter().zip(ya.iter()) {
        for key in ["name", "position", "DOB", "nationality"] {
            assert_eq!(jo[key].as_str(), yo[key].as_str());
        }
        assert_eq!(jo["Kit Number"].as_u64(), yo["Kit Number"].as_u64());
    }
}

// Schema-less conversion keeps every field as text, the numeric-looking
// ones included.
#[test]
fn schemaless_keeps_text() {
    let out = convert(BUFFON, ',', None, OutputFormat::Json, "player").unwrap();
    let parsed: serde_json::Value = serde_json::from_str(&out).unwrap();
    assert_eq!(parsed[0]["Kit Number"].as_str(), Some("1"));
}

// A header-only input converts to an empty sequence in every format.
#[test]
fn header_only_is_empty_sequence() {
    let input = "name,position,DOB,nationality,Kit Number\n";
    let j = convert(input, ',', None, OutputFormat::Json, "player").unwrap();
    let y = convert(input, ',', None, OutputFormat::Yaml, "player").unwrap();
    let t = convert(input, ',', None, OutputFormat::Toml, "player").unwrap();
    assert_eq!(j, "[]");
    assert_eq!(y, "[]\n");
    assert_eq!(t, "\"player\" = []\n");
    let parsed: serde_json::Value = serde_json::from_str(&j).unwrap();
    assert_eq!(parsed.as_array().unwrap().len(), 0);
    let tv: toml::Value = t.parse().unwrap();
    assert_eq!(tv.get("player").unwrap().as_array().unwrap().len(), 0);
}

// A semicolon-delimited input parses identically to the comma-delimited
// equivalent.
#[test]
fn delimiter_equivalence() {
    let semi = "name;position;DOB;nationality;Kit Number\nGianluigi Buffon;Goalkeeper;28/01/1978;Italy;1\n";
    let a = convert(semi, ';', None, OutputFormat::Json, "player").unwrap();
    let b = convert(BUFFON, ',', None, OutputFormat::Json, "player").unwrap();
    assert_eq!(a, b);
}

// Running the same conversion twice yields byte-identical output.
#[test]
fn conversion_is_deterministic() {
    let sc = player_schema();
    let a = convert(BUFFON, ',', Some(&sc), OutputFormat::Toml, "player").unwrap();
    let b = convert(BUFFON, ',', Some(&sc), OutputFormat::Toml, "player").unwrap();
    assert_eq!(a, b);
}

// Control characters and quotes in fields survive a JSON round trip.
#[test]
fn json_escaping_round_trip() {
    let input = "note\n\"say \"\"hi\"\"\ttwice\"\n";
    let out = convert(input, ',', None, OutputFormat::Json, "player").unwrap();
    let parsed: serde_json::Value = serde_json::from_str(&out).unwrap();
    assert_eq!(parsed[0]["note"].as_str(), Some("say \"hi\"\ttwice"));
}

#[test]
fn typed_rows_read_as_players() {
    let rs = read_records(BUFFON, ',').unwrap();
    let sc = rcli::player::player_schema();
    let t = adapt(rs, Some(&sc)).unwrap();
    let ps = rcli::player::to_players(&t).unwrap();
    assert_eq!(ps.len(), 1);
    assert_eq!(ps[0].name, "Gianluigi Buffon");
    assert_eq!(ps[0].position, "Goalkeeper");
    assert_eq!(ps[0].dob, "28/01/1978");
    assert_eq!(ps[0].nationality, "Italy");
    assert_eq!(ps[0].kit, 1);
    let rs2 = read_records(BUFFON, ',').unwrap();
    let t2 = adapt(rs2, None).unwrap();
    assert!(rcli::player::to_players(&t2).is_none());
}

// Quotes, tabs and line breaks in fields survive the YAML and TOML forms.
#[test]
fn yaml_and_toml_escaping_round_trip() {
    let input = "note\n\"say \"\"hi\"\"\there\"\n";
    let y = convert(input, ',', None, OutputFormat::Yaml, "player").unwrap();
    let yv: serde_yaml::Value = serde_yaml::from_str(&y).unwrap();
    assert_eq!(yv[0]["note"].as_str(), Some("say \"hi\"\there"));
    let t = convert(input, ',', None, OutputFormat::Toml, "player").unwrap();
    let tv: toml::Value = t.parse().unwrap();
    assert_eq!(
        tv.get("player").unwrap().as_array().unwrap()[0]
            .get("note")
            .unwrap()
            .as_str(),
        Some("say \"hi\"\there")
    );
}

#[test]
fn output_file_name_appends_extension() {
    assert_eq!(output_file_name("output", OutputFormat::Json), "output.json");
    assert_eq!(output_file_name("output", OutputFormat::Yaml), "output.yaml");
    assert_eq!(output_file_name("a/b", OutputFormat::Toml), "a/b.toml");
}

#[test]
fn parse_format_tokens() {
    assert_eq!(parse_format("json"), Ok(OutputFormat::Json));
    assert_eq!(parse_format("yaml"), Ok(OutputFormat::Yaml));
    assert_eq!(parse_format("toml"), Ok(OutputFormat::Toml));
    assert_eq!(parse_format("xml"), Err(FormatError::Unrecognized));
    assert_eq!(parse_format("JSON"), Err(FormatError::Unrecognized));
}

#[test]
fn verify_input_file_accepts_stdin_marker() {
    assert_eq!(verify_input_file("data.csv", true), Ok("data.csv".to_string()));
    assert_eq!(verify_input_file("-", false), Ok("-".to_string()));
    assert_eq!(verify_input_file("missing.csv", false), Err("File does not exist"));
}
