//! Cross-checks of the record reader against an independent parser of the
//! same delimited format.

use rcli::reader::parse_rows;

fn theirs(input: &str, delimiter: u8) -> Vec<Vec<String>> {
    let mut reader = csv::ReaderBuilder::new()
        .has_headers(false)
        .delimiter(delimiter)
        .from_reader(input.as_bytes());
    let mut rows: Vec<Vec<String>> = Vec::new();
    for record in reader.records() {
        let record = record.unwrap();
        rows.push(record.iter().map(|f| f.to_string()).collect());
    }
    rows
}

fn ours(input: &str, delimiter: char) -> Vec<Vec<String>> {
    parse_rows(input, delimiter)
        .into_iter()
        .map(|r| r.into_iter().map(|f| f.into_iter().collect()).collect())
        .collect()
}

#[test]
fn matches_reference_parser_on_plain_input() {
    let input = "name,position,DOB,nationality,Kit Number\nGianluigi Buffon,Goalkeeper,28/01/1978,Italy,1\nNeymar,Forward,05/02/1992,Brazil,10\n";
    assert_eq!(ours(input, ','), theirs(input, b','));
}

#[test]
fn matches_reference_parser_on_quoted_input() {
    let input = "a,b\n\"x,y\",\"line\nbreak\"\n\"he said \"\"hi\"\"\",plain\n";
    assert_eq!(ours(input, ','), theirs(input, b','));
}

#[test]
fn matches_reference_parser_on_semicolons() {
    let input = "a;b\n1;2\n\"x;y\";3\n";
    assert_eq!(ours(input, ';'), theirs(input, b';'));
}

#[test]
fn matches_reference_parser_on_crlf() {
    let input = "a,b\r\n1,2\r\n3,4\r\n";
    assert_eq!(ours(input, ','), theirs(input, b','));
}
