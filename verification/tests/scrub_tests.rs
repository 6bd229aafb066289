//! End-to-end scenarios: records are parsed with the csv crate, run through
//! the row pipeline, and re-serialized with the csv crate's normalized
//! writer convention.

use scrubcsv::cleaner::CleanConfig;
use scrubcsv::errors::ScrubError;
use scrubcsv::pipeline::{RowOutcome, Scrubber};

/// Parse a byte input into a header record and the remaining records,
/// tolerating records whose field count differs from the header's.
fn parse_records(
    input: &[u8],
    delimiter: u8,
    quote: Option<u8>,
) -> (Vec<Vec<u8>>, Vec<Vec<Vec<u8>>>) {
    let mut builder = csv::ReaderBuilder::new();
    builder.has_headers(true).flexible(true).delimiter(delimiter);
    match quote {
        Some(q) => {
            builder.quote(q);
        }
        None => {
            builder.quoting(false);
        }
    }
    let mut rdr = builder.from_reader(input);
    let header: Vec<Vec<u8>> = rdr
        .byte_headers()
        .unwrap()
        .iter()
        .map(|f| f.to_vec())
        .collect();
    let rows: Vec<Vec<Vec<u8>>> = rdr
        .byte_records()
        .map(|r| r.unwrap().iter().map(|f| f.to_vec()).collect())
        .collect();
    (header, rows)
}

/// Serialize records with the writer's fixed delimiter/quote convention.
fn write_records(records: &[Vec<Vec<u8>>]) -> String {
    let mut wtr = csv::WriterBuilder::new().from_writer(Vec::new());
    for r in records {
        wtr.write_record(r).unwrap();
    }
    String::from_utf8(wtr.into_inner().unwrap()).unwrap()
}

struct RunResult {
    output: String,
    diverted: String,
    rows: u64,
    bad_rows: u64,
    gate: Result<(), ScrubError>,
}

/// Run the whole pipeline over one input, the way the command-line program
/// drives it: header first, then one record at a time.
fn scrub(
    input: &[u8],
    delimiter: u8,
    quote: Option<u8>,
    null: Option<&str>,
    replace_newlines: bool,
    trim_whitespace: bool,
    clean_column_names: bool,
    drop_row_if_null: &[&str],
) -> RunResult {
    let (header, rows) = parse_records(input, delimiter, quote);
    let cfg = CleanConfig::new(null, replace_newlines, trim_whitespace).unwrap();
    let drop_names: Vec<Vec<u8>> = drop_row_if_null
        .iter()
        .map(|n| n.as_bytes().to_vec())
        .collect();
    let (mut scrubber, out_header) = Scrubber::new(&header, cfg, clean_column_names, &drop_names);
    let mut kept: Vec<Vec<Vec<u8>>> = vec![out_header];
    let mut diverted: Vec<Vec<Vec<u8>>> = Vec::new();
    for record in &rows {
        match scrubber.process_record(record) {
            RowOutcome::Keep(out) => kept.push(out),
            RowOutcome::Divert => diverted.push(record.clone()),
        }
    }
    RunResult {
        output: write_records(&kept),
        diverted: write_records(&diverted),
        rows: scrubber.rows_total(),
        bad_rows: scrubber.rows_bad(),
        gate: scrubber.finish(),
    }
}

#[test]
fn basic_file_scrubbing() {
    let input = "\
a,b,c
1,\"2\",3
\"Paris, France\",\"Broken \" quotes\",
";
    let res = scrub(input.as_bytes(), b',', Some(b'"'), None, false, false, false, &[]);
    assert_eq!(
        res.output,
        "\
a,b,c
1,2,3
\"Paris, France\",\"Broken  quotes\"\"\",
"
    );
    assert_eq!(res.rows, 3);
    assert_eq!(res.bad_rows, 0);
    assert!(res.gate.is_ok());
}

#[test]
fn stdin_and_delimiter_and_quiet() {
    let input = "\
a|b|c
1|2|3
";
    let res = scrub(input.as_bytes(), b'|', Some(b'"'), None, false, false, false, &[]);
    assert_eq!(
        res.output,
        "\
a,b,c
1,2,3
"
    );
}

#[test]
fn quote_and_delimiter() {
    let input = "\
a\tb\tc
1\t\"2\t3
";
    let res = scrub(input.as_bytes(), b'\t', None, None, false, false, false, &[]);
    assert_eq!(
        res.output,
        "\
a,b,c
1,\"\"\"2\",3
"
    );
}

#[test]
fn bad_rows() {
    let mut good_rows = "a,b,c\n".to_owned();
    for _ in 0..100 {
        good_rows.push_str("1,2,3\n");
    }
    let mut bad = good_rows.clone();
    bad.push_str("1,2\n");
    let res = scrub(bad.as_bytes(), b',', Some(b'"'), None, false, false, false, &[]);
    assert_eq!(res.output, good_rows);
    assert_eq!(res.rows, 102);
    assert_eq!(res.bad_rows, 1);
    assert!(res.gate.is_ok());
}

#[test]
fn bad_rows_saved() {
    let mut good_rows = "a,b,c\n".to_owned();
    for _ in 0..100 {
        good_rows.push_str("1,2,3\n");
    }
    let mut bad = good_rows.clone();
    bad.push_str("1,2\n");
    let res = scrub(bad.as_bytes(), b',', Some(b'"'), None, false, false, false, &[]);
    assert_eq!(res.diverted, "1,2\n");
    assert_eq!(res.output, good_rows);
    assert_eq!(res.rows, 102);
    assert_eq!(res.bad_rows, 1);
}

#[test]
fn too_many_bad_rows() {
    let input = "\
a,b,c
1,2
";
    let res = scrub(input.as_bytes(), b',', Some(b'"'), None, false, false, false, &[]);
    assert_eq!(res.output, "a,b,c\n");
    match res.gate {
        Err(ScrubError::TooManyBadRows { bad, total }) => {
            assert_eq!(bad, 1);
            assert_eq!(total, 2);
        }
        _ => panic!("expected the too-many-bad-rows outcome"),
    }
    assert_eq!(
        res.gate.unwrap_err().message(),
        "Too many rows (1 of 2) were bad"
    );
}

#[test]
fn null_normalization() {
    let input = "a,b,c,d,e\nnull,NIL,nil,,not null\n";
    let res = scrub(
        input.as_bytes(),
        b',',
        Some(b'"'),
        Some("(?i)null|NIL"),
        false,
        false,
        false,
        &[],
    );
    assert_eq!(res.output, "a,b,c,d,e\n,,,,not null\n");
}

#[test]
fn replace_newlines() {
    let input = "a,b\n\"line\r\nbreak\r1\",\"line\nbreak\n2\"\n";
    let res = scrub(input.as_bytes(), b',', Some(b'"'), None, true, false, false, &[]);
    assert_eq!(res.output, "a,b\nline break 1,line break 2\n");
}

#[test]
fn trim_whitespace() {
    let input = "a,b,c,d\n 1 , 2, ,\n";
    let res = scrub(input.as_bytes(), b',', Some(b'"'), None, false, true, false, &[]);
    assert_eq!(res.output, "a,b,c,d\n1,2,,\n");
}

#[test]
fn clean_column_names() {
    let input = ",,a,a\n";
    let res = scrub(input.as_bytes(), b',', Some(b'"'), None, false, false, true, &[]);
    assert_eq!(res.output, "_,__2,a,a_2\n");
}

#[test]
fn drop_row_if_null() {
    let input = "c1,c2,c3\n1,,\n,2,\nNULL,3,\na,b,c\n";
    let res = scrub(
        input.as_bytes(),
        b',',
        Some(b'"'),
        Some("NULL"),
        false,
        false,
        false,
        &["c1", "c2"],
    );
    assert_eq!(res.output, "c1,c2,c3\na,b,c\n");
    // Three of five rows were bad, so the quality gate fires.
    assert!(res.gate.is_err());
}

#[test]
fn drop_row_if_null_saved() {
    let input = "c1,c2,c3\n1,,\na,b,c\n1,2,3\n3,2,1\n1,4,5\n2,2,2\n1,1,1\n5,5,5\n2,2,2\n1,1,1\n";
    let res = scrub(
        input.as_bytes(),
        b',',
        Some(b'"'),
        None,
        false,
        false,
        false,
        &["c1", "c2"],
    );
    assert_eq!(res.diverted, "1,,\n");
}
