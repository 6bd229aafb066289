//! Tests for the row pipeline's classification, counters, and quality gate.

use scrubcsv::cleaner::CleanConfig;
use scrubcsv::errors::{Context, ResultExt, ScrubError};
use scrubcsv::pipeline::{too_many_bad_rows, RowOutcome, Scrubber};

fn rec(fields: &[&str]) -> Vec<Vec<u8>> {
    fields.iter().map(|f| f.as_bytes().to_vec()).collect()
}

#[test]
fn rows_are_kept_iff_shape_and_required_columns_hold() {
    let header = rec(&["c1", "c2"]);
    let cfg = CleanConfig::new(None, false, false).unwrap();
    let (mut s, out_header) = Scrubber::new(&header, cfg, false, &vec![b"c1".to_vec()]);
    assert_eq!(out_header, header);
    // Right shape, required column filled: kept, unchanged.
    match s.process_record(&rec(&["x", ""])) {
        RowOutcome::Keep(out) => assert_eq!(out, rec(&["x", ""])),
        RowOutcome::Divert => panic!("good row diverted"),
    }
    // Wrong shape: diverted.
    assert!(matches!(s.process_record(&rec(&["x"])), RowOutcome::Divert));
    assert!(matches!(
        s.process_record(&rec(&["x", "y", "z"])),
        RowOutcome::Divert
    ));
    // Required column empty: diverted.
    assert!(matches!(s.process_record(&rec(&["", "y"])), RowOutcome::Divert));
    assert_eq!(s.rows_total(), 5);
    assert_eq!(s.rows_bad(), 3);
}

#[test]
fn fast_path_matches_slow_path_output() {
    // With no cleaning configured the fast path passes records through; a
    // configuration that cleans nothing in practice must give the same
    // output through the slow path.
    let header = rec(&["a", "b"]);
    let row = rec(&["plain", "values"]);
    let fast_cfg = CleanConfig::new(None, false, false).unwrap();
    let (mut fast, _) = Scrubber::new(&header, fast_cfg, false, &Vec::new());
    let slow_cfg = CleanConfig::new(Some("NEVERMATCHES"), true, true).unwrap();
    let (mut slow, _) = Scrubber::new(&header, slow_cfg, false, &Vec::new());
    let fast_out = match fast.process_record(&row) {
        RowOutcome::Keep(out) => out,
        RowOutcome::Divert => panic!("good row diverted"),
    };
    let slow_out = match slow.process_record(&row) {
        RowOutcome::Keep(out) => out,
        RowOutcome::Divert => panic!("good row diverted"),
    };
    assert_eq!(fast_out, slow_out);
    assert_eq!(fast_out, row);
}

#[test]
fn required_columns_use_cleaned_names() {
    // With cleaned column names, the drop-row-if-null names are matched
    // against the canonical header, not the raw one.
    let header = rec(&["My Key!", "v"]);
    let cfg = CleanConfig::new(None, false, false).unwrap();
    let (mut s, out_header) = Scrubber::new(&header, cfg, true, &vec![b"my_key_".to_vec()]);
    assert_eq!(out_header, rec(&["my_key_", "v"]));
    assert!(matches!(s.process_record(&rec(&["", "y"])), RowOutcome::Divert));
    assert!(matches!(s.process_record(&rec(&["k", "y"])), RowOutcome::Keep(_)));
}

#[test]
fn required_column_check_sees_cleaned_values() {
    // A field that trims to nothing counts as empty for the required check.
    let header = rec(&["c1"]);
    let cfg = CleanConfig::new(None, false, true).unwrap();
    let (mut s, _) = Scrubber::new(&header, cfg, false, &vec![b"c1".to_vec()]);
    assert!(matches!(s.process_record(&rec(&["  "])), RowOutcome::Divert));
    assert!(matches!(s.process_record(&rec(&[" x "])), RowOutcome::Keep(_)));
}

#[test]
fn header_cleaning_decodes_bytes_permissively() {
    // An invalid UTF-8 byte decodes to one replacement character, which
    // cleans to one underscore; an uppercase ASCII byte is lowercased.
    let header: Vec<Vec<u8>> = vec![vec![0xFF], b"B".to_vec()];
    let cfg = CleanConfig::new(None, false, false).unwrap();
    let (_, out_header) = Scrubber::new(&header, cfg, true, &Vec::new());
    assert_eq!(out_header, rec(&["_", "b"]));
}

#[test]
fn quality_gate_threshold_is_exact() {
    assert!(!too_many_bad_rows(0, 0));
    assert!(too_many_bad_rows(1, 9));
    assert!(!too_many_bad_rows(1, 10));
    assert!(!too_many_bad_rows(1, 11));
    assert!(too_many_bad_rows(2, 19));
    assert!(!too_many_bad_rows(2, 20));
    // Near the top of the counter range the comparison must not overflow.
    assert!(too_many_bad_rows(u64::MAX / 10 + 1, u64::MAX));
    assert!(!too_many_bad_rows(u64::MAX / 10, u64::MAX));
}

#[test]
fn quality_gate_carries_both_counters() {
    let header = rec(&["a", "b"]);
    let cfg = CleanConfig::new(None, false, false).unwrap();
    let (mut s, _) = Scrubber::new(&header, cfg, false, &Vec::new());
    assert!(s.finish().is_ok());
    let _ = s.process_record(&rec(&["only one"]));
    match s.finish() {
        Err(ScrubError::TooManyBadRows { bad, total }) => {
            assert_eq!(bad, 1);
            assert_eq!(total, 2);
        }
        _ => panic!("expected the too-many-bad-rows outcome"),
    }
}

#[test]
fn context_wraps_errors() {
    let r: Result<u8, ScrubError> = Err(ScrubError::BadCharSpecifier("zz".to_owned()));
    let wrapped = r.context("while parsing the delimiter".to_owned());
    let c: Context = wrapped.unwrap_err();
    assert_eq!(c.message(), "while parsing the delimiter");
    assert_eq!(
        c.source().message(),
        "cannot parse character specifier: 'zz'"
    );
    let ok: Result<u8, ScrubError> = Ok(5);
    assert_eq!(ok.context("unused".to_owned()).unwrap(), 5);
}

#[test]
fn with_context_builds_from_the_error() {
    let r: Result<u8, ScrubError> = Err(ScrubError::BadCharSpecifier("q".to_owned()));
    let wrapped = r.with_context(|e| format!("could not configure: {}", e.message()));
    let c = wrapped.unwrap_err();
    assert_eq!(
        c.message(),
        "could not configure: cannot parse character specifier: 'q'"
    );
    let ok: Result<u8, ScrubError> = Ok(1);
    assert_eq!(ok.with_context(|_| "unused".to_owned()).unwrap(), 1);
}
