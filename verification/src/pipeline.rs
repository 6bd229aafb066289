//! The row pipeline: per-record validation and cleaning, run counters, and
//! the post-run quality gate.
//!
//! A [`Scrubber`] is built once from the header record and the run
//! configuration. Each following record is handed to
//! [`Scrubber::process_record`], which classifies it as good (returning the
//! cleaned record to write to the primary output) or bad (to be counted and,
//! if a bad-row sink is configured, diverted there unchanged). After the
//! input is exhausted, [`Scrubber::finish`] applies the quality gate.

use vstd::prelude::*;
use vstd::slice::slice_to_vec;

use crate::cleaner::CleanConfig;
use crate::errors::ScrubError;
use crate::uniquifier::{ascii_chars, lemma_nth_output_prefix, nth_output, Uniquifier};
use crate::util::bytes_eq;

verus! {

/// The characters that a byte-string decodes to when read permissively as
/// UTF-8, with invalid sequences replaced. A function of the bytes alone.
pub uninterp spec fn lossy_decode(bytes: Seq<u8>) -> Seq<char>;

/// Relies on String::from_utf8_lossy: the decoding depends on the bytes
/// alone, and bytes below 128 decode to themselves, one character per byte.
#[verifier::external_body]
fn decode_lossy(b: &[u8]) -> (r: String)
    ensures
        r@ == lossy_decode(b@),
        (forall|i: int| 0 <= i < b@.len() ==> b@[i] < 128) ==> r@ == ascii_chars(b@),
{
    String::from_utf8_lossy(b).into_owned()
}

/// A record: one row's ordered sequence of byte-string fields.
pub type Record = Vec<Vec<u8>>;

/// Every field of a record after cleaning by `cfg`.
pub open spec fn spec_clean_row(cfg: CleanConfig, rec: Seq<Seq<u8>>) -> Seq<Seq<u8>> {
    rec.map_values(|f: Seq<u8>| cfg.spec_clean(f))
}

/// With every cleaning option disabled, the slow path's cleaning leaves a
/// record untouched, so the fast path may pass it through unchanged.
pub proof fn lemma_fast_path_equivalence(cfg: CleanConfig, rec: Seq<Seq<u8>>)
    requires
        cfg.null_pattern() is None,
        !cfg.replace_newlines,
        !cfg.trim_whitespace,
    ensures
        spec_clean_row(cfg, rec) == rec,
{
    assert(spec_clean_row(cfg, rec) =~~= rec);
}

/// The canonical header for a raw header: each field decoded permissively,
/// cleaned, and uniquified in order.
pub open spec fn spec_clean_header(h: Seq<Seq<u8>>) -> Seq<Seq<u8>> {
    let raws = h.map_values(|b: Seq<u8>| lossy_decode(b));
    Seq::new(h.len(), |i: int| nth_output(raws, i))
}

/// What the pipeline decides for one record.
pub enum RowOutcome {
    /// The row is good: write this cleaned record to the primary output.
    Keep(Record),
    /// The row is bad: count it, and divert the original record unchanged
    /// to the bad-row sink if one is configured.
    Divert,
}

/// Does more than a tenth of the run's rows consist of bad rows? This is
/// the fixed quality-gate threshold, computed without overflow.
pub fn too_many_bad_rows(bad: u64, total: u64) -> (r: bool)
    ensures
        r == (bad as int * 10 > total as int),
{
    if bad > u64::MAX / 10 {
        true
    } else {
        bad * 10 > total
    }
}

/// Copy a record field by field.
fn copy_record(r: &Record) -> (c: Record)
    ensures
        c.deep_view() == r.deep_view(),
        c@.len() == r@.len(),
{
    let len = r.len();
    let mut c: Record = Vec::new();
    let mut i: usize = 0;
    while i < len
        invariant
            len == r@.len(),
            i <= len,
            c@.len() == i,
            forall|k: int| 0 <= k < i ==> (#[trigger] c@[k])@ == r@[k]@,
        decreases len - i,
    {
        let f = slice_to_vec(r[i].as_slice());
        c.push(f);
        i += 1;
    }
    proof {
        assert forall|k: int| 0 <= k < len implies #[trigger] c.deep_view()[k]
            == r.deep_view()[k] by {
            assert(c.deep_view()[k] =~= c@[k]@);
            assert(r.deep_view()[k] =~= r@[k]@);
        }
        assert(c.deep_view() =~= r.deep_view());
    }
    c
}

/// The streaming row pipeline and its run counters.
pub struct Scrubber {
    /// The per-cell cleaning configuration, fixed for the run.
    pub cfg: CleanConfig,
    /// Mask parallel to the header: `true` where the column must not be
    /// empty after cleaning.
    pub required: Vec<bool>,
    /// The column count established by the header.
    pub expected_cols: usize,
    /// Was any required-column name configured at all?
    pub has_required: bool,
    /// May records be passed through without cleaning?
    pub fast_path: bool,
    /// Rows seen, the header counted as the first.
    pub rows: u64,
    /// Rows rejected by the shape or required-column check.
    pub bad_rows: u64,
    /// The records processed so far, newest last.
    pub history: Ghost<Seq<Seq<Seq<u8>>>>,
}

/// Is a record good under the given configuration: the right number of
/// fields, and no required field empty after cleaning?
pub open spec fn spec_row_good(
    cfg: CleanConfig,
    required: Seq<bool>,
    expected: int,
    rec: Seq<Seq<u8>>,
) -> bool {
    &&& rec.len() == expected
    &&& forall|i: int|
        0 <= i < rec.len() ==> ((#[trigger] required[i]) ==> cfg.spec_clean(rec[i]).len() != 0)
}

/// How many records of `h` are bad under the given configuration.
pub open spec fn spec_bad_count(
    cfg: CleanConfig,
    required: Seq<bool>,
    expected: int,
    h: Seq<Seq<Seq<u8>>>,
) -> nat
    decreases h.len(),
{
    if h.len() == 0 {
        0
    } else {
        spec_bad_count(cfg, required, expected, h.drop_last()) + if spec_row_good(
            cfg,
            required,
            expected,
            h.last(),
        ) {
            0nat
        } else {
            1nat
        }
    }
}

/// At most every record of `h` is bad.
proof fn lemma_bad_count_le(cfg: CleanConfig, required: Seq<bool>, expected: int, h: Seq<Seq<Seq<u8>>>)
    ensures
        spec_bad_count(cfg, required, expected, h) <= h.len(),
    decreases h.len(),
{
    if h.len() > 0 {
        lemma_bad_count_le(cfg, required, expected, h.drop_last());
    }
}

/// Processing one more record adds one to the bad count exactly when that
/// record is bad.
proof fn lemma_bad_count_push(
    cfg: CleanConfig,
    required: Seq<bool>,
    expected: int,
    h: Seq<Seq<Seq<u8>>>,
    rec: Seq<Seq<u8>>,
)
    ensures
        spec_bad_count(cfg, required, expected, h.push(rec)) == spec_bad_count(
            cfg,
            required,
            expected,
            h,
        ) + if spec_row_good(cfg, required, expected, rec) {
            0nat
        } else {
            1nat
        },
{
    assert(h.push(rec).drop_last() =~= h);
    assert(h.push(rec).last() == rec);
}

impl Scrubber {
    /// Is this record good: the right number of fields, and no required
    /// field empty after cleaning?
    pub open spec fn row_good(&self, rec: Seq<Seq<u8>>) -> bool {
        spec_row_good(self.cfg, self.required@, self.expected_cols as int, rec)
    }

    /// How many records of `h` are bad.
    pub open spec fn bad_count(&self, h: Seq<Seq<Seq<u8>>>) -> nat {
        spec_bad_count(self.cfg, self.required@, self.expected_cols as int, h)
    }

    /// The pipeline's invariant: the mask is parallel to the header, the
    /// fast path is taken exactly when nothing can change or reject a row,
    /// and the counters agree with the history of processed records.
    pub open spec fn wf(&self) -> bool {
        &&& self.required@.len() == self.expected_cols
        &&& self.fast_path == (!self.cfg.any_cleaning() && !self.has_required)
        &&& (!self.has_required ==> forall|i: int|
            0 <= i < self.required@.len() ==> !(#[trigger] self.required@[i]))
        &&& self.rows == 1 + self.history@.len()
        &&& self.bad_rows == self.bad_count(self.history@)
    }

    /// Build the pipeline from the raw header record and the run
    /// configuration. Returns the pipeline and the header to write to the
    /// output: the raw header unchanged, or, when `clean_column_names` is
    /// set, the uniquified canonical header. The required-column mask is
    /// true exactly at positions whose output header name is one of the
    /// `drop_row_if_null` names.
    pub fn new(
        header: &Record,
        cfg: CleanConfig,
        clean_column_names: bool,
        drop_row_if_null: &Vec<Vec<u8>>,
    ) -> (res: (Scrubber, Record))
        ensures
            res.0.wf(),
            res.0.cfg == cfg,
            res.0.rows == 1,
            res.0.bad_rows == 0,
            res.0.history@ == Seq::<Seq<Seq<u8>>>::empty(),
            res.0.expected_cols == header@.len(),
            res.0.has_required == (drop_row_if_null@.len() > 0),
            res.1.deep_view() == if clean_column_names {
                spec_clean_header(header.deep_view())
            } else {
                header.deep_view()
            },
            res.1@.len() == header@.len(),
            forall|i: int|
                0 <= i < header@.len() ==> (#[trigger] res.0.required@[i]
                    == drop_row_if_null.deep_view().contains(res.1.deep_view()[i])),
    {
        let expected_cols = header.len();
        let out_hdr: Record;
        if clean_column_names {
            let ghost raws_full = header.deep_view().map_values(|b: Seq<u8>| lossy_decode(b));
            let mut u = Uniquifier::new();
            let mut out: Record = Vec::new();
            proof {
                assert(u.raws() =~= raws_full.take(0));
            }
            let mut i: usize = 0;
            while i < expected_cols
                invariant
                    expected_cols == header@.len(),
                    raws_full == header.deep_view().map_values(|b: Seq<u8>| lossy_decode(b)),
                    i <= expected_cols,
                    u.wf(),
                    u.raws() == raws_full.take(i as int),
                    out@.len() == i,
                    forall|k: int| 0 <= k < i ==> (#[trigger] out@[k])@ == nth_output(raws_full, k),
                decreases expected_cols - i,
            {
                let name = decode_lossy(header[i].as_slice());
                proof {
                    assert(header.deep_view()[i as int] =~= header@[i as int]@);
                    assert(raws_full[i as int] == lossy_decode(header.deep_view()[i as int]));
                }
                let nb = u.unique_name_bytes(name.as_str());
                proof {
                    assert(u.raws() =~= raws_full.take(i as int + 1));
                    lemma_nth_output_prefix(raws_full, i as int + 1, i as int);
                }
                out.push(nb);
                i += 1;
            }
            proof {
                assert forall|k: int| 0 <= k < expected_cols implies #[trigger] out.deep_view()[k]
                    == spec_clean_header(header.deep_view())[k] by {
                    assert(out.deep_view()[k] =~= out@[k]@);
                }
                assert(out.deep_view() =~= spec_clean_header(header.deep_view()));
            }
            out_hdr = out;
        } else {
            out_hdr = copy_record(header);
        }

        // Precompute which columns must not be empty, by canonical name.
        let dlen = drop_row_if_null.len();
        let mut required: Vec<bool> = Vec::new();
        let mut i: usize = 0;
        while i < expected_cols
            invariant
                expected_cols == header@.len() == out_hdr@.len(),
                dlen == drop_row_if_null@.len(),
                i <= expected_cols,
                required@.len() == i,
                forall|k: int|
                    0 <= k < i ==> (#[trigger] required@[k] == drop_row_if_null.deep_view().contains(
                        out_hdr.deep_view()[k],
                    )),
            decreases expected_cols - i,
        {
            let mut found = false;
            let mut j: usize = 0;
            while j < dlen
                invariant
                    i < expected_cols == out_hdr@.len(),
                    dlen == drop_row_if_null@.len(),
                    j <= dlen,
                    found == exists|t: int|
                        0 <= t < j && (#[trigger] drop_row_if_null@[t])@ == out_hdr@[i as int]@,
                decreases dlen - j,
            {
                if bytes_eq(drop_row_if_null[j].as_slice(), out_hdr[i].as_slice()) {
                    found = true;
                }
                j += 1;
            }
            proof {
                assert(out_hdr.deep_view()[i as int] =~= out_hdr@[i as int]@);
                if found {
                    let t = choose|t: int|
                        0 <= t < dlen && (#[trigger] drop_row_if_null@[t])@ == out_hdr@[i as int]@;
                    assert(drop_row_if_null.deep_view()[t] =~= out_hdr.deep_view()[i as int]);
                    assert(drop_row_if_null.deep_view().contains(out_hdr.deep_view()[i as int]));
                } else {
                    assert forall|t: int| 0 <= t < dlen implies #[trigger] drop_row_if_null.deep_view()[t]
                        != out_hdr.deep_view()[i as int] by {
                        assert(drop_row_if_null.deep_view()[t] =~= drop_row_if_null@[t]@);
                    }
                    assert(!drop_row_if_null.deep_view().contains(out_hdr.deep_view()[i as int]));
                }
            }
            required.push(found);
            i += 1;
        }

        let has_required = dlen > 0;
        let fast_path = !has_required && !cfg.replace_newlines && !cfg.trim_whitespace
            && cfg.null.is_none();
        let s = Scrubber {
            cfg,
            required,
            expected_cols,
            has_required,
            fast_path,
            rows: 1,
            bad_rows: 0,
            history: Ghost(Seq::empty()),
        };
        (s, out_hdr)
    }

    /// Rows seen so far, the header counted as the first.
    pub fn rows_total(&self) -> (r: u64)
        ensures
            r == self.rows,
    {
        self.rows
    }

    /// Rows rejected so far.
    pub fn rows_bad(&self) -> (r: u64)
        ensures
            r == self.bad_rows,
    {
        self.bad_rows
    }

    /// Process one record: count it, check its shape against the header,
    /// clean its fields, and enforce the required-column mask. The record is
    /// kept exactly when it is good, and what is kept is the cleaned record.
    pub fn process_record(&mut self, record: &Record) -> (r: RowOutcome)
        requires
            old(self).wf(),
            old(self).rows < u64::MAX,
        ensures
            final(self).wf(),
            final(self).cfg == old(self).cfg,
            final(self).required@ == old(self).required@,
            final(self).expected_cols == old(self).expected_cols,
            final(self).has_required == old(self).has_required,
            final(self).fast_path == old(self).fast_path,
            final(self).rows == old(self).rows + 1,
            final(self).history@ == old(self).history@.push(record.deep_view()),
            (r is Keep) == old(self).row_good(record.deep_view()),
            r matches RowOutcome::Keep(out) ==> out.deep_view() == spec_clean_row(
                old(self).cfg,
                record.deep_view(),
            ),
            r is Keep ==> final(self).bad_rows == old(self).bad_rows,
            r is Divert ==> final(self).bad_rows == old(self).bad_rows + 1,
    {
        let ghost rec = record.deep_view();
        self.rows = self.rows + 1;
        proof {
            self.history@ = self.history@.push(rec);
            lemma_bad_count_push(
                self.cfg,
                self.required@,
                self.expected_cols as int,
                old(self).history@,
                rec,
            );
            lemma_bad_count_le(
                self.cfg,
                self.required@,
                self.expected_cols as int,
                old(self).history@,
            );
        }

        // Shape check: the field count must match the header's.
        if record.len() != self.expected_cols {
            self.bad_rows = self.bad_rows + 1;
            return RowOutcome::Divert;
        }

        // Fast path: nothing can change or reject this row.
        if self.fast_path {
            let out = copy_record(record);
            proof {
                lemma_fast_path_equivalence(self.cfg, rec);
            }
            return RowOutcome::Keep(out);
        }

        // Slow path: clean every field.
        let len = record.len();
        let mut cleaned: Record = Vec::new();
        let mut i: usize = 0;
        while i < len
            invariant
                len == record@.len(),
                i <= len,
                cleaned@.len() == i,
                forall|k: int| 0 <= k < i ==> (#[trigger] cleaned@[k])@ == self.cfg.spec_clean(
                    record@[k]@,
                ),
                self.cfg == old(self).cfg,
            decreases len - i,
        {
            let f = self.cfg.clean_field(record[i].as_slice());
            cleaned.push(f);
            i += 1;
        }
        proof {
            assert forall|k: int| 0 <= k < len implies #[trigger] cleaned.deep_view()[k]
                == spec_clean_row(self.cfg, rec)[k] by {
                assert(cleaned.deep_view()[k] =~= cleaned@[k]@);
                assert(rec[k] =~= record@[k]@);
            }
            assert(cleaned.deep_view() =~= spec_clean_row(self.cfg, rec));
        }

        // Required-column check, on the cleaned values.
        if self.has_required {
            let mut k: usize = 0;
            while k < len
                invariant
                    len == record@.len() == cleaned@.len() == self.required@.len(),
                    k <= len,
                    forall|m: int|
                        0 <= m < k ==> ((#[trigger] self.required@[m]) ==> cleaned@[m]@.len()
                            != 0),
                    rec == record.deep_view(),
                    cleaned.deep_view() == spec_clean_row(self.cfg, rec),
                    self.bad_rows == old(self).bad_rows,
                    self.rows == old(self).rows + 1,
                    self.history@ == old(self).history@.push(rec),
                    self.cfg == old(self).cfg,
                    self.required@ == old(self).required@,
                    self.expected_cols == old(self).expected_cols,
                    self.has_required == old(self).has_required,
                    self.fast_path == old(self).fast_path,
                    old(self).wf(),
                    old(self).rows < u64::MAX,
                decreases len - k,
            {
                proof {
                    assert(cleaned.deep_view()[k as int] =~= cleaned@[k as int]@);
                    assert(rec[k as int] =~= record@[k as int]@);
                }
                if self.required[k] && cleaned[k].len() == 0 {
                    proof {
                        assert(self.cfg.spec_clean(rec[k as int]).len() == 0);
                        assert(!old(self).row_good(rec));
                        lemma_bad_count_push(
                            self.cfg,
                            self.required@,
                            self.expected_cols as int,
                            old(self).history@,
                            rec,
                        );
                        lemma_bad_count_le(
                            self.cfg,
                            self.required@,
                            self.expected_cols as int,
                            old(self).history@,
                        );
                    }
                    self.bad_rows = self.bad_rows + 1;
                    return RowOutcome::Divert;
                }
                k += 1;
            }
            proof {
                assert forall|i: int|
                    0 <= i < rec.len() && #[trigger] self.required@[i] implies self.cfg.spec_clean(
                    rec[i],
                ).len() != 0 by {
                    assert(cleaned@[i]@.len() != 0);
                    assert(cleaned.deep_view()[i] =~= cleaned@[i]@);
                    assert(rec[i] =~= record@[i]@);
                }
                lemma_bad_count_push(
                    self.cfg,
                    self.required@,
                    self.expected_cols as int,
                    old(self).history@,
                    rec,
                );
            }
        }
        RowOutcome::Keep(cleaned)
    }

    /// The post-run quality gate: once the input is exhausted, a run in
    /// which more than a tenth of all rows were bad is a distinct failure
    /// carrying both counters; everything already written stays written.
    pub fn finish(&self) -> (r: Result<(), ScrubError>)
        ensures
            r is Err <==> self.bad_rows as int * 10 > self.rows as int,
            r matches Err(e) ==> e == (ScrubError::TooManyBadRows {
                bad: self.bad_rows,
                total: self.rows,
            }),
    {
        if too_many_bad_rows(self.bad_rows, self.rows) {
            Err(ScrubError::TooManyBadRows { bad: self.bad_rows, total: self.rows })
        } else {
            Ok(())
        }
    }
}

} // verus!
