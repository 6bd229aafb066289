//! Per-cell normalization: whitespace trimming and newline folding.
//!
//! Each transformation is a pure function on one field's bytes. The order in
//! which a configured cleaner applies them is fixed: null-pattern blanking,
//! then trimming, then newline folding.

use vstd::prelude::*;
use vstd::slice::slice_to_vec;
use vstd::string::StringExecFns;

use crate::errors::ScrubError;

verus! {

#[verifier::external_type_specification]
#[verifier::external_body]
pub struct ExRegex(regex::bytes::Regex);

/// Whether the regex engine accepts `text` as a pattern, so that compiling
/// it succeeds. A function of the pattern text alone.
pub uninterp spec fn regex_accepts(text: Seq<char>) -> bool;

/// Whether the null pattern with text `pattern`, compiled anchored to the
/// whole field as `^(?:` + `pattern` + `)$`, matches all of `field`. The
/// group keeps a top-level alternation inside both anchors, so the match
/// covers the entire field. The result depends on the pattern text and the
/// field bytes alone.
pub uninterp spec fn null_matches(pattern: Seq<char>, field: Seq<u8>) -> bool;

/// Relies on regex::bytes::Regex::new: whether a pattern text compiles is a
/// function of the text alone (the default size limit is a fixed constant),
/// and an unacceptable pattern gives an error rather than a panic.
#[verifier::external_body]
fn regex_new(text: &str) -> (r: Result<regex::bytes::Regex, regex::Error>)
    ensures
        (r is Ok) == regex_accepts(text@),
{
    regex::bytes::Regex::new(text)
}

/// The pattern text a user's null pattern is compiled from: the pattern in
/// a group, anchored at both ends, so that it must match the entire field.
pub open spec fn spec_anchored(pattern: Seq<char>) -> Seq<char> {
    "^(?:"@ + pattern + ")$"@
}

/// Build the anchored pattern text for [`spec_anchored`].
fn anchored_pattern(pattern: &str) -> (r: String)
    ensures
        r@ == spec_anchored(pattern@),
{
    let mut r = "^(?:".to_owned();
    r.append(pattern);
    r.append(")$");
    r
}

/// A "null" pattern compiled once per run, kept together with the text it
/// was compiled from so that contracts can speak of the pattern.
pub struct NullPattern {
    re: regex::bytes::Regex,
    pattern: String,
}

impl NullPattern {
    /// The pattern text this value was compiled from.
    pub closed spec fn pattern(&self) -> Seq<char> {
        self.pattern@
    }

    /// Compile a user's null pattern, anchored to the whole field. This
    /// succeeds exactly when the regex engine accepts the anchored text.
    pub(crate) fn compile(pattern: &str) -> (r: Result<NullPattern, regex::Error>)
        ensures
            (r is Ok) == regex_accepts(spec_anchored(pattern@)),
            r matches Ok(p) ==> p.pattern() == pattern@,
    {
        let anchored = anchored_pattern(pattern);
        match regex_new(anchored.as_str()) {
            Ok(re) => Ok(NullPattern { re, pattern: pattern.to_owned() }),
            Err(e) => Err(e),
        }
    }

    /// Relies on regex::bytes::Regex::is_match: a match of the compiled
    /// pattern is a function of the pattern it was compiled from — here
    /// always the anchored form of the stored text — and the haystack.
    #[verifier::external_body]
    pub(crate) fn is_match(&self, field: &[u8]) -> (r: bool)
        ensures
            r == null_matches(self.pattern(), field@),
    {
        self.re.is_match(field)
    }
}

/// The bytes Rust classifies as ASCII whitespace: space, horizontal tab,
/// line feed, form feed, carriage return.
pub open spec fn is_ascii_ws(b: u8) -> bool {
    b == 32 || b == 9 || b == 10 || b == 12 || b == 13
}

/// Executable check for [`is_ascii_ws`].
pub fn ascii_ws(b: u8) -> (r: bool)
    ensures
        r == is_ascii_ws(b),
{
    b == 32 || b == 9 || b == 10 || b == 12 || b == 13
}

/// A field with its leading ASCII whitespace removed.
pub open spec fn spec_trim_start(f: Seq<u8>) -> Seq<u8>
    decreases f.len(),
{
    if f.len() > 0 && is_ascii_ws(f[0]) {
        spec_trim_start(f.drop_first())
    } else {
        f
    }
}

/// A field with its trailing ASCII whitespace removed.
pub open spec fn spec_trim_end(f: Seq<u8>) -> Seq<u8>
    decreases f.len(),
{
    if f.len() > 0 && is_ascii_ws(f.last()) {
        spec_trim_end(f.drop_last())
    } else {
        f
    }
}

/// A field with leading and trailing ASCII whitespace removed. A field of
/// nothing but whitespace trims to the empty field.
pub open spec fn spec_trim(f: Seq<u8>) -> Seq<u8> {
    spec_trim_end(spec_trim_start(f))
}

/// Trimming leaves no leading whitespace behind.
proof fn lemma_trim_start_head(f: Seq<u8>)
    ensures
        spec_trim_start(f).len() == 0 || !is_ascii_ws(spec_trim_start(f)[0]),
    decreases f.len(),
{
    if f.len() > 0 && is_ascii_ws(f[0]) {
        lemma_trim_start_head(f.drop_first());
    }
}

/// Trimming leaves no trailing whitespace behind.
proof fn lemma_trim_end_last(f: Seq<u8>)
    ensures
        spec_trim_end(f).len() == 0 || !is_ascii_ws(spec_trim_end(f).last()),
    decreases f.len(),
{
    if f.len() > 0 && is_ascii_ws(f.last()) {
        lemma_trim_end_last(f.drop_last());
    }
}

/// Trimming the end of a field keeps a prefix of it unchanged.
proof fn lemma_trim_end_prefix(f: Seq<u8>)
    ensures
        spec_trim_end(f).len() <= f.len(),
        forall|i: int| 0 <= i < spec_trim_end(f).len() ==> spec_trim_end(f)[i] == f[i],
    decreases f.len(),
{
    if f.len() > 0 && is_ascii_ws(f.last()) {
        lemma_trim_end_prefix(f.drop_last());
        assert forall|i: int| 0 <= i < spec_trim_end(f).len() implies spec_trim_end(f)[i]
            == f[i] by {
            assert(spec_trim_end(f)[i] == f.drop_last()[i]);
        }
    }
}

/// Trimming an already-trimmed field is a no-op.
pub proof fn lemma_trim_idempotent(f: Seq<u8>)
    ensures
        spec_trim(spec_trim(f)) == spec_trim(f),
{
    let a = spec_trim_start(f);
    let r = spec_trim_end(a);
    lemma_trim_start_head(f);
    lemma_trim_end_prefix(a);
    lemma_trim_end_last(a);
    if r.len() > 0 {
        assert(r[0] == a[0]);
    }
    assert(spec_trim_start(r) == r);
    assert(spec_trim_end(r) == r);
}

/// Remove leading and trailing ASCII whitespace from a field.
pub fn trim_field(f: &[u8]) -> (r: Vec<u8>)
    ensures
        r@ == spec_trim(f@),
{
    let len = f.len();
    let mut start: usize = 0;
    proof {
        assert(f@.skip(0) =~= f@);
    }
    while start < len && ascii_ws(f[start])
        invariant
            len == f@.len(),
            start <= len,
            spec_trim_start(f@) == spec_trim_start(f@.skip(start as int)),
        decreases len - start,
    {
        proof {
            assert(f@.skip(start as int).drop_first() =~= f@.skip(start as int + 1));
        }
        start += 1;
    }
    proof {
        assert(spec_trim_start(f@) =~= f@.skip(start as int));
    }
    let mut end: usize = len;
    while end > start && ascii_ws(f[end - 1])
        invariant
            len == f@.len(),
            start <= end <= len,
            spec_trim_end(f@.skip(start as int)) == spec_trim_end(
                f@.subrange(start as int, end as int),
            ),
        decreases end,
    {
        proof {
            assert(f@.subrange(start as int, end as int).drop_last() =~= f@.subrange(
                start as int,
                end as int - 1,
            ));
        }
        end -= 1;
    }
    proof {
        assert(spec_trim_end(f@.subrange(start as int, end as int)) =~= f@.subrange(
            start as int,
            end as int,
        ));
    }
    let mut r: Vec<u8> = Vec::new();
    let mut i: usize = start;
    while i < end
        invariant
            start <= i <= end <= f@.len(),
            r@ =~= f@.subrange(start as int, i as int),
        decreases end - i,
    {
        r.push(f[i]);
        i += 1;
    }
    proof {
        assert(r@ =~= spec_trim(f@));
    }
    r
}

/// A field with every CRLF pair, lone LF, and lone CR replaced by a single
/// space.
pub open spec fn spec_fold_newlines(f: Seq<u8>) -> Seq<u8>
    decreases f.len(),
{
    if f.len() == 0 {
        Seq::empty()
    } else if f[0] == 13 && f.len() >= 2 && f[1] == 10 {
        seq![32u8] + spec_fold_newlines(f.skip(2))
    } else if f[0] == 13 || f[0] == 10 {
        seq![32u8] + spec_fold_newlines(f.skip(1))
    } else {
        seq![f[0]] + spec_fold_newlines(f.skip(1))
    }
}

/// A field without any CR or LF byte is left untouched by newline folding.
pub proof fn lemma_fold_newlines_untouched(f: Seq<u8>)
    requires
        forall|i: int| 0 <= i < f.len() ==> f[i] != 10 && f[i] != 13,
    ensures
        spec_fold_newlines(f) == f,
    decreases f.len(),
{
    if f.len() > 0 {
        lemma_fold_newlines_untouched(f.skip(1));
        assert(spec_fold_newlines(f) =~= f);
    } else {
        assert(spec_fold_newlines(f) =~= f);
    }
}

/// Does the field contain a CR or LF byte anywhere?
fn contains_newline(f: &[u8]) -> (r: bool)
    ensures
        r == exists|i: int| 0 <= i < f@.len() && (f@[i] == 10 || f@[i] == 13),
{
    let len = f.len();
    let mut i: usize = 0;
    while i < len
        invariant
            len == f@.len(),
            i <= len,
            forall|k: int| 0 <= k < i ==> f@[k] != 10 && f@[k] != 13,
        decreases len - i,
    {
        if f[i] == 10 || f[i] == 13 {
            return true;
        }
        i += 1;
    }
    false
}

/// Replace every CRLF pair, lone LF, and lone CR in a field by one space.
/// Fields without any CR or LF byte are returned unchanged.
pub fn fold_newlines(f: &[u8]) -> (r: Vec<u8>)
    ensures
        r@ == spec_fold_newlines(f@),
{
    let len = f.len();
    let mut r: Vec<u8> = Vec::new();
    if !contains_newline(f) {
        proof {
            lemma_fold_newlines_untouched(f@);
        }
        let mut i: usize = 0;
        while i < len
            invariant
                len == f@.len(),
                i <= len,
                r@ =~= f@.subrange(0, i as int),
            decreases len - i,
        {
            r.push(f[i]);
            i += 1;
        }
        proof {
            assert(r@ =~= f@);
        }
        return r;
    }
    proof {
        assert(f@.skip(0) =~= f@);
        assert(r@ + spec_fold_newlines(f@) =~= spec_fold_newlines(f@));
    }
    let mut i: usize = 0;
    while i < len
        invariant
            len == f@.len(),
            i <= len,
            spec_fold_newlines(f@) == r@ + spec_fold_newlines(f@.skip(i as int)),
        decreases len - i,
    {
        proof {
            assert(f@.skip(i as int)[0] == f@[i as int]);
            assert(f@.skip(i as int).skip(1) =~= f@.skip(i as int + 1));
            if i + 1 < len {
                assert(f@.skip(i as int)[1] == f@[i as int + 1]);
                assert(f@.skip(i as int).skip(2) =~= f@.skip(i as int + 2));
            }
        }
        if f[i] == 13 && i + 1 < len && f[i + 1] == 10 {
            r.push(32);
            i += 2;
        } else if f[i] == 13 || f[i] == 10 {
            r.push(32);
            i += 1;
        } else {
            r.push(f[i]);
            i += 1;
        }
    }
    proof {
        assert(f@.skip(len as int) =~= Seq::<u8>::empty());
        assert(r@ =~= r@ + spec_fold_newlines(f@.skip(len as int)));
    }
    r
}

/// One field after the cleaning steps, in their fixed order: null-pattern
/// blanking, then trimming, then newline folding. Each step sees the output
/// of the one before it.
pub open spec fn spec_clean_field(
    null: Option<Seq<char>>,
    trim: bool,
    fold: bool,
    f: Seq<u8>,
) -> Seq<u8> {
    let a = if null matches Some(p) && null_matches(p, f) {
        Seq::<u8>::empty()
    } else {
        f
    };
    let b = if trim {
        spec_trim(a)
    } else {
        a
    };
    if fold {
        spec_fold_newlines(b)
    } else {
        b
    }
}

/// With every cleaning option disabled, cleaning a field is the identity.
pub proof fn lemma_clean_field_identity(f: Seq<u8>)
    ensures
        spec_clean_field(None, false, false, f) == f,
{
}

/// The per-run cell-cleaner configuration: an optional compiled null
/// pattern, and the two boolean cleaning switches.
pub struct CleanConfig {
    /// The compiled null pattern, if one is configured.
    pub null: Option<NullPattern>,
    /// Replace CRLF, LF and CR sequences inside a field with spaces.
    pub replace_newlines: bool,
    /// Remove ASCII whitespace at both ends of a field.
    pub trim_whitespace: bool,
}

impl CleanConfig {
    /// The text of the configured null pattern, if one is configured.
    pub open spec fn null_pattern(&self) -> Option<Seq<char>> {
        match self.null {
            Some(p) => Some(p.pattern()),
            None => None,
        }
    }

    /// Is any cleaning step enabled at all?
    pub open spec fn any_cleaning(&self) -> bool {
        self.null_pattern() is Some || self.replace_newlines || self.trim_whitespace
    }

    /// What this configuration turns one field into.
    pub open spec fn spec_clean(&self, f: Seq<u8>) -> Seq<u8> {
        spec_clean_field(self.null_pattern(), self.trim_whitespace, self.replace_newlines, f)
    }

    /// Build a configuration, compiling the null pattern if one is given.
    /// This fails exactly when a pattern is given and the regex engine
    /// refuses its anchored form.
    pub fn new(null: Option<&str>, replace_newlines: bool, trim_whitespace: bool) -> (r: Result<
        CleanConfig,
        ScrubError,
    >)
        ensures
            match r {
                Ok(c) => {
                    &&& c.replace_newlines == replace_newlines
                    &&& c.trim_whitespace == trim_whitespace
                    &&& match null {
                        Some(s) => c.null_pattern() == Some(s@),
                        None => c.null_pattern() is None,
                    }
                },
                Err(e) => null is Some && e is BadNullPattern,
            },
            match null {
                Some(s) => (r is Ok) == regex_accepts(spec_anchored(s@)),
                None => r is Ok,
            },
    {
        match null {
            None => Ok(CleanConfig { null: None, replace_newlines, trim_whitespace }),
            Some(s) => match NullPattern::compile(s) {
                Ok(p) => Ok(CleanConfig { null: Some(p), replace_newlines, trim_whitespace }),
                Err(e) => Err(ScrubError::BadNullPattern(e)),
            },
        }
    }

    /// Clean one field: blank it if the null pattern matches all of it, then
    /// trim whitespace, then fold newlines — each step only if configured.
    pub fn clean_field(&self, f: &[u8]) -> (r: Vec<u8>)
        ensures
            r@ == self.spec_clean(f@),
    {
        let mut cur: Vec<u8>;
        if let Some(p) = &self.null {
            if p.is_match(f) {
                cur = Vec::new();
            } else {
                cur = slice_to_vec(f);
            }
        } else {
            cur = slice_to_vec(f);
        }
        if self.trim_whitespace {
            cur = trim_field(cur.as_slice());
        }
        if self.replace_newlines {
            cur = fold_newlines(cur.as_slice());
        }
        cur
    }
}

} // verus!
