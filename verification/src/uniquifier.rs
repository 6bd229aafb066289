//! Column-name cleaning and uniquification.
//!
//! Each raw header name is cleaned into an identifier-like ASCII name
//! (lowercase letters, digits and underscores; never empty), and a repeated
//! cleaned name receives a numeric suffix so that names stay distinct. The
//! suffix scheme guards only against first-order collisions: a raw name that
//! already looks like a suffixed name (such as `a_2`) can collide with a
//! generated one, a documented limitation.

use vstd::prelude::*;
use vstd::slice::slice_to_vec;

use crate::util::bytes_eq;

verus! {

/// An ASCII lowercase letter, digit, or underscore: the bytes a cleaned
/// column name is made of.
pub open spec fn is_ident_byte(b: u8) -> bool {
    (97 <= b <= 122) || (48 <= b <= 57) || b == 95
}

/// An ASCII decimal digit.
pub open spec fn is_digit_byte(b: u8) -> bool {
    48 <= b <= 57
}

/// What one character of a raw name is cleaned into: kept if it is already
/// an ASCII lowercase letter, digit or underscore; lowercased if it is an
/// ASCII uppercase letter; an underscore otherwise.
pub open spec fn clean_char(c: char) -> u8 {
    let u = c as u32;
    if (97 <= u <= 122) || (48 <= u <= 57) || u == 95 {
        u as u8
    } else if 65 <= u <= 90 {
        (u + 32) as u8
    } else {
        95u8
    }
}

/// A raw name after cleaning: each character cleaned in place, and the empty
/// name replaced by a single underscore.
pub open spec fn spec_clean_name(s: Seq<char>) -> Seq<u8> {
    if s.len() == 0 {
        seq![95u8]
    } else {
        s.map_values(|c: char| clean_char(c))
    }
}

/// Every byte of a cleaned name is an identifier byte, and a cleaned name is
/// never empty.
pub proof fn lemma_clean_name_wf(s: Seq<char>)
    ensures
        spec_clean_name(s).len() > 0,
        forall|i: int|
            0 <= i < spec_clean_name(s).len() ==> is_ident_byte(#[trigger] spec_clean_name(s)[i]),
{
}

/// Clean one raw name.
pub fn clean_name(raw: &str) -> (r: Vec<u8>)
    ensures
        r@ == spec_clean_name(raw@),
{
    let len = raw.unicode_len();
    let mut out: Vec<u8> = Vec::new();
    let mut i: usize = 0;
    while i < len
        invariant
            len == raw@.len(),
            i <= len,
            out@ =~= raw@.take(i as int).map_values(|c: char| clean_char(c)),
        decreases len - i,
    {
        let c = raw.get_char(i);
        let u = c as u32;
        let b: u8 = if (97 <= u && u <= 122) || (48 <= u && u <= 57) || u == 95 {
            u as u8
        } else if 65 <= u && u <= 90 {
            (u + 32) as u8
        } else {
            95u8
        };
        out.push(b);
        proof {
            assert(raw@.take(i as int + 1).map_values(|c: char| clean_char(c)) =~= raw@.take(
                i as int,
            ).map_values(|c: char| clean_char(c)).push(clean_char(raw@[i as int])));
        }
        i += 1;
    }
    proof {
        assert(raw@.take(len as int) =~= raw@);
    }
    if out.len() == 0 {
        out.push(95);
    }
    out
}

/// The decimal digits of `n`, as ASCII bytes, most significant first.
pub open spec fn spec_decimal(n: nat) -> Seq<u8>
    decreases n,
{
    if n < 10 {
        seq![(48 + n) as u8]
    } else {
        spec_decimal(n / 10) + seq![(48 + n % 10) as u8]
    }
}

/// A decimal rendering is never empty and contains only digit bytes.
pub proof fn lemma_decimal_wf(n: nat)
    ensures
        spec_decimal(n).len() > 0,
        forall|i: int| 0 <= i < spec_decimal(n).len() ==> is_digit_byte(#[trigger] spec_decimal(n)[i]),
    decreases n,
{
    if n >= 10 {
        lemma_decimal_wf(n / 10);
    }
}

/// Two different numbers have different decimal renderings.
pub proof fn lemma_decimal_injective(a: nat, b: nat)
    requires
        spec_decimal(a) == spec_decimal(b),
    ensures
        a == b,
    decreases a,
{
    lemma_decimal_wf(a);
    lemma_decimal_wf(b);
    if a < 10 && b < 10 {
        assert(spec_decimal(a)[0] == 48 + a);
        assert(spec_decimal(b)[0] == 48 + b);
    } else if a < 10 && b >= 10 {
        lemma_decimal_wf(b / 10);
        assert(spec_decimal(a).len() == 1);
        assert(spec_decimal(b).len() >= 2);
    } else if a >= 10 && b < 10 {
        lemma_decimal_wf(a / 10);
        assert(spec_decimal(a).len() >= 2);
        assert(spec_decimal(b).len() == 1);
    } else {
        assert(spec_decimal(a).last() == 48 + a % 10);
        assert(spec_decimal(b).last() == 48 + b % 10);
        assert(a % 10 == b % 10);
        assert(spec_decimal(a).drop_last() =~= spec_decimal(a / 10));
        assert(spec_decimal(b).drop_last() =~= spec_decimal(b / 10));
        lemma_decimal_injective(a / 10, b / 10);
        assert(a == 10 * (a / 10) + a % 10);
        assert(b == 10 * (b / 10) + b % 10);
    }
}

/// Render `n` in decimal as ASCII digit bytes.
pub fn u64_decimal(n: u64) -> (r: Vec<u8>)
    ensures
        r@ == spec_decimal(n as nat),
    decreases n,
{
    if n < 10 {
        let mut r: Vec<u8> = Vec::new();
        r.push(48 + n as u8);
        proof {
            assert(r@ =~= spec_decimal(n as nat));
        }
        r
    } else {
        let mut r = u64_decimal(n / 10);
        r.push(48 + (n % 10) as u8);
        proof {
            assert(r@ =~= spec_decimal(n as nat));
        }
        r
    }
}

/// How many of the byte-strings in `s` equal `c`.
pub open spec fn count_matches(s: Seq<Seq<u8>>, c: Seq<u8>) -> nat
    decreases s.len(),
{
    if s.len() == 0 {
        0
    } else {
        count_matches(s.drop_last(), c) + if s.last() == c {
            1nat
        } else {
            0nat
        }
    }
}

/// Counting over one more element adds one exactly when that element is `c`.
proof fn lemma_count_take_step(s: Seq<Seq<u8>>, c: Seq<u8>, k: int)
    requires
        0 <= k < s.len(),
    ensures
        count_matches(s.take(k + 1), c) == count_matches(s.take(k), c) + if s[k] == c {
            1nat
        } else {
            0nat
        },
{
    assert(s.take(k + 1).drop_last() =~= s.take(k));
    assert(s.take(k + 1).last() == s[k]);
}

/// The count over a prefix never exceeds the count over a longer prefix.
proof fn lemma_count_take_mono(s: Seq<Seq<u8>>, c: Seq<u8>, a: int, b: int)
    requires
        0 <= a <= b <= s.len(),
    ensures
        count_matches(s.take(a), c) <= count_matches(s.take(b), c),
    decreases b - a,
{
    if a < b {
        lemma_count_take_step(s, c, b - 1);
        lemma_count_take_mono(s, c, a, b - 1);
    }
}

/// The cleaned forms of a sequence of raw names.
pub open spec fn cleans_of(raws: Seq<Seq<char>>) -> Seq<Seq<u8>> {
    raws.map_values(|r: Seq<char>| spec_clean_name(r))
}

/// The canonical name produced for the raw name at position `i`, given all
/// raw names of the run in order: the cleaned name itself the first time it
/// occurs, and the cleaned name with `_` and an occurrence number appended
/// on each repetition.
pub open spec fn nth_output(raws: Seq<Seq<char>>, i: int) -> Seq<u8>
    recommends
        0 <= i < raws.len(),
{
    let c = spec_clean_name(raws[i]);
    let n = count_matches(cleans_of(raws).take(i), c);
    if n == 0 {
        c
    } else {
        c + seq![95u8] + spec_decimal(n + 1)
    }
}

/// A byte-string that ends in an underscore followed by one or more digits:
/// the shape of a generated collision suffix.
pub open spec fn ends_in_numeric_suffix(s: Seq<u8>) -> bool {
    exists|k: int|
        0 <= k < s.len() - 1 && #[trigger] s[k] == 95 && (forall|m: int|
            k < m < s.len() ==> is_digit_byte(#[trigger] s[m]))
}

/// No raw name in the run cleans to something that already looks like a
/// suffixed name. Under this condition the collision-suffix scheme cannot
/// produce a second-order collision.
pub open spec fn no_numeric_suffix_names(raws: Seq<Seq<char>>) -> bool {
    forall|i: int|
        0 <= i < raws.len() ==> !ends_in_numeric_suffix(#[trigger] spec_clean_name(raws[i]))
}

/// Every canonical name the uniquifier produces, for any sequence of raw
/// names whatsoever, is non-empty and made of ASCII lowercase letters,
/// digits and underscores only.
pub proof fn lemma_output_wf(raws: Seq<Seq<char>>, i: int)
    requires
        0 <= i < raws.len(),
    ensures
        nth_output(raws, i).len() > 0,
        forall|k: int|
            0 <= k < nth_output(raws, i).len() ==> is_ident_byte(#[trigger] nth_output(raws, i)[k]),
{
    lemma_clean_name_wf(raws[i]);
    let c = spec_clean_name(raws[i]);
    let n = count_matches(cleans_of(raws).take(i), c);
    if n > 0 {
        lemma_decimal_wf(n + 1);
        let o = nth_output(raws, i);
        assert forall|k: int| 0 <= k < o.len() implies is_ident_byte(#[trigger] o[k]) by {
            if k < c.len() {
                assert(o[k] == c[k]);
            } else if k == c.len() {
                assert(o[k] == 95);
            } else {
                assert(o[k] == spec_decimal(n + 1)[k - c.len() - 1]);
            }
        }
    }
}

/// For any sequence of raw names in which no cleaned name already carries a
/// numeric suffix, no two canonical names of the same run are equal.
pub proof fn lemma_outputs_distinct(raws: Seq<Seq<char>>, i: int, j: int)
    requires
        no_numeric_suffix_names(raws),
        0 <= i < j < raws.len(),
    ensures
        nth_output(raws, i) != nth_output(raws, j),
{
    let cleans = cleans_of(raws);
    let ci = spec_clean_name(raws[i]);
    let cj = spec_clean_name(raws[j]);
    let ni = count_matches(cleans.take(i), ci);
    let nj = count_matches(cleans.take(j), cj);
    let oi = nth_output(raws, i);
    let oj = nth_output(raws, j);
    let di = spec_decimal(ni + 1);
    let dj = spec_decimal(nj + 1);
    lemma_clean_name_wf(raws[i]);
    lemma_clean_name_wf(raws[j]);
    lemma_decimal_wf(ni + 1);
    lemma_decimal_wf(nj + 1);
    if ci == cj {
        lemma_count_take_step(cleans, ci, i);
        lemma_count_take_mono(cleans, ci, i + 1, j);
        assert(cleans[i] == ci);
        assert(nj > ni);
        if ni == 0 {
            assert(oi.len() < oj.len());
        } else if oi == oj {
            assert(oi.len() == ci.len() + 1 + di.len());
            assert(oj.len() == cj.len() + 1 + dj.len());
            assert(di.len() == dj.len());
            assert(di =~= oi.subrange(ci.len() as int + 1, oi.len() as int));
            assert(dj =~= oj.subrange(cj.len() as int + 1, oj.len() as int));
            lemma_decimal_injective(ni + 1, nj + 1);
            assert(false);
        }
    } else {
        if ni == 0 && nj == 0 {
            assert(oi == ci && oj == cj);
        } else if ni == 0 && nj > 0 {
            if oi == oj {
                assert(oj[cj.len() as int] == 95);
                assert forall|m: int| cj.len() < m < oj.len() implies is_digit_byte(
                    #[trigger] oj[m],
                ) by {
                    assert(oj[m] == dj[m - cj.len() - 1]);
                }
                assert(ends_in_numeric_suffix(ci));
                assert(false);
            }
        } else if ni > 0 && nj == 0 {
            if oi == oj {
                assert(oi[ci.len() as int] == 95);
                assert forall|m: int| ci.len() < m < oi.len() implies is_digit_byte(
                    #[trigger] oi[m],
                ) by {
                    assert(oi[m] == di[m - ci.len() - 1]);
                }
                assert(ends_in_numeric_suffix(cj));
                assert(false);
            }
        } else {
            if oi == oj {
                assert(oi.len() == ci.len() + 1 + di.len());
                assert(oj.len() == cj.len() + 1 + dj.len());
                if di.len() == dj.len() {
                    assert(ci.len() == cj.len());
                    assert forall|t: int| 0 <= t < ci.len() implies ci[t] == cj[t] by {
                        assert(oi[t] == ci[t]);
                        assert(oj[t] == cj[t]);
                    }
                    assert(ci =~= cj);
                    assert(false);
                } else if di.len() < dj.len() {
                    let p = oi.len() - di.len() - 1;
                    assert(oi[p] == 95);
                    assert(p - cj.len() - 1 >= 0);
                    assert(oj[p] == dj[p - cj.len() - 1]);
                    assert(is_digit_byte(dj[p - cj.len() - 1]));
                    assert(false);
                } else {
                    let p = oj.len() - dj.len() - 1;
                    assert(oj[p] == 95);
                    assert(p - ci.len() - 1 >= 0);
                    assert(oi[p] == di[p - ci.len() - 1]);
                    assert(is_digit_byte(di[p - ci.len() - 1]));
                    assert(false);
                }
            }
        }
    }
}

/// A canonical name depends only on the raw names up to and including its
/// own position: later names do not change it.
pub proof fn lemma_nth_output_prefix(raws: Seq<Seq<char>>, m: int, k: int)
    requires
        0 <= k < m <= raws.len(),
    ensures
        nth_output(raws.take(m), k) == nth_output(raws, k),
{
    assert(raws.take(m)[k] == raws[k]);
    assert(cleans_of(raws.take(m)).take(k) =~= cleans_of(raws).take(k));
}

/// The characters of an all-ASCII byte-string, byte for byte.
pub open spec fn ascii_chars(s: Seq<u8>) -> Seq<char> {
    s.map_values(|b: u8| b as char)
}

/// Reading distinct ASCII byte-strings as text keeps them distinct.
pub proof fn lemma_ascii_chars_distinct(a: Seq<u8>, b: Seq<u8>)
    requires
        a != b,
    ensures
        ascii_chars(a) != ascii_chars(b),
{
    if ascii_chars(a) == ascii_chars(b) {
        assert(ascii_chars(a).len() == a.len());
        assert(ascii_chars(b).len() == b.len());
        assert(a.len() == b.len());
        assert forall|t: int| 0 <= t < a.len() implies a[t] == b[t] by {
            assert(ascii_chars(a)[t] == ascii_chars(b)[t]);
            assert((a[t] as char) as u8 == a[t]);
            assert((b[t] as char) as u8 == b[t]);
        }
        assert(a =~= b);
    }
}

/// For any sequence of raw names in which no cleaned name already carries a
/// numeric suffix, no two of the canonical names handed out as text are
/// equal either.
pub proof fn lemma_unique_ids_distinct(raws: Seq<Seq<char>>, i: int, j: int)
    requires
        no_numeric_suffix_names(raws),
        0 <= i < j < raws.len(),
    ensures
        ascii_chars(nth_output(raws, i)) != ascii_chars(nth_output(raws, j)),
{
    lemma_outputs_distinct(raws, i, j);
    lemma_ascii_chars_distinct(nth_output(raws, i), nth_output(raws, j));
}

/// The running state of the uniquifier: the cleaned form of every raw name
/// seen so far, in order, together with the raw names themselves in ghost
/// form.
pub struct Uniquifier {
    cleans: Vec<Vec<u8>>,
    raws: Ghost<Seq<Seq<char>>>,
}

impl Uniquifier {
    /// The raw names this uniquifier has been fed, in order.
    pub closed spec fn raws(&self) -> Seq<Seq<char>> {
        self.raws@
    }

    /// The exec state records exactly the cleaned forms of the raw names.
    pub closed spec fn wf(&self) -> bool {
        self.cleans.deep_view() == cleans_of(self.raws@)
    }

    /// A fresh uniquifier that has seen no names.
    pub fn new() -> (u: Uniquifier)
        ensures
            u.wf(),
            u.raws() == Seq::<Seq<char>>::empty(),
    {
        let u = Uniquifier { cleans: Vec::new(), raws: Ghost(Seq::empty()) };
        proof {
            assert(u.cleans.deep_view() =~= cleans_of(u.raws@));
        }
        u
    }

    /// Produce the canonical name for the next raw header name, as bytes.
    pub fn unique_name_bytes(&mut self, raw: &str) -> (r: Vec<u8>)
        requires
            old(self).wf(),
            old(self).raws().len() < usize::MAX,
        ensures
            final(self).wf(),
            final(self).raws() == old(self).raws().push(raw@),
            r@ == nth_output(final(self).raws(), old(self).raws().len() as int),
    {
        let c = clean_name(raw);
        let ghost prior = self.raws@;
        let ghost i = prior.len() as int;

        // Count how often this cleaned name has come up before.
        let mut n: usize = 0;
        let mut k: usize = 0;
        let len = self.cleans.len();
        while k < len
            invariant
                len == self.cleans@.len(),
                k <= len,
                n <= k,
                n == count_matches(self.cleans.deep_view().take(k as int), c@),
            decreases len - k,
        {
            proof {
                lemma_count_take_step(self.cleans.deep_view(), c@, k as int);
                assert(self.cleans.deep_view()[k as int] =~= self.cleans@[k as int]@);
            }
            if bytes_eq(self.cleans[k].as_slice(), c.as_slice()) {
                n += 1;
            }
            k += 1;
        }
        proof {
            assert(self.cleans.deep_view().take(len as int) =~= self.cleans.deep_view());
        }

        // Record the cleaned name for later calls.
        let recorded = slice_to_vec(c.as_slice());
        self.cleans.push(recorded);
        proof {
            self.raws@ = prior.push(raw@);
            assert forall|j: int| 0 <= j < self.cleans@.len() implies self.cleans.deep_view()[j]
                == cleans_of(self.raws@)[j] by {
                if j < prior.len() {
                    assert(self.cleans@[j] == old(self).cleans@[j]);
                    assert(old(self).cleans.deep_view()[j] == cleans_of(prior)[j]);
                } else {
                    assert(self.cleans@[j] == recorded);
                    assert(recorded.deep_view() =~= spec_clean_name(raw@));
                }
            }
            assert(self.cleans.deep_view() =~= cleans_of(self.raws@));
            assert(cleans_of(self.raws@).take(i) =~= cleans_of(prior));
        }

        if n == 0 {
            c
        } else {
            let mut out = c;
            out.push(95);
            let d = u64_decimal(n as u64 + 1);
            let dlen = d.len();
            let mut m: usize = 0;
            while m < dlen
                invariant
                    dlen == d@.len(),
                    m <= dlen,
                    out@ =~= spec_clean_name(raw@) + seq![95u8] + d@.take(m as int),
                decreases dlen - m,
            {
                out.push(d[m]);
                m += 1;
            }
            proof {
                assert(d@.take(dlen as int) =~= d@);
                assert(out@ =~= nth_output(self.raws@, i));
            }
            out
        }
    }

    /// Produce the canonical name for the next raw header name, as text.
    pub fn unique_id_for(&mut self, raw: &str) -> (r: String)
        requires
            old(self).wf(),
            old(self).raws().len() < usize::MAX,
        ensures
            final(self).wf(),
            final(self).raws() == old(self).raws().push(raw@),
            r@ == ascii_chars(nth_output(final(self).raws(), old(self).raws().len() as int)),
    {
        let b = self.unique_name_bytes(raw);
        proof {
            lemma_output_wf(self.raws@, self.raws@.len() - 1);
        }
        ascii_to_string(b)
    }
}

impl Default for Uniquifier {
    /// A fresh uniquifier that has seen no names.
    fn default() -> (u: Uniquifier)
        ensures
            u.wf(),
            u.raws() == Seq::<Seq<char>>::empty(),
    {
        Uniquifier::new()
    }
}

/// Render a counter in decimal as text.
pub fn u64_to_string(n: u64) -> (r: String)
    ensures
        r@ == ascii_chars(spec_decimal(n as nat)),
{
    let d = u64_decimal(n);
    proof {
        lemma_decimal_wf(n as nat);
    }
    ascii_to_string(d)
}

/// Relies on String::from_utf8: bytes below 128 are valid UTF-8 and decode
/// to exactly one character each, equal to the byte.
#[verifier::external_body]
fn ascii_to_string(b: Vec<u8>) -> (r: String)
    requires
        forall|i: int| 0 <= i < b@.len() ==> b@[i] < 128,
    ensures
        r@ == ascii_chars(b@),
{
    String::from_utf8(b).unwrap()
}

} // verus!
