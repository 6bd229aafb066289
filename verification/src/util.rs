//! Small utilities: byte-string comparison and the single-byte character
//! specifier used to configure a delimiter or quote character.

use vstd::prelude::*;
use vstd::string::StringSliceAdditionalSpecFns;

use crate::errors::ScrubError;

verus! {

/// Compare two byte slices for equality.
pub fn bytes_eq(a: &[u8], b: &[u8]) -> (r: bool)
    ensures
        r == (a@ == b@),
{
    if a.len() != b.len() {
        proof {
            assert(a@ != b@) by {
                assert(a@.len() != b@.len());
            }
        }
        return false;
    }
    let n = a.len();
    let mut i: usize = 0;
    while i < n
        invariant
            n == a@.len() == b@.len(),
            i <= n,
            forall|k: int| 0 <= k < i ==> a@[k] == b@[k],
        decreases n - i,
    {
        if a[i] != b[i] {
            return false;
        }
        i += 1;
    }
    proof {
        assert(a@ =~= b@);
    }
    true
}

/// What a character-specifier string denotes: `None` when the text is not a
/// valid specifier, `Some(c)` when it denotes the optional byte `c`.
pub open spec fn spec_char_specifier(s: Seq<u8>) -> Option<Option<u8>> {
    if s.len() == 1 {
        Some(Some(s[0]))
    } else if s == seq![92u8, 116u8] {  // the two characters `\` `t`
        Some(Some(9u8))
    } else if s == seq![116u8, 97u8, 98u8] {  // `tab`
        Some(Some(9u8))
    } else if s == seq![110u8, 111u8, 110u8, 101u8] {  // `none`
        Some(None)
    } else {
        None
    }
}

/// An optional single-byte character used to configure the CSV tokenizer:
/// a field delimiter, or a quote character (`None` disables quoting).
#[derive(Debug)]
pub struct CharSpecifier(Option<u8>);

impl CharSpecifier {
    /// The optional byte this specifier denotes.
    pub closed spec fn char_spec(&self) -> Option<u8> {
        self.0
    }

    /// Return the specified character, if any.
    pub fn char(&self) -> (r: Option<u8>)
        ensures
            r == self.char_spec(),
    {
        self.0
    }

    /// Parse a specifier: a single byte stands for itself, `\t` and `tab`
    /// stand for a tab, and `none` stands for no character at all.
    pub fn from_str(s: &str) -> (r: Result<CharSpecifier, ScrubError>)
        ensures
            match spec_char_specifier(s.spec_bytes()) {
                Some(c) => r matches Ok(cs) && cs.char_spec() == c,
                None => r matches Err(e) && (e matches ScrubError::BadCharSpecifier(t) && t@
                    == s@),
            },
    {
        proof {
            reveal_strlit("\\t");
            reveal_strlit("tab");
            reveal_strlit("none");
            broadcast use vstd::utf8::is_ascii_chars_encode_utf8;

            assert(vstd::utf8::is_ascii_chars("\\t"@));
            assert(vstd::utf8::is_ascii_chars("tab"@));
            assert(vstd::utf8::is_ascii_chars("none"@));
            assert("\\t".spec_bytes() =~= seq![92u8, 116u8]);
            assert("tab".spec_bytes() =~= seq![116u8, 97u8, 98u8]);
            assert("none".spec_bytes() =~= seq![110u8, 111u8, 110u8, 101u8]);
        }
        let bytes = s.as_bytes();
        if bytes.len() == 1 {
            proof {
                assert(s.spec_bytes() =~= seq![s.spec_bytes()[0]]);
            }
            Ok(CharSpecifier(Some(bytes[0])))
        } else if bytes_eq(bytes, "\\t".as_bytes()) {
            Ok(CharSpecifier(Some(9u8)))
        } else if bytes_eq(bytes, "tab".as_bytes()) {
            Ok(CharSpecifier(Some(9u8)))
        } else if bytes_eq(bytes, "none".as_bytes()) {
            Ok(CharSpecifier(None))
        } else {
            Err(ScrubError::BadCharSpecifier(s.to_owned()))
        }
    }
}

} // verus!
