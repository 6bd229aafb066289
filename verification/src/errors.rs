//! Error values produced by the library's own checks, and helpers to wrap
//! them with human-readable context.

use vstd::prelude::*;
use vstd::string::StringExecFns;

use crate::uniquifier::{ascii_chars, spec_decimal, u64_to_string};

verus! {

#[verifier::external_type_specification]
#[verifier::external_body]
pub struct ExRegexError(regex::Error);

/// An error of the library: a bad piece of run configuration, or the
/// post-run quality-gate verdict that too large a fraction of rows was bad.
#[derive(Debug)]
pub enum ScrubError {
    /// A delimiter or quote specifier that is not a single byte, `\t`,
    /// `tab`, or `none`. Carries the offending specifier text.
    BadCharSpecifier(String),
    /// A null pattern that the regex engine refused to compile.
    BadNullPattern(regex::Error),
    /// More than a tenth of all rows (header included) were bad.
    TooManyBadRows { bad: u64, total: u64 },
}

impl ScrubError {
    /// A human-readable description of the error.
    pub fn message(&self) -> (r: String)
        ensures
            self matches ScrubError::BadCharSpecifier(s) ==> r@ == "cannot parse character specifier: '"@
                + s@ + "'"@,
            self is BadNullPattern ==> r@ == "cannot compile null pattern"@,
            self matches ScrubError::TooManyBadRows { bad, total } ==> r@ == "Too many rows ("@
                + ascii_chars(spec_decimal(bad as nat)) + " of "@ + ascii_chars(
                spec_decimal(total as nat),
            ) + ") were bad"@,
    {
        match self {
            ScrubError::BadCharSpecifier(s) => {
                let mut m = "cannot parse character specifier: '".to_owned();
                m.append(s.as_str());
                m.append("'");
                m
            },
            ScrubError::BadNullPattern(_) => "cannot compile null pattern".to_owned(),
            ScrubError::TooManyBadRows { bad, total } => {
                let b = u64_to_string(*bad);
                let t = u64_to_string(*total);
                let mut m = "Too many rows (".to_owned();
                m.append(b.as_str());
                m.append(" of ");
                m.append(t.as_str());
                m.append(") were bad");
                m
            },
        }
    }
}

/// Human-readable context for another error.
#[derive(Debug)]
pub struct Context {
    /// What was being attempted when the error arose.
    pub context: String,
    /// The underlying error.
    pub source: ScrubError,
}

impl Context {
    /// The context line, as shown to the user.
    pub fn message(&self) -> (r: &String)
        ensures
            r@ == self.context@,
    {
        &self.context
    }

    /// The underlying error.
    pub fn source(&self) -> (r: &ScrubError)
        ensures
            r == self.source,
    {
        &self.source
    }
}

/// Extend `Result` with methods that add context to errors.
pub trait ResultExt<T>: Sized {
    /// The success value this result holds, if any.
    spec fn ok_value(self) -> Option<T>;

    /// The error this result holds, if any.
    spec fn err_value(self) -> Option<ScrubError>;

    /// If this result is an error, wrap that error with `context`.
    fn context(self, context: String) -> (r: Result<T, Context>)
        ensures
            (r is Ok) == (self.ok_value() is Some),
            r matches Ok(v) ==> self.ok_value() == Some(v),
            r matches Err(c) ==> self.err_value() matches Some(e) && c.source == e && c.context@
                == context@,
    ;

    /// If this result is an error, call `build_context` and wrap the error
    /// in the context it builds.
    fn with_context<F: FnOnce(&ScrubError) -> String>(self, build_context: F) -> (r: Result<
        T,
        Context,
    >)
        requires
            forall|e: &ScrubError| call_requires(build_context, (e,)),
        ensures
            (r is Ok) == (self.ok_value() is Some),
            r matches Ok(v) ==> self.ok_value() == Some(v),
            r matches Err(c) ==> self.err_value() matches Some(e) && c.source == e && call_ensures(
                build_context,
                (&e,),
                c.context,
            ),
    ;
}

impl<T> ResultExt<T> for Result<T, ScrubError> {
    open spec fn ok_value(self) -> Option<T> {
        match self {
            Ok(v) => Some(v),
            Err(_) => None,
        }
    }

    open spec fn err_value(self) -> Option<ScrubError> {
        match self {
            Ok(_) => None,
            Err(e) => Some(e),
        }
    }

    fn context(self, context: String) -> (r: Result<T, Context>) {
        match self {
            Ok(v) => Ok(v),
            Err(e) => Err(Context { context, source: e }),
        }
    }

    fn with_context<F: FnOnce(&ScrubError) -> String>(self, build_context: F) -> (r: Result<
        T,
        Context,
    >) {
        match self {
            Ok(v) => Ok(v),
            Err(e) => {
                let context = build_context(&e);
                Err(Context { context, source: e })
            },
        }
    }
}

} // verus!
