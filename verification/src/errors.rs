//! The one error type shared by every fallible operation of this crate.

use core::num::{ParseFloatError, ParseIntError};
use vstd::prelude::*;
use vstd::std_specs::convert::FromSpecImpl;

verus! {

/// `core::num::ParseIntError`, carried through as an opaque value.
#[verifier::external_type_specification]
#[verifier::external_body]
pub struct ExParseIntError(core::num::ParseIntError);

/// `core::num::ParseFloatError`, carried through as an opaque value.
#[verifier::external_type_specification]
#[verifier::external_body]
pub struct ExParseFloatError(core::num::ParseFloatError);

/// Reported as `last_index` when an attribute is rejected before any
/// attribute of its vector was accepted.
pub const NO_LAST_INDEX: u32 = 0xFFFF_FFFF;

/// Possible errors when loading a model or classifying with it. `T` is the
/// scalar type of the attribute values.
#[derive(Debug, PartialEq)]
pub enum Error<T> {
    /// The attributes of a vector must come in the order 0, 1, 2, ..., n
    /// without gaps. This error names the first attribute that does not.
    AttributesUnordered {
        /// The index that was not the direct successor of the previous one.
        index: u32,
        /// The value given for `index`.
        value: T,
        /// The last index accepted before `index`, or [`NO_LAST_INDEX`] if
        /// there was none.
        last_index: u32,
    },
    /// Probabilities were asked of a model that was trained without them.
    NoProbabilities,
    /// The iteration limit was exceeded while estimating probabilities.
    IterationsExceeded,
    /// The selected kernel needs a `gamma` and the model has none.
    NoGamma,
    /// The selected kernel needs a `coef0` and the model has none.
    NoCoef0,
    /// The selected kernel needs a `degree` and the model has none.
    NoDegree,
    /// A piece of text could not be parsed; the string is a short tag naming
    /// the kind of failure.
    ParsingError(String),
}

impl<T> Error<T> {
    /// Whether this is a [`Error::ParsingError`] carrying exactly `tag`.
    pub open spec fn is_parsing_error(&self, tag: Seq<char>) -> bool {
        self matches Error::ParsingError(text) && text@ == tag
    }

    /// Unwraps a value that the input was required to provide; a missing one
    /// is a parsing error tagged `NoneError`.
    pub fn required<V>(value: Option<V>) -> (result: Result<V, Error<T>>)
        ensures
            match value {
                Some(v) => result == Ok::<V, Error<T>>(v),
                None => result is Err && result->Err_0.is_parsing_error("NoneError"@),
            },
    {
        match value {
            Some(v) => Ok(v),
            None => Err(Error::ParsingError("NoneError".to_owned())),
        }
    }
}

impl<T> From<ParseFloatError> for Error<T> {
    /// A number with a fraction could not be parsed: a parsing error tagged
    /// `ParseFloatError`.
    fn from(_e: ParseFloatError) -> (error: Self)
        ensures
            error.is_parsing_error("ParseFloatError"@),
    {
        Error::ParsingError("ParseFloatError".to_owned())
    }
}

impl<T> FromSpecImpl<ParseFloatError> for Error<T> {
    /// The result holds a `String`, of which only the view is specified, so
    /// the conversion is described by the `ensures` of `from` instead.
    open spec fn obeys_from_spec() -> bool {
        false
    }

    open spec fn from_spec(e: ParseFloatError) -> Self {
        arbitrary()
    }
}

impl<T> From<ParseIntError> for Error<T> {
    /// An integer could not be parsed: a parsing error tagged
    /// `ParseIntError`.
    fn from(_e: ParseIntError) -> (error: Self)
        ensures
            error.is_parsing_error("ParseIntError"@),
    {
        Error::ParsingError("ParseIntError".to_owned())
    }
}

impl<T> FromSpecImpl<ParseIntError> for Error<T> {
    /// The result holds a `String`, of which only the view is specified, so
    /// the conversion is described by the `ensures` of `from` instead.
    open spec fn obeys_from_spec() -> bool {
        false
    }

    open spec fn from_spec(e: ParseIntError) -> Self {
        arbitrary()
    }
}

} // verus!
