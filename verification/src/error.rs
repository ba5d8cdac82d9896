use vstd::prelude::*;
use crate::text::{decimal, with_decimal};

verus! {

/// `std::io::Error`, carried opaquely by the `Io` variant.
#[verifier::external_type_specification]
#[verifier::external_body]
pub struct ExIoError(std::io::Error);

/// Everything that can go wrong while loading or querying a vector store.
#[derive(Debug)]
pub enum VectorStoreError {
    Io(std::io::Error),
    InvalidVectorLength { expected: usize, got: usize },
    EmptyDataset,
    InvalidK,
    StoreUnavailable(String),
    InvalidBinary(String),
}

/// `e` is an `InvalidBinary` error whose reason reads `reason`.
pub open spec fn is_invalid_binary(e: VectorStoreError, reason: Seq<char>) -> bool {
    e matches VectorStoreError::InvalidBinary(s) && s@ == reason
}

/// The invalid-binary error with the given reason.
pub fn invalid_binary(reason: &str) -> (e: VectorStoreError)
    ensures
        is_invalid_binary(e, reason@),
{
    VectorStoreError::InvalidBinary(String::from_str(reason))
}

/// The text of an I/O error, by its `Display` (`ToString::to_string`); nothing is
/// stated of the text, which the operating system's error description decides.
#[verifier::external_body]
fn io_error_text(error: &std::io::Error) -> String {
    error.to_string()
}

/// The description of `e`: fixed wording around the error's fields, where
/// `io_text` is the text of the I/O error an `Io` variant carries.
pub open spec fn description(e: VectorStoreError, io_text: Seq<char>) -> Seq<char> {
    match e {
        VectorStoreError::Io(_) => "io error: "@ + io_text,
        VectorStoreError::InvalidVectorLength { expected, got } => "invalid vector length: expected "@
            + decimal(expected as nat) + ", got "@ + decimal(got as nat),
        VectorStoreError::EmptyDataset => "vector store is empty"@,
        VectorStoreError::InvalidK => "k must be greater than zero"@,
        VectorStoreError::StoreUnavailable(reason) => "store unavailable: "@ + reason@,
        VectorStoreError::InvalidBinary(reason) => "invalid binary vector source: "@ + reason@,
    }
}

impl VectorStoreError {
    /// The description of the error, given `io_text`, the text of the I/O error that
    /// an `Io` variant carries (ignored for the other variants).
    pub fn describe(&self, io_text: &str) -> (s: String)
        ensures
            s@ == description(*self, io_text@),
    {
        match self {
            VectorStoreError::Io(_) => {
                let mut s = String::from_str("io error: ");
                s.append(io_text);
                s
            },
            VectorStoreError::InvalidVectorLength { expected, got } => {
                let mut s = with_decimal("invalid vector length: expected ", *expected as u64);
                let tail = with_decimal(", got ", *got as u64);
                s.append(tail.as_str());
                assert(s@ == "invalid vector length: expected "@ + decimal(*expected as nat)
                    + ", got "@ + decimal(*got as nat));
                s
            },
            VectorStoreError::EmptyDataset => String::from_str("vector store is empty"),
            VectorStoreError::InvalidK => String::from_str("k must be greater than zero"),
            VectorStoreError::StoreUnavailable(reason) => {
                let mut s = String::from_str("store unavailable: ");
                s.append(reason.as_str());
                s
            },
            VectorStoreError::InvalidBinary(reason) => {
                let mut s = String::from_str("invalid binary vector source: ");
                s.append(reason.as_str());
                s
            },
        }
    }

    /// A one-line description of the error, for logs and responses: `describe` with
    /// the text of the carried I/O error, for an `Io` variant.
    pub fn message(&self) -> (s: String)
        ensures
            !(*self is Io) ==> s@ == description(*self, Seq::empty()),
            *self is Io ==> exists|io_text: Seq<char>| s@ == #[trigger] description(*self, io_text),
    {
        match self {
            VectorStoreError::Io(error) => {
                let text = io_error_text(error);
                self.describe(text.as_str())
            },
            _ => self.describe(""),
        }
    }
}

/// The error reported when the store cannot be used because loading it failed with
/// `cause`, given `io_text`, the text of the I/O error an `Io` cause carries: the
/// store is unavailable, for the reason that describes `cause`.
pub fn unavailable_because(cause: &VectorStoreError, io_text: &str) -> (e: VectorStoreError)
    ensures
        e matches VectorStoreError::StoreUnavailable(reason) && reason@ == description(
            *cause,
            io_text@,
        ),
{
    VectorStoreError::StoreUnavailable(cause.describe(io_text))
}

/// The error reported when the store cannot be used because loading it failed with
/// `cause`: `unavailable_because` with the text of the carried I/O error, for an `Io`
/// cause.
pub fn store_unavailable(cause: &VectorStoreError) -> (e: VectorStoreError)
    ensures
        !(*cause is Io) ==> (e matches VectorStoreError::StoreUnavailable(reason) && reason@
            == description(*cause, Seq::empty())),
        *cause is Io ==> (e matches VectorStoreError::StoreUnavailable(reason) && exists|
            io_text: Seq<char>,
        | reason@ == #[trigger] description(*cause, io_text)),
{
    match cause {
        VectorStoreError::Io(error) => {
            let text = io_error_text(error);
            unavailable_because(cause, text.as_str())
        },
        _ => unavailable_because(cause, ""),
    }
}

/// The error reported when no store file exists at `path`.
pub fn source_not_found(path: &str) -> (e: VectorStoreError)
    ensures
        e matches VectorStoreError::StoreUnavailable(reason) && reason@
            == "vector source not found at "@ + path@,
{
    let mut reason = String::from_str("vector source not found at ");
    reason.append(path);
    VectorStoreError::StoreUnavailable(reason)
}

impl From<std::io::Error> for VectorStoreError {
    fn from(value: std::io::Error) -> (e: Self) {
        VectorStoreError::Io(value)
    }
}

impl vstd::std_specs::convert::FromSpecImpl<std::io::Error> for VectorStoreError {
    open spec fn obeys_from_spec() -> bool {
        true
    }

    open spec fn from_spec(v: std::io::Error) -> Self {
        VectorStoreError::Io(v)
    }
}

} // verus!
