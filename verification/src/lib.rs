//! Reader for the FTR transaction-recording container format: a chunked,
//! optionally lz4-compressed, CBOR-like binary file holding a timeline of
//! recorded transactions, organised into streams and generators and linked
//! by named relations.

pub mod decoder;
pub mod parser;
pub mod types;

pub use parser::is_ftr;
pub use parser::read_from_bytes;
pub use parser::read_from_file_bytes;

use vstd::prelude::*;

verus! {

/// The error taxonomy of the whole parse: every component fails fast and
/// propagates the first error to its caller.
#[derive(Clone, Copy, Debug, PartialEq, Eq, Structural)]
pub enum FtrError {
    /// The byte source ran out in the middle of an item.
    Truncated,
    /// A header, tag, length or chunk shape other than the format demands.
    Format,
    /// A dictionary, stream or generator id that is not registered.
    Reference,
    /// A compressed payload that does not decompress to its declared size.
    Decompress,
    /// A text string whose bytes are not valid UTF-8.
    Encoding,
}

impl FtrError {
    /// A short description of the failure class.
    pub fn describe(&self) -> (r: &'static str)
        ensures
            r@ == spec_describe(*self),
    {
        match self {
            FtrError::Truncated => "source ended in the middle of an item",
            FtrError::Format => "not a valid container item here",
            FtrError::Reference => "an id that is not registered",
            FtrError::Decompress => "a compressed payload that does not decompress",
            FtrError::Encoding => "a text string that is not valid UTF-8",
        }
    }
}

/// The description `describe` hands out for each failure class.
pub open spec fn spec_describe(e: FtrError) -> Seq<char> {
    match e {
        FtrError::Truncated => "source ended in the middle of an item"@,
        FtrError::Format => "not a valid container item here"@,
        FtrError::Reference => "an id that is not registered"@,
        FtrError::Decompress => "a compressed payload that does not decompress"@,
        FtrError::Encoding => "a text string that is not valid UTF-8"@,
    }
}

} // verus!
