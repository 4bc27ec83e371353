pub mod stream_parser;

pub use stream_parser::{ParserConfig, ReadOutcome, StreamParser, ISA_HEADER_LEN};

use crate::error::Error;
use vstd::prelude::*;

verus! {

/// Derive a full delimiter configuration from the fixed-width leading header
/// of a document, as `ParserConfig::from_isa_header` does.
pub fn parser_config_from_isa_header(isa_bytes: &[u8]) -> (r: Result<ParserConfig, Error>)
    ensures
        isa_bytes@.len() < ISA_HEADER_LEN ==> r == Err::<ParserConfig, Error>(
            Error::HeaderTooShort,
        ),
        isa_bytes@.len() >= ISA_HEADER_LEN ==> (r matches Ok(c) && c
            == ParserConfig::from_isa_header_spec(isa_bytes@)),
{
    ParserConfig::from_isa_header(isa_bytes)
}

} // verus!
