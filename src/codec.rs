//! The binary form of a tally state, as the persistence layer stores it.
//!
//! States are written with bincode's standard configuration (little endian,
//! variable-length integers): an option list as a length followed by
//! `(label, score)` pairs, and a score poll's state as its two range bounds
//! followed by the option list.
use vstd::prelude::*;
use crate::options::{tally_of, Tally};

verus! {

/// Why stored bytes could not be read back as a state.
#[derive(Debug, Clone, Copy, PartialEq, Eq, Structural)]
pub enum DecodeError {
    /// The bytes do not begin with an encoded state of the expected kind.
    Malformed,
    /// Bytes remain after the encoded state.
    TrailingBytes,
    /// The state holds fewer than two options.
    TooFewOptions,
    /// A score range whose lowest value is not below its highest.
    InvalidRange,
}

/// The largest encoded state that decoding is sure to read back.
pub const MAX_STATE_BYTES: usize = 1048576;

/// The bytes of an option list.
pub uninterp spec fn options_encoding(t: Tally) -> Seq<u8>;

/// The bytes of a score poll's state: the range `[min, max]`, then the options.
pub uninterp spec fn scored_encoding(min: u32, max: u32, t: Tally) -> Seq<u8>;

/// Relies on `bincode::encode_to_vec` with the standard configuration: the
/// bytes depend on the labels' characters and the scores alone. Writing into a
/// `Vec` does not fail for strings, integers and vectors.
#[verifier::external_body]
pub(crate) fn encode_options(v: &Vec<(String, u64)>) -> (r: Vec<u8>)
    ensures
        r@ == options_encoding(tally_of(v@)),
{
    match bincode::encode_to_vec(v, bincode::config::standard()) {
        Ok(bytes) => bytes,
        Err(_) => Vec::new(),
    }
}

/// Relies on `bincode::encode_to_vec` with the standard configuration on the
/// tuple `(min, max, options)`: the bytes depend on the values alone, and
/// writing into a `Vec` does not fail.
#[verifier::external_body]
pub(crate) fn encode_scored(min: u32, max: u32, v: &Vec<(String, u64)>) -> (r: Vec<u8>)
    ensures
        r@ == scored_encoding(min, max, tally_of(v@)),
{
    match bincode::encode_to_vec((min, max, v), bincode::config::standard()) {
        Ok(bytes) => bytes,
        Err(_) => Vec::new(),
    }
}

/// Relies on `bincode::decode_from_slice` with the standard configuration and
/// a 32 MiB limit on what one decode may claim (bincode refuses a length that
/// would claim more, before it allocates). It returns the value and the number
/// of bytes read. On the exact encoding of an option list of at most
/// `MAX_STATE_BYTES` bytes the claims stay under the limit (under 25 times
/// the input), so the same list comes back and all bytes are read.
#[verifier::external_body]
pub(crate) fn decode_options(b: &[u8]) -> (r: Option<(Vec<(String, u64)>, usize)>)
    ensures
        match r {
            Some((_, read)) => read <= b@.len(),
            None => true,
        },
        forall|t: Tally|
            #[trigger] options_encoding(t) == b@ && b@.len() <= MAX_STATE_BYTES ==> match r {
                Some((v, read)) => tally_of(v@) == t && read == b@.len(),
                None => false,
            },
{
    bincode::decode_from_slice(b, bincode::config::standard().with_limit::<33554432>()).ok()
}

/// Relies on `bincode::decode_from_slice` on the tuple `(min, max, options)`,
/// with the standard configuration and a 32 MiB limit on what one decode may
/// claim. It returns the value and the number of bytes read. On the exact
/// encoding of such a state of at most `MAX_STATE_BYTES` bytes the same state
/// comes back and all bytes are read.
#[verifier::external_body]
pub(crate) fn decode_scored(b: &[u8]) -> (r: Option<((u32, u32, Vec<(String, u64)>), usize)>)
    ensures
        match r {
            Some((_, read)) => read <= b@.len(),
            None => true,
        },
        forall|min: u32, max: u32, t: Tally|
            #[trigger] scored_encoding(min, max, t) == b@ && b@.len() <= MAX_STATE_BYTES ==> match r {
                Some(((lo, hi, v), read)) => lo == min && hi == max && tally_of(v@) == t && read
                    == b@.len(),
                None => false,
            },
{
    bincode::decode_from_slice(b, bincode::config::standard().with_limit::<33554432>()).ok()
}

/// Reads an option list of at least two options that fills `b` exactly.
pub fn options_from_bytes(b: &[u8]) -> (r: Result<Vec<(String, u64)>, DecodeError>)
    ensures
        r is Ok ==> r->Ok_0@.len() >= 2,
        forall|t: Tally|
            #[trigger] options_encoding(t) == b@ && b@.len() <= MAX_STATE_BYTES && t.len() >= 2
                ==> r is Ok && tally_of(r->Ok_0@) == t,
{
    match decode_options(b) {
        None => Err(DecodeError::Malformed),
        Some((options, read)) => {
            if read != b.len() {
                Err(DecodeError::TrailingBytes)
            } else if options.len() < 2 {
                Err(DecodeError::TooFewOptions)
            } else {
                Ok(options)
            }
        },
    }
}

} // verus!
