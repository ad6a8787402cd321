//! Poll identifiers: a sequential index and a random part that makes links
//! unguessable, written `{index}+{base64 of the random part}`.
use vstd::prelude::*;
use vstd::string::*;
use vstd::utf8::is_ascii_chars;
use crate::poll_type::ParseError;
use crate::text::{all_digits, decimal_value, digits_value, find_char, first_index, parse_decimal};

verus! {

/// The unpadded URL-safe base64 text of some bytes.
pub uninterp spec fn base64_text(b: Seq<u8>) -> Seq<char>;

/// What unpadded URL-safe base64 text decodes to, written into eight zeroed
/// bytes; `None` where the text is not valid base64.
pub uninterp spec fn base64_bytes8(s: Seq<char>) -> Option<Seq<u8>>;

/// The number that bytes denote, least significant first.
pub open spec fn le_value(b: Seq<u8>) -> nat
    decreases b.len(),
{
    if b.len() == 0 {
        0
    } else {
        b[0] as nat + 256 * le_value(b.drop_first())
    }
}

/// Whether `s` is the canonical decimal text of `n`: digits only, and no
/// leading zero but in `0` itself.
pub open spec fn is_decimal_text(s: Seq<char>, n: nat) -> bool {
    &&& s.len() > 0
    &&& all_digits(s)
    &&& digits_value(s) == n
    &&& (s[0] == '0' ==> s.len() == 1)
}

/// Relies on `ToString` for `u64` (its `Display`): canonical decimal digits.
#[verifier::external_body]
fn decimal_text(n: u64) -> (r: String)
    ensures
        is_decimal_text(r@, n as nat),
{
    n.to_string()
}

/// Relies on `u64::to_le_bytes`: eight bytes, least significant first.
#[verifier::external_body]
fn to_le_bytes(v: u64) -> (r: Vec<u8>)
    ensures
        r@.len() == 8,
        le_value(r@) == v as nat,
{
    v.to_le_bytes().to_vec()
}

/// Relies on `u64::from_le_bytes`: the number that eight bytes denote, least
/// significant first.
#[verifier::external_body]
fn from_le_bytes(b: &[u8]) -> (r: u64)
    requires
        b@.len() == 8,
    ensures
        r as nat == le_value(b@),
{
    let mut a: [u8; 8] = [0; 8];
    a.copy_from_slice(b);
    u64::from_le_bytes(a)
}

/// Relies on `base64::encode_engine` with the URL-safe alphabet and no padding.
/// It panics only where the encoded length overflows `usize`.
#[verifier::external_body]
fn encode_base64(b: &[u8]) -> (r: String)
    requires
        b@.len() == 8,
    ensures
        r@ == base64_text(b@),
{
    let engine = base64::engine::fast_portable::FastPortable::from(
        &base64::alphabet::URL_SAFE,
        base64::engine::fast_portable::NO_PAD,
    );
    base64::encode_engine(b, &engine)
}

/// Relies on `base64::decode_engine_slice` with the URL-safe alphabet and no
/// padding, into eight zeroed bytes. It panics where the output does not fit:
/// at most eleven ASCII characters decode to at most eight bytes.
#[verifier::external_body]
fn decode_base64_8(s: &str) -> (r: Option<Vec<u8>>)
    requires
        s@.len() <= 11,
        is_ascii(s),
    ensures
        match r {
            Some(v) => base64_bytes8(s@) == Some(v@) && v@.len() == 8,
            None => base64_bytes8(s@) is None,
        },
{
    let engine = base64::engine::fast_portable::FastPortable::from(
        &base64::alphabet::URL_SAFE,
        base64::engine::fast_portable::NO_PAD,
    );
    let mut bytes: [u8; 8] = [0; 8];
    match base64::decode_engine_slice(s, &mut bytes, &engine) {
        Ok(_) => Some(bytes.to_vec()),
        Err(_) => None,
    }
}

/// Relies on `rand::random`: a uniformly drawn number; nothing is known of it.
#[verifier::external_body]
fn random_u64() -> (r: u64) {
    rand::random::<u64>()
}

/// Encodes a number's eight little-endian bytes in unpadded URL-safe base64.
pub fn encode_base64_u64(value: u64) -> (r: String)
    ensures
        exists|b: Seq<u8>| b.len() == 8 && le_value(b) == value as nat && r@ == base64_text(b),
{
    let bytes = to_le_bytes(value);
    encode_base64(bytes.as_slice())
}

/// The number whose little-endian bytes the base64 text `s` holds.
pub open spec fn base64_u64_spec(s: Seq<char>) -> Option<nat> {
    if s.len() > 11 || !is_ascii_chars(s) {
        None
    } else {
        match base64_bytes8(s) {
            Some(b) => Some(le_value(b)),
            None => None,
        }
    }
}

/// Reads the number whose little-endian bytes the base64 text `value` holds.
pub fn read_base64_u64(value: &str) -> (r: Result<u64, ParseError>)
    ensures
        match base64_u64_spec(value@) {
            Some(v) => r == Ok::<u64, ParseError>(v as u64) && v <= 0xffff_ffff_ffff_ffff,
            None => r == Err::<u64, ParseError>(ParseError::InvalidBase64),
        },
{
    if value.unicode_len() > 11 || !value.is_ascii() {
        return Err(ParseError::InvalidBase64);
    }
    match decode_base64_8(value) {
        Some(bytes) => {
            let v = from_le_bytes(bytes.as_slice());
            Ok(v)
        },
        None => Err(ParseError::InvalidBase64),
    }
}

/// A fresh random part in unpadded URL-safe base64, as used for admin tokens.
pub fn random_base64_u64() -> (r: String)
    ensures
        exists|b: Seq<u8>| b.len() == 8 && r@ == base64_text(b),
{
    encode_base64_u64(random_u64())
}

/// Identifies a poll: its index and a random part.
#[derive(Debug, Clone, Copy, PartialEq, Eq, Hash)]
pub struct PollID(pub u64, u64);

impl View for PollID {
    type V = (u64, u64);

    closed spec fn view(&self) -> (u64, u64) {
        (self.0, self.1)
    }
}

/// The poll id that text `{index}+{random part}` names.
pub open spec fn poll_id_spec(s: Seq<char>) -> Result<(u64, u64), ParseError> {
    match first_index(s, '+') {
        None => Err(ParseError::PlusNotFound),
        Some(sep) => match decimal_value(s.subrange(0, sep), 0xffff_ffff_ffff_ffffnat) {
            None => Err(ParseError::InvalidNumber),
            Some(id) => match base64_u64_spec(s.subrange(sep + 1, s.len() as int)) {
                None => Err(ParseError::InvalidBase64),
                Some(rp) => Ok((id as u64, rp as u64)),
            },
        },
    }
}

impl PollID {
    /// The id with the given index and random part. It does not check that
    /// such a poll exists.
    pub fn new(id: u64, randpart: u64) -> (r: PollID)
        ensures
            r@ == (id, randpart),
    {
        PollID(id, randpart)
    }

    /// A fresh id for the poll at `id`, with a random part.
    pub fn generate(id: u64) -> (r: PollID)
        ensures
            r@.0 == id,
    {
        PollID(id, random_u64())
    }

    /// The poll's index.
    pub fn index(&self) -> (r: u64)
        ensures
            r == self@.0,
    {
        self.0
    }

    /// The random part.
    pub fn randpart(&self) -> (r: u64)
        ensures
            r == self@.1,
    {
        self.1
    }

    /// The text `{index}+{random part in base64}`.
    pub fn to_string(&self) -> (r: String)
        ensures
            exists|d: Seq<char>, b: Seq<u8>|
                is_decimal_text(d, self@.0 as nat) && b.len() == 8 && le_value(b) == self@.1 as nat
                    && r@ == d + "+"@ + base64_text(b),
    {
        let d = decimal_text(self.0);
        let e = encode_base64_u64(self.1);
        d.concat("+").concat(e.as_str())
    }

    /// Reads `{index}+{random part in base64}`.
    pub fn try_from(value: &str) -> (r: Result<PollID, ParseError>)
        ensures
            match poll_id_spec(value@) {
                Ok(v) => r is Ok && r->Ok_0@ == v,
                Err(e) => r == Err::<PollID, ParseError>(e),
            },
    {
        let len = value.unicode_len();
        let sep = match find_char(value, '+') {
            Some(i) => i,
            None => {
                return Err(ParseError::PlusNotFound);
            },
        };
        let id = match parse_decimal(value.substring_char(0, sep), 0xffff_ffff_ffff_ffff) {
            Some(v) => v,
            None => {
                return Err(ParseError::InvalidNumber);
            },
        };
        let randpart = read_base64_u64(value.substring_char(sep + 1, len))?;
        Ok(PollID(id, randpart))
    }
}

} // verus!
