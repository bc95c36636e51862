//! Typed scalar cells and their on-disk payloads.
use vstd::prelude::*;
use vstd::utf8::{decode_utf8, encode_utf8, valid_utf8};

use crate::le_bytes::{
    le_bytes_u64, le_value_u64, lemma_le_u64_round_trip, u64_from_le, u64_to_le,
};
use crate::value::{Number, Value, I64_MAX};

verus! {

pub const TAG_I64: u8 = 1;

pub const TAG_F64: u8 = 2;

pub const TAG_STR: u8 = 3;

pub const TAG_BOOL: u8 = 4;

/// One stored value.
#[derive(Debug, Clone, PartialEq)]
pub enum Cell {
    Int(i64),
    /// A floating-point number, held as its IEEE-754 bit pattern so that every
    /// value, NaNs included, is kept bit for bit.
    Float(u64),
    String(String),
    Boolean(bool),
}

/// What a cell holds, with a string seen as its characters.
pub enum CellView {
    Int(i64),
    Float(u64),
    String(Seq<char>),
    Boolean(bool),
}

impl View for Cell {
    type V = CellView;

    open spec fn view(&self) -> CellView {
        match self {
            Cell::Int(v) => CellView::Int(*v),
            Cell::Float(b) => CellView::Float(*b),
            Cell::String(s) => CellView::String(s@),
            Cell::Boolean(b) => CellView::Boolean(*b),
        }
    }
}

/// The one-byte tag that a cell's record carries.
pub open spec fn tag_of(c: CellView) -> u8 {
    match c {
        CellView::Int(_) => TAG_I64,
        CellView::Float(_) => TAG_F64,
        CellView::String(_) => TAG_STR,
        CellView::Boolean(_) => TAG_BOOL,
    }
}

/// The payload bytes of a cell: fixed-width little-endian for integers, floats
/// and booleans (as the integer 0 or 1), UTF-8 for strings.
pub open spec fn payload_of(c: CellView) -> Seq<u8> {
    match c {
        CellView::Int(v) => le_bytes_u64(#[verifier::truncate] (v as u64)),
        CellView::Float(b) => le_bytes_u64(b),
        CellView::String(s) => encode_utf8(s),
        CellView::Boolean(b) => le_bytes_u64(if b { 1u64 } else { 0u64 }),
    }
}

/// Whether a tag and payload make a cell: exactly eight bytes under an
/// integer, float or boolean tag, valid UTF-8 under the string tag.
pub open spec fn decodable(tag: u8, p: Seq<u8>) -> bool {
    if tag == TAG_I64 || tag == TAG_F64 || tag == TAG_BOOL {
        p.len() == 8
    } else {
        tag == TAG_STR && valid_utf8(p)
    }
}

/// The cell that a decodable tag and payload stand for; a boolean is true
/// exactly when its integer is 1.
pub open spec fn decoded(tag: u8, p: Seq<u8>) -> CellView {
    if tag == TAG_I64 {
        CellView::Int(#[verifier::truncate] (le_value_u64(p) as i64))
    } else if tag == TAG_F64 {
        CellView::Float(le_value_u64(p))
    } else if tag == TAG_BOOL {
        CellView::Boolean(le_value_u64(p) == 1)
    } else {
        CellView::String(decode_utf8(p))
    }
}

/// The name for CRC-32/CKSUM of a byte sequence.
pub uninterp spec fn crc32_cksum(b: Seq<u8>) -> u32;

/// Relies on crc's `Crc::<u32>::checksum` with the catalogue's CRC_32_CKSUM
/// parameters: the checksum depends on the bytes alone.
#[verifier::external_body]
pub(crate) fn checksum(b: &[u8]) -> (r: u32)
    ensures
        r == crc32_cksum(b@),
{
    crc::Crc::<u32>::new(&crc::CRC_32_CKSUM).checksum(b)
}

/// Relies on `String::from_utf8`: it succeeds exactly on valid UTF-8, and the
/// string then holds the bytes' characters.
#[verifier::external_body]
fn string_from_utf8(b: Vec<u8>) -> (r: Option<String>)
    ensures
        r is Some <==> valid_utf8(b@),
        r matches Some(s) ==> s@ == decode_utf8(b@),
{
    String::from_utf8(b).ok()
}

/// The IEEE-754 bit pattern of the double nearest to `u`, ties to even, for
/// `u` of 2^63 and above: the exponent is 63, or 64 where rounding carries
/// into the next power of two.
pub open spec fn f64_bits_of_large_u64(u: u64) -> u64 {
    let hi = u / 2048;
    let lo = u % 2048;
    let m: int = if lo > 1024 || (lo == 1024 && hi % 2 == 1) {
        hi + 1
    } else {
        hi as int
    };
    if m == 0x20_0000_0000_0000 {
        (1087 * 0x10_0000_0000_0000) as u64
    } else {
        (1086 * 0x10_0000_0000_0000 + (m - 0x10_0000_0000_0000)) as u64
    }
}

/// The cell a dynamic value becomes, if any: integers in the range of `i64`
/// become `Int`, other numbers `Float`; null, arrays and objects none.
pub open spec fn cell_of_value(v: Value) -> Option<CellView> {
    match v {
        Value::Null => None,
        Value::Bool(b) => Some(CellView::Boolean(b)),
        Value::Number(Number::PosInt(u)) => if u <= I64_MAX {
            Some(CellView::Int(u as i64))
        } else {
            Some(CellView::Float(f64_bits_of_large_u64(u)))
        },
        Value::Number(Number::NegInt(i)) => Some(CellView::Int(i)),
        Value::Number(Number::Float(b)) => Some(CellView::Float(b)),
        Value::String(s) => Some(CellView::String(s@)),
        Value::Array(_) => None,
        Value::Object(_) => None,
    }
}

fn large_u64_to_f64_bits(u: u64) -> (r: u64)
    requires
        u > I64_MAX,
    ensures
        r == f64_bits_of_large_u64(u),
{
    let hi = u / 2048;
    let lo = u % 2048;
    let m: u64 = if lo > 1024 || (lo == 1024 && hi % 2 == 1) {
        hi + 1
    } else {
        hi
    };
    if m == 0x20_0000_0000_0000 {
        1087 * 0x10_0000_0000_0000
    } else {
        1086 * 0x10_0000_0000_0000 + (m - 0x10_0000_0000_0000)
    }
}

impl Cell {
    /// A copy of the cell.
    pub fn duplicate(&self) -> (r: Cell)
        ensures
            r@ == self@,
    {
        match self {
            Cell::Int(v) => Cell::Int(*v),
            Cell::Float(b) => Cell::Float(*b),
            Cell::String(s) => Cell::String(s.clone()),
            Cell::Boolean(b) => Cell::Boolean(*b),
        }
    }

    pub fn from_json_value(json_value: &Value) -> (r: Option<Cell>)
        ensures
            r matches Some(c) ==> cell_of_value(*json_value) == Some(c@),
            r is None ==> cell_of_value(*json_value) is None,
    {
        match json_value {
            Value::Null => None,
            Value::Bool(b) => Some(Cell::Boolean(*b)),
            Value::Number(Number::PosInt(u)) => {
                if *u <= I64_MAX {
                    Some(Cell::Int(*u as i64))
                } else {
                    Some(Cell::Float(large_u64_to_f64_bits(*u)))
                }
            },
            Value::Number(Number::NegInt(i)) => Some(Cell::Int(*i)),
            Value::Number(Number::Float(b)) => Some(Cell::Float(*b)),
            Value::String(s) => Some(Cell::String(s.clone())),
            Value::Array(_) => None,
            Value::Object(_) => None,
        }
    }

    /// The record fields of the cell: checksum of the payload, tag, payload.
    pub fn to_bytes(&self) -> (r: (u32, u8, Vec<u8>))
        ensures
            r.2@ == payload_of(self@),
            r.1 == tag_of(self@),
            r.0 == crc32_cksum(r.2@),
    {
        let (tag_byte, value) = match self {
            Cell::Int(v) => (TAG_I64, u64_to_le(*v as u64)),
            Cell::Float(b) => (TAG_F64, u64_to_le(*b)),
            Cell::String(s) => {
                let bytes = s.as_str().as_bytes();
                let mut buf: Vec<u8> = Vec::new();
                buf.extend_from_slice(bytes);
                proof {
                    assert(buf@ =~= encode_utf8(s@));
                }
                (TAG_STR, buf)
            },
            Cell::Boolean(b) => (TAG_BOOL, u64_to_le(if *b { 1u64 } else { 0u64 })),
        };
        let crc = checksum(value.as_slice());
        (crc, tag_byte, value)
    }

    /// The cell that a record's tag and payload stand for, or none where they
    /// make no cell.
    pub fn from_bytes(tag_byte: u8, data: Vec<u8>) -> (r: Option<Cell>)
        ensures
            r is Some <==> decodable(tag_byte, data@),
            r matches Some(c) ==> c@ == decoded(tag_byte, data@),
    {
        if tag_byte == TAG_I64 || tag_byte == TAG_F64 || tag_byte == TAG_BOOL {
            if data.len() != 8 {
                return None;
            }
            let n = u64_from_le(data.as_slice());
            if tag_byte == TAG_I64 {
                Some(Cell::Int(n as i64))
            } else if tag_byte == TAG_F64 {
                Some(Cell::Float(n))
            } else {
                Some(Cell::Boolean(n == 1))
            }
        } else if tag_byte == TAG_STR {
            match string_from_utf8(data) {
                Some(s) => Some(Cell::String(s)),
                None => None,
            }
        } else {
            None
        }
    }

    pub fn as_int(&self) -> (r: Option<&i64>)
        ensures
            r matches Some(v) ==> self@ == CellView::Int(*v),
            r is None ==> !(self@ is Int),
    {
        match self {
            Cell::Int(v) => Some(v),
            _ => None,
        }
    }
}

/// Decoding the record fields of a cell gives the cell back, bit for bit.
pub proof fn lemma_decode_encode(c: CellView)
    ensures
        decodable(tag_of(c), payload_of(c)),
        decoded(tag_of(c), payload_of(c)) == c,
{
    match c {
        CellView::Int(v) => {
            let u = #[verifier::truncate] (v as u64);
            lemma_le_u64_round_trip(u);
            assert((#[verifier::truncate] (u as i64)) == v) by (bit_vector)
                requires
                    u == #[verifier::truncate] (v as u64),
            ;
        },
        CellView::Float(b) => {
            lemma_le_u64_round_trip(b);
        },
        CellView::String(s) => {
            vstd::utf8::encode_utf8_valid_utf8(s);
            vstd::utf8::encode_utf8_decode_utf8(s);
        },
        CellView::Boolean(b) => {
            lemma_le_u64_round_trip(if b { 1u64 } else { 0u64 });
        },
    }
}

} // verus!
