//! One column: its cells in memory, and the append-only log of framed records
//! that persists them.
use vstd::prelude::*;

use crate::cell::{
    checksum, crc32_cksum, decodable, decoded, lemma_decode_encode, payload_of, tag_of, Cell,
    CellView,
};
use crate::data_type::DataType;
use crate::le_bytes::{le_bytes_u32, le_value_u32, lemma_le_u32_round_trip, u32_from_le, u32_to_le};

verus! {

/// Bytes in front of a record's payload: checksum (4), tag (1), length (4).
pub const HEADER_LEN: usize = 9;

/// Largest payload that a record's four-byte length field can announce.
pub const MAX_PAYLOAD_LEN: usize = 0xffff_ffff;

/// Whether a cell's payload fits a record.
pub open spec fn storable(c: CellView) -> bool {
    payload_of(c).len() <= MAX_PAYLOAD_LEN
}

/// The record of a cell: CRC-32/CKSUM of the payload and the payload's length,
/// both four bytes little-endian, around the tag; then the payload.
pub open spec fn record_of(c: CellView) -> Seq<u8> {
    le_bytes_u32(crc32_cksum(payload_of(c))) + seq![tag_of(c)] + le_bytes_u32(
        payload_of(c).len() as u32,
    ) + payload_of(c)
}

/// The log of a sequence of cells: their records one after another.
pub open spec fn log_of(cs: Seq<CellView>) -> Seq<u8>
    decreases cs.len(),
{
    if cs.len() == 0 {
        Seq::empty()
    } else {
        record_of(cs[0]) + log_of(cs.drop_first())
    }
}

/// Why a column log cannot be read.
#[derive(Debug, Clone, Copy, PartialEq, Eq, Structural)]
pub enum CorruptionError {
    /// The checksum stored in front of a payload is not the payload's.
    ChecksumMismatch { stored: u32, computed: u32 },
    /// The payload does not make a cell of the record's tag.
    Undecodable { tag: u8 },
    /// The columns of a layout do not all hold the same number of cells.
    LengthMismatch,
}

/// Whether `b` ends before a whole record: its header or its payload is cut short.
pub open spec fn cut_short(b: Seq<u8>) -> bool {
    b.len() < HEADER_LEN || b.len() < HEADER_LEN + le_value_u32(b.subrange(5, 9))
}

/// The cells of a log, read from its start: a record cut short ends the log
/// quietly; a wrong checksum or a payload that makes no cell is an error.
pub open spec fn parse_log(b: Seq<u8>) -> Result<Seq<CellView>, CorruptionError>
    decreases b.len(),
{
    if cut_short(b) {
        Ok(Seq::empty())
    } else {
        let end = HEADER_LEN + le_value_u32(b.subrange(5, 9));
        let p = b.subrange(9, end as int);
        let stored = le_value_u32(b.subrange(0, 4));
        if crc32_cksum(p) != stored {
            Err(CorruptionError::ChecksumMismatch { stored, computed: crc32_cksum(p) })
        } else if !decodable(b[4], p) {
            Err(CorruptionError::Undecodable { tag: b[4] })
        } else {
            prepend(decoded(b[4], p), parse_log(b.subrange(end as int, b.len() as int)))
        }
    }
}

pub open spec fn prepend(
    c: CellView,
    r: Result<Seq<CellView>, CorruptionError>,
) -> Result<Seq<CellView>, CorruptionError> {
    match r {
        Ok(cs) => Ok(seq![c] + cs),
        Err(e) => Err(e),
    }
}

pub open spec fn cells_view(s: Seq<Cell>) -> Seq<CellView> {
    s.map_values(|c: Cell| c@)
}

/// What a column holds.
pub struct ColumnView {
    pub name: Seq<char>,
    pub data_type: DataType,
    pub entries: Seq<CellView>,
}

#[derive(Debug)]
pub struct Column {
    name: String,
    data_type: DataType,
    entries: Vec<Cell>,
}

impl View for Column {
    type V = ColumnView;

    closed spec fn view(&self) -> ColumnView {
        ColumnView { name: self.name@, data_type: self.data_type, entries: cells_view(self.entries@) }
    }
}

/// The record of a cell, as it is appended to the column's log.
pub fn encode_record(cell: &Cell) -> (r: Vec<u8>)
    requires
        storable(cell@),
    ensures
        r@ == record_of(cell@),
{
    let (crc, tag, payload) = cell.to_bytes();
    let mut r = u32_to_le(crc);
    r.push(tag);
    let mut len = u32_to_le(payload.len() as u32);
    r.append(&mut len);
    let mut payload = payload;
    r.append(&mut payload);
    proof {
        assert(r@ =~= record_of(cell@));
    }
    r
}

/// The header of the record of `b` at `pos`: its stored checksum, its tag and
/// the end of its payload; none where the log is cut short there.
fn record_header(b: &[u8], pos: usize) -> (r: Option<(u32, u8, usize)>)
    requires
        pos <= b@.len(),
    ensures
        ({
            let s = b@.subrange(pos as int, b@.len() as int);
            &&& r is None <==> cut_short(s)
            &&& r matches Some((stored, tag, end)) ==> {
                &&& stored == le_value_u32(s.subrange(0, 4))
                &&& tag == s[4]
                &&& end == pos + HEADER_LEN + le_value_u32(s.subrange(5, 9))
                &&& end <= b@.len()
            }
        }),
{
    let ghost s = b@.subrange(pos as int, b@.len() as int);
    if b.len() - pos < HEADER_LEN {
        return None;
    }
    let stored = u32_from_le(&b[pos..pos + 4]);
    let tag = b[pos + 4];
    let len = u32_from_le(&b[pos + 5..pos + 9]);
    proof {
        assert(b@.subrange(pos + 5, pos + 9) =~= s.subrange(5, 9));
        assert(b@.subrange(pos as int, pos + 4) =~= s.subrange(0, 4));
    }
    if b.len() - pos - HEADER_LEN < len as usize {
        return None;
    }
    Some((stored, tag, pos + HEADER_LEN + len as usize))
}

/// The payload of the record at `pos` whose header ends its payload at `end`.
fn record_payload(b: &[u8], pos: usize, end: usize) -> (r: Vec<u8>)
    requires
        pos + HEADER_LEN <= end <= b@.len(),
    ensures
        r@ == b@.subrange(pos as int, b@.len() as int).subrange(9, end - pos),
        b@.subrange(pos as int, b@.len() as int).subrange(end - pos, b@.len() - pos) == b@.subrange(
            end as int,
            b@.len() as int,
        ),
{
    let mut payload: Vec<u8> = Vec::new();
    payload.extend_from_slice(&b[pos + HEADER_LEN..end]);
    proof {
        let s = b@.subrange(pos as int, b@.len() as int);
        assert(payload@ =~= s.subrange(9, end - pos));
        assert(s.subrange(end - pos, b@.len() - pos) =~= b@.subrange(end as int, b@.len() as int));
    }
    payload
}

/// The next record of a log that reads without error, from `pos`: none where
/// the log is cut short there.
fn read_record(b: &[u8], pos: usize) -> (r: Option<(Cell, usize)>)
    requires
        pos <= b@.len(),
        parse_log(b@.subrange(pos as int, b@.len() as int)) is Ok,
    ensures
        ({
            let s = b@.subrange(pos as int, b@.len() as int);
            match r {
                None => cut_short(s),
                Some((c, next)) => pos < next <= b@.len() && parse_log(s) == prepend(
                    c@,
                    parse_log(b@.subrange(next as int, b@.len() as int)),
                ),
            }
        }),
{
    match record_header(b, pos) {
        None => None,
        Some((_stored, tag, end)) => {
            let payload = record_payload(b, pos, end);
            match Cell::from_bytes(tag, payload) {
                Some(c) => Some((c, end)),
                None => {
                    proof {
                        assert(parse_log(b@.subrange(pos as int, b@.len() as int)) is Err);
                    }
                    None
                },
            }
        },
    }
}

/// The first fault of a log read from its start, if any: a stored checksum
/// that is not its payload's, or a payload that makes no cell of its tag.
pub fn check_log(b: &[u8]) -> (r: Result<(), CorruptionError>)
    ensures
        r is Ok <==> parse_log(b@) is Ok,
        r matches Err(e) ==> parse_log(b@) == Err::<Seq<CellView>, CorruptionError>(e),
{
    let mut pos: usize = 0;
    proof {
        assert(b@.subrange(0, b@.len() as int) =~= b@);
    }
    loop
        invariant
            pos <= b@.len(),
            parse_log(b@) is Ok <==> parse_log(b@.subrange(pos as int, b@.len() as int)) is Ok,
            parse_log(b@.subrange(pos as int, b@.len() as int)) is Err ==> parse_log(b@)
                == parse_log(b@.subrange(pos as int, b@.len() as int)),
        decreases b@.len() - pos,
    {
        let ghost s = b@.subrange(pos as int, b@.len() as int);
        match record_header(b, pos) {
            None => {
                return Ok(());
            },
            Some((stored, tag, end)) => {
                let payload = record_payload(b, pos, end);
                let computed = checksum(payload.as_slice());
                if computed != stored {
                    return Err(CorruptionError::ChecksumMismatch { stored, computed });
                }
                if Cell::from_bytes(tag, payload).is_none() {
                    return Err(CorruptionError::Undecodable { tag });
                }
                pos = end;
            },
        }
    }
}

impl Column {
    pub fn new(name: String, data_type: DataType) -> (r: Self)
        ensures
            r@ == (ColumnView { name: name@, data_type, entries: Seq::empty() }),
    {
        let r = Column { name, data_type, entries: Vec::new() };
        proof {
            assert(cells_view(r.entries@) =~= Seq::<CellView>::empty());
        }
        r
    }

    pub fn name(&self) -> (r: &str)
        ensures
            r@ == self@.name,
    {
        self.name.as_str()
    }

    pub fn data_type(&self) -> (r: &DataType)
        ensures
            *r == self@.data_type,
    {
        &self.data_type
    }

    pub fn entries(&self) -> (r: &[Cell])
        ensures
            cells_view(r@) == self@.entries,
    {
        self.entries.as_slice()
    }

    /// Appends a cell, and returns the record that persists it at the end of
    /// the column's log.
    pub fn insert(&mut self, cell: Cell) -> (r: Vec<u8>)
        requires
            storable(cell@),
        ensures
            r@ == record_of(cell@),
            final(self)@ == (ColumnView { entries: old(self)@.entries.push(cell@), ..old(self)@ }),
    {
        let record = encode_record(&cell);
        self.entries.push(cell);
        proof {
            assert(cells_view(self.entries@) =~= cells_view(old(self).entries@).push(cell@));
        }
        record
    }

    /// Appends the cells of a log read from its start; a record cut short at the
    /// end is left out. The log must read without error (see `check_log`).
    pub fn load(&mut self, bytes: &[u8])
        requires
            parse_log(bytes@) is Ok,
        ensures
            final(self)@ == (ColumnView {
                entries: old(self)@.entries + parse_log(bytes@)->Ok_0,
                ..old(self)@
            }),
    {
        let mut read: Vec<Cell> = Vec::new();
        let mut pos: usize = 0;
        proof {
            assert(bytes@.subrange(0, bytes@.len() as int) =~= bytes@);
            assert(cells_view(read@) + parse_log(bytes@)->Ok_0 =~= parse_log(bytes@)->Ok_0);
        }
        loop
            invariant
                pos <= bytes@.len(),
                parse_log(bytes@.subrange(pos as int, bytes@.len() as int)) is Ok,
                parse_log(bytes@) == Ok::<Seq<CellView>, CorruptionError>(
                    cells_view(read@) + parse_log(
                        bytes@.subrange(pos as int, bytes@.len() as int),
                    )->Ok_0,
                ),
                self@ == old(self)@,
            ensures
                parse_log(bytes@) == Ok::<Seq<CellView>, CorruptionError>(cells_view(read@)),
                self@ == old(self)@,
            decreases bytes@.len() - pos,
        {
            match read_record(bytes, pos) {
                None => {
                    proof {
                        let s = bytes@.subrange(pos as int, bytes@.len() as int);
                        assert(parse_log(s) == Ok::<Seq<CellView>, CorruptionError>(Seq::empty()));
                        assert(cells_view(read@) + Seq::<CellView>::empty() =~= cells_view(read@));
                    }
                    break;
                },
                Some((c, next)) => {
                    proof {
                        let cs = parse_log(bytes@.subrange(next as int, bytes@.len() as int))->Ok_0;
                        assert(cells_view(read@.push(c)) + cs =~= cells_view(read@) + (seq![c@]
                            + cs));
                    }
                    read.push(c);
                    pos = next;
                },
            }
        }
        let ghost before = cells_view(self.entries@);
        let ghost added = cells_view(read@);
        self.entries.append(&mut read);
        proof {
            assert(cells_view(self.entries@) =~= before + added);
        }
    }
}

/// The framing of a record: its first field is the payload's checksum, its
/// third the payload's length, and the payload follows the nine header bytes.
pub proof fn lemma_record_framing(c: CellView)
    requires
        storable(c),
    ensures
        le_value_u32(record_of(c).subrange(0, 4)) == crc32_cksum(payload_of(c)),
        record_of(c)[4] == tag_of(c),
        le_value_u32(record_of(c).subrange(5, 9)) == payload_of(c).len(),
        record_of(c).subrange(9, record_of(c).len() as int) == payload_of(c),
{
    let r = record_of(c);
    lemma_le_u32_round_trip(crc32_cksum(payload_of(c)));
    lemma_le_u32_round_trip(payload_of(c).len() as u32);
    assert(r.subrange(0, 4) =~= le_bytes_u32(crc32_cksum(payload_of(c))));
    assert(r.subrange(5, 9) =~= le_bytes_u32(payload_of(c).len() as u32));
    assert(r.subrange(9, r.len() as int) =~= payload_of(c));
}

/// Reading back the log of storable cells gives the same cells.
pub proof fn lemma_log_round_trip(cs: Seq<CellView>)
    requires
        forall|i: int| 0 <= i < cs.len() ==> storable(#[trigger] cs[i]),
    ensures
        parse_log(log_of(cs)) == Ok::<Seq<CellView>, CorruptionError>(cs),
    decreases cs.len(),
{
    let b = log_of(cs);
    if cs.len() == 0 {
        assert(cut_short(b));
        assert(cs =~= Seq::<CellView>::empty());
    } else {
        let c = cs[0];
        assert(storable(c));
        let r = record_of(c);
        lemma_record_framing(c);
        lemma_decode_encode(c);
        assert(b == r + log_of(cs.drop_first()));
        assert(b.subrange(0, 4) =~= r.subrange(0, 4));
        assert(b.subrange(5, 9) =~= r.subrange(5, 9));
        let end = r.len() as int;
        assert(b.subrange(9, end) =~= payload_of(c));
        assert(b.subrange(end, b.len() as int) =~= log_of(cs.drop_first()));
        assert(!cut_short(b));
        lemma_log_round_trip(cs.drop_first());
        assert(seq![c] + cs.drop_first() =~= cs);
    }
}

/// Appending a cell's record to the log of some cells gives the log of the
/// cells with that one appended.
pub proof fn lemma_log_push(cs: Seq<CellView>, c: CellView)
    ensures
        log_of(cs.push(c)) == log_of(cs) + record_of(c),
    decreases cs.len(),
{
    if cs.len() == 0 {
        assert(cs.push(c).drop_first() =~= Seq::<CellView>::empty());
        assert(cs.push(c)[0] == c);
        assert(log_of(cs.push(c).drop_first()) == Seq::<u8>::empty());
        assert(log_of(cs.push(c)) =~= record_of(c) + Seq::<u8>::empty());
        assert(log_of(cs) + record_of(c) =~= record_of(c));
    } else {
        lemma_log_push(cs.drop_first(), c);
        assert(cs.push(c).drop_first() =~= cs.drop_first().push(c));
        assert(log_of(cs.push(c)) =~= record_of(cs[0]) + (log_of(cs.drop_first()) + record_of(c)));
    }
}

} // verus!
