//! The layout of an xdb buffer and what a lookup in it yields.
//!
//! Everything here is a model over `Seq<u8>`: the executable searcher in
//! `searcher` is proved to compute these functions.

use crate::decode::block;
use crate::error::SearchError;
use vstd::prelude::*;
use vstd::utf8::{decode_utf8, valid_utf8};

verus! {

/// Bytes of reserved header in front of the vector index.
pub const HEADER_INFO_LENGTH: usize = 256;

/// Cells in one row of the vector index: one for each second octet.
pub const VECTOR_INDEX_COLS: usize = 256;

/// Bytes of one vector index cell: two 4-byte pointers.
pub const VECTOR_INDEX_SIZE: usize = 8;

/// Bytes of one segment record.
pub const SEGMENT_INDEX_SIZE: usize = 14;

/// Bytes of the whole vector index: 256 x 256 cells of 8 bytes.
pub const VECTOR_INDEX_LENGTH: usize = 524288;

/// One segment record: the closed range of addresses `start_ip..=end_ip`
/// and where its payload lies in the buffer.
#[derive(Debug, Clone, Copy, PartialEq, Eq, Structural)]
pub struct Segment {
    pub start_ip: u32,
    pub end_ip: u32,
    pub data_length: u16,
    pub data_ptr: u32,
}

impl Segment {
    /// Whether `ip` lies in the record's closed range.
    pub open spec fn covers(self, ip: u32) -> bool {
        self.start_ip <= ip <= self.end_ip
    }
}

/// Offset, within the vector index, of the cell for `ip`: the cells are
/// laid out by the first octet, then by the second.
pub open spec fn cell_offset(ip: u32) -> int {
    8 * ((ip as int / 0x100_0000) * 256 + (ip as int / 0x1_0000) % 256)
}

/// The first pointer of the cell for `ip`: where its segment records start.
pub open spec fn cell_start_ptr(vector_index: Seq<u8>, ip: u32) -> nat {
    block(vector_index, cell_offset(ip), 4)
}

/// The second pointer of the cell for `ip`: where its segment records end.
pub open spec fn cell_end_ptr(vector_index: Seq<u8>, ip: u32) -> nat {
    block(vector_index, cell_offset(ip) + 4, 4)
}

/// The segment record whose 14 bytes start at `offset`.
pub open spec fn segment_at(xdb: Seq<u8>, offset: int) -> Segment {
    Segment {
        start_ip: block(xdb, offset, 4) as u32,
        end_ip: block(xdb, offset + 4, 4) as u32,
        data_length: block(xdb, offset + 8, 2) as u16,
        data_ptr: block(xdb, offset + 10, 4) as u32,
    }
}

/// The `index`-th record of the run of records that starts at `base`.
pub open spec fn segment(xdb: Seq<u8>, base: int, index: int) -> Segment {
    segment_at(xdb, base + 14 * index)
}

/// The record that a binary search for `ip` over the records `lo..=hi` of
/// the run at `base` stops at, if it stops at one. Each step looks at the
/// middle record: an address below its range sends the search to the
/// records before it, one above its range to the records after it.
pub open spec fn probe(xdb: Seq<u8>, base: int, ip: u32, lo: int, hi: int) -> Option<int>
    decreases hi - lo + 1,
{
    if lo > hi {
        None
    } else {
        let mid = (lo + hi) / 2;
        let seg = segment(xdb, base, mid);
        if ip < seg.start_ip {
            probe(xdb, base, ip, lo, mid - 1)
        } else if ip > seg.end_ip {
            probe(xdb, base, ip, mid + 1, hi)
        } else {
            Some(mid)
        }
    }
}

/// The records `0..count` of the run at `base` are in ascending order and
/// no two of them overlap.
pub open spec fn ordered(xdb: Seq<u8>, base: int, count: int) -> bool {
    &&& forall|i: int|
        0 <= i < count ==> (#[trigger] segment(xdb, base, i)).start_ip <= segment(
            xdb,
            base,
            i,
        ).end_ip
    &&& forall|i: int, j: int|
        0 <= i < j < count ==> (#[trigger] segment(xdb, base, i)).end_ip < (#[trigger] segment(
            xdb,
            base,
            j,
        )).start_ip
}

/// The text that `seg` points to: `DataError` where the payload runs past
/// the end of the buffer or is not UTF-8.
pub open spec fn payload(xdb: Seq<u8>, seg: Segment) -> Result<Seq<char>, SearchError> {
    let from = seg.data_ptr as int;
    let to = from + seg.data_length;
    if to > xdb.len() || !valid_utf8(xdb.subrange(from, to)) {
        Err(SearchError::DataError)
    } else {
        Ok(decode_utf8(xdb.subrange(from, to)))
    }
}

/// Number of whole records between the two pointers of the cell for `ip`.
pub open spec fn segment_count(vector_index: Seq<u8>, ip: u32) -> int {
    (cell_end_ptr(vector_index, ip) - cell_start_ptr(vector_index, ip)) / 14
}

/// Whether the cell for `ip` can be searched: the index is whole, and the
/// two pointers are in order and inside the buffer.
pub open spec fn cell_in_bounds(vector_index: Seq<u8>, xdb: Seq<u8>, ip: u32) -> bool {
    &&& vector_index.len() >= VECTOR_INDEX_LENGTH
    &&& cell_start_ptr(vector_index, ip) <= cell_end_ptr(vector_index, ip) <= xdb.len()
}

/// What a lookup of `ip` yields when the cell is read from `vector_index`
/// and the records and payloads from `xdb`.
pub open spec fn search_with(vector_index: Seq<u8>, xdb: Seq<u8>, ip: u32) -> Result<
    Seq<char>,
    SearchError,
> {
    if !cell_in_bounds(vector_index, xdb, ip) {
        Err(SearchError::DataError)
    } else {
        let base = cell_start_ptr(vector_index, ip) as int;
        match probe(xdb, base, ip, 0, segment_count(vector_index, ip) - 1) {
            None => Err(SearchError::NotFound),
            Some(index) => payload(xdb, segment(xdb, base, index)),
        }
    }
}

/// The vector index of a buffer: the 512 KiB behind the header, where the
/// buffer is long enough to hold them.
pub open spec fn vector_index_of(xdb: Seq<u8>) -> Option<Seq<u8>> {
    if xdb.len() < HEADER_INFO_LENGTH + VECTOR_INDEX_LENGTH {
        None
    } else {
        Some(xdb.subrange(HEADER_INFO_LENGTH as int, HEADER_INFO_LENGTH + VECTOR_INDEX_LENGTH))
    }
}

/// What a lookup of `ip` in the buffer `xdb` yields.
pub open spec fn lookup(xdb: Seq<u8>, ip: u32) -> Result<Seq<char>, SearchError> {
    match vector_index_of(xdb) {
        None => Err(SearchError::DataError),
        Some(vector_index) => search_with(vector_index, xdb, ip),
    }
}

/// What a query yields for an address that may have failed to parse.
pub open spec fn answer(xdb: Seq<u8>, ip: Option<u32>) -> Result<Seq<char>, SearchError> {
    match ip {
        None => Err(SearchError::InvalidIpFormat),
        Some(ip) => lookup(xdb, ip),
    }
}

/// The answer of a query that failed with `e`.
pub open spec fn rejected(e: SearchError) -> Result<Seq<char>, SearchError> {
    Err(e)
}

/// A `Result` that holds a `String`, with the string taken by its view.
pub open spec fn text_of(r: Result<String, SearchError>) -> Result<Seq<char>, SearchError> {
    match r {
        Ok(s) => Ok(s@),
        Err(e) => Err(e),
    }
}

/// Whether the cell for `ip` in the buffer `xdb` is as its builder leaves
/// it: inside the buffer, with its records in ascending order and apart.
pub open spec fn cell_well_formed(xdb: Seq<u8>, ip: u32) -> bool {
    &&& vector_index_of(xdb) matches Some(vector_index)
    &&& cell_in_bounds(vector_index, xdb, ip)
    &&& ordered(xdb, cell_start_ptr(vector_index, ip) as int, segment_count(vector_index, ip))
}

/// The `index`-th record of the cell for `ip` in the buffer `xdb`.
pub open spec fn cell_segment(xdb: Seq<u8>, ip: u32, index: int) -> Segment {
    segment(xdb, cell_start_ptr(vector_index_of(xdb).unwrap(), ip) as int, index)
}

/// Number of records of the cell for `ip` in the buffer `xdb`.
pub open spec fn cell_segment_count(xdb: Seq<u8>, ip: u32) -> int {
    segment_count(vector_index_of(xdb).unwrap(), ip)
}

/// A binary search stops only at a record of the range it was given, and
/// only at one that holds the address. This needs no order among the
/// records.
pub proof fn lemma_probe_sound(xdb: Seq<u8>, base: int, ip: u32, lo: int, hi: int)
    ensures
        probe(xdb, base, ip, lo, hi) matches Some(index) ==> lo <= index <= hi && segment(
            xdb,
            base,
            index,
        ).covers(ip),
    decreases hi - lo + 1,
{
    if lo <= hi {
        let mid = (lo + hi) / 2;
        let seg = segment(xdb, base, mid);
        if ip < seg.start_ip {
            lemma_probe_sound(xdb, base, ip, lo, mid - 1);
        } else if ip > seg.end_ip {
            lemma_probe_sound(xdb, base, ip, mid + 1, hi);
        }
    }
}

/// Over ordered records, a binary search whose range includes a record
/// that holds the address stops at that record.
pub proof fn lemma_probe_finds(
    xdb: Seq<u8>,
    base: int,
    count: int,
    ip: u32,
    lo: int,
    hi: int,
    index: int,
)
    requires
        ordered(xdb, base, count),
        0 <= lo <= index <= hi < count,
        segment(xdb, base, index).covers(ip),
    ensures
        probe(xdb, base, ip, lo, hi) == Some(index),
    decreases hi - lo + 1,
{
    let mid = (lo + hi) / 2;
    let seg = segment(xdb, base, mid);
    let found = segment(xdb, base, index);
    if ip < seg.start_ip {
        assert(index < mid);
        lemma_probe_finds(xdb, base, count, ip, lo, mid - 1, index);
    } else if ip > seg.end_ip {
        assert(index > mid);
        lemma_probe_finds(xdb, base, count, ip, mid + 1, hi, index);
    } else {
        assert(index == mid);
    }
}

/// In a well-formed cell, every address that a record holds, its two ends
/// included, resolves to the payload of that record.
pub proof fn lemma_covered_address_resolves(xdb: Seq<u8>, ip: u32, index: int)
    requires
        cell_well_formed(xdb, ip),
        0 <= index < cell_segment_count(xdb, ip),
        cell_segment(xdb, ip, index).covers(ip),
    ensures
        lookup(xdb, ip) == payload(xdb, cell_segment(xdb, ip, index)),
{
    let vector_index = vector_index_of(xdb).unwrap();
    let base = cell_start_ptr(vector_index, ip) as int;
    let count = segment_count(vector_index, ip);
    lemma_probe_finds(xdb, base, count, ip, 0, count - 1, index);
}

/// An address that no record of its cell holds is `NotFound`, whatever the
/// order of the records.
pub proof fn lemma_uncovered_address_not_found(xdb: Seq<u8>, ip: u32)
    requires
        vector_index_of(xdb) matches Some(vector_index) && cell_in_bounds(vector_index, xdb, ip),
        forall|index: int|
            0 <= index < cell_segment_count(xdb, ip) ==> !(#[trigger] cell_segment(
                xdb,
                ip,
                index,
            )).covers(ip),
    ensures
        lookup(xdb, ip) == rejected(SearchError::NotFound),
{
    let vector_index = vector_index_of(xdb).unwrap();
    let base = cell_start_ptr(vector_index, ip) as int;
    let count = segment_count(vector_index, ip);
    lemma_probe_sound(xdb, base, ip, 0, count - 1);
    if probe(xdb, base, ip, 0, count - 1) is Some {
        let index = probe(xdb, base, ip, 0, count - 1).unwrap();
        assert(!cell_segment(xdb, ip, index).covers(ip));
    }
}

/// A lookup that yields a text has found a record of the cell that holds
/// the address, and the text is that record's payload.
pub proof fn lemma_found_text_is_covering_payload(xdb: Seq<u8>, ip: u32)
    requires
        lookup(xdb, ip) is Ok,
    ensures
        exists|index: int|
            0 <= index < cell_segment_count(xdb, ip) && (#[trigger] cell_segment(
                xdb,
                ip,
                index,
            )).covers(ip) && lookup(xdb, ip) == payload(xdb, cell_segment(xdb, ip, index)),
{
    let vector_index = vector_index_of(xdb).unwrap();
    let base = cell_start_ptr(vector_index, ip) as int;
    let count = segment_count(vector_index, ip);
    lemma_probe_sound(xdb, base, ip, 0, count - 1);
    let index = probe(xdb, base, ip, 0, count - 1).unwrap();
    assert(cell_segment(xdb, ip, index).covers(ip));
}

} // verus!
