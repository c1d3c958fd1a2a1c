//! The two-level lookup: the cell of the vector index, then a binary search
//! over the segment records that the cell spans.

use crate::decode::get_block_by_size;
use crate::error::SearchError;
use crate::ip::{decimal_text, dotted_text, from_octets, lemma_texts_spell_address, ToUIntIP};
use crate::text::decode_text;
use crate::xdb::{
    answer, cell_end_ptr, cell_in_bounds, cell_start_ptr, lookup, payload, probe, search_with,
    segment, segment_at, segment_count, text_of, vector_index_of, Segment, HEADER_INFO_LENGTH,
    SEGMENT_INDEX_SIZE, VECTOR_INDEX_COLS, VECTOR_INDEX_LENGTH, VECTOR_INDEX_SIZE,
};
use vstd::arithmetic::power2::lemma2_to64;
use vstd::prelude::*;
use vstd::slice::{slice_subrange, slice_to_vec};

verus! {

/// The vector index of `xdb`: the 512 KiB behind the header. A buffer too
/// short to hold them is a `DataError`.
pub fn get_vector_index_cache(xdb: &[u8]) -> (r: Result<&[u8], SearchError>)
    ensures
        match vector_index_of(xdb@) {
            Some(vector_index) => r matches Ok(found) && found@ == vector_index,
            None => r matches Err(e) && e == SearchError::DataError,
        },
{
    if xdb.len() < HEADER_INFO_LENGTH + VECTOR_INDEX_LENGTH {
        return Err(SearchError::DataError);
    }
    Ok(slice_subrange(xdb, HEADER_INFO_LENGTH, HEADER_INFO_LENGTH + VECTOR_INDEX_LENGTH))
}

/// The two pointers of the cell that the two most significant octets of
/// `ip` select in `vector_index`.
pub fn get_start_end_ptr(vector_index: &[u8], ip: u32) -> (r: (usize, usize))
    requires
        vector_index.len() >= VECTOR_INDEX_LENGTH,
    ensures
        r.0 == cell_start_ptr(vector_index@, ip),
        r.1 == cell_end_ptr(vector_index@, ip),
        r.0 <= u32::MAX,
        r.1 <= u32::MAX,
{
    let il0: usize = ((ip >> 24) & 0xFF) as usize;
    let il1: usize = ((ip >> 16) & 0xFF) as usize;
    proof {
        assert((ip >> 24) & 0xFF == ip / 0x100_0000) by (bit_vector);
        assert((ip >> 16) & 0xFF == (ip / 0x1_0000) % 256) by (bit_vector);
        lemma2_to64();
    }
    let idx: usize = VECTOR_INDEX_SIZE * (il0 * VECTOR_INDEX_COLS + il1);
    let start_point: usize = idx;
    let start_ptr: usize = get_block_by_size(vector_index, start_point, 4);
    let end_ptr: usize = get_block_by_size(vector_index, start_point + 4, 4);
    (start_ptr, end_ptr)
}

/// Decodes the segment record whose 14 bytes start at `offset`.
pub fn read_segment(xdb: &[u8], offset: usize) -> (seg: Segment)
    requires
        offset + SEGMENT_INDEX_SIZE <= xdb.len(),
    ensures
        seg == segment_at(xdb@, offset as int),
{
    proof {
        lemma2_to64();
    }
    let start_ip: usize = get_block_by_size(xdb, offset, 4);
    let end_ip: usize = get_block_by_size(xdb, offset + 4, 4);
    let data_length: usize = get_block_by_size(xdb, offset + 8, 2);
    let data_ptr: usize = get_block_by_size(xdb, offset + 10, 4);
    Segment {
        start_ip: start_ip as u32,
        end_ip: end_ip as u32,
        data_length: data_length as u16,
        data_ptr: data_ptr as u32,
    }
}

/// Copies out the payload that `seg` points to and decodes it.
pub fn read_payload(xdb: &[u8], seg: Segment) -> (r: Result<String, SearchError>)
    ensures
        text_of(r) == payload(xdb@, seg),
{
    let from: usize = seg.data_ptr as usize;
    let length: usize = seg.data_length as usize;
    if from > xdb.len() || length > xdb.len() - from {
        return Err(SearchError::DataError);
    }
    let bytes: Vec<u8> = slice_to_vec(slice_subrange(xdb, from, from + length));
    decode_text(bytes)
}

/// Looks `ip` up with the cell read from `vector_index` and the segment
/// records and payloads read from `xdb`.
pub fn search_with_vector_index(vector_index: &[u8], xdb: &[u8], ip: u32) -> (r: Result<
    String,
    SearchError,
>)
    ensures
        text_of(r) == search_with(vector_index@, xdb@, ip),
{
    if vector_index.len() < VECTOR_INDEX_LENGTH {
        return Err(SearchError::DataError);
    }
    let ptrs: (usize, usize) = get_start_end_ptr(vector_index, ip);
    let start_ptr: usize = ptrs.0;
    let end_ptr: usize = ptrs.1;
    if start_ptr > end_ptr || end_ptr > xdb.len() {
        return Err(SearchError::DataError);
    }
    let count: usize = (end_ptr - start_ptr) / SEGMENT_INDEX_SIZE;
    if count == 0 {
        return Err(SearchError::NotFound);
    }
    let mut left: usize = 0;
    let mut right: usize = count - 1;
    while left <= right
        invariant
            cell_in_bounds(vector_index@, xdb@, ip),
            start_ptr == cell_start_ptr(vector_index@, ip),
            count == segment_count(vector_index@, ip),
            start_ptr + SEGMENT_INDEX_SIZE * count <= xdb.len(),
            left <= count,
            right < count,
            probe(xdb@, start_ptr as int, ip, left as int, right as int) == probe(
                xdb@,
                start_ptr as int,
                ip,
                0,
                count - 1,
            ),
        decreases right + 1 - left,
    {
        let mid: usize = (left + right) / 2;
        let seg: Segment = read_segment(xdb, start_ptr + mid * SEGMENT_INDEX_SIZE);
        assert(seg == segment(xdb@, start_ptr as int, mid as int));
        if ip < seg.start_ip {
            if mid == 0 {
                assert(probe(xdb@, start_ptr as int, ip, 0, -1) is None);
                return Err(SearchError::NotFound);
            }
            right = mid - 1;
        } else if ip > seg.end_ip {
            left = mid + 1;
        } else {
            return read_payload(xdb, seg);
        }
    }
    Err(SearchError::NotFound)
}

/// Looks the address that `ip` stands for up in the xdb buffer `xdb`.
pub fn search_by_ip<T: ToUIntIP>(xdb: &[u8], ip: T) -> (r: Result<String, SearchError>)
    ensures
        text_of(r) == answer(xdb@, ip.ip_value()),
{
    let ip: u32 = match ip.to_u32_ip() {
        Ok(ip) => ip,
        Err(e) => {
            return Err(e);
        },
    };
    match get_vector_index_cache(xdb) {
        Ok(vector_index) => search_with_vector_index(vector_index, xdb, ip),
        Err(e) => Err(e),
    }
}

/// An address resolves alike however it is written: as a number, as its
/// four octets, as canonical dotted text or as canonical decimal text.
pub proof fn lemma_spellings_resolve_alike(
    xdb: Seq<u8>,
    number: u32,
    octets: [u8; 4],
    dotted: &str,
    decimal: &str,
)
    requires
        number == from_octets(
            octets[0] as nat,
            octets[1] as nat,
            octets[2] as nat,
            octets[3] as nat,
        ),
        dotted@ == dotted_text(octets[0], octets[1], octets[2], octets[3]),
        decimal@ == decimal_text(number as nat),
    ensures
        answer(xdb, number.ip_value()) == lookup(xdb, number),
        answer(xdb, octets.ip_value()) == lookup(xdb, number),
        answer(xdb, dotted.ip_value()) == lookup(xdb, number),
        answer(xdb, decimal.ip_value()) == lookup(xdb, number),
{
    lemma_texts_spell_address(octets[0], octets[1], octets[2], octets[3]);
}

} // verus!
