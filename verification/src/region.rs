//! The region archive: a table of 32 by 32 slots, each of which may point at
//! one compressed chunk further on in the file.

use crate::matcher::chunk_bytes_match;
use crate::matcher::process_chunk;
use fastanvil::Region;
use std::io::Cursor;
use vstd::prelude::*;

verus! {

/// Slots along each side of the grid.
pub const GRID_SIDE: usize = 32;

/// Bytes in a sector, the unit in which the table locates chunks.
pub const SECTOR_BYTES: u64 = 4096;

/// Bytes that the table of locations takes at the start of the file.
pub const TABLE_BYTES: usize = 4096;

/// Bytes in front of a chunk's payload: its length and its scheme.
pub const CHUNK_HEADER_BYTES: u64 = 5;

/// Where in the table the entry of slot (x, z) starts.
pub open spec fn entry_start(x: int, z: int) -> int {
    4 * (x + 32 * z)
}

/// The sector at which the chunk of a slot starts.
pub open spec fn slot_sector(bytes: Seq<u8>, x: int, z: int) -> int {
    let p = entry_start(x, z);
    bytes[p] as int * 65536 + bytes[p + 1] as int * 256 + bytes[p + 2] as int
}

/// The number of sectors that the table gives a slot.
pub open spec fn slot_sector_count(bytes: Seq<u8>, x: int, z: int) -> int {
    bytes[entry_start(x, z) + 3] as int
}

/// A slot is vacant where its entry is all zero.
pub open spec fn slot_vacant(bytes: Seq<u8>, x: int, z: int) -> bool {
    slot_sector(bytes, x, z) == 0 && slot_sector_count(bytes, x, z) == 0
}

/// The byte at which the chunk of a slot starts.
pub open spec fn chunk_start(bytes: Seq<u8>, x: int, z: int) -> int {
    slot_sector(bytes, x, z) * 4096
}

/// The length that a chunk states: that of its payload and the scheme byte.
pub open spec fn stated_length(bytes: Seq<u8>, x: int, z: int) -> int {
    let p = chunk_start(bytes, x, z);
    bytes[p] as int * 16777216 + bytes[p + 1] as int * 65536 + bytes[p + 2] as int * 256 + bytes[p
        + 3] as int
}

/// The scheme by which a chunk says it is compressed.
pub open spec fn stated_scheme(bytes: Seq<u8>, x: int, z: int) -> int {
    bytes[chunk_start(bytes, x, z) + 4] as int
}

/// A slot is legible where the file holds its table entry, the entry is not
/// vacant, the chunk's header lies within the file, and that header states a
/// length of at least one and a scheme that is known.
pub open spec fn slot_legible(bytes: Seq<u8>, x: int, z: int) -> bool {
    &&& 0 <= x < 32
    &&& 0 <= z < 32
    &&& bytes.len() >= TABLE_BYTES
    &&& !slot_vacant(bytes, x, z)
    &&& chunk_start(bytes, x, z) + 5 <= bytes.len()
    &&& stated_length(bytes, x, z) >= 1
    &&& 1 <= stated_scheme(bytes, x, z) <= 4
}

/// The payload of a legible slot as it lies in the file: what follows the
/// header, as long as stated or up to the end of the file.
pub open spec fn stored_payload(bytes: Seq<u8>, x: int, z: int) -> Seq<u8> {
    let from = chunk_start(bytes, x, z) + 5;
    let to = from + stated_length(bytes, x, z) - 1;
    bytes.subrange(
        from,
        if to <= bytes.len() {
            to
        } else {
            bytes.len() as int
        },
    )
}

/// What a payload decompresses to under scheme 1 (gzip), 2 (zlib) or 4 (lz4),
/// if it does.
pub uninterp spec fn inflated(scheme: int, payload: Seq<u8>) -> Option<Seq<u8>>;

/// The bytes of the chunk in a slot: those of a legible slot whose payload
/// decompresses. Under scheme 3 the payload is the chunk.
pub open spec fn slot_chunk(bytes: Seq<u8>, x: int, z: int) -> Option<Seq<u8>> {
    if !slot_legible(bytes, x, z) {
        None
    } else if stated_scheme(bytes, x, z) == 3 {
        Some(stored_payload(bytes, x, z))
    } else {
        inflated(stated_scheme(bytes, x, z), stored_payload(bytes, x, z))
    }
}

/// True if the chunk of some slot holds a match.
pub open spec fn region_matches(bytes: Seq<u8>) -> bool {
    exists|x: int, z: int|
        0 <= x < 32 && 0 <= z < 32 && (#[trigger] slot_chunk(bytes, x, z) matches Some(chunk)
            && chunk_bytes_match(chunk))
}

/// The bytes that a buffer holds, if there is one.
pub open spec fn content(buffer: Option<Vec<u8>>) -> Option<Seq<u8>> {
    match buffer {
        Some(bytes) => Some(bytes@),
        None => None,
    }
}

#[verifier::external_type_specification]
#[verifier::external_body]
#[verifier::reject_recursive_types(S)]
pub struct ExRegion<S>(Region<S>);

#[verifier::external_type_specification]
#[verifier::external_body]
#[verifier::reject_recursive_types(T)]
pub struct ExCursor<T>(Cursor<T>);

/// The bytes of the file that a region reads from.
pub uninterp spec fn region_bytes(region: Region<Cursor<&[u8]>>) -> Seq<u8>;

/// Calls `Region::from_stream` of `fastanvil` on a cursor over the buffer. It
/// reads the 1024 table entries, so it succeeds exactly where the buffer holds
/// the whole table.
#[verifier::external_body]
fn open_region<'a>(data: &'a [u8]) -> (opened: Option<Region<Cursor<&'a [u8]>>>)
    ensures
        opened is Some <==> data@.len() >= TABLE_BYTES,
        opened matches Some(region) ==> region_bytes(region) == data@,
{
    Region::from_stream(Cursor::new(data)).ok()
}

/// Calls `Region::read_chunk` of `fastanvil`. For a legible slot it feeds the
/// stored payload to the decompressor of the stated scheme and hands back what
/// comes out, or nothing where the decompressor fails. The file is not changed.
#[verifier::external_body]
fn read_chunk<'a>(region: &mut Region<Cursor<&'a [u8]>>, x: usize, z: usize) -> (chunk: Option<
    Vec<u8>,
>)
    requires
        slot_legible(region_bytes(*old(region)), x as int, z as int),
    ensures
        region_bytes(*final(region)) == region_bytes(*old(region)),
        stated_scheme(region_bytes(*old(region)), x as int, z as int) == 3 ==> content(chunk)
            == Some(stored_payload(region_bytes(*old(region)), x as int, z as int)),
        stated_scheme(region_bytes(*old(region)), x as int, z as int) != 3 ==> content(chunk)
            == inflated(
            stated_scheme(region_bytes(*old(region)), x as int, z as int),
            stored_payload(region_bytes(*old(region)), x as int, z as int),
        ),
{
    region.read_chunk(x, z).ok().flatten()
}

/// An open region: the file's bytes and the reader that walks them.
pub struct RegionFile<'a> {
    data: &'a [u8],
    reader: Region<Cursor<&'a [u8]>>,
}

fn byte_at(data: &[u8], at: u64) -> (byte: u64)
    requires
        at < data@.len(),
    ensures
        byte == data@[at as int],
{
    data[at as usize] as u64
}

/// Reads the table entry of a slot: the sector at which its chunk starts, and
/// the number of sectors it is given.
pub fn table_entry(data: &[u8], x: usize, z: usize) -> (entry: (u64, u64))
    requires
        data@.len() >= TABLE_BYTES,
        x < GRID_SIDE,
        z < GRID_SIDE,
    ensures
        entry.0 == slot_sector(data@, x as int, z as int),
        entry.1 == slot_sector_count(data@, x as int, z as int),
{
    let p: u64 = 4 * (x as u64 + 32 * z as u64);
    let sector: u64 = byte_at(data, p) * 65536 + byte_at(data, p + 1) * 256 + byte_at(data, p + 2);
    (sector, byte_at(data, p + 3))
}

/// Tells whether a slot is legible.
pub fn slot_is_legible(data: &[u8], x: usize, z: usize) -> (legible: bool)
    ensures
        legible == slot_legible(data@, x as int, z as int),
{
    if x >= GRID_SIDE || z >= GRID_SIDE || data.len() < TABLE_BYTES {
        return false;
    }
    let (sector, count) = table_entry(data, x, z);
    if sector == 0 && count == 0 {
        return false;
    }
    let start: u64 = sector * SECTOR_BYTES;
    let len: u64 = data.len() as u64;
    if len < CHUNK_HEADER_BYTES || start > len - CHUNK_HEADER_BYTES {
        return false;
    }
    let length: u64 = byte_at(data, start) * 16777216 + byte_at(data, start + 1) * 65536 + byte_at(
        data,
        start + 2,
    ) * 256 + byte_at(data, start + 3);
    let scheme: u64 = byte_at(data, start + 4);
    length >= 1 && 1 <= scheme && scheme <= 4
}

impl<'a> RegionFile<'a> {
    /// The reader walks the bytes that the file holds.
    pub closed spec fn wf(self) -> bool {
        region_bytes(self.reader) == self.data@
    }

    /// The bytes of the file.
    pub closed spec fn bytes(self) -> Seq<u8> {
        self.data@
    }

    /// Opens a region over a buffer. The buffer has to hold the whole table of
    /// locations, and nothing more is asked of it.
    pub fn open(data: &'a [u8]) -> (opened: Option<RegionFile<'a>>)
        ensures
            opened is Some <==> data@.len() >= TABLE_BYTES,
            opened matches Some(file) ==> file.wf() && file.bytes() == data@,
    {
        match open_region(data) {
            Some(reader) => Some(RegionFile { data, reader }),
            None => None,
        }
    }

    /// The chunk in slot (x, z), decompressed. A slot that is vacant, lies
    /// outside the grid or the file, or does not decompress yields nothing.
    pub fn chunk(&mut self, x: usize, z: usize) -> (chunk: Option<Vec<u8>>)
        requires
            old(self).wf(),
        ensures
            final(self).wf(),
            final(self).bytes() == old(self).bytes(),
            content(chunk) == slot_chunk(old(self).bytes(), x as int, z as int),
    {
        if slot_is_legible(self.data, x, z) {
            read_chunk(&mut self.reader, x, z)
        } else {
            None
        }
    }
}

/// Searches the chunks of a region, slot by slot, up to the first that holds a
/// match. A buffer too short to hold the table has no chunks.
pub fn handle_region(data: &[u8]) -> (found: bool)
    ensures
        found == region_matches(data@),
{
    let mut file = match RegionFile::open(data) {
        Some(file) => file,
        None => {
            return false;
        },
    };
    let mut x: usize = 0;
    while x < GRID_SIDE
        invariant
            x <= GRID_SIDE,
            file.wf(),
            file.bytes() == data@,
            forall|i: int, j: int|
                0 <= i < x && 0 <= j < 32 ==> !(#[trigger] slot_chunk(data@, i, j) matches Some(
                    chunk,
                ) && chunk_bytes_match(chunk)),
        decreases GRID_SIDE - x,
    {
        let mut z: usize = 0;
        while z < GRID_SIDE
            invariant
                x < GRID_SIDE,
                z <= GRID_SIDE,
                file.wf(),
            file.bytes() == data@,
                forall|i: int, j: int|
                    0 <= i < x && 0 <= j < 32 ==> !(#[trigger] slot_chunk(data@, i, j) matches Some(
                        chunk,
                    ) && chunk_bytes_match(chunk)),
                forall|j: int|
                    0 <= j < z ==> !(#[trigger] slot_chunk(data@, x as int, j) matches Some(chunk)
                        && chunk_bytes_match(chunk)),
            decreases GRID_SIDE - z,
        {
            if let Some(chunk) = file.chunk(x, z) {
                if process_chunk(chunk.as_slice()) {
                    assert(slot_chunk(data@, x as int, z as int) matches Some(c)
                        && chunk_bytes_match(c));
                    return true;
                }
            }
            z += 1;
        }
        x += 1;
    }
    false
}

/// A buffer that is cut off inside the table of locations has no chunk in any
/// slot, and so no match.
pub proof fn lemma_short_buffer_is_empty(bytes: Seq<u8>)
    requires
        bytes.len() < TABLE_BYTES,
    ensures
        forall|x: int, z: int| slot_chunk(bytes, x, z) is None,
        !region_matches(bytes),
{
}

/// A buffer whose table of locations is all zero has no chunk in any slot, and
/// so no match, whatever follows the table.
pub proof fn lemma_blank_table_is_empty(bytes: Seq<u8>)
    requires
        forall|i: int| 0 <= i < bytes.len() && i < TABLE_BYTES ==> bytes[i] == 0,
    ensures
        forall|x: int, z: int| slot_chunk(bytes, x, z) is None,
        !region_matches(bytes),
{
    assert forall|x: int, z: int| slot_chunk(bytes, x, z) is None by {
        if 0 <= x < 32 && 0 <= z < 32 && bytes.len() >= TABLE_BYTES {
            let p = entry_start(x, z);
            assert(0 <= p && p + 3 < TABLE_BYTES);
            assert(bytes[p] == 0 && bytes[p + 1] == 0 && bytes[p + 2] == 0 && bytes[p + 3] == 0);
            assert(slot_vacant(bytes, x, z));
        }
    }
}

/// A slot whose table entry points at or past the last five bytes of the file
/// has no chunk: a file cut off before a chunk loses that chunk and nothing
/// else.
pub proof fn lemma_cut_off_chunk_is_skipped(bytes: Seq<u8>, x: int, z: int)
    requires
        chunk_start(bytes, x, z) + 5 > bytes.len(),
    ensures
        slot_chunk(bytes, x, z) is None,
{
}

/// Whether a region matches depends on its bytes alone.
pub proof fn lemma_region_search_deterministic(a: Seq<u8>, b: Seq<u8>)
    requires
        a == b,
    ensures
        region_matches(a) == region_matches(b),
{
}

} // verus!
