//! Fixed-offset fields of the database header and of the first page.
use crate::page::DbHeader;
use vstd::prelude::*;

verus! {

/// Size of the database header, which the first page starts with.
pub const HEADER_SIZE: usize = 100;

/// Offset of the page size within the header.
pub const PAGE_SIZE_OFFSET: usize = 16;

/// Offset of the first page's cell count: three bytes into the page header,
/// which follows the database header.
pub const CELL_COUNT_OFFSET: usize = 103;

/// The page size that the raw value `1` stands for.
pub const MAX_PAGE_SIZE: u32 = 65536;

/// Why a database file cannot be read.
#[derive(Debug, Clone, Copy, PartialEq, Eq, Structural)]
pub enum DbError {
    /// The header's page size is neither `1` nor a power of two.
    InvalidPageSize(u16),
    /// The file is shorter than its header or its first page.
    Truncated,
}

/// The big-endian 16-bit integer made of `hi` then `lo`.
pub open spec fn be16(hi: u8, lo: u8) -> u16 {
    (hi as int * 256 + lo as int) as u16
}

/// The big-endian 16-bit integer at offset `i` of `b`.
pub open spec fn be16_at(b: Seq<u8>, i: int) -> u16 {
    be16(b[i], b[i + 1])
}

/// `n` is one of 1, 2, 4, 8, ...
pub open spec fn is_power_of_two(n: nat) -> bool
    decreases n,
{
    if n == 0 {
        false
    } else if n == 1 {
        true
    } else {
        n % 2 == 0 && is_power_of_two(n / 2)
    }
}

/// The page size that the raw header value `raw` declares, if it is valid.
pub open spec fn page_size_of(raw: u16) -> Option<u32> {
    if raw == 1 {
        Some(65536)
    } else if is_power_of_two(raw as nat) {
        Some(raw as u32)
    } else {
        None
    }
}

/// What reading the header in `b` gives.
pub open spec fn header_of(b: Seq<u8>) -> Result<DbHeader, DbError> {
    let raw = be16_at(b, PAGE_SIZE_OFFSET as int);
    match page_size_of(raw) {
        Some(p) => Ok(DbHeader { page_size: p }),
        None => Err(DbError::InvalidPageSize(raw)),
    }
}

/// Reads the big-endian 16-bit integer at `offset`.
pub fn read_u16(buffer: &[u8], offset: usize) -> (r: u16)
    requires
        offset + 2 <= buffer@.len(),
    ensures
        r == be16_at(buffer@, offset as int),
{
    buffer[offset] as u16 * 256 + buffer[offset + 1] as u16
}

fn is_pow2(n: u16) -> (r: bool)
    ensures
        r == is_power_of_two(n as nat),
{
    let mut m: u16 = n;
    while m > 1 && m % 2 == 0
        invariant
            is_power_of_two(m as nat) == is_power_of_two(n as nat),
        decreases m,
    {
        m = m / 2;
    }
    m == 1
}

/// Reads the database header: the page size, where `1` stands for 65536 and
/// any other value must be a power of two.
pub fn read_header(buffer: &[u8]) -> (r: Result<DbHeader, DbError>)
    requires
        buffer@.len() >= HEADER_SIZE,
    ensures
        r == header_of(buffer@),
{
    let raw = read_u16(buffer, PAGE_SIZE_OFFSET);
    if raw == 1 {
        Ok(DbHeader { page_size: MAX_PAGE_SIZE })
    } else if is_pow2(raw) {
        Ok(DbHeader { page_size: raw as u32 })
    } else {
        Err(DbError::InvalidPageSize(raw))
    }
}

/// Reads the number of cells on the first page.
pub fn read_cell_count(buffer: &[u8]) -> (r: u16)
    requires
        buffer@.len() >= CELL_COUNT_OFFSET + 2,
    ensures
        r == be16_at(buffer@, CELL_COUNT_OFFSET as int),
{
    read_u16(buffer, CELL_COUNT_OFFSET)
}

} // verus!
