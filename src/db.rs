//! Listing the tables of a database from the schema rows on its first page.
use crate::pager::{
    be16_at, header_of, read_cell_count, read_header, read_u16, DbError, CELL_COUNT_OFFSET,
    HEADER_SIZE, PAGE_SIZE_OFFSET,
};
use crate::varint::{read_varint, varint_decode};
use vstd::prelude::*;

verus! {

/// Page size and cell count of the first page, as the header stores them.
#[derive(Debug, Clone, Copy, PartialEq, Eq, Structural)]
pub struct DbInfo {
    pub page_size: u16,
    pub number_of_tables: u16,
}

/// Offset of the first page's cell-pointer array: eight bytes into the page
/// header.
pub const CELL_POINTERS_OFFSET: usize = 108;

/// Text that `bytes` decode to as UTF-8, each invalid sequence replaced by
/// U+FFFD.
pub uninterp spec fn utf8_lossy(bytes: Seq<u8>) -> Seq<char>;

/// Bytes that are all ASCII.
pub open spec fn is_ascii_bytes(b: Seq<u8>) -> bool {
    forall|i: int| 0 <= i < b.len() ==> b[i] < 128
}

/// The characters that ASCII bytes stand for, one for each byte.
pub open spec fn ascii_text(b: Seq<u8>) -> Seq<char> {
    b.map_values(|x: u8| x as char)
}

/// Relies on `String::from_utf8_lossy`: the text it returns depends on the
/// bytes alone, and valid UTF-8, such as ASCII, comes back unchanged.
#[verifier::external_body]
fn decode_lossy(bytes: &[u8]) -> (r: String)
    ensures
        r@ == utf8_lossy(bytes@),
        is_ascii_bytes(bytes@) ==> r@ == ascii_text(bytes@),
{
    String::from_utf8_lossy(bytes).into_owned()
}

/// `a` comes before `b`, or equals it, in lexicographic order of code points.
pub open spec fn chars_le(a: Seq<char>, b: Seq<char>) -> bool
    decreases a.len(),
{
    if a.len() == 0 {
        true
    } else if b.len() == 0 {
        false
    } else if a[0] != b[0] {
        (a[0] as u32) < (b[0] as u32)
    } else {
        chars_le(a.drop_first(), b.drop_first())
    }
}

/// The texts of a sequence of strings.
pub open spec fn texts(v: Seq<String>) -> Seq<Seq<char>> {
    v.map_values(|s: String| s@)
}

/// `a` comes before `b`, or equals it, in lexicographic order of bytes.
pub open spec fn bytes_le(a: Seq<u8>, b: Seq<u8>) -> bool
    decreases a.len(),
{
    if a.len() == 0 {
        true
    } else if b.len() == 0 {
        false
    } else if a[0] != b[0] {
        a[0] < b[0]
    } else {
        bytes_le(a.drop_first(), b.drop_first())
    }
}

/// On ASCII names, the order of the listing is the order of their bytes.
pub proof fn lemma_ascii_order(a: Seq<u8>, b: Seq<u8>)
    requires
        is_ascii_bytes(a),
        is_ascii_bytes(b),
    ensures
        chars_le(ascii_text(a), ascii_text(b)) == bytes_le(a, b),
    decreases a.len(),
{
    if a.len() > 0 && b.len() > 0 {
        let (x, y) = (a[0], b[0]);
        assert((x as char == y as char) == (x == y));
        assert(((x as char) as u32) == x as u32);
        assert(((y as char) as u32) == y as u32);
        assert(ascii_text(a).drop_first() =~= ascii_text(a.drop_first()));
        assert(ascii_text(b).drop_first() =~= ascii_text(b.drop_first()));
        lemma_ascii_order(a.drop_first(), b.drop_first());
    }
}

/// Every string of `v` comes before or equals those after it.
pub open spec fn is_sorted(v: Seq<String>) -> bool {
    forall|i: int, j: int| 0 <= i < j < v.len() ==> chars_le(v[i]@, v[j]@)
}

/// Relies on `slice::sort_unstable` for `String`: the slice keeps its strings
/// and puts them in ascending order. `String` orders by UTF-8 bytes, which
/// agrees with the order of code points.
#[verifier::external_body]
fn sort_strings(v: &mut Vec<String>)
    ensures
        texts(final(v)@).to_multiset() == texts(old(v)@).to_multiset(),
        is_sorted(final(v)@),
{
    v.sort_unstable()
}

/// The varint that starts at offset `i` of `d`.
pub open spec fn varint_at(d: Seq<u8>, i: int) -> (nat, nat) {
    varint_decode(d.subrange(i, d.len() as int))
}

/// The serial types of a record header whose remaining `rem` bytes start at
/// offset `i`, and the offset where the header ends; `None` where a varint
/// runs past the cell or past the header.
pub open spec fn serial_types_from(d: Seq<u8>, i: int, rem: int) -> Option<(Seq<nat>, int)>
    decreases rem,
{
    if rem <= 0 {
        Some((Seq::empty(), i))
    } else if i < 0 || i >= d.len() {
        None
    } else {
        let (st, n) = varint_at(d, i);
        if n == 0 || n > rem || i + n > d.len() {
            None
        } else {
            match serial_types_from(d, i + n, rem - n) {
                Some((ts, end)) => Some((seq![st] + ts, end)),
                None => None,
            }
        }
    }
}

/// A serial type that stores text.
pub open spec fn is_text_type(st: nat) -> bool {
    st >= 13 && st % 2 == 1
}

/// Byte length of a text field of serial type `st`.
pub open spec fn text_len(st: nat) -> int {
    (st - 13) / 2
}

/// The bytes of the word `table`.
pub open spec fn table_word() -> Seq<u8> {
    seq![116u8, 97u8, 98u8, 108u8, 101u8]
}

/// The `tbl_name` bytes of a table row, given what its record header gave.
pub open spec fn after_header(c: Seq<u8>, header: Option<(Seq<nat>, int)>) -> Option<Seq<u8>> {
    match header {
        None => None,
        Some((sts, body)) => {
            if sts.len() < 3 || !is_text_type(sts[0]) || sts[1] < 13 || !is_text_type(sts[2]) {
                None
            } else {
                let start = body + text_len(sts[0]) + text_len(sts[1]);
                if start + text_len(sts[2]) > c.len() {
                    None
                } else if c.subrange(body, body + text_len(sts[0])) != table_word() {
                    None
                } else {
                    Some(c.subrange(start, start + text_len(sts[2])))
                }
            }
        },
    }
}

/// The bytes of the `type` field of the schema row stored in `c`, where its
/// record header reads and the field lies within the cell.
pub open spec fn type_field(c: Seq<u8>) -> Option<Seq<u8>> {
    let len = c.len() as int;
    if len == 0 {
        None
    } else {
        let n0 = varint_at(c, 0).1 as int;
        let h = n0 + varint_at(c, n0).1;
        let (hs, n) = varint_at(c, h);
        if n0 >= len || h >= len || h + n > len || hs < n {
            None
        } else {
            match serial_types_from(c, h + n, hs - n) {
                Some((sts, body)) => if sts.len() >= 1 && is_text_type(sts[0]) && body
                    + text_len(sts[0]) <= len {
                    Some(c.subrange(body, body + text_len(sts[0])))
                } else {
                    None
                },
                None => None,
            }
        }
    }
}

/// The `tbl_name` bytes of a schema row stored in `c` whose `type` is `table`;
/// `None` where the cell is malformed or describes something else.
pub open spec fn cell_table_name(c: Seq<u8>) -> Option<Seq<u8>> {
    let len = c.len() as int;
    if len == 0 {
        None
    } else {
        let n0 = varint_at(c, 0).1 as int;
        if n0 >= len {
            None
        } else {
            let h = n0 + varint_at(c, n0).1;
            if h >= len {
                None
            } else {
                let (hs, n) = varint_at(c, h);
                if h + n > len || hs < n {
                    None
                } else {
                    after_header(c, serial_types_from(c, h + n, hs - n))
                }
            }
        }
    }
}

fn read_varint_at(cell: &[u8], i: usize) -> (r: (u64, usize))
    requires
        i < cell@.len(),
    ensures
        r.0 as nat == varint_at(cell@, i as int).0,
        r.1 as nat == varint_at(cell@, i as int).1,
        1 <= r.1 <= 9,
{
    read_varint(&cell[i..cell.len()])
}

/// Parses one cell of the schema table and returns its `tbl_name` where the
/// row's `type` is `table`; a malformed cell or any other row gives `None`.
pub fn parse_cell(cell: &[u8]) -> (r: Option<String>)
    ensures
        match cell_table_name(cell@) {
            Some(b) => r is Some && r->0@ == utf8_lossy(b),
            None => r is None,
        },
{
    let len = cell.len();
    if len == 0 {
        return None;
    }
    let (_, n0) = read_varint_at(cell, 0);
    if n0 >= len {
        return None;
    }
    let (_, n1) = read_varint_at(cell, n0);
    let h = n0 + n1;
    if h >= len {
        return None;
    }
    let (header_size, n) = read_varint_at(cell, h);
    if n > len - h || header_size < n as u64 {
        return None;
    }
    let mut i: usize = h + n;
    let mut remaining: u64 = header_size - n as u64;
    let mut serial_types: Vec<u64> = Vec::new();
    let ghost whole = serial_types_from(cell@, i as int, remaining as int);
    while remaining > 0
        invariant
            i <= len == cell@.len(),
            cell_table_name(cell@) == after_header(cell@, whole),
            whole == match serial_types_from(cell@, i as int, remaining as int) {
                Some((ts, end)) => Some((serial_types@.map_values(|x: u64| x as nat) + ts, end)),
                None => None::<(Seq<nat>, int)>,
            },
        decreases remaining,
    {
        if i >= len {
            return None;
        }
        let (st, n) = read_varint_at(cell, i);
        if n as u64 > remaining || n > len - i {
            return None;
        }
        let ghost before = serial_types@.map_values(|x: u64| x as nat);
        serial_types.push(st);
        assert(serial_types@.map_values(|x: u64| x as nat) =~= before.push(st as nat));
        proof {
            match serial_types_from(cell@, (i + n) as int, (remaining - n) as int) {
                Some((ts, end)) => {
                    assert(before + (seq![st as nat] + ts) =~= before.push(st as nat) + ts);
                },
                None => {},
            }
        }
        i += n;
        remaining -= n as u64;
    }
    assert(serial_types@.map_values(|x: u64| x as nat) + Seq::<nat>::empty() =~= serial_types@.map_values(|x: u64| x as nat));
    if serial_types.len() < 3 {
        return None;
    }
    let t0 = serial_types[0];
    let t1 = serial_types[1];
    let t2 = serial_types[2];
    if t0 < 13 || t0 % 2 == 0 || t1 < 13 || t2 < 13 || t2 % 2 == 0 {
        return None;
    }
    let type_len = (t0 - 13) / 2;
    let name_len = (t1 - 13) / 2;
    let tbl_name_len = (t2 - 13) / 2;
    let avail = (len - i) as u64;
    if type_len > avail || name_len > avail - type_len || tbl_name_len > avail - type_len - name_len {
        return None;
    }
    let type_end = i + type_len as usize;
    let start = type_end + name_len as usize;
    let end = start + tbl_name_len as usize;
    let is_table = type_len == 5 && cell[i] == 116 && cell[i + 1] == 97 && cell[i + 2] == 98
        && cell[i + 3] == 108 && cell[i + 4] == 101;
    proof {
        let body = i as int;
        if is_table {
            assert(cell@.subrange(body, body + 5) =~= table_word());
        } else if type_len == 5 {
            let w = cell@.subrange(body, body + 5);
            assert(w[0] == cell@[body] && w[1] == cell@[body + 1] && w[2] == cell@[body + 2]
                && w[3] == cell@[body + 3] && w[4] == cell@[body + 4]);
            assert(w != table_word());
        } else {
            assert(cell@.subrange(body, body + type_len).len() != table_word().len());
        }
    }
    if !is_table {
        return None;
    }
    Some(decode_lossy(&cell[start..end]))
}

/// The prefix of the names that the database reserves for itself.
pub open spec fn reserved_prefix() -> Seq<char> {
    seq!['s', 'q', 'l', 'i', 't', 'e', '_']
}

/// `name` starts with the reserved prefix.
pub open spec fn is_reserved(name: Seq<char>) -> bool {
    name.len() >= 7 && name.subrange(0, 7) == reserved_prefix()
}

/// Tells whether `name` starts with `sqlite_`, the prefix of the names that
/// the database keeps for itself.
pub fn is_reserved_name(name: &String) -> (r: bool)
    ensures
        r == is_reserved(name@),
{
    let t = name.as_str();
    if t.unicode_len() < 7 {
        return false;
    }
    let r = t.get_char(0) == 's' && t.get_char(1) == 'q' && t.get_char(2) == 'l' && t.get_char(3)
        == 'i' && t.get_char(4) == 't' && t.get_char(5) == 'e' && t.get_char(6) == '_';
    proof {
        let w = name@.subrange(0, 7);
        if r {
            assert(w =~= reserved_prefix());
        } else {
            assert(w[0] == name@[0] && w[1] == name@[1] && w[2] == name@[2] && w[3] == name@[3]
                && w[4] == name@[4] && w[5] == name@[5] && w[6] == name@[6]);
            assert(w != reserved_prefix());
        }
    }
    r
}

/// The table name that cell `k` of `page` contributes to the listing: none
/// where its pointer or the cell lies outside the page, where the cell is no
/// table row, or where the name is reserved.
pub open spec fn cell_entry(page: Seq<u8>, k: int) -> Seq<Seq<char>> {
    let ptr = CELL_POINTERS_OFFSET + 2 * k;
    if ptr + 2 > page.len() {
        Seq::empty()
    } else {
        let off = be16_at(page, ptr) as int;
        if off >= page.len() {
            Seq::empty()
        } else {
            match cell_table_name(page.subrange(off, page.len() as int)) {
                None => Seq::empty(),
                Some(b) => if is_reserved(utf8_lossy(b)) {
                    Seq::empty()
                } else {
                    seq![utf8_lossy(b)]
                },
            }
        }
    }
}

/// The table names of the first `k` cells of `page`, in cell order.
pub open spec fn names_upto(page: Seq<u8>, k: nat) -> Seq<Seq<char>>
    decreases k,
{
    if k == 0 {
        Seq::empty()
    } else {
        names_upto(page, (k - 1) as nat) + cell_entry(page, k - 1)
    }
}

/// The first page of the file `data`, as its header sizes it.
pub open spec fn first_page(data: Seq<u8>) -> Result<Seq<u8>, DbError> {
    if data.len() < HEADER_SIZE {
        Err(DbError::Truncated)
    } else {
        match header_of(data) {
            Err(e) => Err(e),
            Ok(h) => if data.len() < h.page_size || h.page_size < CELL_COUNT_OFFSET + 2 {
                Err(DbError::Truncated)
            } else {
                Ok(data.subrange(0, h.page_size as int))
            },
        }
    }
}

/// The user tables that the schema rows on `page` name, in cell order.
pub open spec fn schema_tables(page: Seq<u8>) -> Seq<Seq<char>> {
    names_upto(page, be16_at(page, CELL_COUNT_OFFSET as int) as nat)
}

/// Lists the tables of the database file `data`, in ascending order: the
/// `tbl_name` of every schema row on the first page whose `type` is `table`
/// and whose name does not start with `sqlite_`.
pub fn list_tables(data: &[u8]) -> (r: Result<Vec<String>, DbError>)
    ensures
        match first_page(data@) {
            Ok(page) => r is Ok && texts(r->Ok_0@).to_multiset() == schema_tables(page).to_multiset()
                && is_sorted(r->Ok_0@) && forall|i: int|
                0 <= i < r->Ok_0@.len() ==> !is_reserved(#[trigger] r->Ok_0@[i]@),
            Err(e) => r == Err::<Vec<String>, DbError>(e),
        },
{
    if data.len() < HEADER_SIZE {
        return Err(DbError::Truncated);
    }
    let header = match read_header(data) {
        Ok(h) => h,
        Err(e) => return Err(e),
    };
    let page_size = header.page_size as usize;
    if data.len() < page_size || page_size < CELL_COUNT_OFFSET + 2 {
        return Err(DbError::Truncated);
    }
    let page = &data[0..page_size];
    let count = read_cell_count(page) as usize;
    let mut tables: Vec<String> = Vec::new();
    let mut k: usize = 0;
    while k < count
        invariant
            k <= count == be16_at(page@, CELL_COUNT_OFFSET as int),
            page@.len() == page_size,
            texts(tables@) == names_upto(page@, k as nat),
        decreases count - k,
    {
        let ghost before = texts(tables@);
        let ptr = CELL_POINTERS_OFFSET + 2 * k;
        if ptr + 2 <= page.len() {
            let off = read_u16(page, ptr) as usize;
            if off < page.len() {
                let cell = &page[off..page.len()];
                match parse_cell(cell) {
                    Some(name) => {
                        if !is_reserved_name(&name) {
                            tables.push(name);
                        }
                    },
                    None => {},
                }
            }
        }
        assert(texts(tables@) =~= before + cell_entry(page@, k as int));
        k += 1;
    }
    let ghost unsorted = texts(tables@);
    sort_strings(&mut tables);
    proof {
        lemma_names_not_reserved(page@, count as nat);
        broadcast use vstd::seq_lib::group_to_multiset_ensures;

        assert forall|i: int| 0 <= i < tables@.len() implies !is_reserved(
            #[trigger] tables@[i]@,
        ) by {
            let x = texts(tables@)[i];
            assert(texts(tables@).contains(x));
            assert(texts(tables@).to_multiset().count(x) > 0);
            assert(unsorted.contains(x));
        }
    }
    Ok(tables)
}

/// Reads the raw page size and the first page's cell count from the start of
/// a database file.
pub fn db_info(buffer: &[u8]) -> (r: Result<DbInfo, DbError>)
    ensures
        buffer@.len() < CELL_COUNT_OFFSET + 2 ==> r == Err::<DbInfo, DbError>(DbError::Truncated),
        buffer@.len() >= CELL_COUNT_OFFSET + 2 ==> r == Ok::<DbInfo, DbError>(
            DbInfo {
                page_size: be16_at(buffer@, PAGE_SIZE_OFFSET as int),
                number_of_tables: be16_at(buffer@, CELL_COUNT_OFFSET as int),
            },
        ),
{
    if buffer.len() < CELL_COUNT_OFFSET + 2 {
        return Err(DbError::Truncated);
    }
    Ok(DbInfo { page_size: read_u16(buffer, PAGE_SIZE_OFFSET), number_of_tables: read_cell_count(buffer) })
}

/// No name of the listing is reserved.
pub proof fn lemma_names_not_reserved(page: Seq<u8>, k: nat)
    ensures
        forall|i: int| 0 <= i < names_upto(page, k).len() ==> !is_reserved(
            #[trigger] names_upto(page, k)[i],
        ),
    decreases k,
{
    if k > 0 {
        lemma_names_not_reserved(page, (k - 1) as nat);
        lemma_listed_cell(page, k - 1);
        let a = names_upto(page, (k - 1) as nat);
        let b = cell_entry(page, k - 1);
        assert forall|i: int| 0 <= i < names_upto(page, k).len() implies !is_reserved(
            #[trigger] names_upto(page, k)[i],
        ) by {
            if i >= a.len() {
                assert(names_upto(page, k)[i] == b[i - a.len()]);
            } else {
                assert(names_upto(page, k)[i] == a[i]);
            }
        }
    }
}

/// A cell whose row has a `type` other than `table` adds nothing to the
/// listing: the names of the cells up to it are those of the cells before it.
pub proof fn lemma_non_table_row_skipped(page: Seq<u8>, k: nat)
    requires
        type_field(
            page.subrange(
                be16_at(page, CELL_POINTERS_OFFSET + 2 * k) as int,
                page.len() as int,
            ),
        ) != Some(table_word()),
    ensures
        cell_entry(page, k as int) == Seq::<Seq<char>>::empty(),
        names_upto(page, k + 1) == names_upto(page, k),
{
    lemma_listed_cell(page, k as int);
    assert(names_upto(page, k + 1) =~= names_upto(page, k));
}

/// A cell adds at most one name to the listing: the `tbl_name` of a row
/// whose `type` field is exactly `table`, and never a reserved name.
pub proof fn lemma_listed_cell(page: Seq<u8>, k: int)
    ensures
        cell_entry(page, k).len() <= 1,
        cell_entry(page, k).len() == 1 ==> !is_reserved(cell_entry(page, k)[0]),
        cell_entry(page, k).len() == 1 ==> ({
            let ptr = CELL_POINTERS_OFFSET + 2 * k;
            let c = page.subrange(be16_at(page, ptr) as int, page.len() as int);
            &&& cell_table_name(c) is Some
            &&& cell_entry(page, k)[0] == utf8_lossy(cell_table_name(c)->0)
            &&& type_field(c) == Some(table_word())
        }),
{
    let ptr = CELL_POINTERS_OFFSET + 2 * k;
    if cell_entry(page, k).len() == 1 {
        let c = page.subrange(be16_at(page, ptr) as int, page.len() as int);
        assert(cell_table_name(c) is Some);
    }
}

} // verus!
