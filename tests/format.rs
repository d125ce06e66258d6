use codecrafters_sqlite::db::{db_info, is_reserved_name, list_tables, parse_cell, DbInfo};
use codecrafters_sqlite::page::DbHeader;
use codecrafters_sqlite::pager::{read_cell_count, read_header, read_u16, DbError};
use codecrafters_sqlite::varint::{read_varint, write_varint};

fn text_serial(len: usize) -> u8 {
    (13 + 2 * len) as u8
}

fn schema_cell(kind: &[u8], name: &[u8], tbl_name: &[u8]) -> Vec<u8> {
    let mut payload = vec![
        4u8,
        text_serial(kind.len()),
        text_serial(name.len()),
        text_serial(tbl_name.len()),
    ];
    payload.extend_from_slice(kind);
    payload.extend_from_slice(name);
    payload.extend_from_slice(tbl_name);
    let mut cell = vec![payload.len() as u8, 1u8];
    cell.extend_from_slice(&payload);
    cell
}

fn database(page_size_raw: u16, page_len: usize, cells: &[Vec<u8>]) -> Vec<u8> {
    let mut data = vec![0u8; page_len];
    data[16] = (page_size_raw >> 8) as u8;
    data[17] = (page_size_raw & 0xff) as u8;
    data[103] = 0;
    data[104] = cells.len() as u8;
    let mut offset = 2000usize;
    for (i, cell) in cells.iter().enumerate() {
        data[108 + 2 * i] = (offset >> 8) as u8;
        data[109 + 2 * i] = (offset & 0xff) as u8;
        data[offset..offset + cell.len()].copy_from_slice(cell);
        offset += cell.len() + 3;
    }
    data
}

fn table(name: &str) -> Vec<u8> {
    schema_cell(b"table", name.as_bytes(), name.as_bytes())
}

#[test]
fn varint_single_byte() {
    assert_eq!(read_varint(&[0x05, 0xff]), (5, 1));
    assert_eq!(read_varint(&[0x7f]), (127, 1));
}

#[test]
fn varint_groups_least_significant_first() {
    assert_eq!(read_varint(&[0x81, 0x01]), (129, 2));
    assert_eq!(read_varint(&[0xac, 0x02]), (300, 2));
}

#[test]
fn varint_ninth_byte_takes_all_bits() {
    let bytes = [0xffu8; 9];
    assert_eq!(read_varint(&bytes), (u64::MAX, 9));
    let mut bytes = [0x80u8; 10];
    bytes[8] = 0x01;
    assert_eq!(read_varint(&bytes), (1u64 << 56, 9));
}

#[test]
fn varint_truncated_reads_what_is_there() {
    assert_eq!(read_varint(&[0x80]), (0, 9));
    assert_eq!(read_varint(&[0x81, 0x82]), (1 + 2 * 128, 9));
}

#[test]
fn varint_round_trip() {
    for v in [0u64, 1, 127, 128, 300, 16383, 16384, (1 << 56) - 1, 1 << 56, u64::MAX - 1, u64::MAX] {
        let bytes = write_varint(v);
        assert!(bytes.len() <= 9);
        assert_eq!(read_varint(&bytes), (v, bytes.len()));
    }
    assert_eq!(write_varint(300), vec![0xac, 0x02]);
    assert_eq!(write_varint(u64::MAX).len(), 9);
}

#[test]
fn u16_is_big_endian() {
    assert_eq!(read_u16(&[0x12, 0x34, 0x56], 1), 0x3456);
}

#[test]
fn header_sentinel_means_65536() {
    let data = database(1, 200, &[]);
    assert_eq!(read_header(&data), Ok(DbHeader { page_size: 65536 }));
}

#[test]
fn header_rejects_non_power_of_two() {
    let data = database(100, 200, &[]);
    assert_eq!(read_header(&data), Err(DbError::InvalidPageSize(100)));
    let data = database(0, 200, &[]);
    assert_eq!(read_header(&data), Err(DbError::InvalidPageSize(0)));
    let data = database(4097, 200, &[]);
    assert_eq!(read_header(&data), Err(DbError::InvalidPageSize(4097)));
}

#[test]
fn header_accepts_power_of_two() {
    let data = database(4096, 200, &[]);
    assert_eq!(read_header(&data), Ok(DbHeader { page_size: 4096 }));
    let data = database(512, 200, &[]);
    assert_eq!(read_header(&data), Ok(DbHeader { page_size: 512 }));
}

#[test]
fn cell_count_is_read() {
    let data = database(4096, 4096, &[table("a"), table("b"), table("c")]);
    assert_eq!(read_cell_count(&data), 3);
}

#[test]
fn info_reports_raw_fields() {
    let data = database(4096, 4096, &[table("a"), table("b")]);
    assert_eq!(db_info(&data), Ok(DbInfo { page_size: 4096, number_of_tables: 2 }));
    assert_eq!(db_info(&data[..50]), Err(DbError::Truncated));
}

#[test]
fn cell_of_table_gives_its_name() {
    let cell = schema_cell(b"table", b"apples", b"apples");
    assert_eq!(parse_cell(&cell), Some("apples".to_string()));
    let cell = schema_cell(b"table", b"x", b"oranges");
    assert_eq!(parse_cell(&cell), Some("oranges".to_string()));
}

#[test]
fn cell_of_index_is_skipped() {
    let cell = schema_cell(b"index", b"idx", b"apples");
    assert_eq!(parse_cell(&cell), None);
    let cell = schema_cell(b"Table", b"t", b"t");
    assert_eq!(parse_cell(&cell), None);
}

#[test]
fn malformed_cells_are_skipped() {
    assert_eq!(parse_cell(&[]), None);
    // two serial types only
    assert_eq!(parse_cell(&[5, 1, 3, 23, 15, b't']), None);
    // an even serial type for the type field
    assert_eq!(parse_cell(&[6, 1, 4, 24, 15, 15, b't']), None);
    // the name runs past the cell
    let mut cell = schema_cell(b"table", b"apples", b"apples");
    cell.truncate(cell.len() - 1);
    assert_eq!(parse_cell(&cell), None);
}

#[test]
fn cell_name_is_decoded_lossily() {
    let cell = schema_cell(b"table", b"t", &[b'a', 0xff, b'b']);
    assert_eq!(parse_cell(&cell), Some("a\u{fffd}b".to_string()));
}

#[test]
fn reserved_and_index_rows_are_not_listed() {
    let cells = vec![
        table("apples"),
        schema_cell(b"table", b"sqlite_sequence", b"sqlite_sequence"),
        schema_cell(b"index", b"idx", b"oranges"),
        table("oranges"),
    ];
    let data = database(4096, 4096, &cells);
    assert_eq!(list_tables(&data), Ok(vec!["apples".to_string(), "oranges".to_string()]));
}

#[test]
fn tables_are_listed_in_order() {
    let data = database(4096, 4096, &[table("zeta"), table("alpha"), table("beta")]);
    assert_eq!(
        list_tables(&data),
        Ok(vec!["alpha".to_string(), "beta".to_string(), "zeta".to_string()])
    );
}

#[test]
fn empty_schema_lists_nothing() {
    let data = database(4096, 4096, &[]);
    assert_eq!(list_tables(&data), Ok(Vec::new()));
}

#[test]
fn listing_reports_format_errors() {
    let data = database(100, 4096, &[table("a")]);
    assert_eq!(list_tables(&data), Err(DbError::InvalidPageSize(100)));
    let data = database(4096, 4096, &[table("a")]);
    assert_eq!(list_tables(&data[..2048]), Err(DbError::Truncated));
    assert_eq!(list_tables(&data[..60]), Err(DbError::Truncated));
}

#[test]
fn listing_skips_pointers_off_the_page() {
    let mut data = database(4096, 4096, &[table("a"), table("b")]);
    data[110] = 0xff;
    data[111] = 0xff;
    assert_eq!(list_tables(&data), Ok(vec!["a".to_string()]));
}

#[test]
fn reserved_names() {
    assert!(is_reserved_name(&"sqlite_sequence".to_string()));
    assert!(is_reserved_name(&"sqlite_".to_string()));
    assert!(!is_reserved_name(&"sqlite".to_string()));
    assert!(!is_reserved_name(&"SQLITE_x".to_string()));
    assert!(!is_reserved_name(&"my_sqlite_t".to_string()));
}

#[test]
fn reserved_names_never_listed() {
    let cells = vec![
        schema_cell(b"table", b"sqlite_sequence", b"sqlite_sequence"),
        table("sqlite_stat1"),
        table("b"),
    ];
    let data = database(4096, 4096, &cells);
    let listed = list_tables(&data).unwrap();
    assert!(listed.iter().all(|n| !n.starts_with("sqlite_")));
    assert_eq!(listed, vec!["b".to_string()]);
}

#[test]
fn index_row_adds_nothing() {
    let with_index = vec![
        table("pears"),
        schema_cell(b"index", b"idx", b"apples"),
        table("figs"),
    ];
    let without = vec![table("pears"), table("figs")];
    let a = list_tables(&database(4096, 4096, &with_index));
    let b = list_tables(&database(4096, 4096, &without));
    assert_eq!(a, b);
    assert_eq!(a, Ok(vec!["figs".to_string(), "pears".to_string()]));
}
