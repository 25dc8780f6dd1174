use hwapi::bugcheck::{read_record, BugCheckCache, Code, CodeCache};
use hwapi::text::DbError;

#[test]
fn read_table_record() {
    let table_record =
        "| 0x00000001 | [**APC\\_INDEX\\_MISMATCH**](bug-check-0x1--apc-index-mismatch.md)         |\n";
    let expected_code = Code {
        code: 1,
        name: String::from("APC_INDEX_MISMATCH"),
        url: String::from("https://learn.microsoft.com/en-us/windows-hardware/drivers/debugger/bug-check-0x1--apc-index-mismatch")
    };
    let combinator_output = read_record(table_record).unwrap();
    assert!(
        combinator_output.0.is_empty(),
        "Combinator leftovers should be empty, is instead {:?}",
        combinator_output.0
    );
    assert_eq!(combinator_output.1, expected_code);
}

#[test]
fn do_thing() {
    let table =
        "| 0x00000001 | [**APC\\_INDEX\\_MISMATCH**](bug-check-0x1--apc-index-mismatch.md)         |\n";
    let cache = CodeCache::new(table).unwrap();
    let output = cache.get(1_u64).unwrap();
    assert_eq!(output, ("APC_INDEX_MISMATCH".to_string(), "https://learn.microsoft.com/en-us/windows-hardware/drivers/debugger/bug-check-0x1--apc-index-mismatch".to_string()));
}

#[test]
fn later_row_replaces_earlier() {
    let table = "| 0x00000001 | [**FIRST**](first.md) |\n| 0x00000001 | [**SECOND**](second.md) |\n";
    let cache = CodeCache::new(table).unwrap();
    let (name, url) = cache.get(1).unwrap();
    assert_eq!(name, "SECOND");
    assert_eq!(
        url,
        "https://learn.microsoft.com/en-us/windows-hardware/drivers/debugger/second"
    );
    assert_eq!(cache.iter().len(), 1);
}

#[test]
fn bugcheck_cache_matches_code_cache() {
    let table = "| 0x00000002 | [**DEVICE\\_QUEUE\\_NOT\\_BUSY**](bug-check-0x2--device-queue-not-busy.md) |\n";
    let cache = BugCheckCache::new(table).unwrap();
    let (name, _url) = cache.get(2).unwrap();
    assert_eq!(name, "DEVICE_QUEUE_NOT_BUSY");
    assert_eq!(cache.get(3), None);
}

#[test]
fn bugcheck_db_errors() {
    assert!(matches!(CodeCache::new("no table"), Err(DbError::NoStart)));
    // a row whose code literal is not hexadecimal poisons the parse
    let bad = "| 0x000z0001 | [**N**](n.md) |\n";
    assert!(matches!(CodeCache::new(bad), Err(DbError::BadField)));
}

#[test]
fn iter_lists_stored_rows() {
    let table = "| 0x00000001 | [**A**](a.md) |\n| 0x00000002 | [**B**](b.md) |\n";
    let cache = CodeCache::new(table).unwrap();
    let rows = cache.iter();
    assert_eq!(rows.len(), 2);
    assert_eq!(rows[0].0, 1);
    assert_eq!(rows[0].1, "A");
    assert_eq!(rows[1].0, 2);
    assert_eq!(rows[1].2, "https://learn.microsoft.com/en-us/windows-hardware/drivers/debugger/b");
}
