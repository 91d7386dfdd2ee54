use rodo::store::{query, write_record, RodoError, TodoDB};

fn open_store(data: &[u8]) -> TodoDB {
    TodoDB::new(String::from("/tmp/todo.db"), data)
}

#[test]
fn add_two_then_list() {
    let mut file: Vec<u8> = Vec::new();
    let mut db = open_store(&file);
    file.extend(db.add_record("x"));
    file.extend(db.add_record("y"));
    let records = query(&file);
    assert_eq!(records.len(), 2);
    assert_eq!(records[0].sequence, 0);
    assert_eq!(records[0].content, b"x".to_vec());
    assert_eq!(records[1].sequence, 1);
    assert_eq!(records[1].content, b"y".to_vec());
}

#[test]
fn add_appends_encoded_line() {
    let mut db = open_store(b"");
    assert_eq!(db.add_record("x"), b"0 x\n".to_vec());
    assert_eq!(db.add_record("y"), b"1 y\n".to_vec());
}

#[test]
fn remove_middle_record() {
    let mut file: Vec<u8> = Vec::new();
    let mut db = open_store(&file);
    file.extend(db.add_record("a"));
    file.extend(db.add_record("b"));
    file.extend(db.add_record("c"));
    let rewritten = db.del_record(&file, "1").unwrap();
    assert_eq!(rewritten, b"0 a\n2 c\n".to_vec());
    let records = query(&rewritten);
    assert_eq!(records.len(), 2);
    assert_eq!(records[0].sequence, 0);
    assert_eq!(records[1].sequence, 2);
}

#[test]
fn removed_sequence_never_reappears() {
    let mut file: Vec<u8> = Vec::new();
    let mut db = open_store(&file);
    file.extend(db.add_record("a"));
    file.extend(db.add_record("b"));
    file.extend(db.add_record("c"));
    file = db.del_record(&file, "1").unwrap();
    // The open store keeps counting past the removed number.
    file.extend(db.add_record("d"));
    let records = query(&file);
    assert_eq!(
        records.iter().map(|r| r.sequence).collect::<Vec<_>>(),
        vec![0, 2, 3]
    );
    // So does a store reopened over the rewritten file.
    let mut db2 = open_store(&file);
    assert_eq!(db2.add_record("e"), b"4 e\n".to_vec());
}

#[test]
fn remove_missing_sequence_reports_not_found() {
    let mut file: Vec<u8> = Vec::new();
    let mut db = open_store(&file);
    file.extend(db.add_record("a"));
    let before = file.clone();
    let r = db.del_record(&file, "9");
    assert!(matches!(r, Err(RodoError::NotFound)));
    assert_eq!(RodoError::NotFound.message(), "not valid sequence");
    // No rewrite was handed back, so the file stays byte for byte.
    assert_eq!(file, before);
}

#[test]
fn remove_non_numeric_argument_reports_parse_error() {
    let mut file: Vec<u8> = Vec::new();
    let mut db = open_store(&file);
    file.extend(db.add_record("a"));
    let r = db.del_record(&file, "abc");
    assert!(matches!(r, Err(RodoError::Parse)));
    let r2 = db.del_record(&file, "");
    assert!(matches!(r2, Err(RodoError::Parse)));
}

#[test]
fn reopen_resumes_numbering() {
    let mut file: Vec<u8> = Vec::new();
    let mut db = open_store(&file);
    file.extend(db.add_record("a"));
    let db2 = open_store(&file);
    assert_eq!(db2.file_index, 1);
    let mut db3 = open_store(&file);
    file.extend(db3.add_record("b"));
    let records = query(&file);
    assert_eq!(
        records.iter().map(|r| r.sequence).collect::<Vec<_>>(),
        vec![0, 1]
    );
}

#[test]
fn numbering_starts_past_the_largest_present() {
    let db = open_store(b"5 a\n2 b\n");
    assert_eq!(db.file_index, 6);
}

#[test]
fn empty_store_starts_at_zero() {
    let db = open_store(b"");
    assert_eq!(db.file_index, 0);
}

#[test]
fn malformed_lines_are_skipped() {
    let data = b"0 a\nnot-a-record\n1 b\nbad line here\n99999999999999999999999999 z\n2 c\n";
    let records = query(data);
    assert_eq!(records.len(), 3);
    assert_eq!(
        records.iter().map(|r| r.sequence).collect::<Vec<_>>(),
        vec![0, 1, 2]
    );
}

#[test]
fn write_record_renders_every_record() {
    let records = query(b"0 a\n7 b\n");
    assert_eq!(write_record(&records), b"0 a\n7 b\n".to_vec());
}
