//! End-to-end tests of the table, pager, cursor and codec, driven against
//! an in-memory file: a plain byte vector that serves the read requests and
//! applies the write requests the library produces.

use rowstore::{
    Column, ColumnKind, Cursor, Fetch, ReadRequest, Row, Schema, StoreError, Table, Value,
    WhereClause, WriteRequest,
};

const PAGE_SIZE: usize = 4096;

fn apply_write(file: &mut Vec<u8>, w: &WriteRequest) {
    let end = w.offset + w.bytes.len();
    if file.len() < end {
        file.resize(end, 0);
    }
    file[w.offset..end].copy_from_slice(&w.bytes);
}

fn serve_read(file: &[u8], r: &ReadRequest) -> Vec<u8> {
    file[r.offset..r.offset + r.len].to_vec()
}

fn insert_row(table: &mut Table, file: &mut Vec<u8>, row: &Row) -> Result<(), StoreError> {
    loop {
        match table.insert(row) {
            Ok(Fetch::Done(w)) => {
                apply_write(file, &w);
                return Ok(());
            }
            Ok(Fetch::Load(req)) => {
                let bytes = serve_read(file, &req);
                assert!(table.install_page(req.page, bytes));
            }
            Err(e) => return Err(e),
        }
    }
}

fn get_row(table: &mut Table, file: &[u8], i: usize) -> Result<Option<Row>, StoreError> {
    loop {
        match table.row_at(i) {
            Ok(Fetch::Done(r)) => return Ok(r),
            Ok(Fetch::Load(req)) => {
                let bytes = serve_read(file, &req);
                assert!(table.install_page(req.page, bytes));
            }
            Err(e) => return Err(e),
        }
    }
}

fn scan_all(table: &mut Table, file: &[u8]) -> Result<Vec<Row>, StoreError> {
    loop {
        match table.scan() {
            Ok(Fetch::Done(rows)) => return Ok(rows),
            Ok(Fetch::Load(req)) => {
                let bytes = serve_read(file, &req);
                assert!(table.install_page(req.page, bytes));
            }
            Err(e) => return Err(e),
        }
    }
}

fn close_table(table: &mut Table, file: &mut Vec<u8>) {
    for w in table.close() {
        apply_write(file, &w);
    }
}

fn user_schema() -> Schema {
    Schema::new(vec![
        Column { name: "id".to_string(), kind: ColumnKind::Integer },
        Column { name: "username".to_string(), kind: ColumnKind::Text(32) },
        Column { name: "email".to_string(), kind: ColumnKind::Text(255) },
    ])
    .expect("schema fits a page")
}

fn user_row(id: i64, username: &str, email: &str) -> Row {
    let mut row = Row::new();
    row.set("id".to_string(), Value::Integer(id));
    row.set("username".to_string(), Value::Text(username.to_string()));
    row.set("email".to_string(), Value::Text(email.to_string()));
    row
}

// Row size for the user schema: 8 + (4 + 32) + (4 + 255) = 303 bytes,
// 13 rows per 4096-byte page.
const USER_ROW_SIZE: usize = 303;
const USER_ROWS_PER_PAGE: usize = 13;

#[test]
fn scenario_two_users_survive_reopen() {
    let schema = user_schema();
    let mut file: Vec<u8> = Vec::new();
    let mut table = Table::open(schema, file.len());

    let ann = user_row(1, "ann", "ann@x.com");
    let bob = user_row(2, "bob", "bob@x.com");
    insert_row(&mut table, &mut file, &ann).unwrap();
    insert_row(&mut table, &mut file, &bob).unwrap();

    // Select-all through a cursor yields exactly the two rows, in order.
    let mut seen: Vec<Row> = Vec::new();
    let mut cursor = Cursor::table_start(&table);
    while !cursor.end_of_table {
        match cursor.value(&table).unwrap() {
            Fetch::Done(Some(row)) => seen.push(row),
            Fetch::Done(None) => break,
            Fetch::Load(_) => panic!("pages were resident"),
        }
        cursor.advance(&table);
    }
    assert_eq!(seen.len(), 2);
    assert!(rowstore::rows_equal(&seen[0], &ann));
    assert!(rowstore::rows_equal(&seen[1], &bob));

    close_table(&mut table, &mut file);

    // Reopen over the same bytes and repeat the scan: identical sequence.
    let mut table2 = Table::open(user_schema(), file.len());
    assert_eq!(table2.num_rows, 2);
    let rows = scan_all(&mut table2, &file).unwrap();
    assert_eq!(rows.len(), 2);
    assert!(rowstore::rows_equal(&rows[0], &ann));
    assert!(rowstore::rows_equal(&rows[1], &bob));
}

#[test]
fn persistence_across_pages() {
    // 15 rows at 13 rows per page span one full page and a partial one.
    let mut file: Vec<u8> = Vec::new();
    let mut table = Table::open(user_schema(), file.len());
    for i in 0..15i64 {
        let row = user_row(i, &format!("user{}", i), &format!("user{}@x.com", i));
        insert_row(&mut table, &mut file, &row).unwrap();
    }
    close_table(&mut table, &mut file);

    let mut table2 = Table::open(user_schema(), file.len());
    assert_eq!(table2.num_rows, 15);
    let rows = scan_all(&mut table2, &file).unwrap();
    assert_eq!(rows.len(), 15);
    for i in 0..15i64 {
        let expected = user_row(i, &format!("user{}", i), &format!("user{}@x.com", i));
        assert!(rowstore::rows_equal(&rows[i as usize], &expected));
    }
}

#[test]
fn partial_last_page_file_length() {
    // 15 rows: one full page flushed whole, two rows on the partial page.
    let mut file: Vec<u8> = Vec::new();
    let mut table = Table::open(user_schema(), file.len());
    for i in 0..15i64 {
        insert_row(&mut table, &mut file, &user_row(i, "u", "e@x")).unwrap();
    }
    close_table(&mut table, &mut file);
    assert_eq!(file.len(), PAGE_SIZE + 2 * USER_ROW_SIZE);
    assert_eq!(15 / USER_ROWS_PER_PAGE, 1);
    assert_eq!(15 % USER_ROWS_PER_PAGE, 2);
}

#[test]
fn capacity_full_table_rejects_next_insert() {
    // One text column of capacity 4092 gives a 4096-byte row: one row per
    // page, so the 100-page table holds exactly 100 rows.
    let schema = Schema::new(vec![Column {
        name: "blob".to_string(),
        kind: ColumnKind::Text(4092),
    }])
    .unwrap();
    let mut file: Vec<u8> = Vec::new();
    let mut table = Table::open(schema, file.len());
    let mut row = Row::new();
    row.set("blob".to_string(), Value::Text("x".to_string()));
    for _ in 0..100 {
        insert_row(&mut table, &mut file, &row).unwrap();
    }
    assert_eq!(table.num_rows, 100);
    assert_eq!(insert_row(&mut table, &mut file, &row), Err(StoreError::TableFull));
    assert_eq!(table.num_rows, 100);
}

#[test]
fn boundary_row_at() {
    let mut file: Vec<u8> = Vec::new();
    let mut table = Table::open(user_schema(), file.len());
    let last = user_row(41, "zoe", "zoe@x.com");
    insert_row(&mut table, &mut file, &user_row(40, "yan", "yan@x.com")).unwrap();
    insert_row(&mut table, &mut file, &last).unwrap();

    assert!(get_row(&mut table, &file, 2).unwrap().is_none());
    let read = get_row(&mut table, &file, 1).unwrap().unwrap();
    assert!(rowstore::rows_equal(&read, &last));
}

#[test]
fn oversized_text_rejected_without_effect() {
    let mut file: Vec<u8> = Vec::new();
    let mut table = Table::open(user_schema(), file.len());

    // Exactly the slot capacity succeeds.
    let max_name = "a".repeat(32);
    let fits = user_row(1, &max_name, "a@x.com");
    insert_row(&mut table, &mut file, &fits).unwrap();
    assert_eq!(table.num_rows, 1);
    let read = get_row(&mut table, &file, 0).unwrap().unwrap();
    assert!(rowstore::rows_equal(&read, &fits));

    // One byte longer fails and leaves the row count unchanged.
    let too_long = "a".repeat(33);
    let rejected = user_row(2, &too_long, "b@x.com");
    assert_eq!(
        insert_row(&mut table, &mut file, &rejected),
        Err(StoreError::ValueTooLarge)
    );
    assert_eq!(table.num_rows, 1);
    assert!(get_row(&mut table, &file, 1).unwrap().is_none());
}

#[test]
fn cursor_on_empty_table() {
    let file: Vec<u8> = Vec::new();
    let table = Table::open(user_schema(), file.len());
    let cursor = Cursor::table_start(&table);
    assert!(cursor.end_of_table);
    assert_eq!(cursor.row_num, 0);
    match cursor.value(&table).unwrap() {
        Fetch::Done(None) => {}
        _ => panic!("empty table yields no row"),
    }
}

#[test]
fn select_with_equality_filter() {
    let mut file: Vec<u8> = Vec::new();
    let mut table = Table::open(user_schema(), file.len());
    let ann = user_row(1, "ann", "ann@x.com");
    let bob = user_row(2, "bob", "bob@x.com");
    insert_row(&mut table, &mut file, &ann).unwrap();
    insert_row(&mut table, &mut file, &bob).unwrap();

    let clause = Some(WhereClause {
        column: "username".to_string(),
        operator: "=".to_string(),
        value: Value::Text("bob".to_string()),
    });
    let picked = match table.select(&clause).unwrap() {
        Fetch::Done(rows) => rows,
        Fetch::Load(_) => panic!("pages were resident"),
    };
    assert_eq!(picked.len(), 1);
    assert!(rowstore::rows_equal(&picked[0], &bob));

    // No clause selects everything.
    let all = match table.select(&None).unwrap() {
        Fetch::Done(rows) => rows,
        Fetch::Load(_) => panic!("pages were resident"),
    };
    assert_eq!(all.len(), 2);
}

#[test]
fn row_count_from_file_length() {
    // A closed file of one full page holds exactly 13 user rows.
    assert_eq!(Table::open(user_schema(), PAGE_SIZE).num_rows, 13);
    // A trailing fragment of a row is dropped.
    assert_eq!(Table::open(user_schema(), USER_ROW_SIZE + 1).num_rows, 1);
    assert_eq!(Table::open(user_schema(), USER_ROW_SIZE - 1).num_rows, 0);
    // A full page plus one whole row on the partial page.
    assert_eq!(Table::open(user_schema(), PAGE_SIZE + USER_ROW_SIZE).num_rows, 14);
    // The count is capped at the table's capacity.
    let huge = 101 * PAGE_SIZE;
    assert_eq!(Table::open(user_schema(), huge).num_rows, 100 * USER_ROWS_PER_PAGE);
}

#[test]
fn corrupt_length_prefix_is_reported() {
    let schema = || {
        Schema::new(vec![
            Column { name: "id".to_string(), kind: ColumnKind::Integer },
            Column { name: "note".to_string(), kind: ColumnKind::Text(10) },
        ])
        .unwrap()
    };
    let mut file: Vec<u8> = Vec::new();
    let mut table = Table::open(schema(), file.len());
    let mut row = Row::new();
    row.set("id".to_string(), Value::Integer(7));
    row.set("note".to_string(), Value::Text("hi".to_string()));
    insert_row(&mut table, &mut file, &row).unwrap();
    close_table(&mut table, &mut file);

    // The note's length prefix sits after the 8-byte integer; claim a
    // length beyond the 10-byte capacity.
    file[8..12].copy_from_slice(&100u32.to_le_bytes());
    let mut table2 = Table::open(schema(), file.len());
    assert!(matches!(get_row(&mut table2, &file, 0), Err(StoreError::CorruptRow)));
}

#[test]
fn ill_formed_text_is_reported() {
    let schema = || {
        Schema::new(vec![Column { name: "note".to_string(), kind: ColumnKind::Text(10) }])
            .unwrap()
    };
    let mut file: Vec<u8> = Vec::new();
    let mut table = Table::open(schema(), file.len());
    let mut row = Row::new();
    row.set("note".to_string(), Value::Text("ok".to_string()));
    insert_row(&mut table, &mut file, &row).unwrap();
    close_table(&mut table, &mut file);

    // Keep the length prefix of 2 but replace the text with bytes that are
    // not well-formed UTF-8.
    file[4] = 0xff;
    file[5] = 0xfe;
    let mut table2 = Table::open(schema(), file.len());
    assert!(matches!(get_row(&mut table2, &file, 0), Err(StoreError::CorruptRow)));
}

#[test]
fn lazy_load_reads_only_the_needed_page() {
    // Fill two pages, reopen, and read a row on the second page directly:
    // only that page's read request is issued.
    let mut file: Vec<u8> = Vec::new();
    let mut table = Table::open(user_schema(), file.len());
    for i in 0..15i64 {
        insert_row(&mut table, &mut file, &user_row(i, "u", "e@x")).unwrap();
    }
    close_table(&mut table, &mut file);

    let mut table2 = Table::open(user_schema(), file.len());
    let mut loads: Vec<usize> = Vec::new();
    let row = loop {
        match table2.row_at(14).unwrap() {
            Fetch::Done(r) => break r,
            Fetch::Load(req) => {
                loads.push(req.page);
                let bytes = serve_read(&file, &req);
                assert!(table2.install_page(req.page, bytes));
            }
        }
    }
    .unwrap();
    assert_eq!(loads, vec![1]);
    assert!(rowstore::rows_equal(&row, &user_row(14, "u", "e@x")));
}

#[test]
fn insert_after_reopen_appends() {
    let mut file: Vec<u8> = Vec::new();
    let mut table = Table::open(user_schema(), file.len());
    insert_row(&mut table, &mut file, &user_row(1, "ann", "a@x")).unwrap();
    close_table(&mut table, &mut file);

    let mut table2 = Table::open(user_schema(), file.len());
    assert_eq!(table2.num_rows, 1);
    insert_row(&mut table2, &mut file, &user_row(2, "bob", "b@x")).unwrap();
    close_table(&mut table2, &mut file);

    let mut table3 = Table::open(user_schema(), file.len());
    let rows = scan_all(&mut table3, &file).unwrap();
    assert_eq!(rows.len(), 2);
    assert!(rowstore::rows_equal(&rows[0], &user_row(1, "ann", "a@x")));
    assert!(rowstore::rows_equal(&rows[1], &user_row(2, "bob", "b@x")));
}
