use msi::column::{CellError, Column, ColumnType};
use msi::stringpool::{StringPool, StringRef};
use msi::table::{Row, Rows, Table};
use msi::value::{Value, ValueRef};

fn id_name_table(long_string_refs: bool) -> Table {
    Table::new(
        "People".to_string(),
        vec![
            Column::new("Id".to_string(), ColumnType::Int32, true),
            Column::new("Name".to_string(), ColumnType::Str, false),
        ],
        long_string_refs,
    )
}

#[test]
fn encode_two_rows_column_major() {
    let table = id_name_table(false);
    let mut pool = StringPool::new();
    let a = ValueRef::create(Value::Str("a".to_string()), &mut pool);
    let b = ValueRef::create(Value::Str("b".to_string()), &mut pool);
    let rows = vec![vec![ValueRef::Int(1), a], vec![ValueRef::Int(2), b]];
    let data = table.write_rows(rows.clone()).unwrap();
    assert_eq!(data.len(), 12);
    assert_eq!(
        data,
        vec![0x01, 0x00, 0x00, 0x80, 0x02, 0x00, 0x00, 0x80, 0x01, 0x00, 0x02, 0x00]
    );
    let back = table.read_rows(&data);
    assert_eq!(back, rows);
    let mut cursor = Rows::new(&pool, &table, back);
    let first = cursor.next().unwrap();
    assert_eq!(*first.index(0), Value::Int(1));
    assert_eq!(*first.index(1), Value::Str("a".to_string()));
    let second = cursor.next().unwrap();
    assert_eq!(*second.index(0), Value::Int(2));
    assert_eq!(*second.index(1), Value::Str("b".to_string()));
    assert!(cursor.next().is_none());
}

#[test]
fn long_string_refs_take_three_bytes() {
    let table = id_name_table(true);
    let rows = vec![
        vec![ValueRef::Int(-1), ValueRef::Str(StringRef::new(0x12345))],
        vec![ValueRef::Null, ValueRef::Null],
    ];
    let data = table.write_rows(rows.clone()).unwrap();
    assert_eq!(
        data,
        vec![0xff, 0xff, 0xff, 0x7f, 0, 0, 0, 0, 0x45, 0x23, 0x01, 0, 0, 0]
    );
    assert_eq!(table.read_rows(&data), rows);
}

#[test]
fn widths() {
    assert_eq!(ColumnType::Int16.width(false), 2);
    assert_eq!(ColumnType::Int16.width(true), 2);
    assert_eq!(ColumnType::Int32.width(false), 4);
    assert_eq!(ColumnType::Int32.width(true), 4);
    assert_eq!(ColumnType::Str.width(false), 2);
    assert_eq!(ColumnType::Str.width(true), 3);
}

#[test]
fn int16_cells() {
    let mut out = Vec::new();
    assert_eq!(ColumnType::Int16.write_value(&mut out, ValueRef::Int(-32767), false), Ok(()));
    assert_eq!(ColumnType::Int16.write_value(&mut out, ValueRef::Int(32767), false), Ok(()));
    assert_eq!(ColumnType::Int16.write_value(&mut out, ValueRef::Int(0), false), Ok(()));
    assert_eq!(out, vec![0x01, 0x00, 0xff, 0xff, 0x00, 0x80]);
    assert_eq!(ColumnType::Int16.read_value(&out, 0, false), Ok(ValueRef::Int(-32767)));
    assert_eq!(ColumnType::Int16.read_cell(&out, 2, false), ValueRef::Int(32767));
    assert_eq!(ColumnType::Int16.read_value(&out, 4, false), Ok(ValueRef::Int(0)));
}

#[test]
fn values_that_do_not_fit() {
    let mut out = vec![9u8];
    let refused = Err(CellError::DoesNotFit);
    assert_eq!(ColumnType::Int16.write_value(&mut out, ValueRef::Int(32768), false), refused);
    assert_eq!(ColumnType::Int16.write_value(&mut out, ValueRef::Int(-32768), false), refused);
    assert_eq!(
        ColumnType::Int32.write_value(&mut out, ValueRef::Int(-2147483648), false),
        refused
    );
    assert_eq!(
        ColumnType::Int32.write_value(&mut out, ValueRef::Str(StringRef::new(1)), false),
        refused
    );
    assert_eq!(ColumnType::Str.write_value(&mut out, ValueRef::Int(1), false), refused);
    assert_eq!(
        ColumnType::Str.write_value(&mut out, ValueRef::Str(StringRef::new(0x10000)), false),
        refused
    );
    assert_eq!(
        ColumnType::Str.write_value(&mut out, ValueRef::Str(StringRef::new(0)), true),
        refused
    );
    assert_eq!(out, vec![9u8]);
    assert_eq!(
        ColumnType::Str.write_value(&mut out, ValueRef::Str(StringRef::new(0x10000)), true),
        Ok(())
    );
    assert_eq!(out, vec![9u8, 0, 0, 1]);
    let table = id_name_table(false);
    assert_eq!(
        table.write_rows(vec![vec![ValueRef::Int(1), ValueRef::Int(2)]]),
        Err(CellError::DoesNotFit)
    );
}

#[test]
fn zero_width_rows_give_no_rows() {
    let table = Table::new("Empty".to_string(), Vec::new(), false);
    assert_eq!(table.read_rows(&[1, 2, 3, 4, 5]), Vec::<Vec<ValueRef>>::new());
    assert_eq!(table.read_rows(&[]), Vec::<Vec<ValueRef>>::new());
    assert_eq!(table.write_rows(vec![Vec::new(), Vec::new()]), Ok(Vec::new()));
}

#[test]
fn trailing_bytes_are_ignored() {
    let table = id_name_table(false);
    let data = vec![0x05, 0, 0, 0x80, 0x07, 0, 0xaa, 0xbb];
    assert_eq!(
        table.read_rows(&data),
        vec![vec![ValueRef::Int(5), ValueRef::Str(StringRef::new(7))]]
    );
    assert_eq!(table.read_rows(&data[..5]), Vec::<Vec<ValueRef>>::new());
}

#[test]
fn primary_keys_and_names() {
    let table = Table::new(
        "T".to_string(),
        vec![
            Column::new("A".to_string(), ColumnType::Int16, true),
            Column::new("B".to_string(), ColumnType::Str, false),
            Column::new("C".to_string(), ColumnType::Int32, true),
            Column::new("B".to_string(), ColumnType::Int32, false),
        ],
        false,
    );
    assert_eq!(table.name(), "T");
    assert_eq!(table.columns().len(), 4);
    assert_eq!(table.columns()[1].name(), "B");
    assert_eq!(table.columns()[2].coltype(), ColumnType::Int32);
    assert!(table.columns()[0].is_primary_key());
    assert!(!table.long_string_refs());
    assert_eq!(table.primary_key_indices(), vec![0, 2]);
    assert_eq!(table.index_for_column_name("A"), 0);
    assert_eq!(table.index_for_column_name("B"), 1);
    assert_eq!(table.index_for_column_name("C"), 2);
    assert_eq!(table.find_column("D"), None);
    assert_eq!(table.find_column("B"), Some(1));
}

#[test]
fn lookup_by_name_matches_lookup_by_index() {
    let table = id_name_table(false);
    let row = Row::new(&table, vec![Value::Int(9), Value::Str("nine".to_string())]);
    assert_eq!(row.len(), 2);
    for (index, column) in table.columns().iter().enumerate() {
        assert_eq!(row.index_name(column.name()), row.index(index));
    }
    assert_eq!(*row.index_name("Name"), Value::Str("nine".to_string()));
}

#[test]
fn cursor_counts_down() {
    let table = id_name_table(false);
    let pool = StringPool::new();
    let rows = vec![
        vec![ValueRef::Int(1), ValueRef::Null],
        vec![ValueRef::Int(2), ValueRef::Null],
        vec![ValueRef::Int(3), ValueRef::Null],
    ];
    let mut cursor = Rows::new(&pool, &table, rows);
    assert_eq!(cursor.size_hint(), (3, Some(3)));
    assert_eq!(*cursor.next().unwrap().index(0), Value::Int(1));
    assert_eq!(cursor.size_hint(), (2, Some(2)));
    assert_eq!(*cursor.next().unwrap().index(0), Value::Int(2));
    assert_eq!(cursor.size_hint(), (1, Some(1)));
    let last = cursor.next().unwrap();
    assert_eq!(*last.index(0), Value::Int(3));
    assert!(last.index(1).is_null());
    assert_eq!(cursor.size_hint(), (0, Some(0)));
    assert!(cursor.next().is_none());
    assert!(cursor.next().is_none());
    assert_eq!(cursor.size_hint(), (0, Some(0)));
}

#[test]
fn truncated_cells_are_refused() {
    let data = vec![0x01, 0x80, 0x02];
    assert_eq!(ColumnType::Int16.read_value(&data, 0, false), Ok(ValueRef::Int(1)));
    assert_eq!(ColumnType::Int16.read_value(&data, 1, false), Ok(ValueRef::Int(0x0280 - 0x8000)));
    assert_eq!(ColumnType::Int16.read_value(&data, 2, false), Err(CellError::Truncated));
    assert_eq!(ColumnType::Int16.read_value(&data, 3, false), Err(CellError::Truncated));
    assert_eq!(ColumnType::Int16.read_value(&data, usize::MAX, false), Err(CellError::Truncated));
    assert_eq!(ColumnType::Int32.read_value(&data, 0, false), Err(CellError::Truncated));
    assert_eq!(ColumnType::Str.read_value(&data, 0, true), Ok(ValueRef::Str(StringRef::new(0x028001))));
    assert_eq!(ColumnType::Str.read_value(&data, 1, true), Err(CellError::Truncated));
    assert_eq!(ColumnType::Str.read_value(&[0, 0], 0, false), Ok(ValueRef::Null));
}

#[test]
fn round_trip_of_every_kind_of_cell() {
    let table = Table::new(
        "Mixed".to_string(),
        vec![
            Column::new("Small".to_string(), ColumnType::Int16, false),
            Column::new("Text".to_string(), ColumnType::Str, false),
            Column::new("Big".to_string(), ColumnType::Int32, false),
        ],
        true,
    );
    let rows = vec![
        vec![ValueRef::Int(-32767), ValueRef::Str(StringRef::new(0xff_ffff)), ValueRef::Int(2147483647)],
        vec![ValueRef::Null, ValueRef::Null, ValueRef::Null],
        vec![ValueRef::Int(32767), ValueRef::Str(StringRef::new(1)), ValueRef::Int(-2147483647)],
        vec![ValueRef::Int(0), ValueRef::Str(StringRef::new(256)), ValueRef::Int(0)],
    ];
    let data = table.write_rows(rows.clone()).unwrap();
    assert_eq!(data.len(), 4 * (2 + 3 + 4));
    assert_eq!(&data[..8], &[0x01, 0x00, 0x00, 0x00, 0xff, 0xff, 0x00, 0x80]);
    assert_eq!(&data[8..20], &[0xff, 0xff, 0xff, 0, 0, 0, 1, 0, 0, 0, 1, 0]);
    assert_eq!(table.read_rows(&data), rows);
}
