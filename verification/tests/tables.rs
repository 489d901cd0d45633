use column_stats::binary64::Binary64;
use column_stats::error::Stage;
use column_stats::error::StatsError;
use column_stats::table::Cell;
use column_stats::table::Column;
use column_stats::table::ColumnType;
use column_stats::table::Table;

fn num(x: f64) -> Binary64 {
    Binary64::from_bits(x.to_bits())
}

fn ids(n: i64) -> Column {
    let cells = (1..=n).map(Cell::Integer).collect();
    Column::new("id".to_string(), ColumnType::Integer, cells).unwrap()
}

#[test]
fn a_column_keeps_what_it_was_made_of() {
    let column = Column::new(
        "amount".to_string(),
        ColumnType::Float,
        vec![Cell::Float(num(1.5)), Cell::Missing],
    )
    .unwrap();
    assert_eq!(column.name(), "amount");
    assert_eq!(column.dtype(), ColumnType::Float);
    assert_eq!(column.len(), 2);
    assert_eq!(*column.cell(0), Cell::Float(num(1.5)));
    assert_eq!(*column.cell(1), Cell::Missing);
    assert!(column.cell(1).is_missing());
    assert!(!column.cell(0).is_missing());
}

#[test]
fn a_value_of_another_type_is_refused() {
    assert!(Column::new(
        "amount".to_string(),
        ColumnType::Float,
        vec![Cell::Float(num(1.5)), Cell::Text("abc".to_string())],
    )
    .is_none());
    assert!(Column::new("n".to_string(), ColumnType::Integer, vec![Cell::Boolean(true)]).is_none());
    assert!(Column::new("n".to_string(), ColumnType::Unknown, vec![Cell::Integer(1)]).is_none());
    assert!(Column::new("n".to_string(), ColumnType::Text, vec![Cell::Float(num(0.0))]).is_none());
}

#[test]
fn a_missing_entry_fits_every_type() {
    for dtype in [
        ColumnType::Integer,
        ColumnType::Float,
        ColumnType::Text,
        ColumnType::Boolean,
        ColumnType::Unknown,
    ] {
        assert!(Cell::Missing.fits_type(dtype));
        assert!(Column::new("c".to_string(), dtype, vec![Cell::Missing, Cell::Missing]).is_some());
    }
    assert!(Cell::Integer(4).fits_type(ColumnType::Integer));
    assert!(!Cell::Integer(4).fits_type(ColumnType::Float));
    assert!(Cell::Boolean(false).fits_type(ColumnType::Boolean));
    assert!(!Cell::Text("4".to_string()).fits_type(ColumnType::Integer));
}

#[test]
fn a_table_has_the_rows_of_its_columns() {
    let amount = Column::new(
        "amount".to_string(),
        ColumnType::Float,
        vec![Cell::Float(num(1.0)), Cell::Missing, Cell::Float(num(2.0))],
    )
    .unwrap();
    let table = Table::new(vec![ids(3), amount]).unwrap();
    assert_eq!(table.width(), 2);
    assert_eq!(table.rows(), 3);
    assert_eq!(table.column_names(), vec!["id".to_string(), "amount".to_string()]);
}

#[test]
fn a_table_without_columns_has_no_rows() {
    let table = Table::new(vec![]).unwrap();
    assert_eq!(table.width(), 0);
    assert_eq!(table.rows(), 0);
    let failure = table.column("amount").unwrap_err();
    assert_eq!(
        failure,
        StatsError::ColumnNotFound { requested: "amount".to_string(), available: vec![] }
    );
    assert_eq!(failure.message(), "column 'amount' not found; available columns: []");
}

#[test]
fn columns_of_different_lengths_make_no_table() {
    let amount =
        Column::new("amount".to_string(), ColumnType::Float, vec![Cell::Float(num(1.0))]).unwrap();
    assert!(Table::new(vec![ids(2), amount]).is_none());
}

#[test]
fn two_columns_of_one_name_make_no_table() {
    let other = Column::new(
        "id".to_string(),
        ColumnType::Float,
        vec![Cell::Float(num(1.0)), Cell::Float(num(2.0))],
    )
    .unwrap();
    assert!(Table::new(vec![ids(2), other]).is_none());
}

#[test]
fn a_column_is_found_by_its_exact_name() {
    let amount = Column::new(
        "Amount Received".to_string(),
        ColumnType::Float,
        vec![Cell::Float(num(1.0)), Cell::Float(num(2.0))],
    )
    .unwrap();
    let table = Table::new(vec![ids(2), amount]).unwrap();
    let found = table.column("Amount Received").unwrap();
    assert_eq!(found.name(), "Amount Received");
    assert_eq!(found.dtype(), ColumnType::Float);
    assert_eq!(table.column("id").unwrap().dtype(), ColumnType::Integer);
}

#[test]
fn lookup_tells_upper_case_from_lower_case() {
    let table = Table::new(vec![ids(2)]).unwrap();
    for name in ["ID", "Id", "id ", " id", "i", ""] {
        let failure = table.column(name).unwrap_err();
        assert_eq!(
            failure,
            StatsError::ColumnNotFound {
                requested: name.to_string(),
                available: vec!["id".to_string()],
            }
        );
        assert_eq!(failure.stage(), Stage::Resolve);
    }
}
