use column_stats::binary64::Binary64;
use column_stats::binary64::CANONICAL_NAN;
use column_stats::error::StatsError;
use column_stats::numeric::coerce;
use column_stats::numeric::coerce_cell;
use column_stats::numeric::read_text;
use column_stats::numeric::text_entry;
use column_stats::numeric::NumericColumn;
use column_stats::pipeline::column_statistics;
use column_stats::stats::aggregate;
use column_stats::stats::assemble;
use column_stats::stats::largest;
use column_stats::stats::settle;
use column_stats::stats::smallest;
use column_stats::stats::Statistics;
use column_stats::table::Cell;
use column_stats::table::Column;
use column_stats::table::ColumnType;
use column_stats::table::Table;

fn num(x: f64) -> Binary64 {
    Binary64::from_bits(x.to_bits())
}

fn value(x: Option<Binary64>) -> f64 {
    f64::from_bits(x.unwrap().to_bits())
}

fn numbers(entries: &[Option<f64>]) -> NumericColumn {
    NumericColumn::new(entries.iter().map(|e| e.map(num)).collect()).unwrap()
}

#[test]
fn count_is_the_number_of_rows_whatever_is_missing() {
    for missing in 0..=4usize {
        let entries: Vec<Option<f64>> =
            (0..4).map(|i| if i < missing { None } else { Some(i as f64) }).collect();
        assert_eq!(aggregate(&numbers(&entries)).count, 4);
    }
}

#[test]
fn a_column_of_missing_entries_only_has_a_count_and_nothing_else() {
    let stats = aggregate(&numbers(&[None, None, None]));
    assert_eq!(stats, Statistics { count: 3, min: None, max: None, sum: None, mean: None });
}

#[test]
fn an_empty_column_has_count_zero_and_nothing_else() {
    let stats = aggregate(&numbers(&[]));
    assert_eq!(stats, Statistics { count: 0, min: None, max: None, sum: None, mean: None });
}

#[test]
fn the_mean_divides_by_the_entries_present_not_by_the_rows() {
    let stats = aggregate(&numbers(&[Some(1.0), None, Some(2.0), None]));
    assert_eq!(stats.count, 4);
    assert_eq!(value(stats.sum), 3.0);
    assert_eq!(value(stats.mean), 1.5);
}

#[test]
fn the_mean_is_the_sum_over_the_entries_present() {
    let entries = [Some(0.1), Some(0.7), None, Some(-3.25), Some(1.0e6), Some(2.0 / 3.0), None];
    let stats = aggregate(&numbers(&entries));
    let sum = value(stats.sum);
    let mean = value(stats.mean);
    assert_eq!(mean, sum / 5.0);
    let exact = 0.1 + 0.7 - 3.25 + 1.0e6 + 2.0 / 3.0;
    assert!((sum - exact).abs() <= 1e-9 * exact.abs());
    assert!((mean - exact / 5.0).abs() <= 1e-9 * (exact / 5.0).abs());
}

#[test]
fn one_entry_is_its_own_minimum_maximum_sum_and_mean() {
    let stats = aggregate(&numbers(&[None, Some(-7.25)]));
    assert_eq!(
        stats,
        Statistics {
            count: 2,
            min: Some(num(-7.25)),
            max: Some(num(-7.25)),
            sum: Some(num(-7.25)),
            mean: Some(num(-7.25)),
        }
    );
}

#[test]
fn negative_numbers_are_below_positive_ones() {
    let stats = aggregate(&numbers(&[Some(3.0), Some(-4.0), Some(0.5), Some(-0.5)]));
    assert_eq!(value(stats.min), -4.0);
    assert_eq!(value(stats.max), 3.0);
    assert_eq!(value(stats.sum), -1.0);
    assert_eq!(value(stats.mean), -0.25);
}

#[test]
fn infinities_are_the_ends_of_the_order() {
    let stats = aggregate(&numbers(&[Some(1.0), Some(f64::INFINITY), Some(f64::NEG_INFINITY)]));
    assert_eq!(stats.count, 3);
    assert_eq!(value(stats.min), f64::NEG_INFINITY);
    assert_eq!(value(stats.max), f64::INFINITY);
    assert!(value(stats.sum).is_nan());
    assert!(value(stats.mean).is_nan());
}

#[test]
fn the_sum_of_both_infinities_is_no_number_and_so_is_the_mean() {
    for entries in [
        vec![Some(f64::INFINITY), Some(f64::NEG_INFINITY)],
        vec![Some(f64::NEG_INFINITY), None, Some(f64::INFINITY)],
        vec![Some(2.0), Some(f64::NEG_INFINITY), Some(-3.0), Some(f64::INFINITY)],
    ] {
        let stats = aggregate(&numbers(&entries));
        assert_eq!(stats.count, entries.len());
        assert!(value(stats.sum).is_nan());
        assert!(value(stats.mean).is_nan());
    }
}

#[test]
fn an_entry_that_is_no_number_makes_sum_and_mean_no_number() {
    let stats = aggregate(&numbers(&[Some(1.0), Some(f64::NAN), Some(2.0)]));
    assert_eq!(stats.count, 3);
    assert!(value(stats.sum).is_nan());
    assert!(value(stats.mean).is_nan());
}

#[test]
fn a_sum_that_is_no_number_is_handed_out_as_the_one_nan() {
    let negative_nan = f64::from_bits(0xfff8_0000_0000_0001);
    for entries in [
        vec![Some(f64::INFINITY), Some(f64::NEG_INFINITY)],
        vec![Some(negative_nan)],
        vec![Some(1.0), Some(negative_nan)],
        vec![Some(f64::NAN), Some(f64::INFINITY)],
    ] {
        let stats = aggregate(&numbers(&entries));
        assert_eq!(stats.sum, Some(Binary64::from_bits(CANONICAL_NAN)));
        assert_eq!(stats.mean, Some(Binary64::from_bits(CANONICAL_NAN)));
    }
}

#[test]
fn one_infinity_is_summed_as_it_is() {
    let stats = aggregate(&numbers(&[Some(1.0), Some(f64::INFINITY), Some(-2.0)]));
    assert_eq!(stats.sum, Some(num(f64::INFINITY)));
    assert_eq!(stats.mean, Some(num(f64::INFINITY)));
    let stats = aggregate(&numbers(&[Some(f64::NEG_INFINITY), Some(5.0)]));
    assert_eq!(stats.sum, Some(num(f64::NEG_INFINITY)));
    assert_eq!(stats.mean, Some(num(f64::NEG_INFINITY)));
}

#[test]
fn what_the_engine_hands_back_is_settled() {
    assert_eq!(settle(None), None);
    assert_eq!(settle(Some(num(2.5))), Some(num(2.5)));
    assert_eq!(settle(Some(num(f64::INFINITY))), Some(num(f64::INFINITY)));
    assert_eq!(
        settle(Some(Binary64::from_bits(0xfff8_0000_0000_0000))),
        Some(Binary64::from_bits(CANONICAL_NAN))
    );
    assert_eq!(
        settle(Some(Binary64::from_bits(0x7ff0_0000_0000_0001))),
        Some(Binary64::from_bits(CANONICAL_NAN))
    );
}

#[test]
fn texts_of_infinities_are_read_and_their_sum_is_no_number() {
    let column = Column::new(
        "amount".to_string(),
        ColumnType::Text,
        vec![Cell::Text("inf".to_string()), Cell::Text("-inf".to_string())],
    )
    .unwrap();
    let table = Table::new(vec![column]).unwrap();
    let stats = column_statistics(&table, "amount").unwrap();
    assert_eq!(stats.count, 2);
    assert_eq!(value(stats.min), f64::NEG_INFINITY);
    assert_eq!(value(stats.max), f64::INFINITY);
    assert!(value(stats.sum).is_nan());
    assert!(value(stats.mean).is_nan());
}

#[test]
fn among_equal_entries_the_first_is_taken() {
    let values = vec![num(0.0), num(-0.0), num(0.0)];
    assert_eq!(smallest(&values), Some(num(0.0)));
    assert_eq!(largest(&values), Some(num(0.0)));
    let values = vec![num(-0.0), num(0.0)];
    assert_eq!(smallest(&values), Some(num(-0.0)));
    assert_eq!(largest(&values), Some(num(-0.0)));
}

#[test]
fn nothing_is_smallest_or_largest_of_nothing() {
    assert_eq!(smallest(&vec![]), None);
    assert_eq!(largest(&vec![]), None);
}

#[test]
fn the_record_is_put_together_from_its_parts() {
    let values = vec![num(5.0), num(15.0), num(10.0)];
    assert_eq!(
        assemble(4, &values, Some(num(30.0)), Some(num(10.0))),
        Statistics {
            count: 4,
            min: Some(num(5.0)),
            max: Some(num(15.0)),
            sum: Some(num(30.0)),
            mean: Some(num(10.0)),
        }
    );
    assert_eq!(
        assemble(2, &vec![], Some(num(0.0)), Some(num(0.0))),
        Statistics { count: 2, min: None, max: None, sum: None, mean: None }
    );
}

#[test]
fn the_entries_present_keep_their_order() {
    let column = numbers(&[None, Some(2.0), None, Some(1.0), Some(3.0)]);
    assert_eq!(column.len(), 5);
    assert_eq!(column.get(0), None);
    assert_eq!(column.get(1), Some(num(2.0)));
    assert_eq!(column.present_values(), vec![num(2.0), num(1.0), num(3.0)]);
}

#[test]
fn a_long_column_is_summed_as_a_short_one() {
    let entries: Vec<Option<f64>> = (1..=1000).map(|i| Some(i as f64)).collect();
    let stats = aggregate(&numbers(&entries));
    assert_eq!(stats.count, 1000);
    assert_eq!(value(stats.min), 1.0);
    assert_eq!(value(stats.max), 1000.0);
    assert_eq!(value(stats.sum), 500500.0);
    assert_eq!(value(stats.mean), 500.5);
}

#[test]
fn integers_become_the_numbers_they_are() {
    let column = Column::new(
        "n".to_string(),
        ColumnType::Integer,
        vec![Cell::Integer(5), Cell::Missing, Cell::Integer(-15), Cell::Integer(10)],
    )
    .unwrap();
    let numeric = coerce(&column).unwrap();
    assert_eq!(numeric, numbers(&[Some(5.0), None, Some(-15.0), Some(10.0)]));
    let stats = aggregate(&numeric);
    assert_eq!(stats.count, 4);
    assert_eq!(value(stats.min), -15.0);
    assert_eq!(value(stats.max), 10.0);
    assert_eq!(value(stats.sum), 0.0);
    assert_eq!(value(stats.mean), 0.0);
}

#[test]
fn numbers_stay_as_they_are() {
    let column = Column::new(
        "x".to_string(),
        ColumnType::Float,
        vec![Cell::Float(num(0.1)), Cell::Missing, Cell::Float(num(-0.0))],
    )
    .unwrap();
    assert_eq!(coerce(&column).unwrap(), numbers(&[Some(0.1), None, Some(-0.0)]));
}

#[test]
fn each_kind_of_entry_is_coerced_in_its_way() {
    assert_eq!(coerce_cell(&Cell::Missing, 0), Ok(None));
    assert_eq!(coerce_cell(&Cell::Integer(7), 0), Ok(Some(num(7.0))));
    assert_eq!(coerce_cell(&Cell::Float(num(7.5)), 0), Ok(Some(num(7.5))));
    assert_eq!(coerce_cell(&Cell::Text("7.25".to_string()), 0), Ok(Some(num(7.25))));
    assert_eq!(
        coerce_cell(&Cell::Text("seven".to_string()), 3),
        Err(StatsError::TypeCoercion { position: 3, value: "seven".to_string() })
    );
    assert_eq!(
        coerce_cell(&Cell::Boolean(true), 4),
        Err(StatsError::TypeCoercion { position: 4, value: "true".to_string() })
    );
    assert_eq!(
        coerce_cell(&Cell::Boolean(false), 5),
        Err(StatsError::TypeCoercion { position: 5, value: "false".to_string() })
    );
}

#[test]
fn a_text_entry_is_what_it_was_read_as() {
    assert_eq!(text_entry("1.5", Some(num(1.5)), 9), Ok(Some(num(1.5))));
    assert_eq!(
        text_entry("x", None, 9),
        Err(StatsError::TypeCoercion { position: 9, value: "x".to_string() })
    );
}

#[test]
fn the_first_bad_entry_is_the_one_reported() {
    let column = Column::new(
        "amount".to_string(),
        ColumnType::Text,
        vec![
            Cell::Text("1".to_string()),
            Cell::Text("two".to_string()),
            Cell::Text("3".to_string()),
            Cell::Text("four".to_string()),
        ],
    )
    .unwrap();
    assert_eq!(
        coerce(&column),
        Err(StatsError::TypeCoercion { position: 1, value: "two".to_string() })
    );
}

#[test]
fn truth_values_are_no_numbers() {
    let flags = Column::new(
        "paid".to_string(),
        ColumnType::Boolean,
        vec![Cell::Missing, Cell::Boolean(true), Cell::Boolean(false)],
    )
    .unwrap();
    let table = Table::new(vec![flags]).unwrap();
    assert_eq!(
        column_statistics(&table, "paid"),
        Err(StatsError::TypeCoercion { position: 1, value: "true".to_string() })
    );
}

#[test]
fn a_bad_entry_far_down_is_reported_with_its_row() {
    let mut cells: Vec<Cell> = (0..120).map(|i| Cell::Text(i.to_string())).collect();
    cells.push(Cell::Text("n/a".to_string()));
    let column = Column::new("amount".to_string(), ColumnType::Text, cells).unwrap();
    let failure = coerce(&column).unwrap_err();
    assert_eq!(failure, StatsError::TypeCoercion { position: 120, value: "n/a".to_string() });
    assert_eq!(failure.message(), "cannot convert 'n/a' at row 120 to a number");
}

#[test]
fn a_text_column_of_numbers_has_their_statistics() {
    let column = Column::new(
        "amount".to_string(),
        ColumnType::Text,
        vec![
            Cell::Text("5.0".to_string()),
            Cell::Text("15".to_string()),
            Cell::Text("1.0e1".to_string()),
        ],
    )
    .unwrap();
    let table = Table::new(vec![column]).unwrap();
    assert_eq!(
        column_statistics(&table, "amount"),
        Ok(Statistics {
            count: 3,
            min: Some(num(5.0)),
            max: Some(num(15.0)),
            sum: Some(num(30.0)),
            mean: Some(num(10.0)),
        })
    );
}

#[test]
fn a_text_is_read_whole_or_not_at_all() {
    assert_eq!(read_text("2.5"), Some(num(2.5)));
    assert_eq!(read_text("-0.125"), Some(num(-0.125)));
    assert_eq!(read_text("42"), Some(num(42.0)));
    assert_eq!(read_text("6.02e23"), Some(num(6.02e23)));
    assert_eq!(read_text(""), None);
    assert_eq!(read_text("abc"), None);
    assert_eq!(read_text("12abc"), None);
    assert_eq!(read_text("1,5"), None);
}
