use column_stats::error::Stage;
use column_stats::error::StatsError;
use column_stats::pipeline::DEFAULT_COLUMN;

#[test]
fn each_failure_belongs_to_its_step() {
    let load = StatsError::FileAccess { path: "a.csv".to_string(), detail: "gone".to_string() };
    let resolve = StatsError::ColumnNotFound { requested: "x".to_string(), available: vec![] };
    let coerce = StatsError::TypeCoercion { position: 0, value: "x".to_string() };
    assert_eq!(load.stage(), Stage::Load);
    assert_eq!(resolve.stage(), Stage::Resolve);
    assert_eq!(coerce.stage(), Stage::Coerce);
}

#[test]
fn the_message_names_what_was_asked_for_and_what_there_is() {
    let failure = StatsError::ColumnNotFound {
        requested: "Amount Recieved".to_string(),
        available: vec!["Date".to_string(), "Amount Received".to_string(), "Payer".to_string()],
    };
    let message = failure.message();
    assert_eq!(
        message,
        "column 'Amount Recieved' not found; available columns: \
         [\"Date\", \"Amount Received\", \"Payer\"]"
    );
    assert!(message.contains("Amount Recieved"));
    for name in ["Date", "Amount Received", "Payer"] {
        assert!(message.contains(name));
    }
}

#[test]
fn one_name_is_listed_without_a_comma() {
    let failure = StatsError::ColumnNotFound {
        requested: "b".to_string(),
        available: vec!["a".to_string()],
    };
    assert_eq!(failure.message(), "column 'b' not found; available columns: [\"a\"]");
}

#[test]
fn rows_are_written_in_decimal() {
    for (position, text) in [
        (0usize, "0"),
        (7, "7"),
        (9, "9"),
        (10, "10"),
        (99, "99"),
        (100, "100"),
        (1234567890, "1234567890"),
        (4294967294, "4294967294"),
    ] {
        let failure = StatsError::TypeCoercion { position, value: "?".to_string() };
        assert_eq!(failure.message(), format!("cannot convert '?' at row {} to a number", text));
    }
}

#[test]
fn the_message_of_a_failed_load_tells_the_file() {
    let failure = StatsError::FileAccess {
        path: "/tmp/sales.csv".to_string(),
        detail: "No such file or directory (os error 2)".to_string(),
    };
    assert_eq!(
        failure.message(),
        "cannot load '/tmp/sales.csv': No such file or directory (os error 2)"
    );
}

#[test]
fn the_default_column_is_the_amount_received() {
    assert_eq!(DEFAULT_COLUMN, "Amount Received");
}
