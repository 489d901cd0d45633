//! From a table and a column name to the column's statistics.
//!
//! The steps run in sequence: the table is loaded, the column is found, its
//! entries are coerced to numbers, the numbers are aggregated. The first
//! failure ends the computation and is what the caller gets.

use crate::engine::MAX_ROWS;
use crate::error::lemma_not_found_message_tells_names;
use crate::error::listed;
use crate::error::message_of;
use crate::error::occurs_in;
use crate::error::ErrorView;
use crate::error::Stage;
use crate::error::StatsError;
use crate::numeric::coerce;
use crate::numeric::coerced;
use crate::numeric::coerced_cell;
use crate::numeric::lemma_missing_stays_missing;
use crate::numeric::lemma_one_bad_entry_fails_the_column;
use crate::stats::aggregate;
use crate::stats::lemma_all_missing_is_all_absent;
use crate::stats::lemma_count_is_length;
use crate::stats::statistics_of;
use crate::stats::Statistics;
use crate::table::valid_table;
use crate::table::Table;
use crate::table::TableView;
use vstd::prelude::*;

verus! {

/// The column that is analysed where none is named.
pub const DEFAULT_COLUMN: &'static str = "Amount Received";

/// The statistics of the named column of a table, or the first failure on
/// the way to them.
pub open spec fn outcome(table: TableView, name: Seq<char>) -> Result<Statistics, ErrorView> {
    match table.lookup(name) {
        Err(e) => Err(e),
        Ok(column) => match coerced(column.cells) {
            Err(e) => Err(e),
            Ok(entries) => Ok(statistics_of(entries)),
        },
    }
}

/// The same after loading: a table that could not be loaded fails with the
/// file's path and the loader's words.
pub open spec fn outcome_after_load(
    path: Seq<char>,
    loaded: Result<TableView, Seq<char>>,
    name: Seq<char>,
) -> Result<Statistics, ErrorView> {
    match loaded {
        Err(detail) => Err(ErrorView::FileAccess { path, detail }),
        Ok(table) => outcome(table, name),
    }
}

/// What the loader handed back, as contracts see it: the table, or the words
/// of the failure.
pub open spec fn loaded_view(loaded: Result<Table, String>) -> Result<TableView, Seq<char>> {
    match loaded {
        Ok(table) => Ok(table@),
        Err(detail) => Err(detail@),
    }
}

/// Computes the statistics of the named column of a table.
pub fn column_statistics(table: &Table, name: &str) -> (r: Result<Statistics, StatsError>)
    ensures
        match r {
            Ok(s) => outcome(table@, name@) == Ok::<Statistics, ErrorView>(s) && s.count
                == table@.rows(),
            Err(e) => outcome(table@, name@) == Err::<Statistics, ErrorView>(e@),
        },
{
    proof {
        use_type_invariant(table);
        if outcome(table@, name@) is Ok {
            lemma_count_is_row_count(table@, name@);
        }
    }
    let column = match table.column(name) {
        Ok(c) => c,
        Err(e) => {
            return Err(e);
        },
    };
    let numbers = match coerce(column) {
        Ok(n) => n,
        Err(e) => {
            return Err(e);
        },
    };
    Ok(aggregate(&numbers))
}

/// Computes the statistics of the named column of what the loader handed
/// back for the file at `path`: a table, or the words of its failure.
pub fn process(path: &str, loaded: Result<Table, String>, name: &str) -> (r: Result<
    Statistics,
    StatsError,
>)
    ensures
        match r {
            Ok(s) => outcome_after_load(path@, loaded_view(loaded), name@) == Ok::<
                Statistics,
                ErrorView,
            >(s),
            Err(e) => outcome_after_load(path@, loaded_view(loaded), name@) == Err::<
                Statistics,
                ErrorView,
            >(e@),
        },
        r is Ok ==> loaded is Ok && r->Ok_0.count == loaded->Ok_0@.rows(),
{
    match loaded {
        Err(detail) => Err(StatsError::FileAccess { path: path.to_owned(), detail }),
        Ok(table) => column_statistics(&table, name),
    }
}

/// Where statistics come out, their count is the table's number of rows,
/// whichever column was asked for and however many of its entries are
/// missing.
pub proof fn lemma_count_is_row_count(table: TableView, name: Seq<char>)
    requires
        valid_table(table),
        outcome(table, name) is Ok,
    ensures
        outcome(table, name)->Ok_0.count == table.rows(),
{
    let i = choose|i: int| table.named_at(name, i);
    let column = table.columns[i];
    assert(column.cells.len() == table.rows() <= MAX_ROWS);
    lemma_count_is_length(coerced(column.cells)->Ok_0);
}

/// A column whose entries are all missing is no failure: its rows are
/// counted, and the other four aggregates are absent.
pub proof fn lemma_missing_column_is_reported(table: TableView, name: Seq<char>)
    requires
        valid_table(table),
        table.has_column(name),
        forall|i: int|
            0 <= i < table.column_named(name).cells.len() ==> table.column_named(name).cells[i]
                is Missing,
    ensures
        outcome(table, name) == Ok::<Statistics, ErrorView>(
            Statistics {
                count: table.rows() as usize,
                min: None,
                max: None,
                sum: None,
                mean: None,
            },
        ),
{
    let i = choose|i: int| table.named_at(name, i);
    let column = table.columns[i];
    lemma_missing_stays_missing(column.cells);
    lemma_all_missing_is_all_absent(coerced(column.cells)->Ok_0);
}

/// One entry of the column that is present and is no number fails the whole
/// computation at the coercion: no statistics come out.
pub proof fn lemma_bad_entry_fails_the_computation(table: TableView, name: Seq<char>, row: int)
    requires
        table.has_column(name),
        0 <= row < table.column_named(name).cells.len(),
        coerced_cell(table.column_named(name).cells[row]) is Err,
    ensures
        outcome(table, name) is Err,
        outcome(table, name)->Err_0 is TypeCoercion,
        outcome(table, name)->Err_0.stage() == Stage::Coerce,
{
    lemma_one_bad_entry_fails_the_column(table.column_named(name).cells, row);
}

/// A name that no column bears fails the computation with that name and the
/// names of all the columns, in the table's order.
pub proof fn lemma_unknown_name_is_reported(table: TableView, name: Seq<char>)
    requires
        !table.has_column(name),
    ensures
        outcome(table, name) == Err::<Statistics, ErrorView>(
            ErrorView::ColumnNotFound { requested: name, available: table.names() },
        ),
        outcome(table, name)->Err_0.stage() == Stage::Resolve,
{
}

/// The message of that failure holds the name that was asked for and the
/// name of every column that the table has.
pub proof fn lemma_unknown_name_message_tells_names(table: TableView, name: Seq<char>)
    requires
        !table.has_column(name),
    ensures
        outcome(table, name) is Err,
        occurs_in(name, message_of(outcome(table, name)->Err_0)),
        occurs_in(listed(table.names()), message_of(outcome(table, name)->Err_0)),
        forall|i: int|
            0 <= i < table.columns.len() ==> occurs_in(
                (#[trigger] table.columns[i]).name,
                message_of(outcome(table, name)->Err_0),
            ),
{
    lemma_not_found_message_tells_names(name, table.names());
    assert forall|i: int| 0 <= i < table.columns.len() implies occurs_in(
        (#[trigger] table.columns[i]).name,
        message_of(outcome(table, name)->Err_0),
    ) by {
        assert(table.names()[i] == table.columns[i].name);
    }
}

/// A table that could not be loaded fails the computation at the load, with
/// the file's path and the loader's words, whatever column was asked for.
pub proof fn lemma_failed_load_is_reported(path: Seq<char>, detail: Seq<char>, name: Seq<char>)
    ensures
        outcome_after_load(path, Err(detail), name) == Err::<Statistics, ErrorView>(
            ErrorView::FileAccess { path, detail },
        ),
        outcome_after_load(path, Err(detail), name)->Err_0.stage() == Stage::Load,
{
}

} // verus!
