//! Numeric columns, and the coercion of a column's entries to numbers.
//!
//! Coercion is all or nothing: one entry that is present and is not a number
//! fails the whole column, so that statistics never leave out malformed data
//! without saying so.

use crate::binary64::Binary64;
use crate::conversion::converted;
use crate::engine::binary64_of_text;
use crate::engine::parse_text;
use crate::engine::MAX_ROWS;
use crate::engine::MAX_TEXT_BYTES;
use crate::error::ErrorView;
use crate::error::StatsError;
use crate::table::Cell;
use crate::table::CellView;
use crate::table::Column;
use vstd::prelude::*;
use vstd::utf8::encode_utf8;

verus! {

/// The text by which a truth value is reported.
pub open spec fn boolean_text(b: bool) -> Seq<char> {
    if b {
        "true"@
    } else {
        "false"@
    }
}

/// The number that a text is read as, if it is read as one. The engine reads
/// texts of up to `MAX_TEXT_BYTES` bytes; a longer one is no number.
pub open spec fn number_of_text(text: Seq<char>) -> Option<Binary64> {
    if encode_utf8(text).len() > MAX_TEXT_BYTES {
        None
    } else {
        match binary64_of_text(text) {
            Some(bits) => Some(Binary64 { bits }),
            None => None,
        }
    }
}

/// What one entry becomes: a missing entry stays missing, an integer goes to
/// the nearest number, a number stays as it is, a text is read as a number.
/// A text that is no number, and a truth value, fail with the text to report.
pub open spec fn coerced_cell(cell: CellView) -> Result<Option<Binary64>, Seq<char>> {
    match cell {
        CellView::Missing => Ok(None),
        CellView::Integer(v) => Ok(Some(converted(v))),
        CellView::Float(x) => Ok(Some(x)),
        CellView::Text(s) => match number_of_text(s) {
            Some(x) => Ok(Some(x)),
            None => Err(s),
        },
        CellView::Boolean(b) => Err(boolean_text(b)),
    }
}

/// Whether row `i` is the first whose entry fails.
pub open spec fn fails_first_at(cells: Seq<CellView>, i: int) -> bool {
    &&& 0 <= i < cells.len()
    &&& coerced_cell(cells[i]) is Err
    &&& forall|j: int| 0 <= j < i ==> coerced_cell(#[trigger] cells[j]) is Ok
}

/// Whether some entry fails.
pub open spec fn some_cell_fails(cells: Seq<CellView>) -> bool {
    exists|i: int| fails_first_at(cells, i)
}

/// What a column's entries become: the numbers row by row, or the failure of
/// the first entry that is no number, with its row and its text.
pub open spec fn coerced(cells: Seq<CellView>) -> Result<Seq<Option<Binary64>>, ErrorView> {
    if some_cell_fails(cells) {
        let i = choose|i: int| fails_first_at(cells, i);
        Err(ErrorView::TypeCoercion { position: i as nat, value: coerced_cell(cells[i])->Err_0 })
    } else {
        Ok(Seq::new(cells.len(), |i: int| coerced_cell(cells[i])->Ok_0))
    }
}

/// Only one row can be the first to fail.
pub proof fn lemma_first_failure_is_unique(cells: Seq<CellView>, i: int)
    requires
        fails_first_at(cells, i),
    ensures
        some_cell_fails(cells),
        coerced(cells) == Err::<Seq<Option<Binary64>>, ErrorView>(
            ErrorView::TypeCoercion { position: i as nat, value: coerced_cell(cells[i])->Err_0 },
        ),
{
    let k = choose|k: int| fails_first_at(cells, k);
    if k < i {
        assert(coerced_cell(cells[k]) is Ok);
    } else if i < k {
        assert(coerced_cell(cells[i]) is Ok);
    }
}

/// A column of numbers, some of which may be missing.
#[derive(Debug, PartialEq, Eq)]
pub struct NumericColumn {
    values: Vec<Option<Binary64>>,
}

impl View for NumericColumn {
    type V = Seq<Option<Binary64>>;

    closed spec fn view(&self) -> Seq<Option<Binary64>> {
        self.values@
    }
}

impl NumericColumn {
    /// What holds of every numeric column: the engine can hold its rows.
    #[verifier::type_invariant]
    pub open spec fn well_formed(self) -> bool {
        self@.len() <= MAX_ROWS
    }

    /// Makes a numeric column of the given entries, unless they are more
    /// than the engine can hold.
    pub fn new(values: Vec<Option<Binary64>>) -> (r: Option<NumericColumn>)
        ensures
            match r {
                Some(c) => c@ == values@ && values@.len() <= MAX_ROWS,
                None => values@.len() > MAX_ROWS,
            },
    {
        if values.len() > MAX_ROWS {
            None
        } else {
            Some(NumericColumn { values })
        }
    }

    /// The number of rows, missing entries included.
    pub fn len(&self) -> (r: usize)
        ensures
            r == self@.len(),
            r <= MAX_ROWS,
    {
        proof {
            use_type_invariant(self);
        }
        self.values.len()
    }

    /// The entry of the given row.
    pub fn get(&self, row: usize) -> (r: Option<Binary64>)
        requires
            row < self@.len(),
        ensures
            r == self@[row as int],
    {
        self.values[row]
    }
}

/// Reads a text as a number, where the engine can hold it and reads it as
/// one.
pub fn read_text(text: &str) -> (r: Option<Binary64>)
    ensures
        r == number_of_text(text@),
{
    if text.as_bytes().len() > MAX_TEXT_BYTES {
        None
    } else {
        parse_text(text)
    }
}

/// Decides what a text entry becomes, given what the engine read it as: the
/// number, or the failure that names the row and the text.
pub fn text_entry(text: &str, parsed: Option<Binary64>, position: usize) -> (r: Result<
    Option<Binary64>,
    StatsError,
>)
    ensures
        match parsed {
            Some(x) => r == Ok::<Option<Binary64>, StatsError>(Some(x)),
            None => r is Err && r->Err_0@ == (ErrorView::TypeCoercion {
                position: position as nat,
                value: text@,
            }),
        },
{
    match parsed {
        Some(x) => Ok(Some(x)),
        None => Err(StatsError::TypeCoercion { position, value: text.to_owned() }),
    }
}

/// Coerces the entry of one row.
pub fn coerce_cell(cell: &Cell, position: usize) -> (r: Result<Option<Binary64>, StatsError>)
    ensures
        match r {
            Ok(x) => coerced_cell(cell@) == Ok::<Option<Binary64>, Seq<char>>(x),
            Err(e) => coerced_cell(cell@) is Err && e@ == (ErrorView::TypeCoercion {
                position: position as nat,
                value: coerced_cell(cell@)->Err_0,
            }),
        },
{
    match cell {
        Cell::Missing => Ok(None),
        Cell::Integer(v) => Ok(Some(Binary64::from_int(*v))),
        Cell::Float(x) => Ok(Some(*x)),
        Cell::Text(s) => {
            let parsed = read_text(s.as_str());
            text_entry(s.as_str(), parsed, position)
        },
        Cell::Boolean(b) => {
            let value = if *b {
                "true".to_owned()
            } else {
                "false".to_owned()
            };
            Err(StatsError::TypeCoercion { position, value })
        },
    }
}

/// Coerces a column to numbers: every row, or none.
pub fn coerce(column: &Column) -> (r: Result<NumericColumn, StatsError>)
    ensures
        match r {
            Ok(n) => coerced(column@.cells) == Ok::<Seq<Option<Binary64>>, ErrorView>(n@),
            Err(e) => coerced(column@.cells) == Err::<Seq<Option<Binary64>>, ErrorView>(e@),
        },
{
    let n = column.len();
    let mut values: Vec<Option<Binary64>> = Vec::new();
    let mut i: usize = 0;
    while i < n
        invariant
            i <= n,
            n == column@.cells.len(),
            n <= MAX_ROWS,
            values@.len() == i,
            forall|j: int| 0 <= j < i ==> coerced_cell(#[trigger] column@.cells[j]) is Ok,
            forall|j: int| 0 <= j < i ==> values@[j] == coerced_cell(column@.cells[j])->Ok_0,
        decreases n - i,
    {
        match coerce_cell(column.cell(i), i) {
            Ok(x) => {
                values.push(x);
            },
            Err(e) => {
                proof {
                    lemma_first_failure_is_unique(column@.cells, i as int);
                }
                return Err(e);
            },
        }
        i += 1;
    }
    proof {
        assert(values@ =~= Seq::new(
            column@.cells.len(),
            |i: int| coerced_cell(column@.cells[i])->Ok_0,
        ));
    }
    Ok(NumericColumn { values })
}

/// Where some entry fails, some entry is the first to fail.
proof fn lemma_failure_has_a_first(cells: Seq<CellView>, i: int)
    requires
        0 <= i < cells.len(),
        coerced_cell(cells[i]) is Err,
    ensures
        some_cell_fails(cells),
    decreases i,
{
    if forall|j: int| 0 <= j < i ==> coerced_cell(#[trigger] cells[j]) is Ok {
        assert(fails_first_at(cells, i));
    } else {
        let j = choose|j: int| 0 <= j < i && !(coerced_cell(#[trigger] cells[j]) is Ok);
        lemma_failure_has_a_first(cells, j);
    }
}

/// One entry that is present and is no number fails the whole column: no
/// numbers come out beside the failure.
pub proof fn lemma_one_bad_entry_fails_the_column(cells: Seq<CellView>, i: int)
    requires
        0 <= i < cells.len(),
        coerced_cell(cells[i]) is Err,
    ensures
        coerced(cells) is Err,
        coerced(cells)->Err_0 is TypeCoercion,
{
    lemma_failure_has_a_first(cells, i);
}

/// Where no entry fails, every row comes out, in its place.
pub proof fn lemma_coerced_row_by_row(cells: Seq<CellView>)
    requires
        forall|i: int| 0 <= i < cells.len() ==> coerced_cell(#[trigger] cells[i]) is Ok,
    ensures
        coerced(cells) is Ok,
        coerced(cells)->Ok_0.len() == cells.len(),
        forall|i: int|
            0 <= i < cells.len() ==> coerced_cell(cells[i]) == Ok::<Option<Binary64>, Seq<char>>(
                #[trigger] coerced(cells)->Ok_0[i],
            ),
{
    if some_cell_fails(cells) {
        let i = choose|i: int| fails_first_at(cells, i);
        assert(coerced_cell(cells[i]) is Ok);
    }
}

/// Missing entries stay missing: a column of missing entries only is coerced
/// without failure.
pub proof fn lemma_missing_stays_missing(cells: Seq<CellView>)
    requires
        forall|i: int| 0 <= i < cells.len() ==> cells[i] is Missing,
    ensures
        coerced(cells) is Ok,
        coerced(cells)->Ok_0.len() == cells.len(),
        forall|i: int| 0 <= i < cells.len() ==> coerced(cells)->Ok_0[i] is None,
{
    lemma_coerced_row_by_row(cells);
}

} // verus!
