//! Tables of named, typed columns, and the lookup of a column by its name.

use crate::binary64::Binary64;
use crate::engine::MAX_ROWS;
use crate::error::texts;
use crate::error::ErrorView;
use crate::error::StatsError;
use vstd::prelude::*;

verus! {

/// The declared type of a column.
#[derive(Clone, Copy, Debug, PartialEq, Eq, Structural)]
pub enum ColumnType {
    Integer,
    Float,
    Text,
    Boolean,
    /// No type could be told: the column holds no value at all.
    Unknown,
}

/// One entry of a column: a value, or the marker of a missing one.
#[derive(Debug, PartialEq, Eq)]
pub enum Cell {
    Missing,
    Integer(i64),
    Float(Binary64),
    Text(String),
    Boolean(bool),
}

/// What a `Cell` holds, with its text as a character sequence.
pub enum CellView {
    Missing,
    Integer(i64),
    Float(Binary64),
    Text(Seq<char>),
    Boolean(bool),
}

impl View for Cell {
    type V = CellView;

    open spec fn view(&self) -> CellView {
        match self {
            Cell::Missing => CellView::Missing,
            Cell::Integer(v) => CellView::Integer(*v),
            Cell::Float(v) => CellView::Float(*v),
            Cell::Text(s) => CellView::Text(s@),
            Cell::Boolean(b) => CellView::Boolean(*b),
        }
    }
}

/// Whether an entry may stand in a column of the given type: a missing entry
/// may stand anywhere, a value only under its own type.
pub open spec fn fits(dtype: ColumnType, cell: CellView) -> bool {
    match cell {
        CellView::Missing => true,
        CellView::Integer(_) => dtype == ColumnType::Integer,
        CellView::Float(_) => dtype == ColumnType::Float,
        CellView::Text(_) => dtype == ColumnType::Text,
        CellView::Boolean(_) => dtype == ColumnType::Boolean,
    }
}

impl Cell {
    /// Whether the entry may stand in a column of the given type.
    pub fn fits_type(&self, dtype: ColumnType) -> (r: bool)
        ensures
            r == fits(dtype, self@),
    {
        match self {
            Cell::Missing => true,
            Cell::Integer(_) => dtype == ColumnType::Integer,
            Cell::Float(_) => dtype == ColumnType::Float,
            Cell::Text(_) => dtype == ColumnType::Text,
            Cell::Boolean(_) => dtype == ColumnType::Boolean,
        }
    }

    /// Whether the entry is the marker of a missing value.
    pub fn is_missing(&self) -> (r: bool)
        ensures
            r == (self@ is Missing),
    {
        match self {
            Cell::Missing => true,
            _ => false,
        }
    }
}

/// A column as contracts see it.
pub struct ColumnView {
    pub name: Seq<char>,
    pub dtype: ColumnType,
    pub cells: Seq<CellView>,
}

/// The views of a sequence of cells.
pub open spec fn cell_views(cells: Seq<Cell>) -> Seq<CellView> {
    cells.map_values(|c: Cell| c@)
}

/// A column is valid when every entry fits the declared type and the engine
/// can hold its rows.
pub open spec fn valid_column(c: ColumnView) -> bool {
    &&& c.cells.len() <= MAX_ROWS
    &&& forall|i: int| 0 <= i < c.cells.len() ==> fits(c.dtype, #[trigger] c.cells[i])
}

/// A named sequence of entries of one declared type.
#[derive(Debug, PartialEq, Eq)]
pub struct Column {
    name: String,
    dtype: ColumnType,
    cells: Vec<Cell>,
}

impl View for Column {
    type V = ColumnView;

    closed spec fn view(&self) -> ColumnView {
        ColumnView { name: self.name@, dtype: self.dtype, cells: cell_views(self.cells@) }
    }
}

impl Column {
    /// What holds of every column: it is valid.
    #[verifier::type_invariant]
    pub open spec fn well_formed(self) -> bool {
        valid_column(self@)
    }

    /// Makes a column, if the entries fit the type and are not too many.
    pub fn new(name: String, dtype: ColumnType, cells: Vec<Cell>) -> (r: Option<Column>)
        ensures
            match r {
                Some(c) => c@ == (ColumnView { name: name@, dtype, cells: cell_views(cells@) })
                    && valid_column(c@),
                None => !valid_column(ColumnView { name: name@, dtype, cells: cell_views(cells@) }),
            },
    {
        if cells.len() > MAX_ROWS {
            return None;
        }
        let mut i: usize = 0;
        while i < cells.len()
            invariant
                i <= cells.len(),
                forall|j: int| 0 <= j < i ==> fits(dtype, #[trigger] cell_views(cells@)[j]),
            decreases cells.len() - i,
        {
            if !cells[i].fits_type(dtype) {
                assert(!fits(dtype, cell_views(cells@)[i as int]));
                return None;
            }
            i += 1;
        }
        Some(Column { name, dtype, cells })
    }

    /// The column's name.
    pub fn name(&self) -> (r: &String)
        ensures
            r@ == self@.name,
    {
        &self.name
    }

    /// The column's declared type.
    pub fn dtype(&self) -> (r: ColumnType)
        ensures
            r == self@.dtype,
    {
        self.dtype
    }

    /// The number of rows, missing entries included.
    pub fn len(&self) -> (r: usize)
        ensures
            r == self@.cells.len(),
            r <= MAX_ROWS,
    {
        proof {
            use_type_invariant(self);
        }
        self.cells.len()
    }

    /// The entry of the given row.
    pub fn cell(&self, row: usize) -> (r: &Cell)
        requires
            row < self@.cells.len(),
        ensures
            r@ == self@.cells[row as int],
            fits(self@.dtype, r@),
    {
        proof {
            use_type_invariant(self);
        }
        &self.cells[row]
    }
}

/// A table as contracts see it.
pub struct TableView {
    pub columns: Seq<ColumnView>,
}

/// The views of a sequence of columns.
pub open spec fn column_views(columns: Seq<Column>) -> Seq<ColumnView> {
    columns.map_values(|c: Column| c@)
}

impl TableView {
    /// The column names, in the table's order.
    pub open spec fn names(self) -> Seq<Seq<char>> {
        self.columns.map_values(|c: ColumnView| c.name)
    }

    /// The number of rows that the columns share; 0 for a table without
    /// columns.
    pub open spec fn rows(self) -> nat {
        if self.columns.len() == 0 {
            0
        } else {
            self.columns[0].cells.len()
        }
    }

    /// Whether column `i` bears the given name.
    pub open spec fn named_at(self, name: Seq<char>, i: int) -> bool {
        0 <= i < self.columns.len() && self.columns[i].name == name
    }

    /// Whether some column bears the given name.
    pub open spec fn has_column(self, name: Seq<char>) -> bool {
        exists|i: int| self.named_at(name, i)
    }

    /// The column of the given name, where there is one.
    pub open spec fn column_named(self, name: Seq<char>) -> ColumnView {
        self.columns[choose|i: int| self.named_at(name, i)]
    }

    /// The outcome of looking a name up: the column that bears it, or the
    /// failure that tells the name asked for and the names there are.
    pub open spec fn lookup(self, name: Seq<char>) -> Result<ColumnView, ErrorView> {
        if self.has_column(name) {
            Ok(self.column_named(name))
        } else {
            Err(ErrorView::ColumnNotFound { requested: name, available: self.names() })
        }
    }
}

/// A table is valid when its columns are valid, have one length, and bear
/// names that differ from one another.
pub open spec fn valid_table(t: TableView) -> bool {
    &&& forall|i: int| 0 <= i < t.columns.len() ==> valid_column(#[trigger] t.columns[i])
    &&& forall|i: int|
        0 <= i < t.columns.len() ==> (#[trigger] t.columns[i]).cells.len() == t.rows()
    &&& forall|i: int, j: int|
        0 <= i < j < t.columns.len() ==> (#[trigger] t.columns[i]).name != (
        #[trigger] t.columns[j]).name
}

/// In a valid table a name is borne by one column at most.
pub proof fn lemma_name_is_unique(t: TableView, name: Seq<char>, i: int)
    requires
        valid_table(t),
        t.named_at(name, i),
    ensures
        t.has_column(name),
        t.column_named(name) == t.columns[i],
        t.lookup(name) == Ok::<ColumnView, ErrorView>(t.columns[i]),
{
    let k = choose|k: int| t.named_at(name, k);
    if k < i {
        assert(t.columns[k].name != t.columns[i].name);
    } else if i < k {
        assert(t.columns[i].name != t.columns[k].name);
    }
}

/// A rectangular collection of named columns.
#[derive(Debug, PartialEq, Eq)]
pub struct Table {
    columns: Vec<Column>,
}

impl View for Table {
    type V = TableView;

    closed spec fn view(&self) -> TableView {
        TableView { columns: column_views(self.columns@) }
    }
}

impl Table {
    /// What holds of every table: it is valid.
    #[verifier::type_invariant]
    pub open spec fn well_formed(self) -> bool {
        valid_table(self@)
    }

    /// Makes a table of the given columns, if they have one length and no
    /// two of them bear the same name.
    pub fn new(columns: Vec<Column>) -> (r: Option<Table>)
        ensures
            match r {
                Some(t) => t@ == (TableView { columns: column_views(columns@) }) && valid_table(
                    t@,
                ),
                None => !valid_table(TableView { columns: column_views(columns@) }),
            },
    {
        let ghost t = TableView { columns: column_views(columns@) };
        let n = columns.len();
        let mut i: usize = 0;
        while i < n
            invariant
                i <= n,
                n == columns.len(),
                t == (TableView { columns: column_views(columns@) }),
                forall|a: int| 0 <= a < i ==> valid_column(#[trigger] t.columns[a]),
                forall|a: int| 0 <= a < i ==> (#[trigger] t.columns[a]).cells.len() == t.rows(),
                forall|a: int, b: int|
                    0 <= a < b < i ==> (#[trigger] t.columns[a]).name != (
                    #[trigger] t.columns[b]).name,
            decreases n - i,
        {
            let column = &columns[i];
            proof {
                use_type_invariant(column);
            }
            if column.len() != columns[0].len() {
                return None;
            }
            let mut j: usize = 0;
            while j < i
                invariant
                    j <= i < n,
                    n == columns.len(),
                    t == (TableView { columns: column_views(columns@) }),
                    column@ == t.columns[i as int],
                    forall|a: int|
                        0 <= a < j ==> (#[trigger] t.columns[a]).name != t.columns[i as int].name,
                decreases i - j,
            {
                if *columns[j].name() == *column.name() {
                    assert(t.columns[j as int] == columns[j as int]@);
                    return None;
                }
                j += 1;
            }
            i += 1;
        }
        Some(Table { columns })
    }

    /// The number of columns.
    pub fn width(&self) -> (r: usize)
        ensures
            r == self@.columns.len(),
    {
        self.columns.len()
    }

    /// The number of rows that the columns share.
    pub fn rows(&self) -> (r: usize)
        ensures
            r == self@.rows(),
    {
        if self.columns.len() == 0 {
            0
        } else {
            self.columns[0].len()
        }
    }

    /// The column names, in the table's order.
    pub fn column_names(&self) -> (r: Vec<String>)
        ensures
            texts(r@) == self@.names(),
    {
        let mut names: Vec<String> = Vec::new();
        let mut i: usize = 0;
        while i < self.columns.len()
            invariant
                i <= self.columns.len(),
                names.len() == i,
                forall|a: int| 0 <= a < i ==> (#[trigger] names[a])@ == self@.columns[a].name,
            decreases self.columns.len() - i,
        {
            names.push(self.columns[i].name().clone());
            i += 1;
        }
        names
    }

    /// Finds the column that bears exactly the given name.
    pub fn column(&self, name: &str) -> (r: Result<&Column, StatsError>)
        ensures
            match r {
                Ok(c) => self@.lookup(name@) == Ok::<ColumnView, ErrorView>(c@),
                Err(e) => self@.lookup(name@) == Err::<ColumnView, ErrorView>(e@),
            },
    {
        let wanted = name.to_owned();
        let mut i: usize = 0;
        while i < self.columns.len()
            invariant
                i <= self.columns.len(),
                wanted@ == name@,
                forall|a: int| 0 <= a < i ==> !self@.named_at(name@, a),
            decreases self.columns.len() - i,
        {
            if *self.columns[i].name() == wanted {
                proof {
                    use_type_invariant(self);
                    lemma_name_is_unique(self@, name@, i as int);
                }
                return Ok(&self.columns[i]);
            }
            i += 1;
        }
        let available = self.column_names();
        Err(StatsError::ColumnNotFound { requested: wanted, available })
    }
}

} // verus!
