//! The ways in which computing a column's statistics fails.

use vstd::prelude::*;
use vstd::string::StringExecFns;

verus! {

/// The step of the computation at which a failure arose.
#[derive(Clone, Copy, Debug, PartialEq, Eq, Structural)]
pub enum Stage {
    /// Reading the file into a table.
    Load,
    /// Finding the requested column.
    Resolve,
    /// Turning the column's entries into numbers.
    Coerce,
}

/// A failure of the computation. Each one ends the whole computation: no
/// statistics are produced beside it.
#[derive(Debug, PartialEq, Eq)]
pub enum StatsError {
    /// The file is missing, unreadable, or not a table.
    FileAccess { path: String, detail: String },
    /// The table has no column of the requested name.
    ColumnNotFound { requested: String, available: Vec<String> },
    /// An entry of the column is present but is not a number. `position` is
    /// its row, the first row of data being row 0; `value` is its text.
    TypeCoercion { position: usize, value: String },
}

/// What a `StatsError` says, with its texts as character sequences.
pub enum ErrorView {
    FileAccess { path: Seq<char>, detail: Seq<char> },
    ColumnNotFound { requested: Seq<char>, available: Seq<Seq<char>> },
    TypeCoercion { position: nat, value: Seq<char> },
}

/// The character sequences of a list of strings.
pub open spec fn texts(names: Seq<String>) -> Seq<Seq<char>> {
    names.map_values(|s: String| s@)
}

impl View for StatsError {
    type V = ErrorView;

    open spec fn view(&self) -> ErrorView {
        match self {
            StatsError::FileAccess { path, detail } => ErrorView::FileAccess {
                path: path@,
                detail: detail@,
            },
            StatsError::ColumnNotFound { requested, available } => ErrorView::ColumnNotFound {
                requested: requested@,
                available: texts(available@),
            },
            StatsError::TypeCoercion { position, value } => ErrorView::TypeCoercion {
                position: *position as nat,
                value: value@,
            },
        }
    }
}

impl ErrorView {
    /// The step at which this failure arises.
    pub open spec fn stage(self) -> Stage {
        match self {
            ErrorView::FileAccess { .. } => Stage::Load,
            ErrorView::ColumnNotFound { .. } => Stage::Resolve,
            ErrorView::TypeCoercion { .. } => Stage::Coerce,
        }
    }
}

impl StatsError {
    /// The step at which this failure arose.
    pub fn stage(&self) -> (r: Stage)
        ensures
            r == self@.stage(),
    {
        match self {
            StatsError::FileAccess { .. } => Stage::Load,
            StatsError::ColumnNotFound { .. } => Stage::Resolve,
            StatsError::TypeCoercion { .. } => Stage::Coerce,
        }
    }
}

/// The character of a decimal digit.
pub open spec fn digit_char(d: nat) -> char {
    if d == 0 {
        '0'
    } else if d == 1 {
        '1'
    } else if d == 2 {
        '2'
    } else if d == 3 {
        '3'
    } else if d == 4 {
        '4'
    } else if d == 5 {
        '5'
    } else if d == 6 {
        '6'
    } else if d == 7 {
        '7'
    } else if d == 8 {
        '8'
    } else {
        '9'
    }
}

/// The decimal numeral of a natural number, without leading zeros.
pub open spec fn decimal(n: nat) -> Seq<char>
    decreases n,
{
    if n < 10 {
        seq![digit_char(n)]
    } else {
        decimal(n / 10).push(digit_char(n % 10))
    }
}

/// A name between double quotes.
pub open spec fn quoted(name: Seq<char>) -> Seq<char> {
    seq!['"'] + name + seq!['"']
}

/// The quoted names, separated by a comma and a space.
pub open spec fn listed(names: Seq<Seq<char>>) -> Seq<char>
    decreases names.len(),
{
    if names.len() == 0 {
        Seq::empty()
    } else if names.len() == 1 {
        quoted(names[0])
    } else {
        listed(names.drop_last()) + seq![',', ' '] + quoted(names.last())
    }
}

/// The message of a failure, for a person to read.
pub open spec fn message_of(e: ErrorView) -> Seq<char> {
    match e {
        ErrorView::FileAccess { path, detail } => "cannot load '"@ + path + "': "@ + detail,
        ErrorView::ColumnNotFound { requested, available } => "column '"@ + requested
            + "' not found; available columns: ["@ + listed(available) + "]"@,
        ErrorView::TypeCoercion { position, value } => "cannot convert '"@ + value + "' at row "@
            + decimal(position) + " to a number"@,
    }
}

/// Whether `needle` stands somewhere in `text`, whole and unbroken.
pub open spec fn occurs_in(needle: Seq<char>, text: Seq<char>) -> bool {
    exists|k: int|
        0 <= k && k + needle.len() <= text.len() && #[trigger] text.subrange(
            k,
            k + needle.len(),
        ) == needle
}

/// The text of one decimal digit.
fn digit_text(d: usize) -> (r: &'static str)
    requires
        d < 10,
    ensures
        r@ == seq![digit_char(d as nat)],
{
    proof {
        reveal_strlit("0");
        reveal_strlit("1");
        reveal_strlit("2");
        reveal_strlit("3");
        reveal_strlit("4");
        reveal_strlit("5");
        reveal_strlit("6");
        reveal_strlit("7");
        reveal_strlit("8");
        reveal_strlit("9");
    }
    let r = if d == 0 {
        "0"
    } else if d == 1 {
        "1"
    } else if d == 2 {
        "2"
    } else if d == 3 {
        "3"
    } else if d == 4 {
        "4"
    } else if d == 5 {
        "5"
    } else if d == 6 {
        "6"
    } else if d == 7 {
        "7"
    } else if d == 8 {
        "8"
    } else {
        "9"
    };
    r
}

/// Appends the decimal numeral of `n`.
fn append_decimal(out: &mut String, n: usize)
    ensures
        final(out)@ == old(out)@ + decimal(n as nat),
    decreases n,
{
    if n >= 10 {
        append_decimal(out, n / 10);
    }
    out.append(digit_text(n % 10));
}

/// Appends a name between double quotes.
fn append_quoted(out: &mut String, name: &String)
    ensures
        final(out)@ == old(out)@ + quoted(name@),
{
    proof {
        reveal_strlit("\"");
    }
    out.append("\"");
    out.append(name.as_str());
    out.append("\"");
}

/// Appends the quoted names, separated by a comma and a space.
fn append_listed(out: &mut String, names: &Vec<String>)
    ensures
        final(out)@ == old(out)@ + listed(texts(names@)),
{
    let ghost all = texts(names@);
    let mut i: usize = 0;
    while i < names.len()
        invariant
            i <= names.len(),
            all == texts(names@),
            out@ == old(out)@ + listed(all.take(i as int)),
        decreases names.len() - i,
    {
        proof {
            reveal_strlit(", ");
            assert(all.take(i + 1).drop_last() =~= all.take(i as int));
        }
        if i > 0 {
            out.append(", ");
        }
        append_quoted(out, &names[i]);
        i += 1;
    }
    proof {
        assert(all.take(names.len() as int) =~= all);
    }
}

impl StatsError {
    /// The message of the failure, for a person to read: what was asked for
    /// and what there is instead. Rows are counted from 0, as in the failure
    /// itself.
    pub fn message(&self) -> (r: String)
        ensures
            r@ == message_of(self@),
    {
        let mut out = String::new();
        match self {
            StatsError::FileAccess { path, detail } => {
                out.append("cannot load '");
                out.append(path.as_str());
                out.append("': ");
                out.append(detail.as_str());
            },
            StatsError::ColumnNotFound { requested, available } => {
                out.append("column '");
                out.append(requested.as_str());
                out.append("' not found; available columns: [");
                append_listed(&mut out, available);
                out.append("]");
            },
            StatsError::TypeCoercion { position, value } => {
                out.append("cannot convert '");
                out.append(value.as_str());
                out.append("' at row ");
                append_decimal(&mut out, *position);
                out.append(" to a number");
            },
        }
        out
    }
}

/// What stands in a part of a text stands in the text.
proof fn lemma_occurs_in_part(
    needle: Seq<char>,
    before: Seq<char>,
    part: Seq<char>,
    after: Seq<char>,
)
    requires
        occurs_in(needle, part),
    ensures
        occurs_in(needle, before + part + after),
{
    let k = choose|k: int|
        0 <= k && k + needle.len() <= part.len() && #[trigger] part.subrange(k, k + needle.len())
            == needle;
    let text = before + part + after;
    let at = before.len() + k;
    assert(text.subrange(at, at + needle.len()) =~= part.subrange(k, k + needle.len()));
}

/// A text stands in itself.
proof fn lemma_occurs_in_itself(text: Seq<char>)
    ensures
        occurs_in(text, text),
{
    assert(text.subrange(0, 0 + text.len() as int) =~= text);
}

/// Every name stands in the list of the names.
proof fn lemma_listed_holds_each(names: Seq<Seq<char>>, i: int)
    requires
        0 <= i < names.len(),
    ensures
        occurs_in(names[i], listed(names)),
    decreases names.len(),
{
    let quote = seq!['"'];
    if names.len() == 1 {
        lemma_occurs_in_itself(names[0]);
        lemma_occurs_in_part(names[0], quote, names[0], quote);
    } else if i == names.len() - 1 {
        let head = listed(names.drop_last()) + seq![',', ' '];
        lemma_occurs_in_itself(names[i]);
        lemma_occurs_in_part(names[i], head + quote, names[i], quote);
        assert(head + quote + names[i] + quote =~= listed(names));
    } else {
        lemma_listed_holds_each(names.drop_last(), i);
        let tail = seq![',', ' '] + quoted(names.last());
        lemma_occurs_in_part(names[i], Seq::empty(), listed(names.drop_last()), tail);
        assert(Seq::<char>::empty() + listed(names.drop_last()) + tail =~= listed(names));
    }
}

/// The message for a column that is not there holds the name that was asked
/// for, the list of the names that the table has, and so each of them.
pub proof fn lemma_not_found_message_tells_names(requested: Seq<char>, available: Seq<Seq<char>>)
    ensures
        occurs_in(requested, message_of(ErrorView::ColumnNotFound { requested, available })),
        occurs_in(
            listed(available),
            message_of(ErrorView::ColumnNotFound { requested, available }),
        ),
        forall|i: int|
            0 <= i < available.len() ==> occurs_in(
                #[trigger] available[i],
                message_of(ErrorView::ColumnNotFound { requested, available }),
            ),
{
    let message = message_of(ErrorView::ColumnNotFound { requested, available });
    let start = "column '"@;
    let middle = "' not found; available columns: ["@;
    let end = "]"@;
    lemma_occurs_in_itself(requested);
    lemma_occurs_in_part(requested, start, requested, middle + listed(available) + end);
    assert(start + requested + (middle + listed(available) + end) =~= message);
    lemma_occurs_in_itself(listed(available));
    lemma_occurs_in_part(listed(available), start + requested + middle, listed(available), end);
    assert forall|i: int| 0 <= i < available.len() implies occurs_in(
        #[trigger] available[i],
        message,
    ) by {
        lemma_listed_holds_each(available, i);
        lemma_occurs_in_part(available[i], start + requested + middle, listed(available), end);
    }
}

} // verus!
