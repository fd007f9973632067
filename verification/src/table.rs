//! The table, and how lines of text become one.

use crate::error::{CsvError, CsvErrorView, CsvLineLen};
use crate::fields::{split_fields, split_spec, texts};
use crate::scalar::Scalar;
use vstd::prelude::*;

verus! {

/// The character that parts the fields of a line.
pub const SEPARATOR: char = ',';

/// A header and the rows that were read under it.
#[derive(Debug)]
pub struct CsvData<T: Scalar> {
    /// The names of the columns, in order.
    pub header: Vec<String>,
    /// The rows, in the order of their lines; one cell per column.
    pub data: Vec<Vec<T>>,
}

impl<T: Scalar> CsvData<T> {
    /// Whether every row has one cell for each column.
    pub open spec fn is_rectangular(&self) -> bool {
        forall|r: int|
            0 <= r < self.data.len() ==> (#[trigger] self.data[r]).len() == self.header.len()
    }
}

/// What a table holds: names as characters, rows as sequences of cells.
pub struct TableView<T> {
    /// The names of the columns, in order.
    pub header: Seq<Seq<char>>,
    /// The rows, in the order of their lines.
    pub data: Seq<Seq<T>>,
}

impl<T> TableView<T> {
    /// Whether every row has one cell for each column.
    pub open spec fn is_rectangular(self) -> bool {
        forall|r: int|
            0 <= r < self.data.len() ==> (#[trigger] self.data[r]).len() == self.header.len()
    }
}

impl<T: Scalar> View for CsvData<T> {
    type V = TableView<T>;

    open spec fn view(&self) -> TableView<T> {
        TableView { header: texts(self.header@), data: rows_view(self.data@) }
    }
}

/// The cells that `tokens` stand for, or the first token that stands for
/// none.
pub open spec fn cells_spec<T: Scalar>(tokens: Seq<Seq<char>>) -> Result<Seq<T>, Seq<char>>
    decreases tokens.len(),
{
    if tokens.len() == 0 {
        Ok(Seq::empty())
    } else {
        match cells_spec::<T>(tokens.drop_last()) {
            Err(bad) => Err(bad),
            Ok(cells) => match T::parse_spec(tokens.last()) {
                Some(cell) => Ok(cells.push(cell)),
                None => Err(tokens.last()),
            },
        }
    }
}

/// The row that `line` stands for under a header of `width` columns. A
/// token that cannot be read is reported before a wrong number of tokens.
pub open spec fn row_spec<T: Scalar>(line: Seq<char>, width: nat, line_num: nat) -> Result<
    Seq<T>,
    CsvErrorView,
> {
    let tokens = split_spec(line, SEPARATOR);
    match cells_spec::<T>(tokens) {
        Err(bad) => Err(CsvErrorView::CouldNotParseValue(bad)),
        Ok(cells) => if tokens.len() == width {
            Ok(cells)
        } else if tokens.len() < width {
            Err(CsvErrorView::LineTooShort { line_num, num_entries: tokens.len() })
        } else {
            Err(CsvErrorView::LineTooLong { line_num, num_entries: tokens.len() })
        },
    }
}

/// The rows that the first `count` data lines stand for, or the error of
/// the first line among them that has one. `lines[0]` is the header, so the
/// data line numbered `n` is `lines[n]`.
pub open spec fn rows_spec<T: Scalar>(lines: Seq<Seq<char>>, width: nat, count: nat) -> Result<
    Seq<Seq<T>>,
    CsvErrorView,
>
    decreases count,
{
    if count == 0 {
        Ok(Seq::empty())
    } else {
        match rows_spec::<T>(lines, width, (count - 1) as nat) {
            Err(e) => Err(e),
            Ok(rows) => match row_spec::<T>(lines[count as int], width, count) {
                Err(e) => Err(e),
                Ok(row) => Ok(rows.push(row)),
            },
        }
    }
}

/// The table that `lines` stand for: the first line names the columns,
/// every other line is a row.
pub open spec fn table_spec<T: Scalar>(lines: Seq<Seq<char>>) -> Result<TableView<T>, CsvErrorView> {
    if lines.len() == 0 {
        Err(CsvErrorView::FileIsEmpty)
    } else {
        let header = split_spec(lines[0], SEPARATOR);
        match rows_spec::<T>(lines, header.len(), (lines.len() - 1) as nat) {
            Err(e) => Err(e),
            Ok(data) => Ok(TableView { header, data }),
        }
    }
}

/// What came of reading a table, as views.
pub open spec fn outcome_view<T: Scalar>(outcome: Result<CsvData<T>, CsvError>) -> Result<
    TableView<T>,
    CsvErrorView,
> {
    match outcome {
        Ok(table) => Ok(table@),
        Err(e) => Err(e@),
    }
}

/// Whether `outcome` is what reading `lines` gives.
pub open spec fn read_csv_spec<T: Scalar>(
    lines: Seq<String>,
    outcome: Result<CsvData<T>, CsvError>,
) -> bool {
    outcome_view(outcome) == table_spec::<T>(texts(lines))
}

/// The rows of a table as sequences of cells.
pub open spec fn rows_view<T>(rows: Seq<Vec<T>>) -> Seq<Seq<T>> {
    rows.map_values(|row: Vec<T>| row@)
}

/// Reads one data line: every token in turn as a cell, then the count of
/// tokens against `width`.
pub fn parse_row<T: Scalar>(line: &str, width: usize, line_num: usize) -> (row: Result<
    Vec<T>,
    CsvError,
>)
    ensures
        match row {
            Ok(cells) => row_spec::<T>(line@, width as nat, line_num as nat) == Ok::<
                Seq<T>,
                CsvErrorView,
            >(cells@),
            Err(e) => row_spec::<T>(line@, width as nat, line_num as nat) == Err::<
                Seq<T>,
                CsvErrorView,
            >(e@),
        },
{
    let tokens = split_fields(line, SEPARATOR);
    let mut cells: Vec<T> = Vec::with_capacity(tokens.len());
    let mut j: usize = 0;
    proof {
        assert(texts(tokens@).take(0) =~= Seq::<Seq<char>>::empty());
    }
    while j < tokens.len()
        invariant
            j <= tokens.len(),
            texts(tokens@) == split_spec(line@, SEPARATOR),
            cells_spec::<T>(texts(tokens@).take(j as int)) == Ok::<Seq<T>, Seq<char>>(cells@),
        decreases tokens.len() - j,
    {
        proof {
            let grown = texts(tokens@).take(j + 1);
            assert(grown.drop_last() =~= texts(tokens@).take(j as int));
            assert(grown.last() == tokens[j as int]@);
        }
        match T::parse(tokens[j].as_str()) {
            Some(cell) => {
                cells.push(cell);
            },
            None => {
                proof {
                    lemma_cells_failure_stays::<T>(texts(tokens@), j + 1);
                }
                return Err(CsvError::CouldNotParseValue(tokens[j].clone()));
            },
        }
        j = j + 1;
    }
    proof {
        assert(texts(tokens@).take(j as int) =~= texts(tokens@));
        lemma_cells_in_order::<T>(texts(tokens@));
    }
    if cells.len() == width {
        Ok(cells)
    } else if cells.len() < width {
        Err(CsvError::LineTooShort(CsvLineLen { line_num, num_entries: cells.len() }))
    } else {
        Err(CsvError::LineTooLong(CsvLineLen { line_num, num_entries: cells.len() }))
    }
}

/// Reads a table from the lines of a file: the header from the first
/// line, one row from each line after it. The first line that cannot be
/// read as a row of the header's width ends the reading with its error.
pub fn read_csv<T: Scalar>(lines: &[String]) -> (table: Result<CsvData<T>, CsvError>)
    ensures
        read_csv_spec(lines@, table),
        table matches Ok(t) ==> t.data.len() == lines.len() - 1 && t.is_rectangular(),
{
    if lines.len() == 0 {
        return Err(CsvError::FileIsEmpty);
    }
    let header = split_fields(lines[0].as_str(), SEPARATOR);
    let mut data: Vec<Vec<T>> = Vec::with_capacity(lines.len() - 1);
    let ghost all = texts(lines@);
    proof {
        assert(rows_view(data@) =~= Seq::<Seq<T>>::empty());
    }
    for i in 1..lines.len()
        invariant
            all == texts(lines@),
            all.len() == lines.len() > 0,
            texts(header@) == split_spec(all[0], SEPARATOR),
            rows_spec::<T>(all, header.len() as nat, (i - 1) as nat) == Ok::<
                Seq<Seq<T>>,
                CsvErrorView,
            >(rows_view(data@)),
    {
        let ghost before = rows_view(data@);
        match parse_row::<T>(lines[i].as_str(), header.len(), i) {
            Ok(row) => {
                data.push(row);
                proof {
                    assert(rows_view(data@) =~= before.push(row@));
                }
            },
            Err(e) => {
                proof {
                    lemma_rows_failure_stays::<T>(
                        all,
                        header.len() as nat,
                        i as nat,
                        (lines.len() - 1) as nat,
                    );
                }
                return Err(e);
            },
        }
    }
    proof {
        lemma_table_is_rectangular::<T>(all);
        assert forall|r: int| 0 <= r < data.len() implies (#[trigger] data[r]).len()
            == header.len() by {
            assert(rows_view(data@)[r] == data[r]@);
        }
    }
    Ok(CsvData { header, data })
}

/// Once the first `count` data lines have failed, any longer stretch of
/// them fails with the same error.
pub proof fn lemma_rows_failure_stays<T: Scalar>(
    lines: Seq<Seq<char>>,
    width: nat,
    count: nat,
    more: nat,
)
    requires
        count <= more,
        rows_spec::<T>(lines, width, count) is Err,
    ensures
        rows_spec::<T>(lines, width, more) == rows_spec::<T>(lines, width, count),
    decreases more - count,
{
    if count < more {
        lemma_rows_failure_stays::<T>(lines, width, count, (more - 1) as nat);
    }
}

/// Once a prefix of the tokens has failed, the whole fails on the same
/// token.
pub proof fn lemma_cells_failure_stays<T: Scalar>(tokens: Seq<Seq<char>>, len: int)
    requires
        0 <= len <= tokens.len(),
        cells_spec::<T>(tokens.take(len)) is Err,
    ensures
        cells_spec::<T>(tokens) == cells_spec::<T>(tokens.take(len)),
    decreases tokens.len() - len,
{
    if len == tokens.len() {
        assert(tokens.take(len) =~= tokens);
    } else {
        assert(tokens.take(len + 1).drop_last() =~= tokens.take(len));
        lemma_cells_failure_stays::<T>(tokens, len + 1);
    }
}

/// Whether token `i` is the first of `tokens` that stands for no cell.
pub open spec fn first_unreadable<T: Scalar>(tokens: Seq<Seq<char>>, i: int) -> bool {
    &&& 0 <= i < tokens.len()
    &&& T::parse_spec(tokens[i]) is None
    &&& forall|j: int| 0 <= j < i ==> T::parse_spec(#[trigger] tokens[j]) is Some
}

/// Tokens that can all be read give one cell each, in their order;
/// otherwise the first token that cannot be read is the result.
pub proof fn lemma_cells_in_order<T: Scalar>(tokens: Seq<Seq<char>>)
    ensures
        match cells_spec::<T>(tokens) {
            Ok(cells) => {
                &&& cells.len() == tokens.len()
                &&& forall|i: int|
                    0 <= i < tokens.len() ==> T::parse_spec(tokens[i]) == Some(#[trigger] cells[i])
            },
            Err(bad) => exists|i: int| #[trigger]
                first_unreadable::<T>(tokens, i) && tokens[i] == bad,
        },
    decreases tokens.len(),
{
    if tokens.len() > 0 {
        let before = tokens.drop_last();
        lemma_cells_in_order::<T>(before);
        match cells_spec::<T>(before) {
            Ok(cells) => {
                if T::parse_spec(tokens.last()) is None {
                    assert(first_unreadable::<T>(tokens, tokens.len() - 1)) by {
                        assert forall|j: int| 0 <= j < tokens.len() - 1 implies T::parse_spec(
                            #[trigger] tokens[j],
                        ) is Some by {
                            assert(T::parse_spec(before[j]) == Some(cells[j]));
                        }
                    }
                } else {
                    let all = cells_spec::<T>(tokens)->Ok_0;
                    assert forall|i: int| 0 <= i < tokens.len() implies T::parse_spec(tokens[i])
                        == Some(#[trigger] all[i]) by {
                        if i < before.len() {
                            assert(T::parse_spec(before[i]) == Some(cells[i]));
                        }
                    }
                }
            },
            Err(bad) => {
                let i = choose|i: int| #[trigger]
                    first_unreadable::<T>(before, i) && before[i] == bad;
                assert(first_unreadable::<T>(tokens, i)) by {
                    assert forall|j: int| 0 <= j < i implies T::parse_spec(#[trigger] tokens[j])
                        is Some by {
                        assert(T::parse_spec(before[j]) is Some);
                    }
                }
            },
        }
    }
}

/// Whether data line `n` is the first of `lines` that is no row of `width`
/// cells.
pub open spec fn first_bad_line<T: Scalar>(lines: Seq<Seq<char>>, width: nat, n: int) -> bool {
    &&& 1 <= n
    &&& row_spec::<T>(lines[n], width, n as nat) is Err
    &&& forall|m: int| 1 <= m < n ==> (#[trigger] row_spec::<T>(lines[m], width, m as nat)) is Ok
}

/// Data lines that are all rows give one row each, in their order;
/// otherwise the error of the first line that is no row is the result.
pub proof fn lemma_rows_in_order<T: Scalar>(lines: Seq<Seq<char>>, width: nat, count: nat)
    ensures
        match rows_spec::<T>(lines, width, count) {
            Ok(rows) => {
                &&& rows.len() == count
                &&& forall|r: int|
                    0 <= r < count ==> row_spec::<T>(lines[r + 1], width, (r + 1) as nat) == Ok::<
                        Seq<T>,
                        CsvErrorView,
                    >(#[trigger] rows[r])
            },
            Err(e) => exists|n: int| #[trigger]
                first_bad_line::<T>(lines, width, n) && n <= count && row_spec::<T>(
                    lines[n],
                    width,
                    n as nat,
                ) == Err::<Seq<T>, CsvErrorView>(e),
        },
    decreases count,
{
    if count > 0 {
        let fewer = (count - 1) as nat;
        lemma_rows_in_order::<T>(lines, width, fewer);
        match rows_spec::<T>(lines, width, fewer) {
            Ok(rows) => {
                if row_spec::<T>(lines[count as int], width, count) is Err {
                    assert(first_bad_line::<T>(lines, width, count as int)) by {
                        assert forall|m: int| 1 <= m < count implies (#[trigger] row_spec::<T>(
                            lines[m],
                            width,
                            m as nat,
                        )) is Ok by {
                            assert(row_spec::<T>(lines[(m - 1) + 1], width, ((m - 1) + 1) as nat)
                                == Ok::<Seq<T>, CsvErrorView>(rows[m - 1]));
                        }
                    }
                } else {
                    let all = rows_spec::<T>(lines, width, count)->Ok_0;
                    assert forall|r: int| 0 <= r < count implies row_spec::<T>(
                        lines[r + 1],
                        width,
                        (r + 1) as nat,
                    ) == Ok::<Seq<T>, CsvErrorView>(#[trigger] all[r]) by {
                        if r < fewer {
                            assert(all[r] == rows[r]);
                        }
                    }
                }
            },
            Err(e) => {
                let n = choose|n: int| #[trigger]
                    first_bad_line::<T>(lines, width, n) && n <= fewer && row_spec::<T>(
                        lines[n],
                        width,
                        n as nat,
                    ) == Err::<Seq<T>, CsvErrorView>(e);
                assert(first_bad_line::<T>(lines, width, n) && n <= count);
            },
        }
    }
}

/// A table that was read has one row for each line after the first, and
/// in every row one cell for each column.
pub proof fn lemma_table_is_rectangular<T: Scalar>(lines: Seq<Seq<char>>)
    ensures
        table_spec::<T>(lines) matches Ok(table) ==> {
            &&& table.data.len() == lines.len() - 1
            &&& table.is_rectangular()
        },
{
    if lines.len() > 0 {
        let width = split_spec(lines[0], SEPARATOR).len();
        lemma_rows_in_order::<T>(lines, width, (lines.len() - 1) as nat);
        if let Ok(table) = table_spec::<T>(lines) {
            assert forall|r: int| 0 <= r < table.data.len() implies (#[trigger] table.data[r]).len()
                == table.header.len() by {
                lemma_cells_in_order::<T>(split_spec(lines[r + 1], SEPARATOR));
            }
        }
    }
}

/// Lines with the same text are read to the same table, or fail with the
/// same error.
pub proof fn lemma_same_text_same_outcome<T: Scalar>(
    lines: Seq<String>,
    outcome: Result<CsvData<T>, CsvError>,
    other_lines: Seq<String>,
    other_outcome: Result<CsvData<T>, CsvError>,
)
    requires
        texts(lines) == texts(other_lines),
        read_csv_spec(lines, outcome),
        read_csv_spec(other_lines, other_outcome),
    ensures
        outcome_view(outcome) == outcome_view(other_outcome),
{
}

/// Reading the same lines a second time gives what the first reading gave.
pub proof fn lemma_reading_again<T: Scalar>(
    lines: Seq<String>,
    first: Result<CsvData<T>, CsvError>,
    second: Result<CsvData<T>, CsvError>,
)
    requires
        read_csv_spec(lines, first),
        read_csv_spec(lines, second),
    ensures
        outcome_view(first) == outcome_view(second),
{
}

/// A header alone is a table without rows.
pub proof fn lemma_header_only<T: Scalar>(lines: Seq<Seq<char>>)
    requires
        lines.len() == 1,
    ensures
        table_spec::<T>(lines) == Ok::<TableView<T>, CsvErrorView>(
            (TableView { header: split_spec(lines[0], SEPARATOR), data: Seq::empty() }),
        ),
{
    assert(rows_spec::<T>(lines, split_spec(lines[0], SEPARATOR).len(), 0) == Ok::<
        Seq<Seq<T>>,
        CsvErrorView,
    >(Seq::empty()));
}

/// No lines at all are no table: the input counts as empty.
pub proof fn lemma_no_lines<T: Scalar>(lines: Seq<Seq<char>>)
    requires
        lines.len() == 0,
    ensures
        table_spec::<T>(lines) == Err::<TableView<T>, CsvErrorView>(CsvErrorView::FileIsEmpty),
{
}

} // verus!
