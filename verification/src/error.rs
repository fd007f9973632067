//! The ways in which reading a table can fail.

use vstd::prelude::*;

verus! {

/// `std::io::Error`: the cause that comes with a failed attempt to open or
/// to read a file. Nothing is claimed of it. The library hands such a
/// value on inside an error and never looks into it.
#[verifier::external_type_specification]
#[verifier::external_body]
pub struct ExIoError(std::io::Error);

/// Where a data line's width departs from the header's.
#[derive(Debug)]
pub struct CsvLineLen {
    /// Number of the line among the data lines, counted from 1.
    pub line_num: usize,
    /// How many entries the line holds.
    pub num_entries: usize,
}

/// Why no table was read. Each error is final: nothing is tried again, and
/// no part of a table comes with it.
#[derive(Debug)]
pub enum CsvError {
    /// There is no file at the path.
    FileNonExistant,
    /// The file is there and could not be opened; the cause is given.
    CouldNotOpenFile(std::io::Error),
    /// A line of the file could not be read as text; the cause is given.
    CouldNotParseLine(std::io::Error),
    /// The file holds no line at all, not even a header.
    FileIsEmpty,
    /// A token stands for no value of the cell type; the token is given as
    /// it was found.
    CouldNotParseValue(String),
    /// A data line holds fewer tokens than the header.
    LineTooShort(CsvLineLen),
    /// A data line holds more tokens than the header.
    LineTooLong(CsvLineLen),
}

impl From<std::io::Error> for CsvError {
    /// A failure of the file system counts as a file that could not be
    /// opened.
    fn from(value: std::io::Error) -> (e: Self) {
        Self::CouldNotOpenFile(value)
    }
}

impl vstd::std_specs::convert::FromSpecImpl<std::io::Error> for CsvError {
    open spec fn obeys_from_spec() -> bool {
        true
    }

    open spec fn from_spec(value: std::io::Error) -> Self {
        CsvError::CouldNotOpenFile(value)
    }
}

/// What an error says, with text as characters and counts as numbers.
pub enum CsvErrorView {
    FileNonExistant,
    CouldNotOpenFile(std::io::Error),
    CouldNotParseLine(std::io::Error),
    FileIsEmpty,
    CouldNotParseValue(Seq<char>),
    LineTooShort { line_num: nat, num_entries: nat },
    LineTooLong { line_num: nat, num_entries: nat },
}

impl View for CsvError {
    type V = CsvErrorView;

    open spec fn view(&self) -> CsvErrorView {
        match *self {
            CsvError::FileNonExistant => CsvErrorView::FileNonExistant,
            CsvError::CouldNotOpenFile(cause) => CsvErrorView::CouldNotOpenFile(cause),
            CsvError::CouldNotParseLine(cause) => CsvErrorView::CouldNotParseLine(cause),
            CsvError::FileIsEmpty => CsvErrorView::FileIsEmpty,
            CsvError::CouldNotParseValue(text) => CsvErrorView::CouldNotParseValue(text@),
            CsvError::LineTooShort(len) => CsvErrorView::LineTooShort {
                line_num: len.line_num as nat,
                num_entries: len.num_entries as nat,
            },
            CsvError::LineTooLong(len) => CsvErrorView::LineTooLong {
                line_num: len.line_num as nat,
                num_entries: len.num_entries as nat,
            },
        }
    }
}

} // verus!
