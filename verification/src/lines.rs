//! From the lines as they were read to the lines of a table.

use crate::error::CsvError;
use vstd::prelude::*;

verus! {

/// Whether entry `i` is the first of `read` that holds a failure.
pub open spec fn first_failed(read: Seq<Result<String, std::io::Error>>, i: int) -> bool {
    &&& 0 <= i < read.len()
    &&& read[i] is Err
    &&& forall|j: int| 0 <= j < i ==> (#[trigger] read[j]) is Ok
}

/// Takes the lines of a file as they were read, each one either its text
/// or the failure to read it. Gives all the texts in their order, or, if
/// a line could not be read, the cause of the first such line and no text.
pub fn collect_lines(read: Vec<Result<String, std::io::Error>>) -> (lines: Result<
    Vec<String>,
    CsvError,
>)
    ensures
        match lines {
            Ok(all) => {
                &&& all.len() == read.len()
                &&& forall|i: int| 0 <= i < read.len() ==> read[i] == Ok::<String, std::io::Error>(#[trigger] all[i])
            },
            Err(e) => exists|i: int| #[trigger]
                first_failed(read@, i) && e == CsvError::CouldNotParseLine(read[i]->Err_0),
        },
{
    let mut all: Vec<String> = Vec::with_capacity(read.len());
    for line in it: read
        invariant
            it.seq() == read@,
            all.len() == it.index(),
            forall|i: int| 0 <= i < all.len() ==> read[i] == Ok::<String, std::io::Error>(#[trigger] all[i]),
    {
        match line {
            Ok(text) => {
                all.push(text);
            },
            Err(cause) => {
                proof {
                    assert forall|j: int| 0 <= j < it.index() implies (#[trigger] read[j]) is Ok by {
                        assert(read[j] == Ok::<String, std::io::Error>(all[j]));
                    }
                    assert(read[it.index() as int] == line);
                    assert(first_failed(read@, it.index() as int));
                }
                return Err(CsvError::CouldNotParseLine(cause));
            },
        }
    }
    Ok(all)
}

} // verus!
