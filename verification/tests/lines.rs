use csvreader::lines::collect_lines;
use csvreader::{read_csv, CsvError};
use std::io::{BufRead, Error, ErrorKind};

#[test]
fn lines_that_were_all_read_come_out_in_order() {
    let read = vec![Ok("a,b".to_string()), Ok(String::new()), Ok("1,2".to_string())];
    assert_eq!(collect_lines(read).unwrap(), ["a,b", "", "1,2"]);
}

#[test]
fn nothing_read_is_no_lines() {
    assert!(collect_lines(Vec::new()).unwrap().is_empty());
}

#[test]
fn first_failure_is_the_one_reported() {
    let read = vec![
        Ok("a,b".to_string()),
        Err(Error::new(ErrorKind::InvalidData, "first")),
        Ok("1,2".to_string()),
        Err(Error::new(ErrorKind::UnexpectedEof, "second")),
    ];
    match collect_lines(read) {
        Err(CsvError::CouldNotParseLine(cause)) => {
            assert_eq!(cause.kind(), ErrorKind::InvalidData);
            assert_eq!(cause.to_string(), "first");
        }
        other => panic!("unexpected outcome: {:?}", other),
    }
}

#[test]
fn bytes_that_are_no_text_fail_the_loading() {
    let bytes: &[u8] = b"a,b\n1,\xff\n3,4\n";
    let read: Vec<_> = bytes.lines().collect();
    match collect_lines(read) {
        Err(CsvError::CouldNotParseLine(cause)) => assert_eq!(cause.kind(), ErrorKind::InvalidData),
        other => panic!("unexpected outcome: {:?}", other),
    }
}

#[test]
fn bytes_of_a_file_become_a_table() {
    let bytes: &[u8] = b"a,b\n1,2\n3,4\n";
    let lines = collect_lines(bytes.lines().collect()).unwrap();
    let table = read_csv::<i32>(&lines).unwrap();
    assert_eq!(table.header, ["a", "b"]);
    assert_eq!(table.data, [[1, 2], [3, 4]]);
}

#[test]
fn no_bytes_are_an_empty_file() {
    let bytes: &[u8] = b"";
    let lines = collect_lines(bytes.lines().collect()).unwrap();
    assert!(matches!(read_csv::<i32>(&lines), Err(CsvError::FileIsEmpty)));
}
