use csvreader::fields::split_fields;

fn expect(line: &str, fields: &[&str]) {
    let got = split_fields(line, ',');
    let std_says: Vec<String> = line.split(',').map(String::from).collect();
    assert_eq!(got, fields);
    assert_eq!(got, std_says);
}

#[test]
fn line_without_separator_is_one_field() {
    expect("abc", &["abc"]);
}

#[test]
fn empty_line_is_one_empty_field() {
    expect("", &[""]);
}

#[test]
fn fields_come_in_order() {
    expect("a,b,c", &["a", "b", "c"]);
}

#[test]
fn empty_fields_are_kept() {
    expect(",", &["", ""]);
    expect("a,,b", &["a", "", "b"]);
    expect(",a", &["", "a"]);
    expect("a,", &["a", ""]);
    expect(",,,", &["", "", "", ""]);
}

#[test]
fn characters_of_several_bytes_are_kept_whole() {
    expect("é,日本,🙂x", &["é", "日本", "🙂x"]);
}

#[test]
fn other_separators_are_taken_too() {
    assert_eq!(split_fields("a;b,c;d", ';'), ["a", "b,c", "d"]);
    assert_eq!(split_fields("1→2→3", '→'), ["1", "2", "3"]);
}
