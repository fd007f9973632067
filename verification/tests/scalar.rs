use csvreader::scalar::parse_integer;
use csvreader::Scalar;

const TEXTS: [&str; 40] = [
    "", "+", "-", "0", "-0", "+0", "7", "+7", "-7", "007", "-007", "42", "1 ", " 1", "1_0", "1.0",
    "1e3", "0x10", "--1", "+-1", "-+1", "1-", "1+", "٣", "127", "128", "-128", "-129", "255",
    "256", "2147483647", "2147483648", "-2147483648", "-2147483649", "4294967295", "4294967296",
    "9223372036854775807", "9223372036854775808", "-9223372036854775808",
    "18446744073709551615",
];

#[test]
fn i32_reads_as_std_does() {
    for text in TEXTS {
        assert_eq!(<i32 as Scalar>::parse(text), text.parse::<i32>().ok(), "{:?}", text);
    }
}

#[test]
fn i32_bounds() {
    assert_eq!(<i32 as Scalar>::parse("2147483647"), Some(i32::MAX));
    assert_eq!(<i32 as Scalar>::parse("2147483648"), None);
    assert_eq!(<i32 as Scalar>::parse("-2147483648"), Some(i32::MIN));
    assert_eq!(<i32 as Scalar>::parse("-2147483649"), None);
    assert_eq!(<i32 as Scalar>::parse("00000000000000000000000000000000000000000000012"), Some(12));
    assert_eq!(<i32 as Scalar>::parse("99999999999999999999999999999999999999999999999"), None);
}

#[test]
fn sign_alone_is_no_number() {
    assert_eq!(<i32 as Scalar>::parse("+"), None);
    assert_eq!(<i32 as Scalar>::parse("-"), None);
    assert_eq!(<i32 as Scalar>::parse(""), None);
}

#[test]
fn integer_in_given_range() {
    assert_eq!(parse_integer("-5", true, -5, 5), Some(-5));
    assert_eq!(parse_integer("-6", true, -5, 5), None);
    assert_eq!(parse_integer("5", true, -5, 5), Some(5));
    assert_eq!(parse_integer("6", true, -5, 5), None);
    assert_eq!(parse_integer("-5", false, -5, 5), None);
    assert_eq!(parse_integer("+5", false, 0, 5), Some(5));
    assert_eq!(parse_integer("-0", false, 0, 5), None);
    assert_eq!(parse_integer("-0", true, 0, 5), Some(0));
    assert_eq!(parse_integer("7", true, 8, 5), None);
    assert_eq!(parse_integer("-3", true, -9, -2), Some(-3));
    assert_eq!(parse_integer("3", true, -9, -2), None);
    assert_eq!(parse_integer("12", false, 10, 20), Some(12));
    assert_eq!(parse_integer("9", false, 10, 20), None);
}

#[test]
fn every_integer_type_reads_as_std_does() {
    for text in TEXTS {
        assert_eq!(<i8 as Scalar>::parse(text), text.parse::<i8>().ok(), "{:?}", text);
        assert_eq!(<i16 as Scalar>::parse(text), text.parse::<i16>().ok(), "{:?}", text);
        assert_eq!(<i64 as Scalar>::parse(text), text.parse::<i64>().ok(), "{:?}", text);
        assert_eq!(<isize as Scalar>::parse(text), text.parse::<isize>().ok(), "{:?}", text);
        assert_eq!(<u8 as Scalar>::parse(text), text.parse::<u8>().ok(), "{:?}", text);
        assert_eq!(<u16 as Scalar>::parse(text), text.parse::<u16>().ok(), "{:?}", text);
        assert_eq!(<u32 as Scalar>::parse(text), text.parse::<u32>().ok(), "{:?}", text);
        assert_eq!(<u64 as Scalar>::parse(text), text.parse::<u64>().ok(), "{:?}", text);
        assert_eq!(<usize as Scalar>::parse(text), text.parse::<usize>().ok(), "{:?}", text);
    }
}

#[test]
fn unsigned_types_take_no_minus() {
    assert_eq!(<u8 as Scalar>::parse("-0"), None);
    assert_eq!(<u64 as Scalar>::parse("-1"), None);
    assert_eq!(<u8 as Scalar>::parse("+255"), Some(255));
    assert_eq!(<u64 as Scalar>::parse("18446744073709551615"), Some(u64::MAX));
    assert_eq!(<u64 as Scalar>::parse("18446744073709551616"), None);
    assert_eq!(<i64 as Scalar>::parse("-9223372036854775808"), Some(i64::MIN));
    assert_eq!(<i64 as Scalar>::parse("-9223372036854775809"), None);
}

#[test]
fn widest_signed_type_reads_as_std_does() {
    for text in TEXTS {
        assert_eq!(<i128 as Scalar>::parse(text), text.parse::<i128>().ok(), "{:?}", text);
    }
    let most = "170141183460469231731687303715884105727";
    let least = "-170141183460469231731687303715884105728";
    assert_eq!(<i128 as Scalar>::parse(most), Some(i128::MAX));
    assert_eq!(<i128 as Scalar>::parse(least), Some(i128::MIN));
    assert_eq!(<i128 as Scalar>::parse("170141183460469231731687303715884105728"), None);
    assert_eq!(<i128 as Scalar>::parse("-170141183460469231731687303715884105729"), None);
    assert_eq!(<i128 as Scalar>::parse("1701411834604692317316873037158841057270"), None);
}
