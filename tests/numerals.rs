use viering_compiler::text::parse_digits;

#[test]
fn read_decimal_digits() {
    assert_eq!(parse_digits(&vec!['1', '2', '3']), Some(123));
    assert_eq!(parse_digits(&vec![]), Some(0));
    assert_eq!(parse_digits(&vec!['0', '4', '2']), Some(42));
    let max: Vec<char> = "9223372036854775807".chars().collect();
    assert_eq!(parse_digits(&max), Some(i64::MAX));
}

#[test]
fn reject_non_digits_and_overflow() {
    assert_eq!(parse_digits(&vec!['1', 'x']), None);
    assert_eq!(parse_digits(&vec!['\u{b2}']), None);
    let over: Vec<char> = "9223372036854775808".chars().collect();
    assert_eq!(parse_digits(&over), None);
    let long: Vec<char> = "100000000000000000000".chars().collect();
    assert_eq!(parse_digits(&long), None);
}
