use parson::decimal::{digits_value, parse_unsigned};

#[test]
fn digits_value_reads_base_ten() {
    assert_eq!(digits_value("0"), Some(0));
    assert_eq!(digits_value("9"), Some(9));
    assert_eq!(digits_value("10"), Some(10));
    assert_eq!(digits_value("407"), Some(407));
    assert_eq!(digits_value("000"), Some(0));
    assert_eq!(digits_value("0042"), Some(42));
}

#[test]
fn digits_value_refuses_what_is_no_decimal() {
    assert_eq!(digits_value(""), None);
    assert_eq!(digits_value("+1"), None);
    assert_eq!(digits_value("-1"), None);
    assert_eq!(digits_value("1_000"), None);
    assert_eq!(digits_value("12a"), None);
    assert_eq!(digits_value("٣"), None);
    assert_eq!(digits_value("1.0"), None);
}

#[test]
fn digits_value_stops_at_the_machines_limit() {
    let greatest = format!("{}", usize::MAX);
    assert_eq!(digits_value(&greatest), Some(usize::MAX));
    assert_eq!(digits_value(&format!("000{}", greatest)), Some(usize::MAX));
    assert_eq!(digits_value(&format!("{}0", greatest)), None);
    let mut next = greatest.into_bytes();
    let last = next.len() - 1;
    next[last] += 1;
    assert_eq!(digits_value(&String::from_utf8(next).unwrap()), None);
}

#[test]
fn parse_unsigned_agrees_with_the_standard_parsing() {
    let greatest = format!("{}", usize::MAX);
    let beyond = format!("{}1", usize::MAX);
    for sample in [
        "0", "7", "+7", "007", "+007", "", "+", "++1", "-1", "1+", " 1", "1 ", "abc", "12x",
        greatest.as_str(), beyond.as_str(),
    ] {
        assert_eq!(parse_unsigned(sample), sample.parse::<usize>().ok(), "text {:?}", sample);
    }
}
