use particle_simulator::utils::{
    parse_count, read_args, DEFAULT_NUMBER_OF_PARTICLES, MAX_NUMBER_OF_PARTICLES,
};

#[test]
fn constants_have_their_values() {
    assert_eq!(MAX_NUMBER_OF_PARTICLES, 52);
    assert_eq!(DEFAULT_NUMBER_OF_PARTICLES, 20);
}

#[test]
fn missing_argument_gives_default() {
    assert_eq!(read_args(None), 20);
}

#[test]
fn numeral_is_taken() {
    assert_eq!(read_args(Some("30")), 30);
    assert_eq!(read_args(Some("0")), 0);
    assert_eq!(read_args(Some("1")), 1);
    assert_eq!(read_args(Some("007")), 7);
    assert_eq!(read_args(Some("+7")), 7);
}

#[test]
fn count_is_capped() {
    assert_eq!(read_args(Some("51")), 51);
    assert_eq!(read_args(Some("52")), 52);
    assert_eq!(read_args(Some("53")), 52);
    assert_eq!(read_args(Some("100")), 52);
    assert_eq!(read_args(Some("18446744073709551615")), 52);
}

#[test]
fn unreadable_argument_gives_default() {
    assert_eq!(read_args(Some("")), 20);
    assert_eq!(read_args(Some("abc")), 20);
    assert_eq!(read_args(Some("-3")), 20);
    assert_eq!(read_args(Some("+")), 20);
    assert_eq!(read_args(Some("-")), 20);
    assert_eq!(read_args(Some("++3")), 20);
    assert_eq!(read_args(Some(" 3")), 20);
    assert_eq!(read_args(Some("3 ")), 20);
    assert_eq!(read_args(Some("3.0")), 20);
    assert_eq!(read_args(Some("1e3")), 20);
    assert_eq!(read_args(Some("1_000")), 20);
    assert_eq!(read_args(Some("0x10")), 20);
    assert_eq!(read_args(Some("٣")), 20);
}

#[test]
fn number_too_large_gives_default() {
    // One more than fits in 64 bits: no number at all, so not the cap but the default.
    assert_eq!(read_args(Some("18446744073709551616")), 20);
    assert_eq!(read_args(Some("99999999999999999999999999")), 20);
}

#[test]
fn parse_count_reads_decimals() {
    assert_eq!(parse_count(b"0"), Some(0));
    assert_eq!(parse_count(b"42"), Some(42));
    assert_eq!(parse_count(b"+42"), Some(42));
    assert_eq!(parse_count(b"000123"), Some(123));
    assert_eq!(parse_count(b""), None);
    assert_eq!(parse_count(b"+"), None);
    assert_eq!(parse_count(b"4 2"), None);
    assert_eq!(parse_count(b"42x"), None);
    assert_eq!(parse_count(b"-42"), None);
    assert_eq!(parse_count(usize::MAX.to_string().as_bytes()), Some(usize::MAX));
}

#[test]
fn parse_count_agrees_with_the_standard_parser() {
    let texts = [
        "", "0", "1", "9", "10", "20", "52", "53", "+0", "+9", "-0", "-1", "+", "-", "++1", "+-1",
        "1+", "00", "0000000000000000000000000000001", "18446744073709551614",
        "18446744073709551615", "18446744073709551616", "18446744073709551625",
        "28446744073709551615", "184467440737095516150", "4294967295", "4294967296", " 1", "1 ",
        "1\n", "\t1", "a", "1a", "a1", "1.5", "1,5", "0x1", "0b1", "1e2", "１２", "٣", "½", "1_0",
        "+ 1", "١٢٣",
    ];
    for text in texts {
        assert_eq!(parse_count(text.as_bytes()), text.parse::<usize>().ok(), "{:?}", text);
    }
    for number in 0..2000usize {
        let text = number.to_string();
        assert_eq!(parse_count(text.as_bytes()), Some(number));
    }
}
