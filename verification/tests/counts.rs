use head_select::options::{parse_signed_usize, InvalidCount, Mode, Options, SignedUsize};

#[test]
fn plain_number_is_positive() {
    assert_eq!(parse_signed_usize("10"), Ok(SignedUsize::Positive(10)));
    assert_eq!(parse_signed_usize("1"), Ok(SignedUsize::Positive(1)));
}

#[test]
fn leading_minus_is_negative() {
    assert_eq!(parse_signed_usize("-3"), Ok(SignedUsize::Negative(3)));
    assert_eq!(parse_signed_usize("-120"), Ok(SignedUsize::Negative(120)));
}

#[test]
fn plus_sign_is_accepted_before_the_digits() {
    assert_eq!(parse_signed_usize("+5"), Ok(SignedUsize::Positive(5)));
    assert_eq!(parse_signed_usize("-+5"), Ok(SignedUsize::Negative(5)));
}

#[test]
fn leading_zeros_do_not_matter() {
    assert_eq!(parse_signed_usize("007"), Ok(SignedUsize::Positive(7)));
    assert_eq!(parse_signed_usize("-010"), Ok(SignedUsize::Negative(10)));
}

#[test]
fn zero_is_rejected() {
    assert_eq!(parse_signed_usize("0"), Err(InvalidCount));
    assert_eq!(parse_signed_usize("-0"), Err(InvalidCount));
    assert_eq!(parse_signed_usize("+0"), Err(InvalidCount));
    assert_eq!(parse_signed_usize("000"), Err(InvalidCount));
}

#[test]
fn text_without_digits_is_rejected() {
    assert_eq!(parse_signed_usize(""), Err(InvalidCount));
    assert_eq!(parse_signed_usize("-"), Err(InvalidCount));
    assert_eq!(parse_signed_usize("+"), Err(InvalidCount));
    assert_eq!(parse_signed_usize("-+"), Err(InvalidCount));
}

#[test]
fn text_with_other_characters_is_rejected() {
    assert_eq!(parse_signed_usize("abc"), Err(InvalidCount));
    assert_eq!(parse_signed_usize("1x"), Err(InvalidCount));
    assert_eq!(parse_signed_usize("x1"), Err(InvalidCount));
    assert_eq!(parse_signed_usize(" 5"), Err(InvalidCount));
    assert_eq!(parse_signed_usize("5 "), Err(InvalidCount));
    assert_eq!(parse_signed_usize("1_000"), Err(InvalidCount));
    assert_eq!(parse_signed_usize("1.5"), Err(InvalidCount));
}

#[test]
fn only_one_sign_of_each_kind_is_read() {
    assert_eq!(parse_signed_usize("--5"), Err(InvalidCount));
    assert_eq!(parse_signed_usize("++5"), Err(InvalidCount));
    assert_eq!(parse_signed_usize("+-5"), Err(InvalidCount));
}

#[test]
fn digits_outside_ascii_are_rejected() {
    assert_eq!(parse_signed_usize("\u{ff15}"), Err(InvalidCount));
    assert_eq!(parse_signed_usize("5\u{e9}"), Err(InvalidCount));
    assert_eq!(parse_signed_usize("\u{2212}5"), Err(InvalidCount));
}

#[test]
fn largest_count_is_accepted() {
    let largest = format!("{}", usize::MAX);
    assert_eq!(parse_signed_usize(&largest), Ok(SignedUsize::Positive(usize::MAX)));
    let negative = format!("-{}", usize::MAX);
    assert_eq!(parse_signed_usize(&negative), Ok(SignedUsize::Negative(usize::MAX)));
}

#[test]
fn count_beyond_the_machine_word_is_rejected() {
    let tenfold = format!("{}0", usize::MAX);
    assert_eq!(parse_signed_usize(&tenfold), Err(InvalidCount));
    let digits = format!("{}", usize::MAX);
    let (head, last) = digits.split_at(digits.len() - 1);
    let next = format!("{}{}", head, last.parse::<u8>().unwrap() + 1);
    assert_eq!(parse_signed_usize(&next), Err(InvalidCount));
    assert_eq!(parse_signed_usize("99999999999999999999999999999999999999999"), Err(InvalidCount));
}

#[test]
fn rejected_count_has_its_message() {
    let error = parse_signed_usize("0").unwrap_err();
    assert_eq!(error.message(), "invalid zero-value");
}

#[test]
fn default_options_read_ten_lines_of_standard_input() {
    let options = Options::default();
    assert_eq!(options.files, vec!["-".to_string()]);
    assert_eq!(options.lines, SignedUsize::Positive(10));
    assert_eq!(options.bytes, None);
    assert_eq!(options.mode(), Mode::Lines(SignedUsize::Positive(10)));
}

#[test]
fn byte_count_selects_byte_mode() {
    let options = Options {
        files: vec!["a".to_string()],
        lines: SignedUsize::Positive(10),
        bytes: Some(SignedUsize::Negative(4)),
    };
    assert_eq!(options.mode(), Mode::Bytes(SignedUsize::Negative(4)));
}

#[test]
fn counts_are_made_only_from_nonzero_numbers() {
    assert_eq!(SignedUsize::positive(3), Some(SignedUsize::Positive(3)));
    assert_eq!(SignedUsize::negative(3), Some(SignedUsize::Negative(3)));
    assert_eq!(SignedUsize::positive(0), None);
    assert_eq!(SignedUsize::negative(0), None);
}
