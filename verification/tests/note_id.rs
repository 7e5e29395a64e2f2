use notes::note_id::NoteId;
use std::str::FromStr;

#[test]
fn parses_plain_decimal_numbers() {
    assert_eq!(NoteId::from_str("0"), Ok(NoteId(0)));
    assert_eq!(NoteId::from_str("1"), Ok(NoteId(1)));
    assert_eq!(NoteId::from_str("42"), Ok(NoteId(42)));
    assert_eq!(NoteId::from_str("1234567890"), Ok(NoteId(1234567890)));
}

#[test]
fn parses_leading_zeros() {
    assert_eq!(NoteId::from_str("00012"), Ok(NoteId(12)));
    assert_eq!(NoteId::from_str("0000000000000000000000000001"), Ok(NoteId(1)));
}

#[test]
fn parses_one_leading_plus_sign() {
    assert_eq!(NoteId::from_str("+5"), Ok(NoteId(5)));
    assert_eq!(NoteId::from_str("+0"), Ok(NoteId(0)));
    assert_eq!(NoteId::from_str("++5"), Err(()));
    assert_eq!(NoteId::from_str("5+"), Err(()));
}

#[test]
fn rejects_text_without_digits() {
    assert_eq!(NoteId::from_str(""), Err(()));
    assert_eq!(NoteId::from_str("+"), Err(()));
    assert_eq!(NoteId::from_str("abc"), Err(()));
    assert_eq!(NoteId::from_str("/"), Err(()));
}

#[test]
fn rejects_negative_numbers() {
    assert_eq!(NoteId::from_str("-1"), Err(()));
    assert_eq!(NoteId::from_str("-0"), Err(()));
}

#[test]
fn rejects_anything_around_the_digits() {
    assert_eq!(NoteId::from_str(" 1"), Err(()));
    assert_eq!(NoteId::from_str("1 "), Err(()));
    assert_eq!(NoteId::from_str("12a"), Err(()));
    assert_eq!(NoteId::from_str("1_000"), Err(()));
    assert_eq!(NoteId::from_str("1.0"), Err(()));
    assert_eq!(NoteId::from_str("0x10"), Err(()));
}

#[test]
fn rejects_digits_outside_ascii() {
    assert_eq!(NoteId::from_str("\u{ff11}\u{ff12}"), Err(()));
    assert_eq!(NoteId::from_str("1\u{e9}"), Err(()));
    assert_eq!(NoteId::from_str("\u{661}"), Err(()));
}

#[test]
fn parses_up_to_the_largest_identifier() {
    assert_eq!(NoteId::from_str("18446744073709551615"), Ok(NoteId(u64::MAX)));
    assert_eq!(NoteId::from_str("18446744073709551614"), Ok(NoteId(u64::MAX - 1)));
    assert_eq!(NoteId::from_str("018446744073709551615"), Ok(NoteId(u64::MAX)));
}

#[test]
fn rejects_numbers_that_do_not_fit() {
    assert_eq!(NoteId::from_str("18446744073709551616"), Err(()));
    assert_eq!(NoteId::from_str("18446744073709551620"), Err(()));
    assert_eq!(NoteId::from_str("99999999999999999999"), Err(()));
    assert_eq!(NoteId::from_str("184467440737095516150"), Err(()));
    assert_eq!(NoteId::from_str("100000000000000000000000000000000"), Err(()));
}

#[test]
fn parse_method_of_text_goes_through_from_str() {
    assert_eq!(NoteId::from_str("7"), Ok(NoteId(7)));
    assert_eq!(NoteId::from_str("seven"), Err(()));
    assert_eq!("19".parse::<NoteId>(), Ok(NoteId(19)));
    assert_eq!("".parse::<NoteId>(), Err(()));
}

#[test]
fn agrees_with_the_standard_integer_parser() {
    let samples = [
        "", "+", "-", "0", "+0", "-0", "1", "+1", "-1", "007", "+007", "9", "10", "99", "100",
        "4294967295", "4294967296", "18446744073709551615", "+18446744073709551615",
        "18446744073709551616", "28446744073709551615", "1e3", "1,000", "1 000", "\t1", "1\n",
        "one", "0b1", "0o7", "١٢٣", "1²", "++1", "+-1", "1+1", "/1", "1/", "%31",
    ];
    for text in samples {
        let expected = text.parse::<u64>().map(NoteId).map_err(|_| ());
        assert_eq!(NoteId::from_str(text), expected, "input {:?}", text);
    }
    for n in 0u64..2000 {
        let text = format!("{}", n);
        assert_eq!(NoteId::from_str(&text), Ok(NoteId(n)));
    }
}

#[test]
fn identifiers_compare_by_their_number() {
    assert_eq!(NoteId(3), NoteId(3));
    assert_ne!(NoteId(3), NoteId(4));
    let id = NoteId(9);
    let copy = id;
    assert_eq!(id.0, copy.0);
}

#[test]
fn agrees_with_the_standard_integer_parser_on_generated_text() {
    let alphabet: Vec<char> = "0123456789+- a_".chars().collect();
    let mut state: u64 = 0x2545_f491_4f6c_dd1d;
    for _ in 0..20000 {
        let mut text = String::new();
        state = state.wrapping_mul(6364136223846793005).wrapping_add(1442695040888963407);
        let len = (state >> 59) as usize % 24;
        for _ in 0..len {
            state = state.wrapping_mul(6364136223846793005).wrapping_add(1442695040888963407);
            let pick = (state >> 33) as usize % 40;
            let c = if pick < alphabet.len() { alphabet[pick] } else { alphabet[pick % 10] };
            text.push(c);
        }
        let expected = text.parse::<u64>().map(NoteId).map_err(|_| ());
        assert_eq!(NoteId::from_str(&text), expected, "input {:?}", text);
    }
}
