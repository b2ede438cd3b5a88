use num::bigint::{BigInt, Sign};
use wenyan_int::numeral::is_valid_lone_zero;
use wenyan_int::{ParseWenyanIntError, WenyanInt, WenyanIntErrorKind};

fn kind_of(text: &str) -> WenyanIntErrorKind {
    WenyanInt::from_str(text).unwrap_err().kind()
}

#[test]
fn test_from_str() {
    assert_eq!(
        WenyanInt::from_str("零").unwrap(),
        WenyanInt::from_i64(0).unwrap()
    );
    assert_eq!(
        WenyanInt::from_str("一").unwrap(),
        WenyanInt::from_i64(1).unwrap()
    );
    assert_eq!(
        WenyanInt::from_str("二").unwrap(),
        WenyanInt::from_i64(2).unwrap()
    );
    assert_eq!(
        WenyanInt::from_str("負一").unwrap(),
        WenyanInt::from_i64(-1).unwrap()
    );
}

#[test]
fn every_single_digit_reads_as_its_ordinal() {
    let digits = ["零", "一", "二", "三", "四", "五", "六", "七", "八", "九"];
    for (i, d) in digits.iter().enumerate() {
        assert_eq!(
            WenyanInt::from_str(d).unwrap(),
            WenyanInt::from_i64(i as i64).unwrap()
        );
    }
}

#[test]
fn negative_one() {
    let v = WenyanInt::from_str("負一").unwrap();
    assert_eq!(v, WenyanInt::from_i64(-1).unwrap());
    assert!(v.is_negative());
    assert_eq!(v.magnitude(), &vec![1u8]);
}

#[test]
fn sign_negates_each_nonzero_digit() {
    let digits = ["一", "二", "三", "四", "五", "六", "七", "八", "九"];
    for (i, d) in digits.iter().enumerate() {
        let plain = WenyanInt::from_str(d).unwrap();
        let signed = WenyanInt::from_str(&format!("負{}", d)).unwrap();
        assert_eq!(plain, WenyanInt::from_i64(i as i64 + 1).unwrap());
        assert_eq!(signed, WenyanInt::from_i64(-(i as i64 + 1)).unwrap());
        assert_ne!(plain, signed);
    }
}

#[test]
fn second_sign_is_redundant() {
    assert_eq!(kind_of("負負一"), WenyanIntErrorKind::RedundantSign);
    assert_eq!(kind_of("負一負"), WenyanIntErrorKind::RedundantSign);
}

#[test]
fn empty_text_is_empty_input() {
    assert_eq!(kind_of(""), WenyanIntErrorKind::Empty);
    assert_eq!(
        WenyanInt::from_str(""),
        Err(ParseWenyanIntError::new(WenyanIntErrorKind::Empty))
    );
}

#[test]
fn text_without_digits_is_empty_input() {
    assert_eq!(kind_of("負"), WenyanIntErrorKind::Empty);
    assert_eq!(kind_of("十"), WenyanIntErrorKind::Empty);
    assert_eq!(kind_of("負十十"), WenyanIntErrorKind::Empty);
}

#[test]
fn leading_zero_before_more_text_is_invalid() {
    assert_eq!(kind_of("零一"), WenyanIntErrorKind::InvalidDigit);
    assert_eq!(kind_of("零十"), WenyanIntErrorKind::InvalidDigit);
    assert_eq!(kind_of("零負"), WenyanIntErrorKind::InvalidDigit);
    assert_eq!(kind_of("零零"), WenyanIntErrorKind::InvalidDigit);
}

#[test]
fn zero_placements_that_are_accepted() {
    let zero = WenyanInt::from_i64(0).unwrap();
    assert_eq!(WenyanInt::from_str("負零").unwrap(), zero);
    assert!(!WenyanInt::from_str("負零").unwrap().is_negative());
    assert_eq!(WenyanInt::from_str("十零").unwrap(), zero);
}

#[test]
fn zero_after_a_nonzero_digit_is_invalid() {
    assert_eq!(kind_of("一零"), WenyanIntErrorKind::InvalidDigit);
    assert_eq!(kind_of("二零三"), WenyanIntErrorKind::InvalidDigit);
    assert_eq!(kind_of("負一零"), WenyanIntErrorKind::InvalidDigit);
    assert_eq!(kind_of("一零負負"), WenyanIntErrorKind::InvalidDigit);
}

#[test]
fn lone_zero_predicate() {
    let text: Vec<char> = "負十零".chars().collect();
    assert!(is_valid_lone_zero(&text, 2));
    let text: Vec<char> = "零一".chars().collect();
    assert!(!is_valid_lone_zero(&text, 0));
    let text: Vec<char> = "一零".chars().collect();
    assert!(!is_valid_lone_zero(&text, 1));
    let text: Vec<char> = "零零".chars().collect();
    assert!(!is_valid_lone_zero(&text, 0));
    assert!(is_valid_lone_zero(&text, 1));
}

#[test]
fn characters_outside_the_vocabulary_are_invalid() {
    for c in ["a", "0", "1", "百", "千", "-", " ", "〇", "壹"] {
        assert_eq!(kind_of(c), WenyanIntErrorKind::InvalidDigit);
    }
    assert_eq!(kind_of("一a"), WenyanIntErrorKind::InvalidDigit);
}

#[test]
fn first_fault_decides_the_error() {
    assert_eq!(kind_of("x負負"), WenyanIntErrorKind::InvalidDigit);
    assert_eq!(kind_of("負負x"), WenyanIntErrorKind::RedundantSign);
}

#[test]
fn digits_read_from_the_units_place_up() {
    assert_eq!(
        WenyanInt::from_str("一二").unwrap(),
        WenyanInt::from_i64(21).unwrap()
    );
    assert_eq!(
        WenyanInt::from_str("一十二").unwrap(),
        WenyanInt::from_i64(21).unwrap()
    );
    assert_eq!(
        WenyanInt::from_str("三二一負").unwrap(),
        WenyanInt::from_i64(-123).unwrap()
    );
}

#[test]
fn same_native_integer_compares_equal() {
    for n in [0i64, 1, -1, 7, -42, 1000, i64::MAX, i64::MIN] {
        assert_eq!(WenyanInt::from_i64(n).unwrap(), WenyanInt::from_i64(n).unwrap());
    }
    for n in [0u64, 9, 10, u64::MAX] {
        assert_eq!(WenyanInt::from_u64(n).unwrap(), WenyanInt::from_u64(n).unwrap());
    }
    assert_eq!(WenyanInt::from_i64(5).unwrap(), WenyanInt::from_u64(5).unwrap());
    assert_ne!(WenyanInt::from_i64(-5).unwrap(), WenyanInt::from_i64(5).unwrap());
}

#[test]
fn native_integers_keep_their_digits() {
    let min = WenyanInt::from_i64(i64::MIN).unwrap();
    assert!(min.is_negative());
    assert_eq!(
        min.magnitude(),
        &vec![8u8, 0, 8, 5, 7, 7, 4, 5, 8, 6, 3, 0, 2, 7, 3, 3, 2, 2, 9]
    );
    let max = WenyanInt::from_u64(u64::MAX).unwrap();
    assert!(!max.is_negative());
    assert_eq!(
        max.magnitude(),
        &vec![5u8, 1, 6, 1, 5, 5, 9, 0, 7, 3, 7, 0, 4, 4, 7, 6, 4, 4, 8, 1]
    );
    assert!(WenyanInt::from_i64(0).unwrap().magnitude().is_empty());
}

#[test]
fn fifty_digits_read_exactly() {
    let chars = ['一', '二', '三', '四', '五', '六', '七', '八', '九'];
    let mut text = String::new();
    let mut expected_le: Vec<u8> = Vec::new();
    for k in 0..50 {
        text.push(chars[k % 9]);
        expected_le.push((k % 9) as u8 + 1);
    }
    let v = WenyanInt::from_str(&text).unwrap();
    assert!(!v.is_negative());
    assert_eq!(v.magnitude(), &expected_le);
    let big = BigInt::from_radix_le(Sign::Plus, v.magnitude(), 10).unwrap();
    let decimal: String = expected_le.iter().rev().map(|d| (b'0' + d) as char).collect();
    assert_eq!(decimal.len(), 50);
    assert_eq!(big, BigInt::parse_bytes(decimal.as_bytes(), 10).unwrap());
    let negative = WenyanInt::from_str(&format!("負{}", text)).unwrap();
    assert!(negative.is_negative());
    assert_eq!(negative.magnitude(), &expected_le);
    assert_ne!(negative, v);
}

#[test]
fn descriptions_of_each_kind() {
    assert_eq!(
        ParseWenyanIntError::new(WenyanIntErrorKind::Empty).__description(),
        "cannot parse integer from empty string"
    );
    assert_eq!(
        ParseWenyanIntError::new(WenyanIntErrorKind::InvalidDigit).__description(),
        "invalid digit found in string"
    );
    assert_eq!(
        ParseWenyanIntError::new(WenyanIntErrorKind::RedundantSign).__description(),
        "redundant sign found in string"
    );
}

#[test]
fn parse_through_from_str_trait() {
    let v: WenyanInt = "負九".parse().unwrap();
    assert_eq!(v, WenyanInt::from_i64(-9).unwrap());
    let e: Result<WenyanInt, ParseWenyanIntError> = "負負".parse();
    assert_eq!(e.unwrap_err().kind(), WenyanIntErrorKind::RedundantSign);
}
