use obj_mesh::number::{check_float_literal, is_ascii_digit, parse_u32};
use obj_mesh::Numeral;

fn chars(text: &str) -> Vec<char> {
    text.chars().collect()
}

#[test]
fn unsigned_integers() {
    assert_eq!(parse_u32(&chars("0")), Some(0));
    assert_eq!(parse_u32(&chars("1")), Some(1));
    assert_eq!(parse_u32(&chars("42")), Some(42));
    assert_eq!(parse_u32(&chars("+42")), Some(42));
    assert_eq!(parse_u32(&chars("0042")), Some(42));
    assert_eq!(parse_u32(&chars("4294967295")), Some(u32::MAX));
    assert_eq!(parse_u32(&chars("00000000004294967295")), Some(u32::MAX));
    assert_eq!(parse_u32(&chars("4294967296")), None);
    assert_eq!(parse_u32(&chars("42949672950")), None);
    assert_eq!(parse_u32(&chars("99999999999999999999999999")), None);
    assert_eq!(parse_u32(&chars("")), None);
    assert_eq!(parse_u32(&chars("+")), None);
    assert_eq!(parse_u32(&chars("-")), None);
    assert_eq!(parse_u32(&chars("-1")), None);
    assert_eq!(parse_u32(&chars("-0")), None);
    assert_eq!(parse_u32(&chars("++1")), None);
    assert_eq!(parse_u32(&chars("1+")), None);
    assert_eq!(parse_u32(&chars("1 ")), None);
    assert_eq!(parse_u32(&chars(" 1")), None);
    assert_eq!(parse_u32(&chars("1.0")), None);
    assert_eq!(parse_u32(&chars("1e3")), None);
    assert_eq!(parse_u32(&chars("0x10")), None);
    assert_eq!(parse_u32(&chars("1_000")), None);
    assert_eq!(parse_u32(&chars("١")), None);
    assert_eq!(parse_u32(&chars("４")), None);
}

#[test]
fn unsigned_integers_as_std_reads_them() {
    let samples = [
        "", "0", "7", "+7", "-7", "+", "-", "007", "4294967295", "4294967296", "4294967300",
        "18446744073709551616", "12a", "a12", "1 2", "1/2", "+-1", "++1", "1+", "0.", ".0", "９",
        "000000000000000000000000000000001", "429496729", "4294967294", "+4294967295",
        "+4294967296", "\t1", "1\n",
    ];
    for sample in samples {
        assert_eq!(parse_u32(&chars(sample)), sample.parse::<u32>().ok(), "{:?}", sample);
    }
    for value in [0u32, 1, 9, 10, 99, 100, 65535, 65536, 999_999_999, 1_000_000_000, u32::MAX - 1] {
        assert_eq!(parse_u32(&chars(&value.to_string())), Some(value));
    }
}

#[test]
fn digits() {
    for c in '0'..='9' {
        assert!(is_ascii_digit(c));
    }
    for c in ['/', ':', 'a', ' ', '+', '-', '.', '٣', '０'] {
        assert!(!is_ascii_digit(c));
    }
}

#[test]
fn float_literals() {
    for good in [
        "0", "1", "-1", "+1", "1.", ".5", "-.5", "+.5", "1.5", "007.500", "1e5", "1E5", "1e+5",
        "1e-5", "1.e5", ".5e5", "1.5E-10", "1e0005", "inf", "-inf", "+inf", "INF", "Inf",
        "infinity", "INFINITY", "-Infinity", "nan", "NaN", "NAN", "-nan", "+NaN",
        "123456789012345678901234567890", "1e999999", "0.00000000000000000000000000001",
    ] {
        assert!(check_float_literal(&chars(good)), "{:?}", good);
    }
    for bad in [
        "", "+", "-", ".", "+.", "-.", "e", "e5", ".e5", "1e", "1e+", "1e-", "1e5.", "1e5e5",
        "1.2.3", "1..2", "--1", "+-1", "1-", "1+", "1 ", " 1", "1,5", "0x10", "1_000", "1f",
        "1.0f32", "in", "infi", "infinit", "infinityy", "na", "nann", "n", "i", "i n f",
        "1inf", "inf1", "1nan", "١", "１.５", "1e５",
    ] {
        assert!(!check_float_literal(&chars(bad)), "{:?}", bad);
    }
}

#[test]
fn float_literals_as_std_reads_them() {
    let pieces = ["", "+", "-", "0", "12", ".", "e", "E", "inf", "nan", "Infinity", "x", "e+", "e-3"];
    for a in pieces {
        for b in pieces {
            for c in pieces {
                for d in pieces {
                    let sample = format!("{}{}{}{}", a, b, c, d);
                    assert_eq!(
                        check_float_literal(&chars(&sample)),
                        sample.parse::<f32>().is_ok(),
                        "{:?}",
                        sample
                    );
                    assert_eq!(
                        check_float_literal(&chars(&sample)),
                        sample.parse::<f64>().is_ok(),
                        "{:?}",
                        sample
                    );
                }
            }
        }
    }
}

#[test]
fn numerals() {
    assert_eq!(Numeral::zero().as_str(), "0");
    assert_eq!(Numeral::one().as_str(), "1");
    assert_eq!(Numeral::zero().as_str().parse::<f32>().unwrap(), 0.0);
    assert_eq!(Numeral::one().as_str().parse::<f32>().unwrap(), 1.0);
    let numeral = Numeral::parse(&chars("-12.5e-1")).unwrap();
    assert_eq!(numeral.as_str(), "-12.5e-1");
    assert_eq!(numeral.as_str().parse::<f32>().unwrap(), -1.25);
    assert_eq!(numeral.clone(), numeral);
    assert_eq!(Numeral::parse(&chars("1")), Some(Numeral::one()));
    assert_ne!(Numeral::parse(&chars("1.0")), Some(Numeral::one()));
    assert_eq!(Numeral::parse(&chars("one")), None);
    assert_eq!(Numeral::parse(&chars("")), None);
    assert_eq!(Numeral::parse(&chars("1 ")), None);
}
