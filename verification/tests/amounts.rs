use centsh::money::{format_currency, parse_amount};
use centsh::cashflow::month_label;
use centsh::text::{char_is_white_space, chars_of, push_decimal, text_is_before, trim};

#[test]
fn parse_amount_reads_plain_numbers() {
    assert_eq!(parse_amount("0"), Some(0));
    assert_eq!(parse_amount("12"), Some(1200));
    assert_eq!(parse_amount("12.5"), Some(1250));
    assert_eq!(parse_amount("12.50"), Some(1250));
    assert_eq!(parse_amount("12.05"), Some(1205));
    assert_eq!(parse_amount("007"), Some(700));
    assert_eq!(parse_amount("5."), Some(500));
    assert_eq!(parse_amount(".5"), Some(50));
}

#[test]
fn parse_amount_reads_signs() {
    assert_eq!(parse_amount("-20"), Some(-2000));
    assert_eq!(parse_amount("+20"), Some(2000));
    assert_eq!(parse_amount("-0.01"), Some(-1));
    assert_eq!(parse_amount("-0"), Some(0));
    assert_eq!(parse_amount("-.5"), Some(-50));
}

#[test]
fn parse_amount_rounds_halves_away_from_zero() {
    assert_eq!(parse_amount("12.344"), Some(1234));
    assert_eq!(parse_amount("12.345"), Some(1235));
    assert_eq!(parse_amount("12.3449999"), Some(1234));
    assert_eq!(parse_amount("0.995"), Some(100));
    assert_eq!(parse_amount("-12.345"), Some(-1235));
    assert_eq!(parse_amount("-12.344"), Some(-1234));
    assert_eq!(parse_amount("0.004"), Some(0));
}

#[test]
fn parse_amount_refuses_what_is_no_number() {
    assert_eq!(parse_amount(""), None);
    assert_eq!(parse_amount("-"), None);
    assert_eq!(parse_amount("+"), None);
    assert_eq!(parse_amount("."), None);
    assert_eq!(parse_amount("-."), None);
    assert_eq!(parse_amount("12.5x"), None);
    assert_eq!(parse_amount("x12"), None);
    assert_eq!(parse_amount("1.2.3"), None);
    assert_eq!(parse_amount("--1"), None);
    assert_eq!(parse_amount("1-"), None);
    assert_eq!(parse_amount("1e3"), None);
    assert_eq!(parse_amount(" 1"), None);
    assert_eq!(parse_amount("1 "), None);
    assert_eq!(parse_amount("$5"), None);
    assert_eq!(parse_amount("1,5"), None);
    assert_eq!(parse_amount("١٢"), None);
}

#[test]
fn parse_amount_keeps_to_the_range() {
    assert_eq!(parse_amount("92233720368547758.07"), Some(i64::MAX));
    assert_eq!(parse_amount("92233720368547758.08"), None);
    assert_eq!(parse_amount("92233720368547758.074"), Some(i64::MAX));
    assert_eq!(parse_amount("92233720368547758.075"), None);
    assert_eq!(parse_amount("-92233720368547758.08"), Some(i64::MIN));
    assert_eq!(parse_amount("-92233720368547758.09"), None);
    assert_eq!(parse_amount("92233720368547759"), None);
    assert_eq!(parse_amount("922337203685477580"), None);
    assert_eq!(parse_amount("99999999999999999999999999999999999999999"), None);
    assert_eq!(parse_amount("99999999999999999999999999999999999999999x"), None);
    assert_eq!(parse_amount("00000000000000000000000000000000000000001"), Some(100));
}

#[test]
fn trim_takes_white_space_from_both_ends() {
    assert_eq!(trim("  rent  "), "rent");
    assert_eq!(trim("\t a b \n"), "a b");
    assert_eq!(trim("rent"), "rent");
    assert_eq!(trim(""), "");
    assert_eq!(trim("   "), "");
    assert_eq!(trim("\u{a0}caf\u{e9}\u{3000}"), "caf\u{e9}");
    assert_eq!(trim("\u{200b}x"), "\u{200b}x");
}

#[test]
fn trim_agrees_with_std() {
    for text in ["", " ", " a", "a ", " a b ", "\u{2003}\u{2028}x\u{85}", "\u{1680}", "é "] {
        assert_eq!(trim(text), text.trim());
    }
}

#[test]
fn white_space_is_the_unicode_property() {
    let mut code = 0u32;
    while code <= 0x3100 {
        if let Some(c) = char::from_u32(code) {
            assert_eq!(char_is_white_space(c), c.is_whitespace());
        }
        code += 1;
    }
    assert!(!char_is_white_space('\u{feff}'));
}

#[test]
fn chars_of_gives_every_character() {
    assert_eq!(chars_of("aé€"), vec!['a', 'é', '€']);
    assert_eq!(chars_of(""), Vec::<char>::new());
}

#[test]
fn text_is_before_is_the_order_of_str() {
    let texts = ["", "a", "ab", "b", "2024-03", "2024-10", "999-01", "1000-01", "-5-01", "é", "z"];
    for a in texts {
        for b in texts {
            assert_eq!(text_is_before(a, b), a < b);
        }
    }
}

#[test]
fn push_decimal_appends_the_digits() {
    let mut text = String::from("n=");
    push_decimal(&mut text, 0);
    assert_eq!(text, "n=0");
    push_decimal(&mut text, 7);
    push_decimal(&mut text, 10);
    push_decimal(&mut text, 9005);
    assert_eq!(text, "n=07109005");
    let mut text = String::new();
    push_decimal(&mut text, u128::MAX);
    assert_eq!(text, "340282366920938463463374607431768211455");
}

#[test]
fn month_label_prints_as_std_does() {
    let years = [0, 1, 9, 10, 999, 1000, 2024, 9999, 10000, 262142, -1, -5, -262143, i32::MAX, i32::MIN];
    let months = [0, 1, 9, 10, 12, 13, 100, u32::MAX];
    for year in years {
        for month in months {
            assert_eq!(month_label(year, month), format!("{year}-{month:02}"));
        }
    }
    assert_eq!(month_label(2024, 3), "2024-03");
    assert_eq!(month_label(2024, 11), "2024-11");
    assert_eq!(month_label(-5, 1), "-5-01");
}

#[test]
fn format_currency_shows_two_digits() {
    assert_eq!(format_currency(0), "$0.00");
    assert_eq!(format_currency(5), "$0.05");
    assert_eq!(format_currency(50), "$0.50");
    assert_eq!(format_currency(1234), "$12.34");
    assert_eq!(format_currency(170000), "$1700.00");
    assert_eq!(format_currency(-1), "-$0.01");
    assert_eq!(format_currency(-410000), "-$4100.00");
    assert_eq!(format_currency(-1205), "-$12.05");
    assert_eq!(
        format_currency(i128::MAX),
        "$1701411834604692317316873037158841057.27"
    );
    assert_eq!(
        format_currency(i128::MIN),
        "-$1701411834604692317316873037158841057.28"
    );
}
