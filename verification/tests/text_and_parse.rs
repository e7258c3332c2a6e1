use esp_guessing::game::GuessingGame;
use esp_guessing::number::{is_padding_char, parse_trimmed_u32};
use esp_guessing::text::{decimal_string, nth};

#[test]
fn nth_words_up_to_nine() {
    let words = [
        "zeroth", "first", "second", "third", "fourth", "fifth", "sixth", "seventh", "eighth",
        "ninth",
    ];
    for (n, w) in words.iter().enumerate() {
        assert_eq!(nth(n as u32), *w);
    }
}

#[test]
fn nth_teens_take_th() {
    assert_eq!(nth(10), "10th");
    assert_eq!(nth(11), "11th");
    assert_eq!(nth(12), "12th");
    assert_eq!(nth(13), "13th");
    assert_eq!(nth(14), "14th");
}

#[test]
fn nth_suffix_follows_last_digit() {
    assert_eq!(nth(21), "21st");
    assert_eq!(nth(22), "22nd");
    assert_eq!(nth(23), "23rd");
    assert_eq!(nth(24), "24th");
    assert_eq!(nth(30), "30th");
    assert_eq!(nth(101), "101st");
    assert_eq!(nth(102), "102nd");
    assert_eq!(nth(103), "103rd");
    assert_eq!(nth(111), "111th");
    assert_eq!(nth(112), "112th");
    assert_eq!(nth(113), "113th");
    assert_eq!(nth(121), "121st");
    assert_eq!(nth(211), "211th");
    assert_eq!(nth(1013), "1013th");
    assert_eq!(nth(u32::MAX), "4294967295th");
}

#[test]
fn decimal_strings() {
    assert_eq!(decimal_string(0), "0");
    assert_eq!(decimal_string(7), "7");
    assert_eq!(decimal_string(10), "10");
    assert_eq!(decimal_string(1234567890), "1234567890");
    assert_eq!(decimal_string(u128::MAX), u128::MAX.to_string());
}

#[test]
fn padding_matches_std_for_every_char() {
    for u in 0u32..=0x10ffff {
        if let Some(c) = char::from_u32(u) {
            assert_eq!(
                is_padding_char(c),
                c.is_ascii_control() || c.is_whitespace(),
                "char U+{:04X}",
                u
            );
        }
    }
}

fn std_reading(input: &str) -> Option<u32> {
    u32::from_str_radix(
        input.trim_matches(|c: char| c.is_ascii_control() || c.is_whitespace()),
        10,
    )
    .ok()
}

#[test]
fn trimmed_reading_matches_std() {
    let samples = [
        "", "0", "7", "42", " 42 ", "\t42\r\n", "\u{0}\u{0}7\u{0}", "\u{3000}5\u{a0}", "+5", "+",
        "-", "-5", "++5", "4 2", "007", "4294967295", "4294967296", "99999999999", "abc", "12a",
        "a12", " + 5", "\u{7f}9", "\u{2028}100\u{2029}", "٣", "1\u{200b}",
    ];
    for s in samples.iter() {
        assert_eq!(parse_trimmed_u32(s), std_reading(s), "input {:?}", s);
    }
}

#[test]
fn parse_guess_accepts_one_to_hundred() {
    assert_eq!(GuessingGame::parse_guess("1"), Some(1));
    assert_eq!(GuessingGame::parse_guess("100"), Some(100));
    assert_eq!(GuessingGame::parse_guess(" 42\n"), Some(42));
    assert_eq!(GuessingGame::parse_guess("\u{0}\u{0}7"), Some(7));
    assert_eq!(GuessingGame::parse_guess("+50"), Some(50));
    assert_eq!(GuessingGame::parse_guess("007"), Some(7));
}

#[test]
fn parse_guess_rejects_the_rest() {
    assert_eq!(GuessingGame::parse_guess("0"), None);
    assert_eq!(GuessingGame::parse_guess("101"), None);
    assert_eq!(GuessingGame::parse_guess(""), None);
    assert_eq!(GuessingGame::parse_guess("abc"), None);
    assert_eq!(GuessingGame::parse_guess("-5"), None);
    assert_eq!(GuessingGame::parse_guess("4 2"), None);
    assert_eq!(GuessingGame::parse_guess("99999999999"), None);
}

#[test]
fn every_number_in_range_reads_back() {
    for n in 1u32..=100 {
        assert_eq!(GuessingGame::parse_guess(&decimal_string(n as u128)), Some(n));
    }
}
