use soundex::{consonants_digit_map, fold_serial_digits, round_or_pad, soundex};

#[test]
fn test_soundex() {
    assert_eq!(soundex("Robert"), "R163");
    assert_eq!(soundex("Rupert"), "R163");
    assert_eq!(soundex("Rubin"), "R150");
    assert_eq!(soundex("Ashcraft"), "A261");
    assert_eq!(soundex("Ashcroft"), "A261");
    assert_eq!(soundex("Tymczak"), "T052");
}

#[test]
fn test_soundex_deterministic() {
    assert_eq!(soundex("Robert"), soundex("Robert"));
    assert_eq!(soundex(""), soundex(""));
    assert_eq!(soundex("x1y2"), soundex("x1y2"));
}

#[test]
fn test_soundex_fixed_length() {
    assert_eq!(soundex("").len(), 4);
    assert_eq!(soundex("A").len(), 4);
    assert_eq!(soundex("Robert").len(), 4);
    assert_eq!(soundex("a very long input with many words").len(), 4);
    assert_eq!(soundex("!!!").len(), 4);
}

#[test]
fn test_soundex_format() {
    for input in ["Robert", "ashcroft", "Q", "zzz"] {
        let code = soundex(input);
        let mut chars = code.chars();
        let first = chars.next().unwrap();
        assert!(first.is_ascii_uppercase());
        for c in chars {
            assert!(('0'..='6').contains(&c));
        }
    }
}

#[test]
fn test_soundex_case_insensitive() {
    assert_eq!(soundex("ROBERT"), soundex("Robert"));
    assert_eq!(soundex("robert"), soundex("Robert"));
    assert_eq!(soundex("TYMCZAK"), soundex("tymczak"));
    assert_eq!(soundex("AsHcRoFt"), soundex("ashcroft"));
}

#[test]
fn test_soundex_short_inputs() {
    assert_eq!(soundex(""), "0000");
    assert_eq!(soundex("A"), "A000");
    assert_eq!(soundex("b"), "B000");
    assert_eq!(soundex("Bo"), "B000");
}

#[test]
fn test_soundex_truncates_long_codes() {
    assert_eq!(soundex("Robertson"), "R163");
    assert_eq!(soundex("bcdlmr"), "B234");
}

#[test]
fn test_soundex_folds_runs() {
    // A doubled letter of one phonetic class yields its digit once.
    assert_eq!(soundex("Schloss"), "S242");
    // Duplicates separated only by an elided vowel still fold.
    assert_eq!(soundex("Ashcraft"), "A261");
}

#[test]
fn test_soundex_non_letters() {
    // Characters without a phonetic class count as class 0; the leading
    // character is kept whatever it is.
    assert_eq!(soundex("123"), "1000");
    assert_eq!(soundex("-bd"), "-130");
}

#[test]
fn test_consonants_digit_map_classes() {
    for c in ['b', 'f', 'p', 'v'] {
        assert_eq!(consonants_digit_map(c), '1');
    }
    for c in ['c', 'g', 'j', 'k', 'q', 's', 'x', 'z'] {
        assert_eq!(consonants_digit_map(c), '2');
    }
    for c in ['d', 't'] {
        assert_eq!(consonants_digit_map(c), '3');
    }
    assert_eq!(consonants_digit_map('l'), '4');
    for c in ['m', 'n'] {
        assert_eq!(consonants_digit_map(c), '5');
    }
    assert_eq!(consonants_digit_map('r'), '6');
    for c in ['a', 'e', 'h', 'i', 'o', 'u', 'w', 'y', '3', '-'] {
        assert_eq!(consonants_digit_map(c), '0');
    }
}

#[test]
fn test_fold_serial_digits() {
    assert_eq!(fold_serial_digits(String::from("R1133")), "R13");
    assert_eq!(fold_serial_digits(String::from("A22613")), "A2613");
    assert_eq!(fold_serial_digits(String::from("T0522")), "T052");
    assert_eq!(fold_serial_digits(String::from("")), "");
    assert_eq!(fold_serial_digits(String::from("111")), "1");
}

#[test]
fn test_round_or_pad() {
    assert_eq!(round_or_pad(String::from("R1")), "R100");
    assert_eq!(round_or_pad(String::from("")), "0000");
    assert_eq!(round_or_pad(String::from("R163")), "R163");
    assert_eq!(round_or_pad(String::from("R16352")), "R163");
}
