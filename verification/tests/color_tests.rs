use tree_tui::color::{
    gradient_cuts_hold, hex_cuts_hold, invalid_hex_count, is_valid_hex, parse_gradient, parse_hex,
    ThemeColor,
};

#[test]
fn parse_hex_reads_rgb() {
    assert_eq!(parse_hex("#FF8000"), ThemeColor::Rgb(255, 128, 0));
    assert_eq!(parse_hex("#cad3f5"), ThemeColor::Rgb(0xca, 0xd3, 0xf5));
}

#[test]
fn parse_hex_ignores_spaces_and_all_leading_hashes() {
    assert_eq!(parse_hex("  #ff8000 \t"), ThemeColor::Rgb(255, 128, 0));
    assert_eq!(parse_hex("##12ab34"), ThemeColor::Rgb(0x12, 0xab, 0x34));
    assert_eq!(parse_hex("12ab34"), ThemeColor::Rgb(0x12, 0xab, 0x34));
}

#[test]
fn parse_hex_wrong_length_is_white() {
    assert_eq!(parse_hex("#FFF"), ThemeColor::White);
    assert_eq!(parse_hex(""), ThemeColor::White);
    assert_eq!(parse_hex("#1234567"), ThemeColor::White);
}

#[test]
fn parse_hex_bad_channel_is_255() {
    assert_eq!(parse_hex("#GG0000"), ThemeColor::Rgb(255, 0, 0));
    assert_eq!(parse_hex("#00zz00"), ThemeColor::Rgb(0, 255, 0));
    assert_eq!(parse_hex("#-10000"), ThemeColor::Rgb(255, 0, 0));
}

#[test]
fn parse_hex_plus_sign_reads_one_digit() {
    assert_eq!(parse_hex("+f1234"), ThemeColor::Rgb(15, 0x12, 0x34));
    assert_eq!(parse_hex("++1234"), ThemeColor::Rgb(255, 0x12, 0x34));
}

#[test]
fn parse_hex_counts_bytes_not_chars() {
    // "é" is two bytes: "éé12" is six bytes long, cut at character boundaries.
    assert_eq!(parse_hex("éé12"), ThemeColor::Rgb(255, 255, 0x12));
    assert!(hex_cuts_hold("éé12"));
    // "ab€c" is six bytes long but byte 4 falls inside "€".
    assert!(!hex_cuts_hold("ab€c"));
}

#[test]
fn is_valid_hex_cases() {
    assert!(is_valid_hex("#A6DA95"));
    assert!(is_valid_hex(" a6da95 "));
    assert!(is_valid_hex("#+fffff"));
    assert!(!is_valid_hex("#12345"));
    assert!(!is_valid_hex("#12345G"));
    assert!(!is_valid_hex("#+"));
}

#[test]
fn parse_gradient_reads_each_piece() {
    assert_eq!(
        parse_gradient("#8AADF4, #7DC4E4"),
        vec![ThemeColor::Rgb(0x8a, 0xad, 0xf4), ThemeColor::Rgb(0x7d, 0xc4, 0xe4)]
    );
}

#[test]
fn parse_gradient_skips_blank_pieces() {
    assert_eq!(
        parse_gradient(" , #000000,, "),
        vec![ThemeColor::Rgb(0, 0, 0)]
    );
    assert_eq!(parse_gradient("abc,#000000"), vec![ThemeColor::White, ThemeColor::Rgb(0, 0, 0)]);
}

#[test]
fn parse_gradient_empty_list_is_white() {
    assert_eq!(parse_gradient(""), vec![ThemeColor::White]);
    assert_eq!(parse_gradient(" , ,"), vec![ThemeColor::White]);
}

#[test]
fn gradient_cuts_check() {
    assert!(gradient_cuts_hold("#FFFFFF, éé12"));
    assert!(!gradient_cuts_hold("#FFFFFF, ab€c"));
}

#[test]
fn invalid_hex_count_counts_bad_pieces() {
    assert_eq!(invalid_hex_count("#FFF, #000000, zz, "), 2);
    assert_eq!(invalid_hex_count("#494D64, #5B6078"), 0);
    assert_eq!(invalid_hex_count(""), 0);
}

#[test]
fn law_gradient_never_empty_example() {
    for list in ["", ",", "x", "#000000"] {
        assert!(!parse_gradient(list).is_empty());
    }
}

#[test]
fn law_valid_hex_read_exactly_example() {
    for hex in ["#A6DA95", "+fffff", " #00ff10 "] {
        assert!(is_valid_hex(hex));
        match parse_hex(hex) {
            ThemeColor::Rgb(_, _, _) => {}
            ThemeColor::White => panic!("a valid colour read as white"),
        }
    }
    assert_eq!(parse_hex("+fffff"), ThemeColor::Rgb(15, 255, 255));
}

#[test]
fn law_hex_ignores_surrounding_space_example() {
    assert_eq!(parse_hex(" \u{3000}#ABCDEF\n"), parse_hex("#ABCDEF"));
    assert_eq!(is_valid_hex("\u{a0}#ABCDEF"), is_valid_hex("#ABCDEF"));
}

#[test]
fn channels_spell_the_six_digit_number() {
    let n: u32 = u32::from_str_radix("12AB5F", 16).unwrap();
    assert_eq!(
        parse_hex("#12AB5F"),
        ThemeColor::Rgb((n >> 16) as u8, (n >> 8) as u8, n as u8)
    );
    // A leading '+' counts as a sign: the five digits make the number.
    let m: u32 = u32::from_str_radix("+2345A", 16).unwrap();
    assert_eq!(
        parse_hex("+2345A"),
        ThemeColor::Rgb((m >> 16) as u8, (m >> 8) as u8, m as u8)
    );
}
