use pulsar_core::text::{find, parse_number, push_decimal, same, same_but_case, to_lower, trim, white};

#[test]
fn white_space_is_what_std_calls_so() {
    for u in 0..=0x10FFFFu32 {
        if let Some(c) = char::from_u32(u) {
            assert_eq!(white(c), c.is_whitespace(), "{u:x}");
        }
    }
}

#[test]
fn trimming_is_what_std_does() {
    for s in ["", " ", "a", " a", "a ", "\u{3000}a b\t\n", "\u{a0}ğ\u{2028}", "a\u{200b}"] {
        assert_eq!(trim(s), s.trim());
    }
}

#[test]
fn case_is_ascii_case() {
    for s in ["", "aBcXYZ", "Ğİ I", "[@`{]", "Relay.Example:9000"] {
        assert_eq!(to_lower(s), s.to_ascii_lowercase());
        assert!(same_but_case(s, &s.to_ascii_uppercase()));
    }
    assert!(!same_but_case("Ğ", "ğ"));
    assert!(!same_but_case("a", "ab"));
    assert!(same("ab", "ab") && !same("ab", "aB") && !same("ab", "abc"));
}

#[test]
fn numbers_are_read_as_std_reads_them() {
    for s in [
        "", "+", "-", "0", "+0", "-0", "00", "65535", "65536", "0000065535", "4294967295",
        "4294967296", "99999999999999999999", "1a", " 1", "1 ", "++1", "٣",
    ] {
        assert_eq!(parse_number(s, u32::MAX), s.parse::<u32>().ok(), "{s}");
        assert_eq!(parse_number(s, 65535), s.parse::<u16>().ok().map(|n| n as u32), "{s}");
    }
}

#[test]
fn numbers_are_written_as_std_writes_them() {
    for n in [0u32, 7, 10, 21116, 4_294_967_295] {
        let mut s = String::from("x");
        push_decimal(&mut s, n);
        assert_eq!(s, format!("x{n}"));
    }
}

#[test]
fn characters_are_found_at_their_place() {
    assert_eq!(find("ğa:b:", ':'), Some(2));
    assert_eq!(find("abc", ':'), None);
}
