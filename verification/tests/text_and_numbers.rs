use esp32_workshop::json::{bool_literal, bytes_to_hex, json_escape};
use esp32_workshop::number::{
    decimal_in, from_hex_pair, padded_end, padded_start, parse_unsigned, repeat_char, to_decimal,
    to_hex, to_hex_digit,
};
use esp32_workshop::query::{
    find_number, find_parameter, percent_decode, query_chars, query_param,
};
use esp32_workshop::text::{
    chars_of, contains_text, find, replace_all, same, same_text, slice_chars, split_at_char,
    split_once_at, string_of,
};

fn text(chars: &[char]) -> String {
    chars.iter().collect()
}

#[test]
fn find_gives_the_first_place() {
    let s = chars_of("abcabc");
    assert_eq!(find(&s, &chars_of("bc"), 0), Some(1));
    assert_eq!(find(&s, &chars_of("bc"), 2), Some(4));
    assert_eq!(find(&s, &chars_of("x"), 0), None);
    assert_eq!(find(&s, &[], 6), Some(6));
    assert_eq!(find(&s, &[], 7), None);
}

#[test]
fn contains_and_equality() {
    assert!(contains_text("GET / HTTP/1.1\r\n\r\n", "\r\n\r\n"));
    assert!(!contains_text("GET / HTTP/1.1\r\n", "\r\n\r\n"));
    assert!(contains_text("", ""));
    assert!(same_text("ä", "ä"));
    assert!(!same_text("a", "ab"));
    assert!(same(&[], &[]));
}

#[test]
fn split_then_join_gives_the_text_back() {
    for s in ["", "a", "a&b", "&", "a&&b", "x=1&y=2&"] {
        let parts = split_at_char(&chars_of(s), '&');
        let joined: Vec<String> = parts.iter().map(|p| text(p)).collect();
        assert_eq!(joined.join("&"), s);
        assert!(parts.iter().all(|p| !p.contains(&'&')));
        let plain: Vec<&str> = s.split('&').collect();
        assert_eq!(joined, plain);
    }
}

#[test]
fn split_once_stops_at_the_first_separator() {
    let (head, tail) = split_once_at(&chars_of("a=b=c"), &['=']).unwrap();
    assert_eq!((text(&head).as_str(), text(&tail).as_str()), ("a", "b=c"));
    assert!(split_once_at(&chars_of("abc"), &['=']).is_none());
    assert_eq!(text(&slice_chars(&chars_of("abcdef"), 2, 4)), "cd");
    assert_eq!(string_of(&['o', 'k']), "ok");
}

#[test]
fn replace_agrees_with_the_standard_library() {
    for (s, from, to) in [
        ("aaa", "aa", "b"),
        ("{{A}} and {{A}}", "{{A}}", "card"),
        ("nothing here", "{{A}}", "card"),
        ("", "x", "y"),
        ("xx", "x", "xx"),
    ] {
        assert_eq!(replace_all(s, from, to), s.replace(from, to));
    }
}

#[test]
fn replace_keeps_other_text() {
    assert_eq!(replace_all("plain", "{{A}}", "card"), "plain");
}

#[test]
fn numbers_are_written_and_read_back() {
    for n in [0u64, 1, 9, 10, 99, 100, 4095, u32::MAX as u64, u64::MAX] {
        let s = to_decimal(n);
        assert_eq!(s, n.to_string());
        assert_eq!(parse_unsigned(&chars_of(&s), u64::MAX), Some(n));
        assert_eq!(to_hex(n, true), format!("{:X}", n));
        assert_eq!(to_hex(n, false), format!("{:x}", n));
    }
    assert_eq!(to_hex_digit(11, true), 'B');
    assert_eq!(to_hex_digit(11, false), 'b');
}

#[test]
fn numbers_are_refused_like_the_standard_library_refuses_them() {
    for s in [
        "", "+", "-", "+7", "-7", "007", "12a", " 1", "4294967295", "4294967296",
        "18446744073709551615", "18446744073709551616", "99999999999999999999999",
    ] {
        let c = chars_of(s);
        assert_eq!(parse_unsigned(&c, u32::MAX as u64).map(|v| v as u32), s.parse::<u32>().ok());
        assert_eq!(parse_unsigned(&c, u64::MAX), s.parse::<u64>().ok());
    }
}

#[test]
fn padding_agrees_with_format() {
    assert_eq!(decimal_in(40, 3), format!("{:>3}", 40));
    assert_eq!(decimal_in(12345, 3), format!("{:>3}", 12345));
    assert_eq!(padded_start("7F", 8, '0'), "0000007F");
    assert_eq!(padded_end("ab", 5, ' '), format!("{:<5}", "ab"));
    assert_eq!(repeat_char('─', 3), "───");
    assert_eq!(repeat_char('x', 0), "");
}

#[test]
fn hex_pairs_are_read_like_the_standard_library_reads_them() {
    for hi in 0u8..128 {
        for lo in 0u8..128 {
            let s = format!("{}{}", hi as char, lo as char);
            assert_eq!(from_hex_pair(hi, lo), u8::from_str_radix(&s, 16).ok(), "{:?}", s);
        }
    }
    assert_eq!(from_hex_pair(200, 48), None);
}

#[test]
fn byte_strings_come_out_as_lower_case_hex() {
    assert_eq!(bytes_to_hex(&[0x00, 0x0f, 0xa5, 0xff]), "000fa5ff");
    assert_eq!(bytes_to_hex(&[]), "");
    assert_ne!(bytes_to_hex(&[1, 16]), bytes_to_hex(&[17, 0]));
}

fn unescape(s: &str) -> String {
    let mut out = String::new();
    let mut it = s.chars();
    while let Some(c) = it.next() {
        if c != '\\' {
            out.push(c);
            continue;
        }
        match it.next().unwrap() {
            'n' => out.push('\n'),
            'r' => out.push('\r'),
            't' => out.push('\t'),
            'u' => {
                let code: String = (0..4).map(|_| it.next().unwrap()).collect();
                out.push(char::from_u32(u32::from_str_radix(&code, 16).unwrap()).unwrap());
            }
            other => out.push(other),
        }
    }
    out
}

#[test]
fn json_escapes_can_be_undone() {
    assert_eq!(json_escape("a\"b\\c\n\r\t\u{1}\u{1f}ü"), "a\\\"b\\\\c\\n\\r\\t\\u0001\\u001fü");
    for code in 0u32..0x100 {
        let s: String = char::from_u32(code).unwrap().to_string();
        assert_eq!(unescape(&json_escape(&s)), s);
    }
    assert_eq!(bool_literal(true), "true");
    assert_eq!(bool_literal(false), "false");
}

#[test]
fn query_parameters() {
    let q = query_chars("/api/beep?duration_ms=10&x=&duration_ms=20");
    assert_eq!(text(&q), "duration_ms=10&x=&duration_ms=20");
    assert_eq!(text(&find_parameter(&q, "duration_ms=").unwrap()), "10");
    assert_eq!(text(&find_parameter(&q, "x=").unwrap()), "");
    assert!(find_parameter(&q, "y=").is_none());
    assert_eq!(find_number(&q, "duration_ms=", u64::MAX, 200), 10);
    assert_eq!(find_number(&q, "x=", u64::MAX, 200), 200);
    assert_eq!(find_number(&q, "duration_ms=", 9, 3), 3);
    assert!(query_chars("/api/beep").is_empty());
    assert_eq!(text(&query_chars("/a?b?c")), "b?c");
}

#[test]
fn query_values_by_name() {
    assert_eq!(query_param("/t?msg=a=b&color=ff", "msg").as_deref(), Some("a=b"));
    assert_eq!(query_param("/t?flag&msg=x", "flag"), None);
    assert_eq!(query_param("/t?msg=x", "ms"), None);
    assert_eq!(query_param("/t", "msg"), None);
    assert_eq!(query_param("/t?msg=1&msg=2", "msg").as_deref(), Some("1"));
}

#[test]
fn percent_decoding() {
    assert_eq!(percent_decode("Hello%20World%21"), "Hello World!");
    assert_eq!(percent_decode("100%"), "100%");
    assert_eq!(percent_decode("%4"), "%4");
    assert_eq!(percent_decode("%zz%41"), "%zzA");
    assert_eq!(percent_decode("%+5"), "\u{5}");
    assert_eq!(percent_decode("%e9"), "é");
    assert_eq!(percent_decode("é"), "\u{c3}\u{a9}");
    assert_eq!(percent_decode("plain text"), "plain text");
    let encoded: String = (0u8..=255).map(|b| format!("%{:02X}", b)).collect();
    let wanted: String = (0u8..=255).map(|b| b as char).collect();
    assert_eq!(percent_decode(&encoded), wanted);
}

#[test]
fn escapes_of_either_case_are_decoded() {
    for code in 0u8..=255 {
        let wanted = (code as char).to_string();
        assert_eq!(percent_decode(&format!("%{:02X}", code)), wanted);
        assert_eq!(percent_decode(&format!("%{:02x}", code)), wanted);
    }
    assert_eq!(percent_decode("%4a%4B%cD%Ef"), "JK\u{cd}\u{ef}");
}
