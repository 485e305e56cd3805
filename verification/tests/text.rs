use rustboard::text::{parse_u32, str_contains, str_eq};

#[test]
fn str_eq_compares_characters() {
    assert!(str_eq("in", "in"));
    assert!(!str_eq("in", "out"));
    assert!(!str_eq("in", "inn"));
    assert!(str_eq("", ""));
    assert!(str_eq("héllo", "héllo"));
    assert!(!str_eq("héllo", "hello"));
}

#[test]
fn str_contains_finds_substrings() {
    assert!(str_contains("WEBRTC VoiceEngine:input_FL", "WEBRTC"));
    assert!(str_contains("Loopback MOMENTUM", "MOMENTUM"));
    assert!(str_contains("abc", "abc"));
    assert!(str_contains("abc", ""));
    assert!(str_contains("", ""));
    assert!(!str_contains("", "a"));
    assert!(!str_contains("webrtc", "WEBRTC"));
    assert!(!str_contains("WEBRT", "WEBRTC"));
    assert!(str_contains("ääWEBRTC", "WEBRTC"));
}

#[test]
fn parse_u32_accepts_what_std_accepts() {
    for s in ["0", "42", "+7", "007", "4294967295", "", "+", "-", "-1", "-0", "4294967296", "99999999999", "12a", " 1", "1 ", "+-1", "++1", "٣"] {
        assert_eq!(parse_u32(s), s.parse::<u32>().ok(), "input {:?}", s);
    }
}

#[test]
fn parse_u32_values() {
    assert_eq!(parse_u32("57"), Some(57));
    assert_eq!(parse_u32("+4294967295"), Some(u32::MAX));
    assert_eq!(parse_u32("4294967296"), None);
    assert_eq!(parse_u32("node"), None);
}
