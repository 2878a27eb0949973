use oqqwall::codec::{hex_lower, sha256_hex};
use oqqwall::debug_log::{
    debug, error, format_log, info, log, strip_ansi, success, timestamp, trace, warn, CYAN, DIM,
    RESET,
};
use oqqwall::json::{json_string, nonempty, JsonNumber, JsonValue};
use oqqwall::text::{parse_u64_str, trim_str, u64_to_string, i64_to_string};

#[test]
fn timestamps_are_china_time() {
    assert_eq!(timestamp(0, 5), "08:00:00.005");
    assert_eq!(timestamp(16 * 3600 + 61, 999), "00:01:01.999");
}

#[test]
fn log_lines_with_and_without_colour() {
    assert_eq!(format_log("T", CYAN, "INFO", "hi", false), "T INFO hi");
    assert_eq!(
        format_log("T", CYAN, "INFO", "hi", true),
        format!("{DIM}T{RESET} {CYAN}INFO{RESET} hi")
    );
    assert_eq!(info("T", "x", false), "T INFO x");
    assert_eq!(success("T", "x", false), "T  OK  x");
    assert_eq!(warn("T", "x", false), "T WARN x");
    assert_eq!(error("T", "x", false), "T ERR  x");
    assert_eq!(debug("T", "x", false), "T DBG  x");
    assert_eq!(log("T", "x", false), "T x");
    assert_eq!(trace("T", "x", false), "T TRC x");
    assert_eq!(trace("T", "x", true), format!("{DIM}T TRC x{RESET}"));
}

#[test]
fn ansi_sequences_are_stripped() {
    assert_eq!(strip_ansi(&info("T", "x", true)), "T INFO x");
    assert_eq!(strip_ansi("a\x1b[1;31mb"), "ab");
    assert_eq!(strip_ansi("plain"), "plain");
}

#[test]
fn numbers_and_text() {
    assert_eq!(u64_to_string(0), "0");
    assert_eq!(u64_to_string(18446744073709551615), "18446744073709551615");
    assert_eq!(i64_to_string(i64::MIN), "-9223372036854775808");
    assert_eq!(parse_u64_str("+007"), Some(7));
    assert_eq!(parse_u64_str("18446744073709551616"), None);
    assert_eq!(parse_u64_str(""), None);
    assert_eq!(trim_str("\u{3000} a b \n"), "a b");
}

#[test]
fn hashes_in_hex() {
    assert_eq!(hex_lower(&[0, 255, 16]), "00ff10");
    assert_eq!(
        sha256_hex(b"abc"),
        "ba7816bf8f01cfea414140de5dae2223b00361a396177a9cb410ff61f20015ad"
    );
}

#[test]
fn json_values_as_text() {
    assert_eq!(json_string(&JsonValue::Number(JsonNumber::NegInt(-4))), Some("-4".to_string()));
    assert_eq!(json_string(&JsonValue::Bool(true)), None);
    assert_eq!(nonempty("  x "), Some("x".to_string()));
    assert_eq!(nonempty("   "), None);
    let o = JsonValue::Object(vec![
        ("k".to_string(), JsonValue::Str("first".to_string())),
        ("k".to_string(), JsonValue::Str("last".to_string())),
    ]);
    assert_eq!(o.get("k").and_then(|v| v.as_str()), Some("last"));
    assert!(o.get("missing").is_none());
}
