use oqqwall::json::{JsonNumber, JsonValue};
use oqqwall::thankyou::{
    average_hash_of_levels, count_ones, evaluate_message, image_fetch_plan, match_text,
    normalize_hex, normalize_text, parse_u64_hex, segment_candidate, RegistryFaceEntry,
    RegistryFile, RegistryImageEntry, RegistryMfaceEntry, SegmentCandidate,
    ThankYouFeedbackKind, ThankYouFilterRuntimeConfig, ThankYouStep, ImageFetch,
};

fn s(text: &str) -> JsonValue {
    JsonValue::Str(text.to_string())
}

fn obj(members: Vec<(&str, JsonValue)>) -> JsonValue {
    JsonValue::Object(members.into_iter().map(|(k, v)| (k.to_string(), v)).collect())
}

fn segment(kind: &str, data: JsonValue) -> JsonValue {
    JsonValue::Array(vec![obj(vec![("type", s(kind)), ("data", data)])])
}

fn registry() -> RegistryFile {
    RegistryFile {
        face_ids: vec![RegistryFaceEntry {
            id: "297".to_string(),
            sha256: None,
            phash: None,
        }],
        mfaces: vec![RegistryMfaceEntry {
            emoji_package_id: Some("1".to_string()),
            emoji_id: Some("2".to_string()),
            key: Some("k".to_string()),
        }],
        file_uniques: vec!["file-u".to_string()],
        images: vec![RegistryImageEntry {
            file_unique: None,
            sha256: Some("001122".to_string()),
            phash: Some("ff00ff00ff00ff00".to_string()),
        }],
    }
}

fn config() -> ThankYouFilterRuntimeConfig {
    ThankYouFilterRuntimeConfig::with_registry_json(true, 1800, 16, 6, Ok(registry())).unwrap()
}

fn rule_of(step: ThankYouStep) -> Option<&'static str> {
    match step {
        ThankYouStep::Done(m) => m.map(|m| m.rule),
        ThankYouStep::FetchImage { .. } => panic!("unexpected fetch"),
    }
}

#[test]
fn text_exact_matches_thanks() {
    let value = segment("text", obj(vec![("text", s("谢谢！"))]));
    let matched = evaluate_message(
        &config(),
        ThankYouFeedbackKind::ManualReply,
        Some(&value),
        Some("谢谢！"),
    );
    assert_eq!(rule_of(matched).unwrap(), "text_exact");

    let value = segment("text", obj(vec![("text", s("3Q"))]));
    let matched = evaluate_message(
        &config(),
        ThankYouFeedbackKind::ManualReply,
        Some(&value),
        Some("3Q"),
    );
    assert_eq!(rule_of(matched).unwrap(), "text_exact");
}

#[test]
fn continuation_text_passes() {
    let value = segment("text", obj(vec![("text", s("谢谢，不过我还想补充"))]));
    let matched = evaluate_message(
        &config(),
        ThankYouFeedbackKind::SendSucceeded,
        Some(&value),
        Some("谢谢，不过我还想补充"),
    );
    assert!(rule_of(matched).is_none());
}

#[test]
fn confirmation_only_requires_terminal_feedback() {
    let value = segment("text", obj(vec![("text", s("收到"))]));
    assert!(rule_of(evaluate_message(
        &config(),
        ThankYouFeedbackKind::ManualReply,
        Some(&value),
        Some("收到"),
    ))
    .is_none());
    assert_eq!(
        rule_of(evaluate_message(
            &config(),
            ThankYouFeedbackKind::SendSucceeded,
            Some(&value),
            Some("收到"),
        ))
        .unwrap(),
        "text_confirm"
    );
}

#[test]
fn face_and_mface_match_registry() {
    let face = segment("face", obj(vec![("id", s("297"))]));
    assert_eq!(
        rule_of(evaluate_message(
            &config(),
            ThankYouFeedbackKind::SendSucceeded,
            Some(&face),
            None,
        ))
        .unwrap(),
        "face_id"
    );
    let mface = segment(
        "mface",
        obj(vec![
            ("emoji_package_id", JsonValue::Number(JsonNumber::PosInt(1))),
            ("emoji_id", s("2")),
            ("key", s("k")),
        ]),
    );
    assert_eq!(
        rule_of(evaluate_message(
            &config(),
            ThankYouFeedbackKind::SendSucceeded,
            Some(&mface),
            None,
        ))
        .unwrap(),
        "mface_tuple"
    );
}

#[test]
fn image_file_unique_matches_without_download() {
    let image = segment(
        "image",
        obj(vec![
            ("file_unique", s("file-u")),
            ("url", s("http://127.0.0.1/not-used.png")),
        ]),
    );
    assert_eq!(
        rule_of(evaluate_message(
            &config(),
            ThankYouFeedbackKind::SendSucceeded,
            Some(&image),
            None,
        ))
        .unwrap(),
        "image_file_unique"
    );
}

#[test]
fn unknown_image_asks_for_its_bytes() {
    let image = segment("image", obj(vec![("url", s(" http://x/y.png "))]));
    match evaluate_message(&config(), ThankYouFeedbackKind::SendSucceeded, Some(&image), None) {
        ThankYouStep::FetchImage { source } => assert_eq!(source, "http://x/y.png"),
        other => panic!("unexpected {:?}", other),
    }
}

#[test]
fn disabled_filter_matches_nothing() {
    let value = segment("text", obj(vec![("text", s("谢谢"))]));
    let off = ThankYouFilterRuntimeConfig::disabled();
    assert!(rule_of(evaluate_message(&off, ThankYouFeedbackKind::ManualReply, Some(&value), None))
        .is_none());
}

#[test]
fn two_meaningful_segments_are_not_checked() {
    let value = JsonValue::Array(vec![
        obj(vec![("type", s("text")), ("data", obj(vec![("text", s("谢谢"))]))]),
        obj(vec![("type", s("face")), ("data", obj(vec![("id", s("297"))]))]),
        obj(vec![("type", s("reply")), ("data", obj(vec![]))]),
    ]);
    assert!(segment_candidate(Some(&value), Some("谢谢")).is_none());
    let raw = segment_candidate(None, Some("  好的 "));
    match raw {
        Some(SegmentCandidate::Text(t)) => assert_eq!(t, "  好的 "),
        _ => panic!("expected text"),
    }
    assert!(segment_candidate(None, Some("   ")).is_none());
}

#[test]
fn normalizing_maps_full_width_and_drops_punctuation() {
    assert_eq!(normalize_text("谢謝！ OK"), "谢谢ok");
    assert_eq!(normalize_text("Ｔｈｘ"), "thx");
    assert_eq!(normalize_text("thx"), "thx");
    assert_eq!(normalize_text("🙏\u{fe0f}"), "🙏");
}

#[test]
fn text_rules() {
    let c = config();
    assert_eq!(match_text(&c, ThankYouFeedbackKind::ManualReply, "🙏🙏").unwrap().rule, "text_emoji");
    assert!(match_text(&c, ThankYouFeedbackKind::ManualReply, "谢谢123").is_none());
    assert!(match_text(&c, ThankYouFeedbackKind::ManualReply, "谢谢吗").is_none());
    assert!(match_text(&c, ThankYouFeedbackKind::ManualReply, "谢谢谢谢谢谢谢谢谢谢谢谢谢谢谢谢谢").is_none());
    assert_eq!(match_text(&c, ThankYouFeedbackKind::Rejected, "好的").unwrap().rule, "text_confirm");
}

#[test]
fn registry_hex_fields() {
    assert_eq!(parse_u64_hex(" 0x0xff "), Some(255));
    assert_eq!(parse_u64_hex("+1A"), Some(26));
    assert_eq!(parse_u64_hex("g"), None);
    assert_eq!(parse_u64_hex("1ffffffffffffffff"), None);
    assert_eq!(normalize_hex(Some(" AbC ")), Some("abc".to_string()));
    assert_eq!(normalize_hex(Some("  ")), None);
    assert_eq!(normalize_hex(None), None);
}

#[test]
fn registry_parse_error_is_reported() {
    let err = ThankYouFilterRuntimeConfig::with_registry_json(true, 1, 1, 1, Err("eof".to_string()))
        .unwrap_err();
    assert_eq!(err, "invalid thank_you_filter registry json: eof");
    let builtin = ThankYouFilterRuntimeConfig::builtin_enabled(Ok(registry())).unwrap();
    assert!(builtin.enabled);
    assert_eq!(builtin.window_sec, 1800);
    assert_eq!(builtin.max_text_chars, 16);
    assert_eq!(builtin.phash_distance, 6);
}

#[test]
fn average_hash_and_popcount() {
    let mut levels = vec![0u8; 64];
    levels[0] = 255;
    levels[63] = 255;
    assert_eq!(average_hash_of_levels(&levels), (1u64 << 63) | 1);
    assert_eq!(count_ones(0xff00ff00ff00ff00), 32);
    assert_eq!(count_ones(0), 0);
}

#[test]
fn image_sources_are_read_by_prefix() {
    match image_fetch_plan("base64://aGk=") {
        ImageFetch::Inline(Ok(bytes)) => assert_eq!(bytes, b"hi".to_vec()),
        other => panic!("unexpected {:?}", other),
    }
    match image_fetch_plan("data:image/png;base64,aGk=") {
        ImageFetch::Inline(Ok(bytes)) => assert_eq!(bytes, b"hi".to_vec()),
        other => panic!("unexpected {:?}", other),
    }
    match image_fetch_plan("data:nocomma") {
        ImageFetch::Inline(Err(e)) => assert_eq!(e, "invalid data uri image"),
        other => panic!("unexpected {:?}", other),
    }
    match image_fetch_plan("base64://!!") {
        ImageFetch::Inline(Err(e)) => assert!(e.starts_with("invalid base64 image: ")),
        other => panic!("unexpected {:?}", other),
    }
    match image_fetch_plan("https://a/b") {
        ImageFetch::Remote(u) => assert_eq!(u, "https://a/b"),
        other => panic!("unexpected {:?}", other),
    }
    match image_fetch_plan("file:///tmp/x.png") {
        ImageFetch::File(p) => assert_eq!(p, "/tmp/x.png"),
        other => panic!("unexpected {:?}", other),
    }
}

#[test]
fn english_thanks_keeps_its_letters() {
    assert_eq!(normalize_text("Thanks!"), "thanks");
    assert_eq!(normalize_text("a\tb\\c"), "abc");
    let value = segment("text", obj(vec![("text", s("Thanks"))]));
    let matched = evaluate_message(
        &config(),
        ThankYouFeedbackKind::ManualReply,
        Some(&value),
        Some("Thanks"),
    );
    assert_eq!(rule_of(matched).unwrap(), "text_exact");
}
