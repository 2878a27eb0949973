use oqqwall::qzone::{BatchAction, BatchPublish};
use oqqwall::json::{JsonNumber, JsonValue};
use oqqwall::qzone::{
    build_cookie_header, build_publish_text_for_batch, classify_http_status,
    classify_http_status_with_body, classify_response_error, classify_text_error,
    collect_batch_post_ids, decode_inline_source, extract_balanced_json, extract_bo,
    ext_from_content_type, generate_gtk, get_picbo_and_richval, id128_hex, mime_from_path,
    parse_cookie_string, proxy_callback_candidates, retry_delay_ms, select_send_accounts,
    should_mention, summarize_response_body, BatchPostInfo, IngressAuthor, QueuedSendPlan,
    QzoneError, QzoneErrorKind, RequeuePostPlan, SendPriority,
};

fn s(text: &str) -> JsonValue {
    JsonValue::Str(text.to_string())
}

fn obj(members: Vec<(&str, JsonValue)>) -> JsonValue {
    JsonValue::Object(members.into_iter().map(|(k, v)| (k.to_string(), v)).collect())
}

fn plan(post_id: u128, seq: u64, image_count: usize) -> QueuedSendPlan {
    QueuedSendPlan {
        post_id,
        group_id: "g".to_string(),
        priority: SendPriority::Normal,
        not_before_ms: 0,
        seq,
        image_count,
    }
}

fn requeue_ids(plans: &[RequeuePostPlan]) -> Vec<u128> {
    plans.iter().map(|plan| plan.post_id).collect()
}

#[test]
fn classify_response_error_includes_code_and_body() {
    let json = obj(vec![
        ("data", obj(vec![("reason", s("quota exceeded"))])),
        ("message", s("upload blocked")),
        ("ret", JsonValue::Number(JsonNumber::PosInt(10045))),
    ]);
    let text = r#"{"data":{"reason":"quota exceeded"},"message":"upload blocked","ret":10045}"#;

    let err = classify_response_error(&json, text).expect("expected response error");
    assert!(err.message.contains("upload blocked"));
    assert!(err.message.contains("code=10045"));
    assert!(err.message.contains("\"ret\":10045"));
    assert!(err.message.contains("\"reason\":\"quota exceeded\""));
}

#[test]
fn collect_batch_post_ids_respects_max_queue_limit() {
    let plans = vec![plan(1, 1, 2), plan(2, 2, 2), plan(3, 3, 2)];
    let (batch, requeue) =
        collect_batch_post_ids(&plans, "g", 1, SendPriority::Normal, 1_000, 2, 0, 2);
    assert_eq!(batch, vec![1, 2]);
    assert_eq!(requeue_ids(&requeue), vec![2, 3]);
}

#[test]
fn collect_batch_post_ids_stops_before_image_limit_overflow() {
    let plans = vec![plan(1, 1, 3), plan(2, 2, 3), plan(3, 3, 5)];
    let (batch, requeue) =
        collect_batch_post_ids(&plans, "g", 1, SendPriority::Normal, 1_000, 3, 6, 3);
    assert_eq!(batch, vec![1, 2]);
    assert_eq!(requeue_ids(&requeue), vec![2, 3]);
}

#[test]
fn batch_follows_queue_order_and_skips_other_groups() {
    let mut other = plan(9, 0, 0);
    other.group_id = "h".to_string();
    let mut later = plan(8, 1, 0);
    later.not_before_ms = 5_000;
    let plans = vec![plan(4, 3, 0), plan(1, 2, 0), other, later, plan(2, 2, 0), plan(3, 1, 0)];
    let (batch, requeue) =
        collect_batch_post_ids(&plans, "g", 4, SendPriority::Normal, 1_000, 0, 0, 0);
    assert_eq!(batch, vec![4, 3, 1, 2]);
    assert_eq!(requeue_ids(&requeue), vec![3, 1, 2]);
    let (alone, _) = collect_batch_post_ids(&plans, "g", 4, SendPriority::High, 1_000, 0, 0, 0);
    assert_eq!(alone, vec![4]);
}

#[test]
fn accounts_are_trimmed_and_unique() {
    let accounts = vec![" 1 ".to_string(), "".to_string(), "1".to_string(), "2".to_string()];
    assert_eq!(select_send_accounts(Some(&accounts), "9"), vec!["1", "2"]);
    assert_eq!(select_send_accounts(None, "9"), vec!["9"]);
    assert_eq!(select_send_accounts(Some(&vec!["  ".to_string()]), "9"), vec!["9"]);
}

#[test]
fn publish_text_names_range_and_authors() {
    let author = |id: &str, name: Option<&str>| IngressAuthor {
        user_id: id.to_string(),
        sender_name: name.map(|n| n.to_string()),
    };
    let posts = vec![
        BatchPostInfo {
            post_id: 100,
            external_code: Some(12),
            review_code: Some(3),
            anonymous: false,
            authors: vec![author(" 111 ", Some("A")), author("0", Some("Z"))],
        },
        BatchPostInfo {
            post_id: 101,
            external_code: None,
            review_code: Some(15),
            anonymous: false,
            authors: vec![author("111", Some("A")), author("222", None)],
        },
        BatchPostInfo {
            post_id: 102,
            external_code: None,
            review_code: None,
            anonymous: true,
            authors: vec![author("333", Some("C"))],
        },
    ];
    assert_eq!(
        build_publish_text_for_batch(&posts, true),
        "#12~102 @{uin:111,nick:,who:1}"
    );
    assert_eq!(build_publish_text_for_batch(&posts[..1].to_vec(), false), "#12");
    assert_eq!(build_publish_text_for_batch(&Vec::new(), true), "#0");
    assert!(!should_mention(&author("unknown", Some("x"))));
    assert!(!should_mention(&author("5", Some("  "))));
    assert!(should_mention(&author("5", Some("x"))));
}

#[test]
fn http_status_kinds() {
    assert_eq!(classify_http_status("up", 403).kind, QzoneErrorKind::Account);
    assert_eq!(classify_http_status("up", 429).kind, QzoneErrorKind::RiskControl);
    assert_eq!(classify_http_status("up", 502).kind, QzoneErrorKind::Network);
    let e = classify_http_status_with_body("up", 404, "  nope ");
    assert_eq!(e.kind, QzoneErrorKind::Unknown);
    assert_eq!(e.message, "up: http 404; body=nope");
    let ctx = QzoneError::unknown("x").with_context("publish");
    assert_eq!(ctx.message, "publish: x");
}

#[test]
fn long_bodies_are_cut() {
    let body = "a".repeat(600);
    let summary = summarize_response_body(&body);
    assert!(summary.starts_with(&"a".repeat(512)));
    assert!(summary.ends_with("...(truncated, 600 chars total)"));
    assert_eq!(summarize_response_body(" \n"), "<empty>");
}

#[test]
fn text_error_kinds() {
    assert_eq!(classify_text_error("Cookie expired").kind, QzoneErrorKind::Account);
    assert_eq!(classify_text_error("请先登录").kind, QzoneErrorKind::Account);
    assert_eq!(classify_text_error("操作频繁").kind, QzoneErrorKind::RiskControl);
    assert_eq!(classify_text_error("connect reset").kind, QzoneErrorKind::Network);
    assert_eq!(classify_text_error("weird").kind, QzoneErrorKind::Unknown);
}

#[test]
fn retry_delays_double_and_cap() {
    assert_eq!(retry_delay_ms(QzoneErrorKind::Network, 0), 5_000);
    assert_eq!(retry_delay_ms(QzoneErrorKind::Network, 1), 5_000);
    assert_eq!(retry_delay_ms(QzoneErrorKind::Network, 3), 20_000);
    assert_eq!(retry_delay_ms(QzoneErrorKind::Network, 30), 60_000);
    assert_eq!(retry_delay_ms(QzoneErrorKind::Account, 2), 1_200_000);
}

#[test]
fn cookies_round_trip() {
    let cookies = parse_cookie_string(" uin=o1 ; skey=@abc; ; noval; uin = o2 ;=x");
    assert_eq!(
        cookies,
        vec![
            ("uin".to_string(), "o2".to_string()),
            ("skey".to_string(), "@abc".to_string()),
            ("noval".to_string(), "".to_string())
        ]
    );
    assert_eq!(build_cookie_header(&cookies), "uin=o2; skey=@abc; noval=");
}

#[test]
fn gtk_of_known_keys() {
    assert_eq!(generate_gtk(""), "5381");
    assert_eq!(generate_gtk("a"), ((5381u32 * 33 + 97) & 0x7fffffff).to_string());
}

#[test]
fn upload_reply_fields() {
    assert_eq!(extract_bo("http://x/a?bo=AbC&x=1"), Some("AbC".to_string()));
    assert_eq!(extract_bo("http://x/a?bo=&x=1"), None);
    assert_eq!(extract_bo("http://x/a"), None);
    let data = obj(vec![
        ("url", s("http://p/x?bo=URL&y")),
        ("pre", s("http://p/x?bo=PRE")),
        ("albumid", s("alb")),
        ("lloc", s("L")),
        ("sloc", s("S")),
        ("type", JsonValue::Number(JsonNumber::PosInt(1))),
        ("height", JsonValue::Number(JsonNumber::PosInt(600))),
        ("width", JsonValue::Number(JsonNumber::PosInt(800))),
    ]);
    let reply = obj(vec![("ret", JsonValue::Number(JsonNumber::PosInt(0))), ("data", data)]);
    let (picbo, richval) = get_picbo_and_richval(&reply, "{}").unwrap();
    assert_eq!(picbo, "PRE\tURL");
    assert_eq!(richval, ",alb,L,S,1,600,800,,600,800");
    let failed = obj(vec![("ret", JsonValue::Number(JsonNumber::NegInt(-3)))]);
    let err = get_picbo_and_richval(&failed, "{\"ret\":-3}").unwrap_err();
    assert_eq!(err.message, "upload image failed; code=-3; body={\"ret\":-3}");
}

#[test]
fn inline_sources_and_types() {
    let (mime, bytes) = decode_inline_source("data:image/png;base64,aGk=").unwrap().unwrap();
    assert_eq!(mime, Some("image/png".to_string()));
    assert_eq!(bytes, b"hi".to_vec());
    let (mime, bytes) = decode_inline_source("data:;x,hi").unwrap().unwrap();
    assert_eq!(mime, None);
    assert_eq!(bytes, b"hi".to_vec());
    assert!(decode_inline_source("data:nocomma").is_err());
    assert!(decode_inline_source("/tmp/a.png").unwrap().is_none());
    assert_eq!(ext_from_content_type(" IMAGE/JPEG ; q=1"), Some("jpg"));
    assert_eq!(ext_from_content_type("text/plain"), None);
    assert_eq!(mime_from_path("/a/b.SVGZ"), Some("image/svg+xml"));
    assert_eq!(mime_from_path("/a/b"), None);
    assert_eq!(id128_hex(255), "000000000000000000000000000000ff");
}

#[test]
fn callback_pages_give_their_json() {
    assert_eq!(
        extract_balanced_json(r#"x{"a":"}",{"b":1}}y"#, 1),
        Some(r#"{"a":"}",{"b":1}}"#.to_string())
    );
    assert_eq!(extract_balanced_json("{{}", 0), None);
    let body = r#"<script>frameElement.callback({"ret":0,"data":{}});</script>"#;
    let candidates = proxy_callback_candidates(body);
    assert_eq!(candidates[0], body);
    assert_eq!(candidates[1], r#"{"ret":0,"data":{}}"#);
}

#[test]
fn batch_publishes_chunk_by_chunk_and_keeps_the_first_id() {
    let (mut b, a) = BatchPublish::start(5, 2);
    assert!(matches!(a, BatchAction::Publish { start: 0, end: 2 }));
    let a = b.on_published(Ok("t1".to_string()));
    assert!(matches!(a, BatchAction::Publish { start: 2, end: 4 }));
    let a = b.on_published(Ok("t2".to_string()));
    assert!(matches!(a, BatchAction::Publish { start: 4, end: 5 }));
    match b.on_published(Ok("t3".to_string())) {
        BatchAction::Done { first_tid } => assert_eq!(first_tid.as_deref(), Some("t1")),
        _ => panic!("not done"),
    }
}

#[test]
fn batch_stops_at_the_first_failure_and_refreshes_cookies() {
    let (mut b, _) = BatchPublish::start(3, 0);
    match b.on_published(Err(QzoneError::unknown("boom"))) {
        BatchAction::Fail { error, refresh_cookies } => {
            assert!(refresh_cookies);
            assert_eq!(error.message, "boom");
        }
        _ => panic!("not a failure"),
    }
    match BatchPublish::start(0, 2).1 {
        BatchAction::Fail { error, refresh_cookies } => {
            assert!(!refresh_cookies);
            assert_eq!(error.message, "empty images");
        }
        _ => panic!("not a failure"),
    }
}
