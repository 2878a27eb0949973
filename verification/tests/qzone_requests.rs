use oqqwall::json::{JsonNumber, JsonValue};
use oqqwall::qzone::{
    classify_reqwest_error, cookie_value, generate_gtk, image_chunks, publish_form,
    publish_outcome, upload_form, upload_json_span, upload_keys, QzoneCredentials, QzoneErrorKind,
};

fn cookies(list: &[(&str, &str)]) -> Vec<(String, String)> {
    list.iter().map(|(k, v)| (k.to_string(), v.to_string())).collect()
}

fn text(t: &str) -> JsonValue {
    JsonValue::Str(t.to_string())
}

fn object(members: Vec<(&str, JsonValue)>) -> JsonValue {
    JsonValue::Object(members.into_iter().map(|(k, v)| (k.to_string(), v)).collect())
}

#[test]
fn credentials_come_from_the_session_cookies() {
    let c = cookies(&[("uin", " o0012345 "), ("skey", "@abc"), ("p_skey", "pk")]);
    assert_eq!(cookie_value(&c, "skey"), Some(&"@abc".to_string()));
    assert_eq!(cookie_value(&c, "none"), None);
    let cred = QzoneCredentials::from_cookie_map(&c).unwrap();
    assert_eq!(cred.uin, 12345);
    assert_eq!(cred.gtk, generate_gtk("pk"));
    let only_skey = cookies(&[("skey", "@abc"), ("uin", "x1")]);
    let cred = QzoneCredentials::from_cookie_map(&only_skey).unwrap();
    assert_eq!(cred.gtk, generate_gtk("@abc"));
    assert_eq!(cred.uin, 0);
    let err = QzoneCredentials::from_cookie_map(&cookies(&[("uin", "1")])).unwrap_err();
    assert_eq!(err.kind, QzoneErrorKind::Account);
    assert_eq!(err.message, "missing p_skey/skey");
}

#[test]
fn uploads_need_both_keys() {
    assert_eq!(
        upload_keys(&cookies(&[("skey", "s"), ("p_skey", "p")])).unwrap(),
        ("s".to_string(), "p".to_string())
    );
    assert_eq!(
        upload_keys(&cookies(&[("p_skey", "p")])).unwrap(),
        ("p".to_string(), "p".to_string())
    );
    assert_eq!(upload_keys(&cookies(&[("skey", "s")])).unwrap_err().message, "missing p_skey");
    assert_eq!(upload_keys(&cookies(&[])).unwrap_err().message, "missing skey");
}

#[test]
fn publish_and_upload_forms() {
    let plain = publish_form("hello", 42, &vec![], &vec![]);
    assert_eq!(plain.len(), 14);
    assert!(plain.contains(&("con".to_string(), "hello".to_string())));
    assert!(plain.contains(&("hostuin".to_string(), "42".to_string())));
    assert!(plain.contains(&("qzreferrer".to_string(), "https://user.qzone.qq.com/42".to_string())));
    let with_images = publish_form(
        "x",
        1,
        &vec!["b1".to_string(), "b2".to_string()],
        &vec!["r1".to_string(), "r2".to_string()],
    );
    assert_eq!(with_images.len(), 18);
    assert!(with_images.contains(&("pic_bo".to_string(), "b1\tb2".to_string())));
    assert!(with_images.contains(&("richval".to_string(), "r1\tr2".to_string())));
    assert!(with_images.contains(&("subrichtype".to_string(), "1".to_string())));
    let upload = upload_form(7, "99", "s", "p", &[1, 2, 3]);
    assert!(upload.contains(&("picfile".to_string(), "AQID".to_string())));
    assert!(upload.contains(&("p_uin".to_string(), "7".to_string())));
    assert!(upload.contains(&(
        "url".to_string(),
        "https://up.qzone.qq.com/cgi-bin/upload/cgi_upload_image?g_tk=99".to_string()
    )));
    assert_eq!(upload.len(), 23);
}

#[test]
fn publish_replies_give_the_post_id_or_the_failure() {
    assert_eq!(publish_outcome("  ", None, "").unwrap(), "unknown");
    let err = publish_outcome("<html>", None, "").unwrap_err();
    assert_eq!(err.kind, QzoneErrorKind::Unknown);
    assert_eq!(err.message, "invalid publish response body");
    let ok = object(vec![("ret", JsonValue::Number(JsonNumber::PosInt(0))), ("tid", text("T1"))]);
    assert_eq!(publish_outcome("", Some(&ok), "{}").unwrap(), "T1");
    let no_tid = object(vec![("ret", JsonValue::Number(JsonNumber::PosInt(0)))]);
    assert_eq!(publish_outcome("", Some(&no_tid), "{}").unwrap(), "unknown");
    let failed = object(vec![
        ("ret", JsonValue::Number(JsonNumber::NegInt(-3000))),
        ("message", text("请先登录")),
    ]);
    let err = publish_outcome("", Some(&failed), "{\"ret\":-3000}").unwrap_err();
    assert_eq!(err.kind, QzoneErrorKind::Account);
    assert_eq!(
        err.message,
        "publish response: 请先登录; code=-3000; body={\"ret\":-3000}"
    );
}

#[test]
fn upload_replies_carry_their_json() {
    assert_eq!(
        upload_json_span("_Callback({\"a\":{\"b\":1}});").unwrap(),
        "{\"a\":{\"b\":1}}"
    );
    let err = upload_json_span("no json").unwrap_err();
    assert_eq!(err.kind, QzoneErrorKind::Unknown);
    assert_eq!(err.message, "invalid upload response");
    assert_eq!(upload_json_span("}{").unwrap(), "");
}

#[test]
fn transport_failures_are_network_failures() {
    let e = classify_reqwest_error(
        "publish request",
        "error sending request for url (https://x/)",
        None,
        Some("https://x/"),
    );
    assert_eq!(e.kind, QzoneErrorKind::Network);
    assert_eq!(
        e.message,
        "publish request: error sending request for url (https://x/); status=<none>; body=<no response>"
    );
    let e = classify_reqwest_error("upload", "timed out", Some(502), Some("https://y/"));
    assert_eq!(
        e.message,
        "upload: timed out; status=502; url=https://y/; body=<unavailable from reqwest transport error>"
    );
}

#[test]
fn images_are_shared_out_among_posts() {
    assert_eq!(image_chunks(5, 2), vec![(0, 2), (2, 4), (4, 5)]);
    assert_eq!(image_chunks(3, 0), vec![(0, 3)]);
    assert_eq!(image_chunks(0, 0), vec![]);
    assert_eq!(image_chunks(4, 9), vec![(0, 4)]);
}

use oqqwall::qzone::{
    batch_remote_ids, failure_text, kind_name, requeue_not_before, retry_at_ms, QzoneError,
    SendAction, SendRound,
};

fn accounts(list: &[&str]) -> Vec<String> {
    list.iter().map(|a| a.to_string()).collect()
}

#[test]
fn a_send_goes_through_the_accounts_in_order() {
    let (mut round, first) = SendRound::start(accounts(&["a", "b", "c"]), "sched", 2, 1000);
    assert!(matches!(first, SendAction::Publish { account } if account == "a"));
    let next = round.on_published(Ok(None));
    assert!(matches!(next, SendAction::Publish { account } if account == "b"));
    let next = round.on_published(Ok(Some("t2".to_string())));
    assert!(matches!(next, SendAction::Publish { account } if account == "c"));
    let done = round.on_published(Ok(Some("t3".to_string())));
    match done {
        SendAction::Sent { account, remote_id } => {
            assert_eq!(account, "c");
            assert_eq!(remote_id, Some("t2".to_string()));
        }
        other => panic!("unexpected {:?}", other),
    }
}

#[test]
fn a_failing_account_ends_the_send() {
    let (mut round, _) = SendRound::start(accounts(&["a", "b"]), "sched", 1, 1000);
    let failed = round.on_published(Err(QzoneError::network("timeout")));
    match failed {
        SendAction::Retry { account, attempt, retry_at_ms, error } => {
            assert_eq!(account, "a");
            assert_eq!(attempt, 1);
            assert_eq!(retry_at_ms, 6000);
            assert_eq!(error, "[Network] timeout");
        }
        other => panic!("unexpected {:?}", other),
    }
}

#[test]
fn send_times_and_failure_texts() {
    assert_eq!(kind_name(QzoneErrorKind::RiskControl), "RiskControl");
    assert_eq!(failure_text(&QzoneError::account("x")), "[Account] x");
    assert_eq!(retry_at_ms(i64::MAX - 1, QzoneErrorKind::Network, 1), i64::MAX);
    assert_eq!(retry_at_ms(0, QzoneErrorKind::Account, 2), 1_200_000);
    assert_eq!(requeue_not_before(0), 31_536_000_000);
    assert_eq!(requeue_not_before(i64::MAX), i64::MAX);
    let ids = batch_remote_ids(&vec![3, 1, 2], 1, &Some("t".to_string()));
    assert_eq!(ids, vec![(3, None), (1, Some("t".to_string())), (2, None)]);
}

use oqqwall::qzone::{append_emuqzone_post, emuqzone_route, http_response_head, EmuQzoneState, EmuRoute};

#[test]
fn the_preview_feed_keeps_the_latest_posts() {
    let mut feed = EmuQzoneState::new();
    for i in 0..55 {
        append_emuqzone_post(&mut feed, format!("post {}", i), vec!["a.png".to_string()], 100 + i);
    }
    let posts = feed.posts();
    assert_eq!(posts.len(), 50);
    assert_eq!(posts[0].id, 5);
    assert_eq!(posts[49].id, 54);
    assert_eq!(posts[49].text, "post 54");
    assert_eq!(posts[49].image_count, 1);
    assert_eq!(posts[49].status, "success");
    assert_eq!(posts[49].timestamp_ms, 154);
}

#[test]
fn the_preview_server_routes_and_answers() {
    assert_eq!(emuqzone_route("GET / HTTP/1.1\r\nHost: x\r\n\r\n"), EmuRoute::Page);
    assert_eq!(emuqzone_route("GET /data HTTP/1.1\r\n"), EmuRoute::Data);
    assert_eq!(emuqzone_route("GET /x HTTP/1.1"), EmuRoute::NotFound);
    assert_eq!(emuqzone_route("\nGET /data"), EmuRoute::Page);
    assert_eq!(
        http_response_head(404, "text/plain; charset=utf-8", 9),
        "HTTP/1.1 404 Not Found\r\nContent-Type: text/plain; charset=utf-8\r\nContent-Length: 9\r\nConnection: close\r\nAccess-Control-Allow-Origin: *\r\n\r\n"
    );
}
