use oqqwall::card::{
    contact_uin_url, find_json_string, first_meta_value, json_field_string, normalize_card_json,
    parse_json_card_view,
};
use oqqwall::json::JsonValue;

fn text(t: &str) -> JsonValue {
    JsonValue::Str(t.to_string())
}

fn object(members: Vec<(&str, JsonValue)>) -> JsonValue {
    JsonValue::Object(members.into_iter().map(|(k, v)| (k.to_string(), v)).collect())
}

#[test]
fn card_text_escapes_are_undone() {
    assert_eq!(normalize_card_json("a&#44;b\\/c"), "a,b/c");
    assert_eq!(normalize_card_json("&#44;&#44;"), ",,");
    assert_eq!(normalize_card_json("plain"), "plain");
    assert_eq!(normalize_card_json("\\\\/"), "\\/");
}

#[test]
fn fields_take_the_first_string_key() {
    let v = object(vec![
        ("title", JsonValue::Number(oqqwall::json::JsonNumber::PosInt(3))),
        ("name", text("  Name  ")),
    ]);
    assert_eq!(json_field_string(&v, &["title", "name"]), Some("Name".to_string()));
    let blank = object(vec![("title", text("   ")), ("name", text("x"))]);
    assert_eq!(json_field_string(&blank, &["title", "name"]), None);
    assert_eq!(json_field_string(&text("x"), &["title"]), None);
}

#[test]
fn first_meta_and_contact_numbers() {
    let v = object(vec![("meta", object(vec![("a", text("1")), ("b", text("2"))]))]);
    assert!(matches!(first_meta_value(&v), Some(JsonValue::Str(t)) if t == "1"));
    assert!(first_meta_value(&object(vec![("meta", object(vec![]))])).is_none());
    let c = object(vec![("contact", text("QQ: 12-1234567 x"))]);
    assert_eq!(contact_uin_url(&c), Some("https://mp.qzone.qq.com/u/1234567".to_string()));
    let short = object(vec![("contact", text("1234 5678"))]);
    assert_eq!(contact_uin_url(&short), None);
}

#[test]
fn search_goes_through_keys_then_members() {
    let v = object(vec![
        ("a", JsonValue::Array(vec![JsonValue::Null, object(vec![("title", text(" deep "))])])),
        ("title", text("   ")),
    ]);
    assert_eq!(find_json_string(&v, &["title"]), Some("deep".to_string()));
    assert_eq!(find_json_string(&text(" s "), &["title"]), Some("s".to_string()));
    assert_eq!(find_json_string(&JsonValue::Bool(true), &["title"]), None);
}

#[test]
fn contact_cards_link_to_the_profile() {
    let v = object(vec![
        ("view", text("contact")),
        ("meta", object(vec![("contact", object(vec![("contact", text("QQ 10001234"))]))])),
    ]);
    let c = parse_json_card_view(Some(&v));
    assert_eq!(c.view_kind, "contact");
    assert_eq!(c.title, "联系人");
    assert_eq!(c.jump_url, Some("https://mp.qzone.qq.com/u/10001234".to_string()));
    assert_eq!(c.desc, Some("QQ 10001234".to_string()));
}

#[test]
fn miniapp_and_news_cards() {
    let m = object(vec![
        ("view", text("miniapp")),
        (
            "meta",
            object(vec![(
                "miniapp",
                object(vec![("title", text("App")), ("sourcelogo", text("logo.png"))]),
            )]),
        ),
    ]);
    let c = parse_json_card_view(Some(&m));
    assert_eq!(c.title, "App");
    assert_eq!(c.brand_icon_source, Some("logo.png".to_string()));
    let n = object(vec![
        ("view", text("news")),
        ("meta", object(vec![("news", object(vec![("jumpUrl", text("https://n"))]))])),
    ]);
    let c = parse_json_card_view(Some(&n));
    assert_eq!(c.title, "分享");
    assert_eq!(c.jump_url, Some("https://n".to_string()));
}

#[test]
fn other_cards_read_the_first_meta_value_or_search() {
    let g = object(vec![
        ("prompt", text("[分享]hello")),
        ("meta", object(vec![("detail", object(vec![("desc", text("d"))]))])),
    ]);
    let c = parse_json_card_view(Some(&g));
    assert_eq!(c.view_kind, "json");
    assert_eq!(c.title, "[分享]hello");
    assert_eq!(c.desc, Some("d".to_string()));
    let bare = object(vec![("inner", object(vec![("url", text("u"))])), ("type", text("x"))]);
    let c = parse_json_card_view(Some(&bare));
    assert_eq!(c.view_kind, "x");
    assert_eq!(c.title, "u");
    assert_eq!(c.jump_url, Some("u".to_string()));
    let none = parse_json_card_view(None);
    assert_eq!(none.title, "[卡片]");
    assert_eq!(none.view_kind, "json");
    assert_eq!(none.desc, None);
}
