use oqqwall::card_layout::{layout_json_card_block, CardMetrics, JsonCardImages};
use oqqwall::render::ResolvedImage;
use oqqwall::render::JsonCardView;

fn measure(s: &str) -> u32 {
    8 * s.chars().count() as u32
}

fn view(kind: &str, title: &str, desc: Option<&str>, footer: Option<&str>, url: Option<&str>) -> JsonCardView {
    JsonCardView {
        view_kind: kind.to_string(),
        title: title.to_string(),
        desc: desc.map(|s| s.to_string()),
        footer: footer.map(|s| s.to_string()),
        jump_url: url.map(|s| s.to_string()),
        media_source: None,
        tag_icon_source: None,
        brand_icon_source: None,
    }
}

fn no_images() -> JsonCardImages {
    JsonCardImages { media: None, tag_icon: None, brand_icon: None }
}

fn metrics() -> CardMetrics {
    CardMetrics { card_padding: 10, card_line_height: 20, file_meta_height: 16, file_meta_gap: 4 }
}

#[test]
fn link_card_takes_the_full_width_with_its_qr_at_the_bottom() {
    let v = view("link", "A title", Some("some words here"), Some("site"), Some("https://x.y"));
    let l = layout_json_card_block(5, 7, 400, v, no_images(), &metrics(), &measure, &measure, &|_w| 0);
    assert_eq!((l.x, l.y, l.width), (5, 7, 276));
    assert_eq!(l.qr_url.as_deref(), Some("https://x.y"));
    assert_eq!(l.title_lines, vec!["A title"]);
    assert_eq!(l.footer_line.as_deref(), Some("site"));
    // title 20 + desc 16 + footer 16 = 52 text; qr at the bottom 48 + 10; padding 20
    assert_eq!(l.height, 20 + 52 + 58);
}

#[test]
fn long_title_takes_two_lines_at_most() {
    let v = view("link", "word word word word word word word word word word word word word word", None, None, None);
    let l = layout_json_card_block(0, 0, 200, v, no_images(), &metrics(), &measure, &measure, &|_w| 0);
    assert_eq!(l.title_lines.len(), 2);
    assert!(l.title_lines[1].ends_with("..."));
    assert!(l.desc_lines.is_empty());
    assert!(l.footer_line.is_none());
    assert_eq!(l.width, 200);
}

#[test]
fn contact_card_is_as_narrow_as_its_text() {
    let v = view("contact", "Bob", Some("QQ 123"), None, Some("https://q"));
    let l = layout_json_card_block(0, 0, 400, v, no_images(), &metrics(), &measure, &measure, &|_w| 0);
    // padding 20 + qr side 56 + widest text 48 + 1
    assert_eq!(l.width, 20 + 56 + 48 + 1);
    assert_eq!(l.desc_lines, vec!["QQ 123"]);
}

#[test]
fn miniapp_description_keeps_one_line() {
    let v = view("miniapp", "App", Some("line one is long enough to wrap around here"), None, None);
    let l = layout_json_card_block(0, 0, 200, v, no_images(), &metrics(), &measure, &measure, &|_w| 30);
    assert_eq!(l.desc_lines.len(), 1);
}

#[test]
fn card_pictures_are_handed_on() {
    let img = |n: u8| ResolvedImage { bytes: Some(vec![n]), width: Some(1), height: Some(1) };
    let images = JsonCardImages { media: Some(img(1)), tag_icon: Some(img(2)), brand_icon: Some(img(3)) };
    let mut v = view("link", "T", None, Some("src"), None);
    v.media_source = Some("x.png".to_string());
    let l = layout_json_card_block(0, 0, 300, v, images, &metrics(), &measure, &measure, &|w| w / 2);
    assert_eq!(l.media.as_ref().and_then(|m| m.bytes.clone()), Some(vec![1]));
    assert_eq!(l.tag_icon.as_ref().and_then(|m| m.bytes.clone()), Some(vec![2]));
    assert_eq!(l.brand_icon.as_ref().and_then(|m| m.bytes.clone()), Some(vec![3]));
    // vertical media: padding 20 + text 20 + 16 footer, then picture 10 + 138
    assert_eq!(l.height, 20 + 36 + 10 + 138);
}
