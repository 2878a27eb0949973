use oqqwall::render::{
    emoji_png_resource_path, extract_filename, file_icon_path, file_icon_text, font_alias_for_path,
    forward_placeholder, hex_encode, id128_hex, image_preview_fallback_size, inline_atom_is_break,
    inline_atom_is_whitespace, is_break_char, is_remote_http, json_card_has_side_media_slot,
    json_card_miniapp_header_height, json_card_side_media_space, json_card_tag_row_height,
    json_card_top_qr_space, json_card_uses_bottom_qr, json_card_uses_vertical_media,
    keycap_sequence_base, libqrencode_best_qr_mask, libqrencode_qr_demerit, libqrencode_qr_run_demerit, nibble_to_hex, paginate_render_pages, BlockSpan, forward_sender_name, reply_meta_text, parse_base64_url,
    parse_data_url, render_retry_delay_ms, resolved_image_from_base64_url,
    resolved_image_from_data_url, should_skip_emoji_char, trim_inline_leading_spaces,
    trim_inline_trailing_spaces, watermark_seed, DeterministicRng, InlineAtom, JsonCardView,
    RenderPreviewHeader, RendererRuntimeConfig, ResolvedImage, DEFAULT_CANVAS_WIDTH_PX,
};

fn card(kind: &str, jump: bool, media: bool) -> JsonCardView {
    JsonCardView {
        view_kind: kind.to_string(),
        title: "t".to_string(),
        desc: None,
        footer: None,
        jump_url: if jump { Some("https://x".to_string()) } else { None },
        media_source: if media { Some("a.png".to_string()) } else { None },
        tag_icon_source: None,
        brand_icon_source: None,
    }
}

#[test]
fn card_layout_rules() {
    assert!(json_card_uses_bottom_qr(&card("json", true, false)));
    assert!(!json_card_uses_bottom_qr(&card("miniapp", true, false)));
    assert!(json_card_uses_vertical_media(&card("json", false, true)));
    assert!(!json_card_uses_vertical_media(&card("news", false, true)));
    assert_eq!(json_card_top_qr_space(&card("news", true, false)), 56);
    assert_eq!(json_card_top_qr_space(&card("json", true, false)), 0);
    assert_eq!(json_card_side_media_space(&card("news", false, false), true), 56);
    assert_eq!(json_card_tag_row_height(true), 14);
    let img = ResolvedImage { bytes: Some(vec![1]), width: None, height: None };
    assert!(json_card_has_side_media_slot(&card("contact", false, false), Some(&img)));
    assert!(!json_card_has_side_media_slot(&card("json", false, true), Some(&img)));
    assert_eq!(json_card_miniapp_header_height(1, 1, true, 10, 20), 48);
    assert_eq!(json_card_miniapp_header_height(2, 3, false, 10, 20), 86);
}

#[test]
fn fallback_sizes() {
    assert_eq!(image_preview_fallback_size(800), (400, 300));
    assert_eq!(image_preview_fallback_size(200), (100, 75));
    assert_eq!(image_preview_fallback_size(1), (1, 1));
}

#[test]
fn placeholders_and_paths() {
    assert_eq!(forward_placeholder(""), "[合并转发]");
    assert_eq!(forward_placeholder("abc"), "[合并转发:abc]");
    assert_eq!(emoji_png_resource_path("emoji", 0x1f6), "emoji/gid_01f6.png");
    assert_eq!(id128_hex(1), "00000000000000000000000000000001");
    assert_eq!(hex_encode(&[0x0f, 0xa0]), "0fa0");
    assert_eq!(nibble_to_hex(11), 'b');
    assert_eq!(nibble_to_hex(16), '0');
    assert!(font_alias_for_path("fonts/a.otf").is_none());
    assert_eq!(render_retry_delay_ms(1), 10_000);
    assert_eq!(render_retry_delay_ms(5), 160_000);
    assert_eq!(render_retry_delay_ms(6), 300_000);
}

#[test]
fn watermark_randomness_is_fixed_per_post() {
    let a = watermark_seed("00ff", "wall");
    assert_eq!(a, watermark_seed("00ff", "wall"));
    assert_ne!(a, watermark_seed("00fe", "wall"));
    let mut r1 = DeterministicRng::new(a);
    let mut r2 = DeterministicRng::new(a);
    assert_eq!(r1.next_u32(), r2.next_u32());
    let mut zero = DeterministicRng::new(0);
    let mut fixed = DeterministicRng::new(0x9e3779b97f4a7c15);
    assert_eq!(zero.next_u32(), fixed.next_u32());
}

#[test]
fn keycaps_and_emoji_marks() {
    assert_eq!(keycap_sequence_base("1\u{FE0F}\u{20E3}"), Some(('1', true)));
    assert_eq!(keycap_sequence_base("#\u{20E3}"), Some(('#', false)));
    assert_eq!(keycap_sequence_base("a\u{20E3}"), None);
    assert_eq!(keycap_sequence_base("1\u{FE0F}"), None);
    assert!(should_skip_emoji_char('\u{E0067}'));
    assert!(!should_skip_emoji_char('a'));
    assert!(is_break_char('，'));
    assert!(is_break_char(' '));
    assert!(!is_break_char('a'));
}

#[test]
fn inline_lines_lose_outer_spaces() {
    let mut atoms = vec![
        InlineAtom::Char(' '),
        InlineAtom::Char('\t'),
        InlineAtom::Char('a'),
        InlineAtom::Emoji(3),
        InlineAtom::Char(' '),
    ];
    assert!(inline_atom_is_whitespace(&atoms[0]));
    assert!(inline_atom_is_break(&atoms[0]));
    assert!(!inline_atom_is_break(&InlineAtom::Face("1".to_string())));
    trim_inline_leading_spaces(&mut atoms);
    trim_inline_trailing_spaces(&mut atoms);
    assert_eq!(atoms, vec![InlineAtom::Char('a'), InlineAtom::Emoji(3)]);
}

#[test]
fn file_names_and_icons() {
    assert!(is_remote_http("https://a"));
    assert!(!is_remote_http("file:///a"));
    assert_eq!(extract_filename("http://h/a/b.pdf?x=1"), Some("b.pdf".to_string()));
    assert_eq!(extract_filename("http://h/a/"), None);
    assert_eq!(file_icon_text("report.pdf"), "PDF");
    assert_eq!(file_icon_text("archive.tar.gzip"), "GZIP");
    assert_eq!(file_icon_text("notes.markdown"), "MARK");
    assert_eq!(file_icon_text("README"), "FILE");
    assert_eq!(file_icon_path("a.DOCX"), Some("res/doc.png"));
    assert_eq!(file_icon_path("main.rs"), Some("res/code.png"));
    assert_eq!(file_icon_path("noext"), Some("res/unknown.png"));
}

#[test]
fn qr_run_penalties() {
    assert_eq!(libqrencode_qr_run_demerit(&[]), 0);
    assert_eq!(libqrencode_qr_run_demerit(&[true; 5]), 3);
    assert_eq!(libqrencode_qr_run_demerit(&[false; 7]), 5);
    let finder = [
        false, true, false, true, true, true, false, true, false, false, false, false,
    ];
    assert_eq!(libqrencode_qr_run_demerit(&finder), 40);
}

#[test]
fn data_sources_give_bytes() {
    assert_eq!(parse_data_url("data:text/plain,hi"), Some(("text/plain".to_string(), b"hi".to_vec())));
    assert_eq!(parse_data_url("data:,hi"), Some(("".to_string(), b"hi".to_vec())));
    assert_eq!(parse_data_url("data:image/png;base64,@@"), None);
    assert_eq!(parse_base64_url("base64://aGk="), Some(b"hi".to_vec()));
    let img = resolved_image_from_base64_url("base64://aGk=").unwrap();
    assert!(img.has_bytes());
    assert!(img.width.is_none());
    assert!(resolved_image_from_data_url("nope").is_none());
}

#[test]
fn settings_defaults() {
    let h = RenderPreviewHeader::default();
    assert_eq!(h.post_id_hex, "00000000000000000000000000000000");
    assert_eq!(h.sender_name, Some("fixture sender".to_string()));
    let c: RendererRuntimeConfig<()> = RendererRuntimeConfig::with_blob_root("data/blobs".to_string());
    assert_eq!(c.canvas_width_px, DEFAULT_CANVAS_WIDTH_PX);
    assert_eq!(c.max_height_px, 6912);
}

fn cells(bits: &[u8]) -> Vec<bool> {
    bits.iter().map(|b| *b == 1).collect()
}

#[test]
fn qr_penalties_of_whole_symbols() {
    let checker = cells(&[1, 0, 1, 0, 1, 0, 1, 0, 1]);
    let dark = cells(&[1; 9]);
    assert_eq!(libqrencode_qr_demerit(&checker, 3), 10);
    assert_eq!(libqrencode_qr_demerit(&dark, 3), 112);
    assert_eq!(libqrencode_qr_demerit(&cells(&[0; 25]), 5), 178);
    let mixed = cells(&[1, 1, 0, 0, 1, 0, 1, 0, 1, 1, 1, 0, 0, 0, 0, 1, 1, 1, 0, 1, 0, 0, 1, 1, 0]);
    assert_eq!(libqrencode_qr_demerit(&mixed, 5), 0);
    assert_eq!(libqrencode_qr_demerit(&cells(&[1]), 1), 100);
    let masked = vec![dark.clone(), checker.clone(), checker.clone()];
    assert_eq!(libqrencode_best_qr_mask(&masked, 3), 1);
    assert_eq!(libqrencode_best_qr_mask(&vec![dark], 3), 0);
}

fn spans(list: &[(u32, u32)]) -> Vec<BlockSpan> {
    list.iter().map(|(y, height)| BlockSpan { y: *y, height: *height }).collect()
}

#[test]
fn pages_break_between_blocks() {
    let blocks = spans(&[(10, 300), (320, 400), (730, 500), (1240, 100)]);
    assert_eq!(paginate_render_pages(&blocks, 1400, 800, 400, 20, 16), vec![(0, 722), (722, 678)]);
    assert_eq!(paginate_render_pages(&[], 0, 0, 0, 0, 0), vec![(0, 1)]);
    let tall = spans(&[(5, 2000)]);
    assert_eq!(
        paginate_render_pages(&tall, 3000, 1000, 600, 10, 10),
        vec![(0, 1000), (1000, 1000), (2000, 1000)]
    );
    let small = spans(&[(100, 50), (200, 50)]);
    assert_eq!(
        paginate_render_pages(&small, 2500, 1000, 100, 0, 40),
        vec![(0, 250), (250, 1000), (1250, 1000), (2250, 250)]
    );
}

fn jtext(t: &str) -> oqqwall::json::JsonValue {
    oqqwall::json::JsonValue::Str(t.to_string())
}

fn jobject(members: Vec<(&str, oqqwall::json::JsonValue)>) -> oqqwall::json::JsonValue {
    oqqwall::json::JsonValue::Object(members.into_iter().map(|(k, v)| (k.to_string(), v)).collect())
}

#[test]
fn reply_lines_and_forward_senders() {
    assert_eq!(reply_meta_text(Some("  2024-01-01 "), Some("9")), "2024-01-01");
    assert_eq!(reply_meta_text(Some("  "), Some(" 9 ")), "id:9");
    assert_eq!(reply_meta_text(None, None), "回复");
    let m = jobject(vec![("sender", jobject(vec![("card", jtext(" Card "))]))]);
    assert_eq!(forward_sender_name(&m), Some("Card".to_string()));
    let m = jobject(vec![
        ("sender", jobject(vec![("nickname", jtext("  "))])),
        ("sender_name", jtext("Other")),
    ]);
    assert_eq!(forward_sender_name(&m), None);
    let m = jobject(vec![("sender", jtext("x")), ("nickname", jtext("Nick"))]);
    assert_eq!(forward_sender_name(&m), Some("Nick".to_string()));
    assert_eq!(forward_sender_name(&jtext("x")), None);
}

use oqqwall::render::{
    assign_legacy_json_card_qr_urls, forward_id_action, split_forward_text, CardQrSlot,
    ForwardIdAction, ForwardPiece,
};

fn slot(is_card: bool, jump: Option<&str>) -> CardQrSlot {
    CardQrSlot { is_card, jump_url: jump.map(|u| u.to_string()), qr_url: None }
}

#[test]
fn runs_of_linked_cards_share_the_last_link() {
    let mut blocks = vec![
        slot(true, Some("a")),
        slot(true, Some("b")),
        slot(false, None),
        slot(true, Some("c")),
        slot(true, None),
        slot(true, Some("d")),
    ];
    assign_legacy_json_card_qr_urls(&mut blocks);
    let qr: Vec<Option<String>> = blocks.iter().map(|b| b.qr_url.clone()).collect();
    assert_eq!(
        qr,
        vec![
            Some("b".to_string()),
            Some("b".to_string()),
            None,
            Some("c".to_string()),
            None,
            Some("d".to_string()),
        ]
    );
    assert_eq!(blocks[0].jump_url, Some("a".to_string()));
}

#[test]
fn forwarded_references_are_split_out_of_text() {
    let pieces = split_forward_text(" hi [合并转发: 12 ] mid [合并转发:34]", 0);
    assert_eq!(
        pieces,
        vec![
            ForwardPiece::Text("hi".to_string()),
            ForwardPiece::Forward("12".to_string()),
            ForwardPiece::Text("mid".to_string()),
            ForwardPiece::Forward("34".to_string()),
        ]
    );
    assert_eq!(
        split_forward_text("a [合并转发:open", 1),
        vec![ForwardPiece::Text("a".to_string()), ForwardPiece::Text("[合并转发:open".to_string())]
    );
    assert_eq!(
        split_forward_text("x [合并转发:1]", 4),
        vec![ForwardPiece::Text("x [合并转发:1]".to_string())]
    );
    assert_eq!(split_forward_text("   ", 0), vec![]);
    assert_eq!(forward_id_action("", 0, false, false), ForwardIdAction::Placeholder);
    assert_eq!(forward_id_action("1", 4, true, false), ForwardIdAction::Placeholder);
    assert_eq!(forward_id_action("1", 1, true, true), ForwardIdAction::Cached);
    assert_eq!(forward_id_action("1", 1, false, true), ForwardIdAction::Placeholder);
    assert_eq!(forward_id_action("1", 1, false, false), ForwardIdAction::Fetch);
}
