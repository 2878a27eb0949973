use oqqwall::card_layout::JsonCardImages;
use oqqwall::forward_layout::{BlockKind, Draft, DraftBlock, ForwardItem, ForwardMetrics, LayoutTools, MediaReference};
use oqqwall::inline::EmojiTable;
use oqqwall::media::MediaKind;
use oqqwall::post_layout::{layout_draft, DraftLayout};
use oqqwall::render::{paginate_render_pages, BlockSpan, JsonCardView, RenderPreviewHeader};

fn per_char(n: u32) -> impl Fn(&str) -> u32 {
    move |s: &str| n * s.chars().count() as u32
}

fn scale(ow: u32, oh: u32, mw: u32, mh: u32) -> (u32, u32) {
    let sw = mw as f32 / ow.max(1) as f32;
    let sh = mh as f32 / oh.max(1) as f32;
    let s = sw.min(sh).min(1.0);
    ((ow as f32 * s).round().max(1.0) as u32, (oh as f32 * s).round().max(1.0) as u32)
}

fn metrics() -> ForwardMetrics {
    ForwardMetrics {
        line_height: 22,
        face_size: 16,
        meta_size: 12,
        card_padding: 8,
        card_line_height: 18,
        card_icon_size: 24,
        card_icon_gap: 8,
        file_padding: 7,
        file_line_height: 18,
        file_meta_height: 14,
        file_meta_gap: 2,
        file_icon_size: 40,
        file_icon_gap: 6,
        bubble_pad_left: 8,
        bubble_pad_right: 8,
        bubble_pad_top: 6,
        bubble_pad_bottom: 6,
    }
}

fn header(user: &str, name: Option<&str>, anonymous: bool) -> RenderPreviewHeader {
    RenderPreviewHeader {
        group_id: "g".to_string(),
        user_id: user.to_string(),
        post_id_hex: "abcd".to_string(),
        sender_name: name.map(|n| n.to_string()),
        is_anonymous: anonymous,
    }
}

fn lay_post(blocks: Vec<DraftBlock>, labels: Vec<Option<String>>, h: &RenderPreviewHeader) -> DraftLayout {
    let tools = LayoutTools {
        body: per_char(8),
        small: per_char(7),
        tiny: per_char(6),
        card_title: per_char(8),
        card_body: per_char(8),
        card_preview: |w: u32| w / 2,
        fit: scale,
    };
    let table = EmojiTable::from_metadata(vec![("😀".to_string(), 10)], vec![]).unwrap();
    layout_draft(
        Draft { blocks },
        labels,
        h,
        1200,
        6000,
        &metrics(),
        &tools,
        &per_char(16),
        &per_char(6),
        &table,
        &None,
    )
}

fn para(t: &str) -> DraftBlock {
    DraftBlock::Paragraph { text: t.to_string() }
}

fn card(url: &str) -> DraftBlock {
    DraftBlock::JsonCard {
        view: JsonCardView {
            view_kind: "link".to_string(),
            title: "T".to_string(),
            desc: None,
            footer: None,
            jump_url: Some(url.to_string()),
            media_source: None,
            tag_icon_source: None,
            brand_icon_source: None,
        },
        images: JsonCardImages { media: None, tag_icon: None, brand_icon: None },
    }
}

#[test]
fn post_header_and_blocks_stack_below_it() {
    let l = lay_post(vec![para("hi"), para("yo")], vec![], &header("12345", None, false));
    assert_eq!(l.title_text, "User 12345");
    assert_eq!(l.meta_text, "QQ 12345");
    assert_eq!(l.header_height, 60);
    assert_eq!(l.blocks.len(), 2);
    // below the header: 20 + 60 + 5
    assert_eq!((l.blocks[0].x, l.blocks[0].y), (15, 85));
    // 2 characters of 8, padding 16, less 6; one line 12 + 22
    assert_eq!((l.blocks[0].width, l.blocks[0].height), (26, 34));
    assert_eq!(l.blocks[1].y, 85 + 34 + 10);
    // the canvas is 400 wide, taller than the post
    assert_eq!(l.full_height, 400);
    assert_eq!(l.pages, vec![(0, 400)]);
    let spans: Vec<BlockSpan> = l.blocks.iter().map(|b| BlockSpan { y: b.y, height: b.height }).collect();
    assert_eq!(l.pages, paginate_render_pages(&spans, l.full_height, 2000, 400, 20, 10));
}

#[test]
fn post_header_names() {
    let anon = lay_post(vec![], vec![], &header("1", Some("Bob"), true));
    assert_eq!(anon.title_text, "匿名");
    assert_eq!(anon.meta_text, "");
    let named = lay_post(vec![], vec![], &header("1", Some("Bob"), false));
    assert_eq!(named.title_text, "Bob");
    let unknown = lay_post(vec![], vec![], &header("unknown", None, false));
    assert_eq!(unknown.title_text, "OQQWall");
    assert_eq!(unknown.meta_text, "QQ abcd");
    assert!(unknown.blocks.is_empty());
}

#[test]
fn post_file_name_comes_from_its_label_first() {
    let block = DraftBlock::Attachment {
        kind: MediaKind::File,
        name: Some("other.txt".to_string()),
        reference: MediaReference::Blob { id: "b".to_string() },
        size_line: None,
        image: None,
    };
    let l = lay_post(vec![block], vec![Some("http://h/x/doc.pdf".to_string())], &header("1", None, false));
    match &l.blocks[0].kind {
        BlockKind::FileCard { name_lines, icon_text, .. } => {
            assert_eq!(name_lines, &vec!["doc.pdf".to_string()]);
            assert_eq!(icon_text, "PDF");
        }
        _ => panic!("not a file card"),
    }
    // text 49 + icon 40 + gap 6 + padding 14, not narrowed
    assert_eq!(l.blocks[0].width, 109);
}

#[test]
fn post_forward_is_at_most_340_wide() {
    let items = vec![ForwardItem { sender_name: None, blocks: vec![para("a")] }];
    let l = lay_post(vec![DraftBlock::Forward { items }], vec![], &header("1", None, false));
    let f = &l.blocks[0];
    assert_eq!(f.width, 340);
    match &f.kind {
        BlockKind::Forward { items } => {
            let child = &items[0].blocks[0];
            // indented 17; below the title line 12 + 2 + 6 + 6
            assert_eq!((child.x, child.y), (32, 85 + 26));
            assert_eq!(f.height, child.y + child.height - 85 + 8);
        }
        _ => panic!("not a forward"),
    }
}

#[test]
fn post_cards_in_a_run_share_the_last_link() {
    let l = lay_post(vec![card("a"), card("b"), para("x"), card("c")], vec![], &header("1", None, false));
    let qr = |i: usize| match &l.blocks[i].kind {
        BlockKind::JsonCard { card } => card.qr_url.clone(),
        _ => None,
    };
    assert_eq!(qr(0).as_deref(), Some("b"));
    assert_eq!(qr(1).as_deref(), Some("b"));
    assert_eq!(qr(3).as_deref(), Some("c"));
}
