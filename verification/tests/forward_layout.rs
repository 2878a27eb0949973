use oqqwall::card_layout::JsonCardImages;
use oqqwall::forward_layout::{
    layout_forward_child_block, layout_forward_items, normalize_embedded_forward_draft, BlockKind,
    BlockLayout, Draft, DraftBlock, ForwardItem,
    ForwardMetrics, LayoutTools, MediaReference, ReplyPreview,
};
use oqqwall::inline::EmojiTable;
use oqqwall::media::MediaKind;
use oqqwall::render::{JsonCardView, ResolvedImage};

fn per_char(n: u32) -> impl Fn(&str) -> u32 {
    move |s: &str| n * s.chars().count() as u32
}

fn scale(ow: u32, oh: u32, mw: u32, mh: u32) -> (u32, u32) {
    let sw = mw as f32 / ow.max(1) as f32;
    let sh = mh as f32 / oh.max(1) as f32;
    let s = sw.min(sh).min(1.0);
    (
        (ow as f32 * s).round().max(1.0) as u32,
        (oh as f32 * s).round().max(1.0) as u32,
    )
}

fn tools() -> LayoutTools<
    impl Fn(&str) -> u32,
    impl Fn(&str) -> u32,
    impl Fn(&str) -> u32,
    impl Fn(&str) -> u32,
    impl Fn(&str) -> u32,
    impl Fn(u32) -> u32,
    impl Fn(u32, u32, u32, u32) -> (u32, u32),
> {
    LayoutTools {
        body: per_char(8),
        small: per_char(7),
        tiny: per_char(6),
        card_title: per_char(8),
        card_body: per_char(8),
        card_preview: |w: u32| w / 2,
        fit: scale,
    }
}

fn metrics() -> ForwardMetrics {
    ForwardMetrics {
        line_height: 22,
        face_size: 16,
        meta_size: 12,
        card_padding: 8,
        card_line_height: 18,
        card_icon_size: 24,
        card_icon_gap: 8,
        file_padding: 7,
        file_line_height: 18,
        file_meta_height: 14,
        file_meta_gap: 2,
        file_icon_size: 40,
        file_icon_gap: 6,
        bubble_pad_left: 8,
        bubble_pad_right: 8,
        bubble_pad_top: 6,
        bubble_pad_bottom: 6,
    }
}

fn table() -> EmojiTable {
    EmojiTable::from_metadata(vec![("😀".to_string(), 10)], vec![]).unwrap()
}

fn para(t: &str) -> DraftBlock {
    DraftBlock::Paragraph { text: t.to_string() }
}

fn lay(block: DraftBlock, cw: u32) -> BlockLayout {
    layout_forward_child_block(block, 3, 5, cw, &metrics(), &tools(), &table(), &None).unwrap()
}

fn card(url: Option<&str>) -> DraftBlock {
    DraftBlock::JsonCard {
        view: JsonCardView {
            view_kind: "link".to_string(),
            title: "T".to_string(),
            desc: None,
            footer: None,
            jump_url: url.map(|u| u.to_string()),
            media_source: None,
            tag_icon_source: None,
            brand_icon_source: None,
        },
        images: JsonCardImages { media: None, tag_icon: None, brand_icon: None },
    }
}

#[test]
fn forwarded_text_is_a_bubble_one_pixel_narrower() {
    let l = lay(para("hello"), 200);
    assert_eq!((l.x, l.y), (3, 5));
    // 5 characters of 8 plus 16 of padding, less 1
    assert_eq!(l.width, 55);
    // one line: 12 of padding + 22, less 2
    assert_eq!(l.height, 32);
    match l.kind {
        BlockKind::Text { lines } => {
            assert_eq!(lines.len(), 1);
            assert_eq!(lines[0].width, 40);
        }
        _ => panic!("not text"),
    }
}

#[test]
fn forwarded_text_wraps_to_the_width() {
    // 16 of padding leaves 24 of text: three characters a line
    let l = lay(para("abcdefg"), 40);
    match l.kind {
        BlockKind::Text { lines } => assert_eq!(lines.len(), 3),
        _ => panic!("not text"),
    }
    assert_eq!(l.height, 12 + 3 * 22);
    assert_eq!(l.width, 39);
}

#[test]
fn file_card_shows_name_size_and_icon() {
    let block = DraftBlock::Attachment {
        kind: MediaKind::File,
        name: Some("report.pdf".to_string()),
        reference: MediaReference::Blob { id: "b1".to_string() },
        size_line: Some("1.5 KB".to_string()),
        image: None,
    };
    let l = lay(block, 300);
    // text 70 + icon 40 + gap 6 + padding 14 = 130, less 1
    assert_eq!(l.width, 129);
    // name 18 + size 16 against icon 40, plus padding 14
    assert_eq!(l.height, 54);
    match l.kind {
        BlockKind::FileCard { name_lines, meta_line, icon_text, .. } => {
            assert_eq!(name_lines, vec!["report.pdf"]);
            assert_eq!(meta_line.as_deref(), Some("1.5 KB"));
            assert_eq!(icon_text, "PDF");
        }
        _ => panic!("not a file card"),
    }
}

#[test]
fn file_without_name_takes_it_from_its_address() {
    let block = DraftBlock::Attachment {
        kind: MediaKind::File,
        name: None,
        reference: MediaReference::RemoteUrl { url: "http://h/dir/notes.txt?x=1".to_string() },
        size_line: None,
        image: None,
    };
    match lay(block, 300).kind {
        BlockKind::FileCard { name_lines, meta_line, icon_text, .. } => {
            assert_eq!(name_lines, vec!["notes.txt"]);
            assert!(meta_line.is_none());
            assert_eq!(icon_text, "TXT");
        }
        _ => panic!("not a file card"),
    }
}

#[test]
fn audio_shows_a_media_card_with_its_file_name() {
    let block = DraftBlock::Attachment {
        kind: MediaKind::Audio,
        name: None,
        reference: MediaReference::RemoteUrl { url: "http://x/a/song.mp3".to_string() },
        size_line: None,
        image: None,
    };
    let l = lay(block, 500);
    assert_eq!((l.width, l.height), (320, 90));
    match l.kind {
        BlockKind::MediaCard { lines, icon_text, media_kind } => {
            assert_eq!(lines, vec!["Audio", "song.mp3"]);
            assert_eq!(icon_text, "AUD");
            assert_eq!(media_kind, MediaKind::Audio);
        }
        _ => panic!("not a media card"),
    }
}

#[test]
fn reply_has_one_header_line_and_its_text() {
    let block = DraftBlock::Reply {
        preview: ReplyPreview { id: Some("9".to_string()), meta: Some("Alice".to_string()), body: "hi".to_string() },
    };
    let l = lay(block, 300);
    assert_eq!(l.width, 300);
    // 12 of padding + 6 + (12 + 18 + 2 + 22)
    assert_eq!(l.height, 72);
    match l.kind {
        BlockKind::Reply { meta_lines, body_lines } => {
            assert_eq!(meta_lines, vec!["Alice"]);
            assert_eq!(body_lines, vec!["hi"]);
        }
        _ => panic!("not a reply"),
    }
}

#[test]
fn reply_without_header_shows_its_id() {
    let block = DraftBlock::Reply { preview: ReplyPreview { id: Some(" 42 ".to_string()), meta: None, body: String::new() } };
    match lay(block, 300).kind {
        BlockKind::Reply { meta_lines, .. } => assert_eq!(meta_lines, vec!["id:42"]),
        _ => panic!("not a reply"),
    }
}

#[test]
fn pictures_scale_into_half_the_width() {
    let img = ResolvedImage { bytes: Some(vec![1, 2]), width: Some(800), height: Some(600) };
    let block = DraftBlock::Attachment {
        kind: MediaKind::Image,
        name: None,
        reference: MediaReference::Blob { id: "i".to_string() },
        size_line: None,
        image: Some(img),
    };
    let l = lay(block, 300);
    assert_eq!((l.width, l.height), (150, 113));
    match l.kind {
        BlockKind::Image { image } => assert_eq!(image.unwrap().bytes, Some(vec![1, 2])),
        _ => panic!("not an image"),
    }
}

#[test]
fn pictures_without_size_take_the_fallback_box() {
    let block = DraftBlock::Attachment {
        kind: MediaKind::Video,
        name: None,
        reference: MediaReference::Blob { id: "v".to_string() },
        size_line: None,
        image: None,
    };
    let l = lay(block, 300);
    assert_eq!((l.width, l.height), (150, 112));
    assert!(matches!(l.kind, BlockKind::VideoPreview { image: None }));
}

#[test]
fn poke_without_picture_is_64_square() {
    let l = lay(DraftBlock::Poke, 300);
    assert_eq!((l.width, l.height), (64, 64));
    let poke = Some(ResolvedImage { bytes: None, width: Some(240), height: Some(240) });
    let l = layout_forward_child_block(DraftBlock::Poke, 0, 0, 300, &metrics(), &tools(), &table(), &poke).unwrap();
    assert_eq!((l.width, l.height), (120, 120));
}

#[test]
fn nested_chat_stacks_its_messages() {
    let items = vec![
        ForwardItem { sender_name: Some("a".to_string()), blocks: vec![para("one"), para("two")] },
        ForwardItem { sender_name: None, blocks: vec![] },
    ];
    let l = lay(DraftBlock::Forward { items }, 300);
    assert_eq!(l.width, 300);
    match l.kind {
        BlockKind::Forward { items } => {
            assert_eq!(items.len(), 2);
            assert_eq!(items[0].blocks.len(), 2);
            assert_eq!(items[1].blocks.len(), 1);
            let first = &items[0].blocks[0];
            // title 12 + 2, then 2 and 12 below the top
            assert_eq!((first.x, first.y), (20, 5 + 28));
            assert_eq!(items[0].blocks[1].y, first.y + first.height + 10);
            let empty = &items[1].blocks[0];
            assert_eq!(empty.y, items[0].blocks[1].y + items[0].blocks[1].height + 10);
            match &empty.kind {
                BlockKind::Text { lines } => assert_eq!(lines.len(), 1),
                _ => panic!("not text"),
            }
            let bottom = empty.y + empty.height;
            assert_eq!(l.height, bottom - 5 + 8);
        }
        _ => panic!("not a forward"),
    }
}

#[test]
fn cards_of_a_run_share_the_last_link() {
    let items = vec![ForwardItem {
        sender_name: None,
        blocks: vec![card(Some("u1")), card(Some("u2")), para("x"), card(Some("u3")), card(None)],
    }];
    let (out, bottom) = layout_forward_items(items, 0, 100, 300, 10, &metrics(), &tools(), &table(), &None);
    let qr = |b: &BlockLayout| match &b.kind {
        BlockKind::JsonCard { card } => card.qr_url.clone(),
        _ => Some("not a card".to_string()),
    };
    let blocks = &out[0].blocks;
    assert_eq!(qr(&blocks[0]).as_deref(), Some("u2"));
    assert_eq!(qr(&blocks[1]).as_deref(), Some("u2"));
    assert_eq!(qr(&blocks[3]).as_deref(), Some("u3"));
    assert_eq!(qr(&blocks[4]), None);
    let last = blocks.last().unwrap();
    assert_eq!(bottom, last.y + last.height);
}

#[test]
fn no_messages_leave_the_start() {
    let (out, bottom) = layout_forward_items(vec![], 0, 100, 300, 10, &metrics(), &tools(), &table(), &None);
    assert!(out.is_empty());
    assert_eq!(bottom, 100);
}

fn forward(blocks: Vec<DraftBlock>) -> DraftBlock {
    DraftBlock::Forward { items: vec![ForwardItem { sender_name: None, blocks }] }
}

fn nesting(b: &DraftBlock) -> usize {
    match b {
        DraftBlock::Forward { items } => {
            1 + items.iter().flat_map(|i| i.blocks.iter()).map(nesting).max().unwrap_or(0)
        }
        _ => 0,
    }
}

#[test]
fn chats_nested_too_deep_are_replaced() {
    let mut b = para("inner");
    for _ in 0..6 {
        b = forward(vec![b]);
    }
    assert_eq!(nesting(&b), 6);
    let d = normalize_embedded_forward_draft(Draft { blocks: vec![b, para("top")] });
    assert_eq!(d.blocks.len(), 2);
    assert_eq!(nesting(&d.blocks[0]), 4);
    let mut cur = &d.blocks[0];
    for _ in 0..4 {
        cur = match cur {
            DraftBlock::Forward { items } => &items[0].blocks[0],
            _ => panic!("not a forward"),
        };
    }
    match cur {
        DraftBlock::Paragraph { text } => assert_eq!(text, "[合并转发:层级过深]"),
        _ => panic!("not replaced"),
    }
    assert!(matches!(&d.blocks[1], DraftBlock::Paragraph { text } if text == "top"));
}
