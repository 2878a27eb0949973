//! Where the blocks of a forwarded chat go: each message's blocks stacked
//! one under the other, forwarded chats inside forwarded chats indented,
//! with text measured and pictures scaled by functions the caller supplies.
use vstd::prelude::*;

use crate::card_layout::{
    add_sat, at_least_one, card_layout_spec, count_spec, count_u32, layout_json_card_block, max_u32,
    min_u32, mul_sat, sat_mul, sat_sub, sub_sat, widest, widest_spec, CardMetrics, JsonCardImages,
    JsonCardLayout,
};
use crate::inline::EmojiTable;
use crate::json::opt_text;
use crate::measure::{measure_fn, measure_text, size_fn, width_of};
use crate::media::{media_icon_spec, media_icon_text, media_label, media_label_spec, MediaKind};
use crate::render::{
    extract_filename, fallback_size_spec, file_icon_path, file_icon_text, filename_spec,
    icon_path_spec, icon_text_cuttable, icon_text_spec, image_preview_fallback_size, reply_meta_spec, reply_meta_text, JsonCardView, ResolvedImage,
};
use crate::wrap::{
    limit_lines, limit_spec, lines_view, runs_merged, sat_add, strings_view, truncate_spec,
    truncate_text, wrap_inline_spec, wrap_inline_text, wrap_text, wrap_text_spec, InlineLine,
};

verus! {

/// Where an attachment's content is: an address, or a stored blob.
#[derive(Debug)]
pub enum MediaReference {
    RemoteUrl { url: String },
    Blob { id: String },
}

/// The message a reply answers, as far as it is known.
#[derive(Debug)]
pub struct ReplyPreview {
    pub id: Option<String>,
    pub meta: Option<String>,
    pub body: String,
}

/// A block of a post or of a forwarded message. An attachment carries the
/// line that gives its size and its picture, as far as it could be loaded;
/// a card carries what its JSON says and its pictures.
#[derive(Debug)]
pub enum DraftBlock {
    Paragraph { text: String },
    Attachment {
        kind: MediaKind,
        name: Option<String>,
        reference: MediaReference,
        size_line: Option<String>,
        image: Option<ResolvedImage>,
    },
    Reply { preview: ReplyPreview },
    Poke,
    JsonCard { view: JsonCardView, images: JsonCardImages },
    Forward { items: Vec<ForwardItem> },
}

/// One message of a forwarded chat.
#[derive(Debug)]
pub struct ForwardItem {
    pub sender_name: Option<String>,
    pub blocks: Vec<DraftBlock>,
}

/// A post: its blocks in order.
#[derive(Debug)]
pub struct Draft {
    pub blocks: Vec<DraftBlock>,
}

/// The sizes a forwarded chat is laid out with.
#[derive(Debug, Clone, Copy)]
pub struct ForwardMetrics {
    pub line_height: u32,
    pub face_size: u32,
    pub meta_size: u32,
    pub card_padding: u32,
    pub card_line_height: u32,
    pub card_icon_size: u32,
    pub card_icon_gap: u32,
    pub file_padding: u32,
    pub file_line_height: u32,
    pub file_meta_height: u32,
    pub file_meta_gap: u32,
    pub file_icon_size: u32,
    pub file_icon_gap: u32,
    pub bubble_pad_left: u32,
    pub bubble_pad_right: u32,
    pub bubble_pad_top: u32,
    pub bubble_pad_bottom: u32,
}

/// What the layout measures and scales with: the width of text in the body
/// font (`body`), in the smaller font of file names and reply headers
/// (`small`) and in the font of a file's size (`tiny`); the two fonts of a
/// card and the height of a card's picture at a card width; and `fit`, the
/// size of a picture of a given size scaled down, never up, to fit a box.
pub struct LayoutTools<M, S, N, T, B, P, F> {
    pub body: M,
    pub small: S,
    pub tiny: N,
    pub card_title: T,
    pub card_body: B,
    pub card_preview: P,
    pub fit: F,
}

/// `fit` can be called on any picture size and box.
pub open spec fn fit_fn<F: Fn(u32, u32, u32, u32) -> (u32, u32)>(fit: &F) -> bool {
    forall|a: u32, b: u32, c: u32, d: u32| #[trigger] fit.requires((a, b, c, d))
}

pub open spec fn tools_ok<
    M: Fn(&str) -> u32,
    S: Fn(&str) -> u32,
    N: Fn(&str) -> u32,
    T: Fn(&str) -> u32,
    B: Fn(&str) -> u32,
    P: Fn(u32) -> u32,
    F: Fn(u32, u32, u32, u32) -> (u32, u32),
>(t: LayoutTools<M, S, N, T, B, P, F>) -> bool {
    &&& measure_fn(&t.body)
    &&& measure_fn(&t.small)
    &&& measure_fn(&t.tiny)
    &&& measure_fn(&t.card_title)
    &&& measure_fn(&t.card_body)
    &&& size_fn(&t.card_preview)
    &&& fit_fn(&t.fit)
}

/// A laid-out block: its box and what drawing it needs.
#[derive(Debug)]
pub struct BlockLayout {
    pub x: u32,
    pub y: u32,
    pub width: u32,
    pub height: u32,
    pub kind: BlockKind,
}

/// What a laid-out block holds.
#[derive(Debug)]
pub enum BlockKind {
    Text { lines: Vec<InlineLine> },
    Image { image: Option<ResolvedImage> },
    VideoPreview { image: Option<ResolvedImage> },
    MediaCard { lines: Vec<String>, icon_text: String, media_kind: MediaKind },
    FileCard {
        name_lines: Vec<String>,
        meta_line: Option<String>,
        icon_path: Option<&'static str>,
        icon_text: String,
    },
    Reply { meta_lines: Vec<String>, body_lines: Vec<String> },
    Poke { image: Option<ResolvedImage> },
    JsonCard { card: JsonCardLayout },
    Forward { items: Vec<ForwardLayoutItem> },
}

/// The laid-out blocks of one forwarded message.
#[derive(Debug)]
pub struct ForwardLayoutItem {
    pub blocks: Vec<BlockLayout>,
}

/// How much narrower a text bubble in a forwarded chat is drawn.
pub const FORWARD_TEXT_BUBBLE_WIDTH_SHRINK_PX: u32 = 1;

/// How much narrower a file card in a forwarded chat is drawn.
pub const FORWARD_FILE_CARD_WIDTH_SHRINK_PX: u32 = 1;

/// How much lower a one-line text bubble in a forwarded chat is drawn.
pub const FORWARD_SINGLE_LINE_TEXT_HEIGHT_SHRINK_PX: u32 = 2;

/// How much wider the text of a reply may be than its box leaves.
pub const REPLY_WRAP_WIDTH_COMPENSATION_PX: u32 = 8;

/// How far the messages of a forwarded chat are indented.
pub const FORWARD_CHILD_INDENT: u32 = 17;

/// The space between two blocks of a forwarded chat.
pub const FORWARD_BLOCK_SPACING: u32 = 10;

/// What an empty forwarded message shows.
pub open spec fn empty_message_text() -> Seq<char> {
    "[空消息]"@
}

// ----------------------------------------------------------------------
// What each block becomes
// ----------------------------------------------------------------------

/// The widest of the lines, 0 for none.
pub open spec fn widest_line(ls: Seq<(Seq<crate::inline::AtomView>, u32)>) -> u32
    decreases ls.len(),
{
    if ls.len() == 0 {
        0
    } else {
        max_u32(widest_line(ls.drop_last()), ls.last().1)
    }
}

pub open spec fn text_limit(m: ForwardMetrics, cw: u32) -> u32 {
    at_least_one(sat_sub(cw, sat_add(m.bubble_pad_left, m.bubble_pad_right)))
}

/// A text bubble in a forwarded chat.
pub open spec fn para_ok<M: Fn(&str) -> u32>(
    body: &M,
    m: ForwardMetrics,
    table: EmojiTable,
    text: Seq<char>,
    cw: u32,
    l: BlockLayout,
) -> bool {
    bubble_ok(
        body,
        m,
        table,
        text,
        cw,
        FORWARD_TEXT_BUBBLE_WIDTH_SHRINK_PX,
        FORWARD_SINGLE_LINE_TEXT_HEIGHT_SHRINK_PX,
        l,
    )
}

/// A text bubble: its text wrapped in the body font, as wide as its widest
/// line and padding less `wshrink`, and `hshrink` lower when it has one line.
pub open spec fn bubble_ok<M: Fn(&str) -> u32>(
    body: &M,
    m: ForwardMetrics,
    table: EmojiTable,
    text: Seq<char>,
    cw: u32,
    wshrink: u32,
    hshrink: u32,
    l: BlockLayout,
) -> bool {
    let lines = wrap_inline_spec(body, text_limit(m, cw), m.face_size, table, text);
    let n = lines.len();
    match l.kind {
        BlockKind::Text { lines: ls } => {
            &&& lines_view(ls@) == lines
            &&& forall|i: int| 0 <= i < ls@.len() ==> runs_merged(#[trigger] ls@[i].runs@)
            &&& l.width == at_least_one(
                min_u32(
                    sat_sub(
                        sat_add(sat_add(widest_line(lines), m.bubble_pad_left), m.bubble_pad_right),
                        wshrink,
                    ),
                    cw,
                ),
            )
            &&& l.height == sat_sub(
                sat_add(sat_add(m.bubble_pad_top, m.bubble_pad_bottom), sat_mul(m.line_height, count_spec(n))),
                if n == 1 {
                    hshrink
                } else {
                    0
                },
            )
        },
        _ => false,
    }
}

/// The size of a picture, when both sides are known.
pub open spec fn dims(image: Option<ResolvedImage>) -> Option<(u32, u32)> {
    match image {
        Some(img) => match (img.width, img.height) {
            (Some(w), Some(h)) => Some((w, h)),
            _ => None,
        },
        None => None,
    }
}

/// A picture's box: the picture scaled into half the width and 300 high,
/// or the fallback box when its size is not known or empty.
pub open spec fn picture_box_ok<F: Fn(u32, u32, u32, u32) -> (u32, u32)>(
    fit: &F,
    image: Option<ResolvedImage>,
    cw: u32,
    l: BlockLayout,
) -> bool {
    match dims(image) {
        Some((w, h)) => if w > 0 && h > 0 {
            fit.ensures((w, h, at_least_one(cw / 2), 300u32), (l.width, l.height))
        } else {
            (l.width, l.height) == fallback_size_spec(cw)
        },
        None => (l.width, l.height) == fallback_size_spec(cw),
    }
}

/// The poke picture's box: scaled into half the width (at least 48) and
/// 120 high, or 64 by 64 when its size is not known.
pub open spec fn poke_box_ok<F: Fn(u32, u32, u32, u32) -> (u32, u32)>(
    fit: &F,
    image: Option<ResolvedImage>,
    cw: u32,
    l: BlockLayout,
) -> bool {
    match dims(image) {
        Some((w, h)) => fit.ensures((w, h, max_u32(cw / 2, 48), 120u32), (l.width, l.height)),
        None => l.width == 64 && l.height == 64,
    }
}

/// The address an attachment names, if any.
pub open spec fn ref_label(r: MediaReference) -> Option<Seq<char>> {
    match r {
        MediaReference::RemoteUrl { url } => Some(url@),
        MediaReference::Blob { .. } => None,
    }
}

/// The file name shown on a file card.
pub open spec fn file_name_spec(name: Option<String>, r: MediaReference) -> Seq<char> {
    match name {
        Some(n) => n@,
        None => match ref_label(r) {
            Some(u) => match filename_spec(u) {
                Some(f) => f,
                None => "Unknown file"@,
            },
            None => "Unknown file"@,
        },
    }
}

pub open spec fn file_box_width(m: ForwardMetrics, cw: u32) -> u32 {
    at_least_one(min_u32(cw, 320))
}

pub open spec fn file_text_limit(m: ForwardMetrics, cw: u32) -> u32 {
    at_least_one(
        sat_sub(
            file_box_width(m, cw),
            sat_add(sat_add(sat_mul(m.file_padding, 2), m.file_icon_size), m.file_icon_gap),
        ),
    )
}

/// A file card in a forwarded chat.
pub open spec fn file_ok<S: Fn(&str) -> u32, N: Fn(&str) -> u32>(
    small: &S,
    tiny: &N,
    m: ForwardMetrics,
    name: Option<String>,
    r: MediaReference,
    size_line: Option<String>,
    cw: u32,
    l: BlockLayout,
) -> bool {
    file_card_ok(small, tiny, m, file_name_spec(name, r), size_line, cw, true, l)
}

/// A file card for `fname`: the name wrapped in the small font, its size
/// line, and as wide as its text needs within 320 (one narrower in a
/// forwarded chat).
pub open spec fn file_card_ok<S: Fn(&str) -> u32, N: Fn(&str) -> u32>(
    small: &S,
    tiny: &N,
    m: ForwardMetrics,
    fname: Seq<char>,
    size_line: Option<String>,
    cw: u32,
    forwarded: bool,
    l: BlockLayout,
) -> bool {
    let names = wrap_text_spec(small, file_text_limit(m, cw), fname);
    let name_w = widest_spec(small, names);
    let meta_w: u32 = match size_line {
        Some(s) => width_of(tiny, s@),
        None => 0,
    };
    let two_pad = sat_mul(m.file_padding, 2);
    let desired = sat_add(sat_add(sat_add(max_u32(name_w, meta_w), m.file_icon_size), m.file_icon_gap), two_pad);
    let card_w = max_u32(min_u32(desired, file_box_width(m, cw)), sat_add(m.file_icon_size, two_pad));
    let meta_h: u32 = if size_line is Some {
        sat_add(m.file_meta_height, m.file_meta_gap)
    } else {
        0
    };
    let text_h = sat_add(sat_mul(count_spec(names.len()), m.file_line_height), meta_h);
    match l.kind {
        BlockKind::FileCard { name_lines, meta_line, icon_path, icon_text } => {
            &&& strings_view(name_lines@) == names
            &&& opt_text(meta_line) == opt_text(size_line)
            &&& crate::qzone::static_text(icon_path) == Some(icon_path_spec(fname))
            &&& icon_text@ == icon_text_spec(fname)
            &&& l.width == if forwarded {
                at_least_one(sat_sub(card_w, FORWARD_FILE_CARD_WIDTH_SHRINK_PX))
            } else {
                card_w
            }
            &&& l.height == sat_add(max_u32(m.file_icon_size, text_h), two_pad)
        },
        _ => false,
    }
}

pub open spec fn media_text_limit(m: ForwardMetrics, cw: u32) -> u32 {
    at_least_one(
        sat_sub(
            at_least_one(min_u32(cw, 320)),
            sat_add(sat_add(sat_mul(m.card_padding, 2), m.card_icon_size), m.card_icon_gap),
        ),
    )
}

/// The lines of a media card: its label, then the file name its address
/// ends in cut to the width, when that is not empty.
pub open spec fn media_lines_spec<M: Fn(&str) -> u32>(
    body: &M,
    m: ForwardMetrics,
    kind: MediaKind,
    label: Option<Seq<char>>,
    cw: u32,
) -> Seq<Seq<char>> {
    let first = seq![media_label_spec(kind)@];
    match label {
        Some(u) => match filename_spec(u) {
            Some(d) => {
                let t = truncate_spec(body, media_text_limit(m, cw), d);
                if t.len() > 0 {
                    first.push(t)
                } else {
                    first
                }
            },
            None => first,
        },
        None => first,
    }
}

/// A card for other media in a forwarded chat.
pub open spec fn media_ok<M: Fn(&str) -> u32>(
    body: &M,
    m: ForwardMetrics,
    kind: MediaKind,
    r: MediaReference,
    cw: u32,
    l: BlockLayout,
) -> bool {
    media_card_ok(body, m, kind, ref_label(r), cw, l)
}

/// A card for other media, with the address `label` names: 90 high, as
/// wide as the content within 320.
pub open spec fn media_card_ok<M: Fn(&str) -> u32>(
    body: &M,
    m: ForwardMetrics,
    kind: MediaKind,
    label: Option<Seq<char>>,
    cw: u32,
    l: BlockLayout,
) -> bool {
    match l.kind {
        BlockKind::MediaCard { lines, icon_text, media_kind } => {
            &&& strings_view(lines@) == media_lines_spec(body, m, kind, label, cw)
            &&& icon_text@ == media_icon_spec(kind)
            &&& media_kind == kind
            &&& l.width == at_least_one(min_u32(cw, 320))
            &&& l.height == 90
        },
        _ => false,
    }
}

pub open spec fn reply_text_limit(m: ForwardMetrics, cw: u32) -> u32 {
    let wrap_width = at_least_one(min_u32(at_least_one(cw), 320));
    let inner = sat_add(
        sat_add(sat_add(m.bubble_pad_left, m.bubble_pad_right), 3),
        sat_mul(m.card_padding, 2),
    );
    at_least_one(sat_add(sat_sub(wrap_width, inner), REPLY_WRAP_WIDTH_COMPENSATION_PX))
}

/// A reply: its header on one line in the small font, the quoted text
/// wrapped in the body font, as wide as the content.
pub open spec fn reply_ok<S: Fn(&str) -> u32, M: Fn(&str) -> u32>(
    small: &S,
    body: &M,
    m: ForwardMetrics,
    p: ReplyPreview,
    cw: u32,
    l: BlockLayout,
) -> bool {
    let w = reply_text_limit(m, cw);
    let meta = reply_meta_spec(opt_text(p.meta), opt_text(p.id));
    let metas = limit_spec(small, w, wrap_text_spec(small, w, meta), 1);
    let bodies = wrap_text_spec(body, w, p.body@);
    let gap: u32 = if bodies.len() == 0 {
        0
    } else {
        m.file_meta_gap
    };
    let inner = sat_add(
        sat_add(sat_add(12, sat_mul(count_spec(metas.len()), m.file_line_height)), gap),
        sat_mul(count_spec(bodies.len()), m.line_height),
    );
    match l.kind {
        BlockKind::Reply { meta_lines, body_lines } => {
            &&& strings_view(meta_lines@) == metas
            &&& strings_view(body_lines@) == bodies
            &&& l.width == at_least_one(cw)
            &&& l.height == sat_add(sat_add(sat_add(m.bubble_pad_top, m.bubble_pad_bottom), inner), 6)
        },
        _ => false,
    }
}

pub open spec fn card_metrics(m: ForwardMetrics) -> CardMetrics {
    CardMetrics {
        card_padding: m.card_padding,
        card_line_height: m.card_line_height,
        file_meta_height: m.file_meta_height,
        file_meta_gap: m.file_meta_gap,
    }
}

/// What a picture holds, bytes by their content.
pub open spec fn image_view(o: Option<ResolvedImage>) -> Option<(Option<Seq<u8>>, Option<u32>, Option<u32>)> {
    match o {
        Some(i) => Some(
            (
                match i.bytes {
                    Some(b) => Some(b@),
                    None => None,
                },
                i.width,
                i.height,
            ),
        ),
        None => None,
    }
}

/// A block that holds no forwarded chat, laid out within `cw`.
pub open spec fn leaf_ok<
    M: Fn(&str) -> u32,
    S: Fn(&str) -> u32,
    N: Fn(&str) -> u32,
    T: Fn(&str) -> u32,
    B: Fn(&str) -> u32,
    P: Fn(u32) -> u32,
    F: Fn(u32, u32, u32, u32) -> (u32, u32),
>(
    t: LayoutTools<M, S, N, T, B, P, F>,
    m: ForwardMetrics,
    table: EmojiTable,
    poke: Option<ResolvedImage>,
    b: DraftBlock,
    x: u32,
    y: u32,
    cw: u32,
    l: BlockLayout,
) -> bool {
    match b {
        DraftBlock::Paragraph { text } => para_ok(&t.body, m, table, text@, cw, l),
        DraftBlock::Attachment { kind, name, reference, size_line, image } => {
            if kind is Image || kind is Sticker {
                l.kind == (BlockKind::Image { image }) && picture_box_ok(&t.fit, image, cw, l)
            } else if kind is Video {
                l.kind == (BlockKind::VideoPreview { image }) && picture_box_ok(&t.fit, image, cw, l)
            } else if kind is File {
                file_ok(&t.small, &t.tiny, m, name, reference, size_line, cw, l)
            } else {
                media_ok(&t.body, m, kind, reference, cw, l)
            }
        },
        DraftBlock::Reply { preview } => reply_ok(&t.small, &t.body, m, preview, cw, l),
        DraftBlock::Poke => match l.kind {
            BlockKind::Poke { image } => image_view(image) == image_view(poke) && poke_box_ok(&t.fit, poke, cw, l),
            _ => false,
        },
        DraftBlock::JsonCard { view, images } => match l.kind {
            BlockKind::JsonCard { card } => {
                &&& card_layout_spec(card, x, y, cw, view, images, card_metrics(m), &t.card_title, &t.card_body, &t.card_preview)
                &&& l.width == card.width
                &&& l.height == card.height
            },
            _ => false,
        },
        DraftBlock::Forward { .. } => false,
    }
}

/// Where the block after `l` starts.
pub open spec fn next_y(l: BlockLayout, spacing: u32) -> u32 {
    sat_add(sat_add(l.y, l.height), spacing)
}

/// The blocks start at `c0` and follow one another `spacing` apart.
pub open spec fn stacked(bs: Seq<BlockLayout>, c0: u32, spacing: u32) -> bool {
    &&& bs.len() > 0 ==> bs[0].y == c0
    &&& forall|j: int| 0 < j < bs.len() ==> #[trigger] bs[j].y == next_y(bs[j - 1], spacing)
}

/// Stacked blocks never overlap: each starts at or below the bottom of the
/// block before it (unless positions ran out at the largest value).
pub proof fn lemma_stacked_blocks_do_not_overlap(bs: Seq<BlockLayout>, c0: u32, spacing: u32)
    requires
        stacked(bs, c0, spacing),
    ensures
        forall|j: int|
            0 < j < bs.len() ==> #[trigger] bs[j].y >= bs[j - 1].y + bs[j - 1].height || bs[j].y == u32::MAX,
{
    assert forall|j: int| 0 < j < bs.len() implies #[trigger] bs[j].y >= bs[j - 1].y + bs[j - 1].height
        || bs[j].y == u32::MAX by {
        assert(bs[j].y == next_y(bs[j - 1], spacing));
    }
}

/// Where the next block goes after the blocks `bs`, begun at `c0`.
pub open spec fn blocks_end(bs: Seq<BlockLayout>, c0: u32, spacing: u32) -> u32 {
    if bs.len() == 0 {
        c0
    } else {
        next_y(bs.last(), spacing)
    }
}

/// Where the blocks of message `i` start.
pub open spec fn items_cursor(out: Seq<ForwardLayoutItem>, start: u32, spacing: u32, i: int) -> u32
    decreases i,
{
    if i <= 0 || i > out.len() {
        start
    } else {
        blocks_end(out[i - 1].blocks@, items_cursor(out, start, spacing, i - 1), spacing)
    }
}

/// The bottom of the laid-out messages: the end of the last block, or
/// `start` when there is none.
pub open spec fn items_bottom(out: Seq<ForwardLayoutItem>, start: u32, spacing: u32) -> u32 {
    let c = items_cursor(out, start, spacing, out.len() as int);
    if c > start {
        sat_sub(c, spacing)
    } else {
        start
    }
}

/// The link of a card, when it has one.
pub open spec fn card_link(b: DraftBlock) -> Option<Seq<char>> {
    match b {
        DraftBlock::JsonCard { view, .. } => opt_text(view.jump_url),
        _ => None,
    }
}

/// The last block of the run of linked cards that goes on from `j`.
pub open spec fn link_run_end(bs: Seq<DraftBlock>, j: int) -> int
    decreases bs.len() - j,
{
    if 0 <= j && j + 1 < bs.len() && card_link(bs[j + 1]) is Some {
        link_run_end(bs, j + 1)
    } else {
        j
    }
}

/// The QR code of each card shows the last link of its run of consecutive
/// linked cards; a card without a link shows none.
pub open spec fn qr_ok(bs: Seq<DraftBlock>, ls: Seq<BlockLayout>) -> bool {
    forall|j: int|
        0 <= j < ls.len() ==> match #[trigger] ls[j].kind {
            BlockKind::JsonCard { card } => opt_text(card.qr_url) == if card_link(bs[j]) is Some {
                card_link(bs[link_run_end(bs, j)])
            } else {
                None
            },
            _ => true,
        }
}

/// `l` is the block `b` laid out at `(x, y)` within `cw` (a card's QR code
/// aside, which its message decides).
pub open spec fn block_ok<
    M: Fn(&str) -> u32,
    S: Fn(&str) -> u32,
    N: Fn(&str) -> u32,
    T: Fn(&str) -> u32,
    B: Fn(&str) -> u32,
    P: Fn(u32) -> u32,
    F: Fn(u32, u32, u32, u32) -> (u32, u32),
>(
    t: LayoutTools<M, S, N, T, B, P, F>,
    m: ForwardMetrics,
    table: EmojiTable,
    poke: Option<ResolvedImage>,
    b: DraftBlock,
    x: u32,
    y: u32,
    cw: u32,
    l: BlockLayout,
) -> bool
    decreases b, 0int,
{
    &&& l.x == x
    &&& l.y == y
    &&& match b {
        DraftBlock::Forward { items } => {
            let cy = sat_add(sat_add(sat_add(y, sat_add(m.meta_size, m.file_meta_gap)), m.file_meta_gap), 12);
            let cx = sat_add(x, FORWARD_CHILD_INDENT);
            let ccw = at_least_one(sat_sub(cw, FORWARD_CHILD_INDENT));
            match l.kind {
                BlockKind::Forward { items: out } => {
                    &&& items_ok(t, m, table, poke, items@, cx, cy, ccw, FORWARD_BLOCK_SPACING, out@)
                    &&& l.width == cw
                    &&& l.height == sat_add(
                        sat_sub(items_bottom(out@, cy, FORWARD_BLOCK_SPACING), y),
                        m.card_padding,
                    )
                },
                _ => false,
            }
        },
        _ => leaf_ok(t, m, table, poke, b, x, y, cw, l),
    }
}

/// Each message laid out in turn, its blocks following the last block of
/// the message before.
pub open spec fn items_ok<
    M: Fn(&str) -> u32,
    S: Fn(&str) -> u32,
    N: Fn(&str) -> u32,
    T: Fn(&str) -> u32,
    B: Fn(&str) -> u32,
    P: Fn(u32) -> u32,
    F: Fn(u32, u32, u32, u32) -> (u32, u32),
>(
    t: LayoutTools<M, S, N, T, B, P, F>,
    m: ForwardMetrics,
    table: EmojiTable,
    poke: Option<ResolvedImage>,
    items: Seq<ForwardItem>,
    x: u32,
    start: u32,
    cw: u32,
    spacing: u32,
    out: Seq<ForwardLayoutItem>,
) -> bool
    decreases items, 1int,
{
    &&& out.len() == items.len()
    &&& forall|i: int|
        0 <= i < items.len() ==> item_ok(
            t,
            m,
            table,
            poke,
            #[trigger] items[i],
            x,
            items_cursor(out, start, spacing, i),
            cw,
            spacing,
            out[i].blocks@,
        )
}

/// One message laid out from `c0`: its blocks one under the other, or a
/// text bubble that says it is empty when it has none.
pub open spec fn item_ok<
    M: Fn(&str) -> u32,
    S: Fn(&str) -> u32,
    N: Fn(&str) -> u32,
    T: Fn(&str) -> u32,
    B: Fn(&str) -> u32,
    P: Fn(u32) -> u32,
    F: Fn(u32, u32, u32, u32) -> (u32, u32),
>(
    t: LayoutTools<M, S, N, T, B, P, F>,
    m: ForwardMetrics,
    table: EmojiTable,
    poke: Option<ResolvedImage>,
    item: ForwardItem,
    x: u32,
    c0: u32,
    cw: u32,
    spacing: u32,
    bs: Seq<BlockLayout>,
) -> bool
    decreases item, 2int,
{
    &&& stacked(bs, c0, spacing)
    &&& if item.blocks@.len() == 0 {
        &&& bs.len() == 1
        &&& bs[0].x == x
        &&& para_ok(&t.body, m, table, empty_message_text(), cw, bs[0])
    } else {
        &&& bs.len() == item.blocks@.len()
        &&& forall|j: int|
            0 <= j < bs.len() ==> block_ok(t, m, table, poke, #[trigger] item.blocks@[j], x, bs[j].y, cw, bs[j])
        &&& qr_ok(item.blocks@, bs)
    }
}

/// Every file name in `b` can have its icon label cut where the label rule
/// cuts it.
pub open spec fn icons_ok(b: DraftBlock) -> bool
    decreases b, 0int,
{
    match b {
        DraftBlock::Attachment { kind, name, reference, .. } => kind is File ==> icon_text_cuttable(
            file_name_spec(name, reference),
        ),
        DraftBlock::Forward { items } => items_icons_ok(items@),
        _ => true,
    }
}

pub open spec fn items_icons_ok(items: Seq<ForwardItem>) -> bool
    decreases items, 1int,
{
    forall|i: int| 0 <= i < items.len() ==> item_icons_ok(#[trigger] items[i])
}

pub open spec fn item_icons_ok(item: ForwardItem) -> bool
    decreases item, 2int,
{
    forall|j: int| 0 <= j < item.blocks@.len() ==> icons_ok(#[trigger] item.blocks@[j])
}


// ----------------------------------------------------------------------
// Laying out one block
// ----------------------------------------------------------------------

pub(crate) fn at_least_one_u32(a: u32) -> (r: u32)
    ensures
        r == at_least_one(a),
{
    if a < 1 {
        1
    } else {
        a
    }
}

pub(crate) fn min_of(a: u32, b: u32) -> (r: u32)
    ensures
        r == min_u32(a, b),
{
    if a <= b {
        a
    } else {
        b
    }
}

pub(crate) fn max_of(a: u32, b: u32) -> (r: u32)
    ensures
        r == max_u32(a, b),
{
    if a >= b {
        a
    } else {
        b
    }
}

fn widest_inline(lines: &Vec<InlineLine>) -> (r: u32)
    ensures
        r == widest_line(lines_view(lines@)),
{
    let ghost v = lines_view(lines@);
    let mut best: u32 = 0;
    let mut i: usize = 0;
    while i < lines.len()
        invariant
            i <= lines@.len(),
            v == lines_view(lines@),
            best == widest_line(v.take(i as int)),
        decreases lines@.len() - i,
    {
        proof {
            assert(v.take(i + 1).drop_last() =~= v.take(i as int));
        }
        let w = lines[i].width;
        if w > best {
            best = w;
        }
        i = i + 1;
    }
    assert(v.take(v.len() as int) =~= v);
    best
}

/// A text bubble at `(x, y)`.
pub(crate) fn layout_paragraph<M: Fn(&str) -> u32>(
    text: &str,
    x: u32,
    y: u32,
    cw: u32,
    wshrink: u32,
    hshrink: u32,
    m: &ForwardMetrics,
    body: &M,
    table: &EmojiTable,
) -> (l: BlockLayout)
    requires
        measure_fn(body),
        table.wf(),
    ensures
        l.x == x,
        l.y == y,
        bubble_ok(body, *m, *table, text@, cw, wshrink, hshrink, l),
{
    let limit = at_least_one_u32(sub_sat(cw, add_sat(m.bubble_pad_left, m.bubble_pad_right)));
    let lines = wrap_inline_text(text, limit, m.face_size, table, body);
    let widest = widest_inline(&lines);
    let n = lines.len();
    let width = at_least_one_u32(
        min_of(
            sub_sat(
                add_sat(add_sat(widest, m.bubble_pad_left), m.bubble_pad_right),
                wshrink,
            ),
            cw,
        ),
    );
    let shrink: u32 = if n == 1 {
        hshrink
    } else {
        0
    };
    let height = sub_sat(
        add_sat(add_sat(m.bubble_pad_top, m.bubble_pad_bottom), mul_sat(m.line_height, count_u32(n))),
        shrink,
    );
    proof {
        assert(lines_view(lines@).len() == lines@.len());
    }
    BlockLayout { x, y, width, height, kind: BlockKind::Text { lines } }
}

fn image_dims(image: &Option<ResolvedImage>) -> (r: Option<(u32, u32)>)
    ensures
        r == dims(*image),
{
    match image {
        Some(img) => match (img.width, img.height) {
            (Some(w), Some(h)) => Some((w, h)),
            _ => None,
        },
        None => None,
    }
}

/// The box of a picture or a video's preview.
pub(crate) fn picture_box<F: Fn(u32, u32, u32, u32) -> (u32, u32)>(image: &Option<ResolvedImage>, cw: u32, fit: &F) -> (r: (u32, u32))
    requires
        fit_fn(fit),
    ensures
        match dims(*image) {
            Some((w, h)) => if w > 0 && h > 0 {
                fit.ensures((w, h, at_least_one(cw / 2), 300u32), r)
            } else {
                r == fallback_size_spec(cw)
            },
            None => r == fallback_size_spec(cw),
        },
{
    match image_dims(image) {
        Some((w, h)) => {
            if w > 0 && h > 0 {
                let mw = at_least_one_u32(cw / 2);
                fit(w, h, mw, 300)
            } else {
                image_preview_fallback_size(cw)
            }
        },
        None => image_preview_fallback_size(cw),
    }
}

/// The box of the poke picture.
pub(crate) fn poke_box<F: Fn(u32, u32, u32, u32) -> (u32, u32)>(image: &Option<ResolvedImage>, cw: u32, fit: &F) -> (r: (u32, u32))
    requires
        fit_fn(fit),
    ensures
        match dims(*image) {
            Some((w, h)) => fit.ensures((w, h, max_u32(cw / 2, 48), 120u32), r),
            None => r == (64u32, 64u32),
        },
{
    match image_dims(image) {
        Some((w, h)) => {
            let mw = max_of(cw / 2, 48);
            fit(w, h, mw, 120)
        },
        None => (64, 64),
    }
}

pub(crate) fn clone_image(o: &Option<ResolvedImage>) -> (r: Option<ResolvedImage>)
    ensures
        image_view(r) == image_view(*o),
{
    match o {
        Some(img) => {
            let bytes = match &img.bytes {
                Some(b) => {
                    let c = b.clone();
                    assert(c@ =~= b@);
                    Some(c)
                },
                None => None,
            };
            Some(ResolvedImage { bytes, width: img.width, height: img.height })
        },
        None => None,
    }
}

fn reference_label(r: &MediaReference) -> (o: Option<&str>)
    ensures
        crate::render::opt_str_view(o) == ref_label(*r),
{
    match r {
        MediaReference::RemoteUrl { url } => Some(url.as_str()),
        MediaReference::Blob { .. } => None,
    }
}

fn label_file_name(r: &MediaReference) -> (o: Option<String>)
    ensures
        opt_text(o) == match ref_label(*r) {
            Some(u) => filename_spec(u),
            None => None,
        },
{
    match reference_label(r) {
        Some(u) => extract_filename(u),
        None => None,
    }
}

fn forward_file_name(name: Option<String>, reference: &MediaReference) -> (f: String)
    ensures
        f@ == file_name_spec(name, *reference),
{
    match name {
        Some(n) => n,
        None => match label_file_name(reference) {
            Some(f) => f,
            None => String::from_str("Unknown file"),
        },
    }
}

/// A file card for `fname` at `(x, y)`.
pub(crate) fn layout_file_card<S: Fn(&str) -> u32, N: Fn(&str) -> u32>(
    fname: String,
    size_line: Option<String>,
    x: u32,
    y: u32,
    cw: u32,
    forwarded: bool,
    m: &ForwardMetrics,
    small: &S,
    tiny: &N,
) -> (l: BlockLayout)
    requires
        measure_fn(small),
        measure_fn(tiny),
        icon_text_cuttable(fname@),
    ensures
        l.x == x,
        l.y == y,
        file_card_ok(small, tiny, *m, fname@, size_line, cw, forwarded, l),
{
    let box_w = at_least_one_u32(min_of(cw, 320));
    let two_pad = mul_sat(m.file_padding, 2);
    let limit = at_least_one_u32(sub_sat(box_w, add_sat(add_sat(two_pad, m.file_icon_size), m.file_icon_gap)));
    let names = wrap_text(fname.as_str(), limit, small);
    let name_w = widest(&names, small);
    let meta_w: u32 = match &size_line {
        Some(s) => measure_text(tiny, s.as_str()),
        None => 0,
    };
    let desired = add_sat(add_sat(add_sat(max_of(name_w, meta_w), m.file_icon_size), m.file_icon_gap), two_pad);
    let card_w = max_of(min_of(desired, box_w), add_sat(m.file_icon_size, two_pad));
    let meta_h: u32 = if size_line.is_some() {
        add_sat(m.file_meta_height, m.file_meta_gap)
    } else {
        0
    };
    let text_h = add_sat(mul_sat(count_u32(names.len()), m.file_line_height), meta_h);
    let height = add_sat(max_of(m.file_icon_size, text_h), two_pad);
    let width = if forwarded {
        at_least_one_u32(sub_sat(card_w, FORWARD_FILE_CARD_WIDTH_SHRINK_PX))
    } else {
        card_w
    };
    let icon_path = file_icon_path(fname.as_str());
    let icon_text = file_icon_text(fname.as_str());
    proof {
        assert(strings_view(names@).len() == names@.len());
    }
    BlockLayout {
        x,
        y,
        width,
        height,
        kind: BlockKind::FileCard { name_lines: names, meta_line: size_line, icon_path, icon_text },
    }
}

/// A card for audio and other media at `(x, y)`.
pub(crate) fn layout_media_card<M: Fn(&str) -> u32>(
    kind: MediaKind,
    label: Option<&str>,
    x: u32,
    y: u32,
    cw: u32,
    m: &ForwardMetrics,
    body: &M,
) -> (l: BlockLayout)
    requires
        measure_fn(body),
    ensures
        l.x == x,
        l.y == y,
        media_card_ok(body, *m, kind, crate::render::opt_str_view(label), cw, l),
{
    let width = at_least_one_u32(min_of(cw, 320));
    let limit = at_least_one_u32(
        sub_sat(width, add_sat(add_sat(mul_sat(m.card_padding, 2), m.card_icon_size), m.card_icon_gap)),
    );
    let mut lines: Vec<String> = Vec::new();
    lines.push(String::from_str(media_label(kind)));
    let ghost first = seq![media_label_spec(kind)@];
    assert(strings_view(lines@) =~= first);
    let detail = match label {
        Some(u) => extract_filename(u),
        None => None,
    };
    match detail {
        Some(d) => {
            let t = truncate_text(d.as_str(), limit, body);
            if crate::text::chars_of(t.as_str()).len() > 0 {
                lines.push(t);
                assert(strings_view(lines@) =~= first.push(truncate_spec(body, limit, d@)));
            }
        },
        None => {},
    }
    BlockLayout {
        x,
        y,
        width,
        height: 90,
        kind: BlockKind::MediaCard { lines, icon_text: media_icon_text(kind), media_kind: kind },
    }
}

pub(crate) fn opt_as_str(o: &Option<String>) -> (r: Option<&str>)
    ensures
        crate::render::opt_str_view(r) == opt_text(*o),
{
    match o {
        Some(s) => Some(s.as_str()),
        None => None,
    }
}

/// A reply at `(x, y)`.
pub(crate) fn layout_reply<S: Fn(&str) -> u32, M: Fn(&str) -> u32>(
    preview: ReplyPreview,
    x: u32,
    y: u32,
    cw: u32,
    m: &ForwardMetrics,
    small: &S,
    body: &M,
) -> (l: BlockLayout)
    requires
        measure_fn(small),
        measure_fn(body),
    ensures
        l.x == x,
        l.y == y,
        reply_ok(small, body, *m, preview, cw, l),
{
    let width = at_least_one_u32(cw);
    let wrap_width = at_least_one_u32(min_of(width, 320));
    let inner_pad = add_sat(
        add_sat(add_sat(m.bubble_pad_left, m.bubble_pad_right), 3),
        mul_sat(m.card_padding, 2),
    );
    let limit = at_least_one_u32(add_sat(sub_sat(wrap_width, inner_pad), REPLY_WRAP_WIDTH_COMPENSATION_PX));
    let meta = reply_meta_text(opt_as_str(&preview.meta), opt_as_str(&preview.id));
    let meta_lines = limit_lines(wrap_text(meta.as_str(), limit, small), 1, limit, small);
    let body_lines = wrap_text(preview.body.as_str(), limit, body);
    let gap: u32 = if body_lines.len() == 0 {
        0
    } else {
        m.file_meta_gap
    };
    let inner = add_sat(
        add_sat(add_sat(12, mul_sat(count_u32(meta_lines.len()), m.file_line_height)), gap),
        mul_sat(count_u32(body_lines.len()), m.line_height),
    );
    let height = add_sat(add_sat(add_sat(m.bubble_pad_top, m.bubble_pad_bottom), inner), 6);
    proof {
        assert(strings_view(meta_lines@).len() == meta_lines@.len());
        assert(strings_view(body_lines@).len() == body_lines@.len());
    }
    BlockLayout { x, y, width, height, kind: BlockKind::Reply { meta_lines, body_lines } }
}


/// The link a laid-out card jumps to, when it is a card.
pub open spec fn layout_link(l: BlockLayout) -> Option<Seq<char>> {
    match l.kind {
        BlockKind::JsonCard { card } => opt_text(card.view.jump_url),
        _ => None,
    }
}

/// `b` is `a` with, at most, another QR code on its card.
pub open spec fn same_but_qr(a: BlockLayout, b: BlockLayout) -> bool {
    &&& a.x == b.x
    &&& a.y == b.y
    &&& a.width == b.width
    &&& a.height == b.height
    &&& match a.kind {
        BlockKind::JsonCard { card: ca } => match b.kind {
            BlockKind::JsonCard { card: cb } => {
                &&& ca.x == cb.x
                &&& ca.y == cb.y
                &&& ca.width == cb.width
                &&& ca.height == cb.height
                &&& ca.view == cb.view
                &&& ca.title_lines == cb.title_lines
                &&& ca.desc_lines == cb.desc_lines
                &&& ca.footer_line == cb.footer_line
                &&& ca.media == cb.media
                &&& ca.tag_icon == cb.tag_icon
                &&& ca.brand_icon == cb.brand_icon
            },
            _ => false,
        },
        _ => b.kind == a.kind,
    }
}

proof fn lemma_block_ok_but_qr<
    M: Fn(&str) -> u32,
    S: Fn(&str) -> u32,
    N: Fn(&str) -> u32,
    T: Fn(&str) -> u32,
    B: Fn(&str) -> u32,
    P: Fn(u32) -> u32,
    F: Fn(u32, u32, u32, u32) -> (u32, u32),
>(
    t: LayoutTools<M, S, N, T, B, P, F>,
    m: ForwardMetrics,
    table: EmojiTable,
    poke: Option<ResolvedImage>,
    b: DraftBlock,
    x: u32,
    y: u32,
    cw: u32,
    la: BlockLayout,
    lb: BlockLayout,
)
    requires
        block_ok(t, m, table, poke, b, x, y, cw, la),
        same_but_qr(la, lb),
    ensures
        block_ok(t, m, table, poke, b, x, y, cw, lb),
        layout_link(lb) == layout_link(la),
{
    match la.kind {
        BlockKind::JsonCard { card: ca } => {
            let cb = lb.kind->card;
            assert(card_layout_spec(ca, x, y, cw, b->view, b->images, card_metrics(m), &t.card_title, &t.card_body, &t.card_preview));
            assert(ca.title_lines@ == cb.title_lines@);
            assert(ca.desc_lines@ == cb.desc_lines@);
        },
        _ => {
            assert(lb.kind == la.kind);
        },
    }
}

fn clone_text(o: &Option<String>) -> (r: Option<String>)
    ensures
        opt_text(r) == opt_text(*o),
{
    match o {
        Some(s) => Some(crate::text::owned(s.as_str())),
        None => None,
    }
}

/// Gives the cards of one message their QR codes: each card of a run of
/// consecutive linked cards shows the last link of the run.
pub(crate) fn assign_item_qr(laid: Vec<BlockLayout>, Ghost(ins): Ghost<Seq<DraftBlock>>) -> (r: Vec<BlockLayout>)
    requires
        laid@.len() == ins.len(),
        forall|j: int| 0 <= j < ins.len() ==> layout_link(#[trigger] laid@[j]) == card_link(ins[j]),
    ensures
        r@.len() == laid@.len(),
        forall|j: int| 0 <= j < laid@.len() ==> same_but_qr(laid@[j], #[trigger] r@[j]),
        qr_ok(ins, r@),
{
    let n = laid.len();
    let ghost orig = laid@;
    let mut src = laid;
    let mut res: Vec<BlockLayout> = Vec::new();
    let mut cur: Option<String> = None;
    let mut next_linked = false;
    let ghost mut k: int = n as int;
    while src.len() > 0
        invariant
            n == orig.len(),
            orig.len() == ins.len(),
            0 <= k <= n,
            src@ == orig.take(k),
            res@.len() == n - k,
            forall|j: int| 0 <= j < ins.len() ==> layout_link(#[trigger] orig[j]) == card_link(ins[j]),
            forall|q: int| k <= q < n ==> same_but_qr(orig[q], #[trigger] res@[q - k]),
            forall|q: int|
                k <= q < n ==> match #[trigger] res@[q - k].kind {
                    BlockKind::JsonCard { card } => opt_text(card.qr_url) == if card_link(ins[q]) is Some {
                        card_link(ins[link_run_end(ins, q)])
                    } else {
                        None
                    },
                    _ => true,
                },
            next_linked == (k < n && card_link(ins[k]) is Some),
            next_linked ==> opt_text(cur) == card_link(ins[link_run_end(ins, k)]),
        decreases src@.len(),
    {
        let l = src.pop().unwrap();
        proof {
            k = k - 1;
            assert(l == orig[k]);
        }
        let BlockLayout { x, y, width, height, kind } = l;
        let ghost old_res = res@;
        let ghost was_next = next_linked;
        let linked_here: bool;
        let kind2 = match kind {
            BlockKind::JsonCard { card } => {
                let JsonCardLayout {
                    x: cx,
                    y: cy,
                    width: cwid,
                    height: chgt,
                    view,
                    title_lines,
                    desc_lines,
                    footer_line,
                    media,
                    tag_icon,
                    brand_icon,
                    qr_url: _,
                } = card;
                let linked = view.jump_url.is_some();
                if linked && !next_linked {
                    cur = clone_text(&view.jump_url);
                }
                let q = if linked {
                    clone_text(&cur)
                } else {
                    None
                };
                linked_here = linked;
                BlockKind::JsonCard {
                    card: JsonCardLayout {
                        x: cx,
                        y: cy,
                        width: cwid,
                        height: chgt,
                        view,
                        title_lines,
                        desc_lines,
                        footer_line,
                        media,
                        tag_icon,
                        brand_icon,
                        qr_url: q,
                    },
                }
            },
            other => {
                linked_here = false;
                other
            },
        };
        next_linked = linked_here;
        let nl = BlockLayout { x, y, width, height, kind: kind2 };
        res.insert(0, nl);
        proof {
            assert(layout_link(orig[k]) == card_link(ins[k]));
            assert(res@[0] == nl);
            assert forall|q: int| k + 1 <= q < n implies #[trigger] res@[q - k] == old_res[q - (k + 1)] by {}
            if card_link(ins[k]) is Some {
                if was_next {
                    assert(link_run_end(ins, k) == link_run_end(ins, k + 1));
                } else {
                    assert(link_run_end(ins, k) == k);
                }
            }
        }
    }
    proof {
        assert(k == 0);
        assert forall|j: int| 0 <= j < orig.len() implies same_but_qr(orig[j], #[trigger] res@[j]) by {
            assert(res@[j - k] == res@[j]);
        }
        assert forall|j: int|
            0 <= j < res@.len() implies match #[trigger] res@[j].kind {
                BlockKind::JsonCard { card } => opt_text(card.qr_url) == if card_link(ins[j]) is Some {
                    card_link(ins[link_run_end(ins, j)])
                } else {
                    None
                },
                _ => true,
            } by {
            assert(res@[j - k] == res@[j]);
        }
    }
    res
}

/// A card at `(x, y)`, its QR code showing its own link.
pub(crate) fn layout_json_card_block_at<
    M: Fn(&str) -> u32,
    S: Fn(&str) -> u32,
    N: Fn(&str) -> u32,
    T: Fn(&str) -> u32,
    B: Fn(&str) -> u32,
    P: Fn(u32) -> u32,
    F: Fn(u32, u32, u32, u32) -> (u32, u32),
>(
    view: JsonCardView,
    images: JsonCardImages,
    x: u32,
    y: u32,
    cw: u32,
    m: &ForwardMetrics,
    tools: &LayoutTools<M, S, N, T, B, P, F>,
) -> (l: BlockLayout)
    requires
        tools_ok(*tools),
    ensures
        l.x == x,
        l.y == y,
        match l.kind {
            BlockKind::JsonCard { card } => {
                &&& card_layout_spec(card, x, y, cw, view, images, card_metrics(*m), &tools.card_title, &tools.card_body, &tools.card_preview)
                &&& l.width == card.width
                &&& l.height == card.height
                &&& opt_text(card.qr_url) == opt_text(card.view.jump_url)
            },
            _ => false,
        },
{
    let cm = CardMetrics {
        card_padding: m.card_padding,
        card_line_height: m.card_line_height,
        file_meta_height: m.file_meta_height,
        file_meta_gap: m.file_meta_gap,
    };
    let card = layout_json_card_block(x, y, cw, view, images, &cm, &tools.card_title, &tools.card_body, &tools.card_preview);
    let width = card.width;
    let height = card.height;
    BlockLayout { x, y, width, height, kind: BlockKind::JsonCard { card } }
}

/// Lays out the block `block` of a forwarded chat at `(x, y)` within
/// `content_width`. A picture or a video's preview is scaled into half the
/// width and 300 high; a file card shows its name, its size line and an
/// icon; other media show a card with their label; a reply its header on
/// one line and the quoted text; a poke the poke picture; a card what
/// `layout_json_card_block` gives; and a forwarded chat inside it its
/// messages, indented under a title line, each block 10 below the last.
pub fn layout_forward_child_block<
    M: Fn(&str) -> u32,
    S: Fn(&str) -> u32,
    N: Fn(&str) -> u32,
    T: Fn(&str) -> u32,
    B: Fn(&str) -> u32,
    P: Fn(u32) -> u32,
    F: Fn(u32, u32, u32, u32) -> (u32, u32),
>(
    block: DraftBlock,
    x: u32,
    y: u32,
    content_width: u32,
    metrics: &ForwardMetrics,
    tools: &LayoutTools<M, S, N, T, B, P, F>,
    table: &EmojiTable,
    poke: &Option<ResolvedImage>,
) -> (r: Option<BlockLayout>)
    requires
        tools_ok(*tools),
        table.wf(),
        icons_ok(block),
    ensures
        r matches Some(l) && block_ok(*tools, *metrics, *table, *poke, block, x, y, content_width, l),
        r matches Some(l) ==> (l.kind matches BlockKind::JsonCard { card } ==> opt_text(card.qr_url) == opt_text(
            card.view.jump_url,
        )),
    decreases block,
{
    let cw = content_width;
    let m = metrics;
    let l = match block {
        DraftBlock::Paragraph { text } => layout_paragraph(
            text.as_str(),
            x,
            y,
            cw,
            FORWARD_TEXT_BUBBLE_WIDTH_SHRINK_PX,
            FORWARD_SINGLE_LINE_TEXT_HEIGHT_SHRINK_PX,
            m,
            &tools.body,
            table,
        ),
        DraftBlock::Attachment { kind, name, reference, size_line, image } => match kind {
            MediaKind::Image | MediaKind::Sticker => {
                let (width, height) = picture_box(&image, cw, &tools.fit);
                BlockLayout { x, y, width, height, kind: BlockKind::Image { image } }
            },
            MediaKind::Video => {
                let (width, height) = picture_box(&image, cw, &tools.fit);
                BlockLayout { x, y, width, height, kind: BlockKind::VideoPreview { image } }
            },
            MediaKind::File => {
                let fname = forward_file_name(name, &reference);
                layout_file_card(fname, size_line, x, y, cw, true, m, &tools.small, &tools.tiny)
            },
            _ => layout_media_card(kind, reference_label(&reference), x, y, cw, m, &tools.body),
        },
        DraftBlock::Reply { preview } => layout_reply(preview, x, y, cw, m, &tools.small, &tools.body),
        DraftBlock::Poke => {
            let (width, height) = poke_box(poke, cw, &tools.fit);
            BlockLayout { x, y, width, height, kind: BlockKind::Poke { image: clone_image(poke) } }
        },
        DraftBlock::JsonCard { view, images } => layout_json_card_block_at(view, images, x, y, cw, m, tools),
        DraftBlock::Forward { items } => {
            let title_h = add_sat(m.meta_size, m.file_meta_gap);
            let cy = add_sat(add_sat(add_sat(y, title_h), m.file_meta_gap), 12);
            let cx = add_sat(x, FORWARD_CHILD_INDENT);
            let ccw = at_least_one_u32(sub_sat(cw, FORWARD_CHILD_INDENT));
            let (out, bottom) = layout_forward_items(items, cx, cy, ccw, FORWARD_BLOCK_SPACING, m, tools, table, poke);
            let height = add_sat(sub_sat(bottom, y), m.card_padding);
            BlockLayout { x, y, width: cw, height, kind: BlockKind::Forward { items: out } }
        },
    };
    Some(l)
}

proof fn lemma_cursor_prefix(a: Seq<ForwardLayoutItem>, b: Seq<ForwardLayoutItem>, start: u32, spacing: u32, k: int)
    requires
        0 <= k <= a.len(),
        k <= b.len(),
        forall|q: int| 0 <= q < k ==> a[q] == b[q],
    ensures
        items_cursor(a, start, spacing, k) == items_cursor(b, start, spacing, k),
    decreases k,
{
    if k > 0 {
        lemma_cursor_prefix(a, b, start, spacing, k - 1);
    }
}

/// Lays out the messages `items` of a forwarded chat from `start_y` down,
/// at `x` within `content_width`: each block `spacing` below the last, an
/// empty message as a bubble that says so, and the cards of each message
/// given their QR codes. Gives the laid-out messages and the bottom of the
/// last block (`start_y` when there is none).
#[verifier::loop_isolation(false)]
pub fn layout_forward_items<
    M: Fn(&str) -> u32,
    S: Fn(&str) -> u32,
    N: Fn(&str) -> u32,
    T: Fn(&str) -> u32,
    B: Fn(&str) -> u32,
    P: Fn(u32) -> u32,
    F: Fn(u32, u32, u32, u32) -> (u32, u32),
>(
    items: Vec<ForwardItem>,
    x: u32,
    start_y: u32,
    content_width: u32,
    spacing: u32,
    metrics: &ForwardMetrics,
    tools: &LayoutTools<M, S, N, T, B, P, F>,
    table: &EmojiTable,
    poke: &Option<ResolvedImage>,
) -> (r: (Vec<ForwardLayoutItem>, u32))
    requires
        tools_ok(*tools),
        table.wf(),
        items_icons_ok(items@),
    ensures
        items_ok(*tools, *metrics, *table, *poke, items@, x, start_y, content_width, spacing, r.0@),
        r.1 == items_bottom(r.0@, start_y, spacing),
    decreases items,
{
    let cw = content_width;
    let ghost orig = items;
    let mut rest = items;
    let mut out: Vec<ForwardLayoutItem> = Vec::new();
    let mut cursor = start_y;
    let ghost mut i: int = 0;
    while rest.len() > 0
        invariant
            0 <= i <= orig@.len(),
            rest@ == orig@.subrange(i, orig@.len() as int),
            out@.len() == i,
            cursor == items_cursor(out@, start_y, spacing, i),
            forall|k: int|
                0 <= k < i ==> item_ok(
                    *tools,
                    *metrics,
                    *table,
                    *poke,
                    #[trigger] orig@[k],
                    x,
                    items_cursor(out@, start_y, spacing, k),
                    cw,
                    spacing,
                    out@[k].blocks@,
                ),
        decreases rest@.len(),
    {
        let item = rest.remove(0);
        proof {
            assert(item == orig@[i]);
            assert(item_icons_ok(orig@[i]));
        }
        let ghost oi = item;
        let ForwardItem { sender_name: _, blocks: item_blocks } = item;
        let mut bs = item_blocks;
        let mut laid: Vec<BlockLayout> = Vec::new();
        let mut c = cursor;
        let ghost mut j: int = 0;
        while bs.len() > 0
            invariant
                0 <= i < orig@.len(),
                oi == orig@[i],
                item_icons_ok(oi),
                0 <= j <= oi.blocks@.len(),
                bs@ == oi.blocks@.subrange(j, oi.blocks@.len() as int),
                laid@.len() == j,
                stacked(laid@, cursor, spacing),
                c == blocks_end(laid@, cursor, spacing),
                forall|k: int| 0 <= k < j ==> #[trigger] laid@[k].x == x,
                forall|k: int|
                    0 <= k < j ==> block_ok(
                        *tools,
                        *metrics,
                        *table,
                        *poke,
                        #[trigger] oi.blocks@[k],
                        x,
                        laid@[k].y,
                        cw,
                        laid@[k],
                    ),
            decreases bs@.len(),
        {
            let b = bs.remove(0);
            proof {
                assert(b == orig@[i].blocks@[j]);
                assert(decreases_to!(orig => orig@[i]));
                assert(decreases_to!(orig@[i] => orig@[i].blocks));
                assert(decreases_to!(orig@[i].blocks => orig@[i].blocks@[j]));
                assert(decreases_to!(orig => b));
                assert(icons_ok(oi.blocks@[j]));
            }
            let ol = layout_forward_child_block(b, x, c, cw, metrics, tools, table, poke);
            let l = ol.unwrap();
            let next = add_sat(add_sat(l.y, l.height), spacing);
            let ghost before = laid@;
            laid.push(l);
            proof {
                assert(laid@.drop_last() == before);
                j = j + 1;
            }
            c = next;
        }
        proof {
            assert(oi.blocks@.subrange(j, oi.blocks@.len() as int).len() == 0);
        }
        if laid.len() == 0 {
            let t = String::from_str("[空消息]");
            let l = layout_paragraph(
                t.as_str(),
                x,
                c,
                cw,
                FORWARD_TEXT_BUBBLE_WIDTH_SHRINK_PX,
                FORWARD_SINGLE_LINE_TEXT_HEIGHT_SHRINK_PX,
                metrics,
                &tools.body,
                table,
            );
            let next = add_sat(add_sat(l.y, l.height), spacing);
            laid.push(l);
            c = next;
        } else {
            let ghost pre = laid@;
            proof {
                assert forall|q: int| 0 <= q < oi.blocks@.len() implies layout_link(#[trigger] laid@[q]) == card_link(
                    oi.blocks@[q],
                ) by {
                    assert(block_ok(*tools, *metrics, *table, *poke, oi.blocks@[q], x, laid@[q].y, cw, laid@[q]));
                }
            }
            laid = assign_item_qr(laid, Ghost(oi.blocks@));
            proof {
                assert forall|q: int| 0 <= q < laid@.len() implies block_ok(
                    *tools,
                    *metrics,
                    *table,
                    *poke,
                    #[trigger] oi.blocks@[q],
                    x,
                    laid@[q].y,
                    cw,
                    laid@[q],
                ) by {
                    lemma_block_ok_but_qr(*tools, *metrics, *table, *poke, oi.blocks@[q], x, pre[q].y, cw, pre[q], laid@[q]);
                }
                assert forall|q: int| 0 < q < laid@.len() implies #[trigger] laid@[q].y == next_y(laid@[q - 1], spacing) by {
                    assert(same_but_qr(pre[q], laid@[q]));
                    assert(same_but_qr(pre[q - 1], laid@[q - 1]));
                }
                assert(same_but_qr(pre[0], laid@[0]));
                assert(same_but_qr(pre.last(), laid@.last()));
            }
        }
        let ghost old_out = out@;
        out.push(ForwardLayoutItem { blocks: laid });
        proof {
            assert forall|k: int| 0 <= k <= i implies items_cursor(out@, start_y, spacing, k) == items_cursor(
                old_out,
                start_y,
                spacing,
                k,
            ) by {
                lemma_cursor_prefix(out@, old_out, start_y, spacing, k);
            }
            assert(out@[i] == (ForwardLayoutItem { blocks: laid }));
            assert(items_cursor(out@, start_y, spacing, i + 1) == blocks_end(out@[i].blocks@, cursor, spacing));
            assert(item_ok(*tools, *metrics, *table, *poke, orig@[i], x, cursor, cw, spacing, out@[i].blocks@));
            assert forall|k: int|
                0 <= k < i + 1 implies item_ok(
                *tools,
                *metrics,
                *table,
                *poke,
                #[trigger] orig@[k],
                x,
                items_cursor(out@, start_y, spacing, k),
                cw,
                spacing,
                out@[k].blocks@,
            ) by {
                if k < i {
                    assert(out@[k] == old_out[k]);
                }
            }
            i = i + 1;
        }
        cursor = c;
    }
    proof {
        assert(orig@.subrange(i, orig@.len() as int).len() == 0);
    }
    let bottom = if cursor > start_y {
        sub_sat(cursor, spacing)
    } else {
        start_y
    };
    (out, bottom)
}


// ----------------------------------------------------------------------
// How deep forwarded chats nest
// ----------------------------------------------------------------------

/// How many forwarded chats can nest inside one another.
pub const MAX_FORWARD_DEPTH: u32 = 4;

/// What a forwarded chat nested too deep shows.
pub open spec fn too_deep_text() -> Seq<char> {
    "[合并转发:层级过深]"@
}

/// `o` is `b`, found `depth` chats deep, with every chat nested
/// `MAX_FORWARD_DEPTH` deep or more replaced by a line that says so.
pub open spec fn norm_ok(b: DraftBlock, depth: int, o: DraftBlock) -> bool
    decreases b, 0int,
{
    match b {
        DraftBlock::Forward { items } => if depth < MAX_FORWARD_DEPTH {
            match o {
                DraftBlock::Forward { items: out } => norm_items_ok(items@, depth + 1, out@),
                _ => false,
            }
        } else {
            match o {
                DraftBlock::Paragraph { text } => text@ == too_deep_text(),
                _ => false,
            }
        },
        _ => o == b,
    }
}

pub open spec fn norm_items_ok(items: Seq<ForwardItem>, depth: int, out: Seq<ForwardItem>) -> bool
    decreases items, 1int,
{
    &&& out.len() == items.len()
    &&& forall|i: int| 0 <= i < items.len() ==> norm_item_ok(#[trigger] items[i], depth, out[i])
}

pub open spec fn norm_item_ok(item: ForwardItem, depth: int, o: ForwardItem) -> bool
    decreases item, 2int,
{
    &&& o.sender_name == item.sender_name
    &&& o.blocks@.len() == item.blocks@.len()
    &&& forall|j: int| 0 <= j < item.blocks@.len() ==> norm_ok(#[trigger] item.blocks@[j], depth, o.blocks@[j])
}

/// No chat in `b` nests more than `k` deep.
pub open spec fn nests_within(b: DraftBlock, k: int) -> bool
    decreases b, 0int,
{
    match b {
        DraftBlock::Forward { items } => k >= 1 && items_nest_within(items@, k - 1),
        _ => true,
    }
}

pub open spec fn items_nest_within(items: Seq<ForwardItem>, k: int) -> bool
    decreases items, 1int,
{
    forall|i: int| 0 <= i < items.len() ==> item_nests_within(#[trigger] items[i], k)
}

pub open spec fn item_nests_within(item: ForwardItem, k: int) -> bool
    decreases item, 2int,
{
    forall|j: int| 0 <= j < item.blocks@.len() ==> nests_within(#[trigger] item.blocks@[j], k)
}

/// A block normalised `depth` chats deep holds chats nested at most
/// `MAX_FORWARD_DEPTH - depth` deep.
pub proof fn lemma_normalized_nesting(b: DraftBlock, depth: int, o: DraftBlock)
    requires
        0 <= depth <= MAX_FORWARD_DEPTH,
        norm_ok(b, depth, o),
    ensures
        nests_within(o, MAX_FORWARD_DEPTH - depth),
    decreases b,
{
    match b {
        DraftBlock::Forward { items } => {
            if depth < MAX_FORWARD_DEPTH {
                let out = o->Forward_items;
                assert forall|i: int| 0 <= i < out@.len() implies item_nests_within(
                    #[trigger] out@[i],
                    MAX_FORWARD_DEPTH - depth - 1,
                ) by {
                    assert(norm_item_ok(items@[i], depth + 1, out@[i]));
                    assert forall|j: int| 0 <= j < out@[i].blocks@.len() implies nests_within(
                        #[trigger] out@[i].blocks@[j],
                        MAX_FORWARD_DEPTH - depth - 1,
                    ) by {
                        assert(decreases_to!(b => items));
                        assert(decreases_to!(items => items@[i]));
                        assert(decreases_to!(items@[i] => items@[i].blocks));
                        assert(decreases_to!(items@[i].blocks => items@[i].blocks@[j]));
                        assert(decreases_to!(b => items@[i].blocks@[j]));
                        lemma_normalized_nesting(items@[i].blocks@[j], depth + 1, out@[i].blocks@[j]);
                    }
                }
            }
        },
        _ => {},
    }
}

fn normalize_block(b: DraftBlock, depth: u32) -> (o: DraftBlock)
    requires
        depth <= MAX_FORWARD_DEPTH,
    ensures
        norm_ok(b, depth as int, o),
    decreases b,
{
    match b {
        DraftBlock::Forward { items } => {
            if depth < MAX_FORWARD_DEPTH {
                DraftBlock::Forward { items: normalize_items(items, depth + 1) }
            } else {
                DraftBlock::Paragraph { text: String::from_str("[合并转发:层级过深]") }
            }
        },
        other => other,
    }
}

#[verifier::loop_isolation(false)]
fn normalize_items(items: Vec<ForwardItem>, depth: u32) -> (out: Vec<ForwardItem>)
    requires
        depth <= MAX_FORWARD_DEPTH,
    ensures
        norm_items_ok(items@, depth as int, out@),
    decreases items,
{
    let ghost orig = items;
    let mut rest = items;
    let mut out: Vec<ForwardItem> = Vec::new();
    let ghost mut i: int = 0;
    while rest.len() > 0
        invariant
            0 <= i <= orig@.len(),
            rest@ == orig@.subrange(i, orig@.len() as int),
            out@.len() == i,
            forall|k: int| 0 <= k < i ==> norm_item_ok(#[trigger] orig@[k], depth as int, out@[k]),
        decreases rest@.len(),
    {
        let item = rest.remove(0);
        assert(item == orig@[i]);
        let ghost oi = item;
        let ForwardItem { sender_name, blocks } = item;
        let mut bs = blocks;
        let mut done: Vec<DraftBlock> = Vec::new();
        let ghost mut j: int = 0;
        while bs.len() > 0
            invariant
                0 <= i < orig@.len(),
                oi == orig@[i],
                0 <= j <= oi.blocks@.len(),
                bs@ == oi.blocks@.subrange(j, oi.blocks@.len() as int),
                done@.len() == j,
                forall|k: int| 0 <= k < j ==> norm_ok(#[trigger] oi.blocks@[k], depth as int, done@[k]),
            decreases bs@.len(),
        {
            let b = bs.remove(0);
            proof {
                assert(b == orig@[i].blocks@[j]);
                assert(decreases_to!(orig => orig@[i]));
                assert(decreases_to!(orig@[i] => orig@[i].blocks));
                assert(decreases_to!(orig@[i].blocks => orig@[i].blocks@[j]));
                assert(decreases_to!(orig => b));
            }
            let nb = normalize_block(b, depth);
            done.push(nb);
            proof {
                j = j + 1;
            }
        }
        proof {
            assert(oi.blocks@.subrange(j, oi.blocks@.len() as int).len() == 0);
        }
        let ghost old_out = out@;
        out.push(ForwardItem { sender_name, blocks: done });
        proof {
            assert forall|k: int| 0 <= k < i + 1 implies norm_item_ok(#[trigger] orig@[k], depth as int, out@[k]) by {
                if k < i {
                    assert(out@[k] == old_out[k]);
                }
            }
            i = i + 1;
        }
    }
    proof {
        assert(orig@.subrange(i, orig@.len() as int).len() == 0);
    }
    out
}

/// The post with every forwarded chat nested `MAX_FORWARD_DEPTH` deep or
/// more replaced by a line that says it is nested too deep; all else as it
/// was.
pub fn normalize_embedded_forward_draft(draft: Draft) -> (r: Draft)
    ensures
        r.blocks@.len() == draft.blocks@.len(),
        forall|j: int| 0 <= j < draft.blocks@.len() ==> norm_ok(#[trigger] draft.blocks@[j], 0, r.blocks@[j]),
        forall|j: int| 0 <= j < r.blocks@.len() ==> nests_within(#[trigger] r.blocks@[j], MAX_FORWARD_DEPTH as int),
{
    let ghost orig = draft.blocks@;
    let Draft { blocks } = draft;
    let mut rest = blocks;
    let mut done: Vec<DraftBlock> = Vec::new();
    let ghost mut j: int = 0;
    while rest.len() > 0
        invariant
            0 <= j <= orig.len(),
            rest@ == orig.subrange(j, orig.len() as int),
            done@.len() == j,
            forall|k: int| 0 <= k < j ==> norm_ok(#[trigger] orig[k], 0, done@[k]),
        decreases rest@.len(),
    {
        let b = rest.remove(0);
        assert(b == orig[j]);
        let nb = normalize_block(b, 0);
        done.push(nb);
        proof {
            j = j + 1;
        }
    }
    proof {
        assert(orig.subrange(j, orig.len() as int).len() == 0);
        assert forall|k: int| 0 <= k < done@.len() implies nests_within(#[trigger] done@[k], MAX_FORWARD_DEPTH as int) by {
            lemma_normalized_nesting(orig[k], 0, done@[k]);
        }
    }
    Draft { blocks: done }
}

} // verus!
