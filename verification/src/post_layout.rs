//! Where everything in a post goes: the header with the sender's name, the
//! blocks one under the other, and the pages the post is cut into.
use vstd::prelude::*;

use crate::card_layout::{add_sat, at_least_one, max_u32, min_u32, sat_sub, sub_sat};
use crate::forward_layout::{
    assign_item_qr, at_least_one_u32, blocks_end, bubble_ok, card_link, clone_image, file_card_ok,
    items_bottom, items_icons_ok, items_ok, layout_file_card, layout_forward_items, layout_json_card_block_at,
    layout_media_card, layout_paragraph, layout_reply, layout_link, leaf_ok, max_of, media_card_ok, min_of,
    opt_as_str, picture_box, picture_box_ok, poke_box, qr_ok, same_but_qr, stacked, tools_ok, BlockKind,
    BlockLayout, Draft, DraftBlock, ForwardMetrics, LayoutTools, FORWARD_BLOCK_SPACING, FORWARD_CHILD_INDENT,
};
use crate::inline::EmojiTable;
use crate::json::opt_text;
use crate::measure::measure_fn;
use crate::media::MediaKind;
use crate::render::{
    extract_filename, filename_spec, icon_text_cuttable, opt_str_view, paginate_render_pages, paginate_spec,
    BlockSpan, RenderPreviewHeader, ResolvedImage,
};
use crate::wrap::{sat_add, truncate_spec, truncate_text};

verus! {

/// The margin round a post.
pub const PAGE_PADDING: u32 = 20;

/// How far blocks are drawn from the sides.
pub const CONTENT_PADDING: u32 = 15;

/// The space between two blocks of a post.
pub const BLOCK_SPACING: u32 = 10;

/// The space between the header and the first block.
pub const HEADER_SPACING: u32 = 5;

/// The side of the sender's avatar.
pub const AVATAR_SIZE: u32 = 50;

/// The space between the avatar and the sender's name.
pub const HEADER_GAP: u32 = 10;

/// The size of the sender's name.
pub const TITLE_SIZE: u32 = 32;

/// How many output pixels make one layout pixel.
pub const RENDER_SCALE: u32 = 3;

/// How much narrower a text bubble of the post itself is drawn.
pub const TOP_LEVEL_TEXT_BUBBLE_WIDTH_SHRINK_PX: u32 = 6;

/// The widest a forwarded chat of the post itself is drawn.
pub const FORWARD_MAX_WIDTH: u32 = 340;

/// A post laid out: the header's two lines, its blocks, its full height and
/// its pages as `(top, height)`.
#[derive(Debug)]
pub struct DraftLayout {
    pub title_text: String,
    pub meta_text: String,
    pub header_height: u32,
    pub blocks: Vec<BlockLayout>,
    pub full_height: u32,
    pub pages: Vec<(u32, u32)>,
}

/// The name in the header: "匿名" for an anonymous post, else the sender's
/// name, else a name made of the sender's number.
pub open spec fn header_title_spec(h: RenderPreviewHeader) -> Seq<char> {
    if h.is_anonymous {
        "匿名"@
    } else {
        match h.sender_name {
            Some(n) => n@,
            None => if h.user_id@ == "unknown"@ {
                "OQQWall"@
            } else {
                "User "@ + h.user_id@
            },
        }
    }
}

/// The number line in the header, before it is cut to the width.
pub open spec fn header_meta_spec(h: RenderPreviewHeader) -> Seq<char> {
    "QQ "@ + if h.user_id@ == "unknown"@ {
        h.post_id_hex@
    } else {
        h.user_id@
    }
}

/// The label of block `j`, when there is one.
pub open spec fn label_at(labels: Seq<Option<String>>, j: int) -> Option<Seq<char>> {
    if 0 <= j < labels.len() {
        opt_text(labels[j])
    } else {
        None
    }
}

/// The name a file card of the post shows: the file name its label ends in,
/// else its own name.
pub open spec fn top_file_name(label: Option<Seq<char>>, name: Option<String>) -> Seq<char> {
    match match label {
        Some(u) => filename_spec(u),
        None => None,
    } {
        Some(f) => f,
        None => match name {
            Some(n) => n@,
            None => "Unknown file"@,
        },
    }
}

/// Every file name the post's block `b` shows can have its icon label cut.
pub open spec fn top_icons_ok(b: DraftBlock, label: Option<Seq<char>>) -> bool {
    match b {
        DraftBlock::Attachment { kind, name, .. } => kind is File ==> icon_text_cuttable(top_file_name(label, name)),
        DraftBlock::Forward { items } => items_icons_ok(items@),
        _ => true,
    }
}

/// `l` is the post's block `b`, with the address `label`, laid out at
/// `(x, y)` within `cw` (a card's QR code aside).
pub open spec fn top_ok<
    M: Fn(&str) -> u32,
    S: Fn(&str) -> u32,
    N: Fn(&str) -> u32,
    T: Fn(&str) -> u32,
    B: Fn(&str) -> u32,
    P: Fn(u32) -> u32,
    F: Fn(u32, u32, u32, u32) -> (u32, u32),
>(
    t: LayoutTools<M, S, N, T, B, P, F>,
    m: ForwardMetrics,
    table: EmojiTable,
    poke: Option<ResolvedImage>,
    b: DraftBlock,
    label: Option<Seq<char>>,
    x: u32,
    y: u32,
    cw: u32,
    l: BlockLayout,
) -> bool {
    &&& l.x == x
    &&& l.y == y
    &&& match b {
        DraftBlock::Paragraph { text } => bubble_ok(
            &t.body,
            m,
            table,
            text@,
            cw,
            TOP_LEVEL_TEXT_BUBBLE_WIDTH_SHRINK_PX,
            0,
            l,
        ),
        DraftBlock::Attachment { kind, name, reference, size_line, image } => {
            if kind is Image || kind is Sticker {
                l.kind == (BlockKind::Image { image }) && picture_box_ok(&t.fit, image, cw, l)
            } else if kind is Video {
                l.kind == (BlockKind::VideoPreview { image }) && picture_box_ok(&t.fit, image, cw, l)
            } else if kind is File {
                file_card_ok(&t.small, &t.tiny, m, top_file_name(label, name), size_line, cw, false, l)
            } else {
                media_card_ok(&t.body, m, kind, label, cw, l)
            }
        },
        DraftBlock::Forward { items } => {
            let w = at_least_one(min_u32(cw, FORWARD_MAX_WIDTH));
            let cy = sat_add(sat_add(sat_add(sat_add(y, m.meta_size), m.file_meta_gap), 6), 6);
            let cx = sat_add(x, FORWARD_CHILD_INDENT);
            let ccw = at_least_one(sat_sub(w, FORWARD_CHILD_INDENT));
            match l.kind {
                BlockKind::Forward { items: out } => {
                    &&& items_ok(t, m, table, poke, items@, cx, cy, ccw, FORWARD_BLOCK_SPACING, out@)
                    &&& l.width == w
                    &&& l.height == sat_add(
                        sat_sub(items_bottom(out@, cy, FORWARD_BLOCK_SPACING), y),
                        m.card_padding,
                    )
                },
                _ => false,
            }
        },
        _ => leaf_ok(t, m, table, poke, b, x, y, cw, l),
    }
}

/// Where and how tall each block is.
pub open spec fn spans_of(bs: Seq<BlockLayout>) -> Seq<BlockSpan> {
    Seq::new(bs.len(), |j: int| BlockSpan { y: bs[j].y, height: bs[j].height })
}

pub open spec fn header_height_spec(m: ForwardMetrics) -> u32 {
    let meta_y = sat_add(sat_add(sat_add(PAGE_PADDING, TITLE_SIZE), m.meta_size), 4);
    max_u32(AVATAR_SIZE, sat_sub(sat_add(meta_y, m.meta_size), PAGE_PADDING))
}

proof fn lemma_top_ok_but_qr<
    M: Fn(&str) -> u32,
    S: Fn(&str) -> u32,
    N: Fn(&str) -> u32,
    T: Fn(&str) -> u32,
    B: Fn(&str) -> u32,
    P: Fn(u32) -> u32,
    F: Fn(u32, u32, u32, u32) -> (u32, u32),
>(
    t: LayoutTools<M, S, N, T, B, P, F>,
    m: ForwardMetrics,
    table: EmojiTable,
    poke: Option<ResolvedImage>,
    b: DraftBlock,
    label: Option<Seq<char>>,
    x: u32,
    y: u32,
    cw: u32,
    la: BlockLayout,
    lb: BlockLayout,
)
    requires
        top_ok(t, m, table, poke, b, label, x, y, cw, la),
        same_but_qr(la, lb),
    ensures
        top_ok(t, m, table, poke, b, label, x, y, cw, lb),
{
    match la.kind {
        BlockKind::JsonCard { card: ca } => {
            let cb = lb.kind->card;
            assert(ca.title_lines@ == cb.title_lines@);
            assert(ca.desc_lines@ == cb.desc_lines@);
        },
        _ => {
            assert(lb.kind == la.kind);
        },
    }
}

/// Lays out the post's block `block` at `(x, y)` within `cw`.
fn layout_top_block<
    M: Fn(&str) -> u32,
    S: Fn(&str) -> u32,
    N: Fn(&str) -> u32,
    T: Fn(&str) -> u32,
    B: Fn(&str) -> u32,
    P: Fn(u32) -> u32,
    F: Fn(u32, u32, u32, u32) -> (u32, u32),
>(
    block: DraftBlock,
    label: Option<&str>,
    x: u32,
    y: u32,
    cw: u32,
    m: &ForwardMetrics,
    tools: &LayoutTools<M, S, N, T, B, P, F>,
    table: &EmojiTable,
    poke: &Option<ResolvedImage>,
) -> (l: BlockLayout)
    requires
        tools_ok(*tools),
        table.wf(),
        top_icons_ok(block, opt_str_view(label)),
    ensures
        top_ok(*tools, *m, *table, *poke, block, opt_str_view(label), x, y, cw, l),
{
    match block {
        DraftBlock::Paragraph { text } => layout_paragraph(
            text.as_str(),
            x,
            y,
            cw,
            TOP_LEVEL_TEXT_BUBBLE_WIDTH_SHRINK_PX,
            0,
            m,
            &tools.body,
            table,
        ),
        DraftBlock::Attachment { kind, name, reference: _, size_line, image } => match kind {
            MediaKind::Image | MediaKind::Sticker => {
                let (width, height) = picture_box(&image, cw, &tools.fit);
                BlockLayout { x, y, width, height, kind: BlockKind::Image { image } }
            },
            MediaKind::Video => {
                let (width, height) = picture_box(&image, cw, &tools.fit);
                BlockLayout { x, y, width, height, kind: BlockKind::VideoPreview { image } }
            },
            MediaKind::File => {
                let from_label = match label {
                    Some(u) => extract_filename(u),
                    None => None,
                };
                let fname = match from_label {
                    Some(f) => f,
                    None => match name {
                        Some(n) => n,
                        None => String::from_str("Unknown file"),
                    },
                };
                layout_file_card(fname, size_line, x, y, cw, false, m, &tools.small, &tools.tiny)
            },
            _ => layout_media_card(kind, label, x, y, cw, m, &tools.body),
        },
        DraftBlock::Forward { items } => {
            let width = at_least_one_u32(min_of(cw, FORWARD_MAX_WIDTH));
            let cy = add_sat(add_sat(add_sat(add_sat(y, m.meta_size), m.file_meta_gap), 6), 6);
            let cx = add_sat(x, FORWARD_CHILD_INDENT);
            let ccw = at_least_one_u32(sub_sat(width, FORWARD_CHILD_INDENT));
            let (out, bottom) = layout_forward_items(items, cx, cy, ccw, FORWARD_BLOCK_SPACING, m, tools, table, poke);
            let height = add_sat(sub_sat(bottom, y), m.card_padding);
            BlockLayout { x, y, width, height, kind: BlockKind::Forward { items: out } }
        },
        DraftBlock::Reply { preview } => layout_reply(preview, x, y, cw, m, &tools.small, &tools.body),
        DraftBlock::Poke => {
            let (width, height) = poke_box(poke, cw, &tools.fit);
            BlockLayout { x, y, width, height, kind: BlockKind::Poke { image: clone_image(poke) } }
        },
        DraftBlock::JsonCard { view, images } => layout_json_card_block_at(view, images, x, y, cw, m, tools),
    }
}

/// Lays out a post on a canvas `canvas_width_px` wide, cut into pages at
/// most `max_height_px` high (both in output pixels, three to a layout
/// pixel): the header with the sender's name and number cut to the width,
/// each block under the last with its label from `labels`, the cards of
/// each run of linked cards given the run's last link, and the pages as
/// `paginate_render_pages` cuts them.
#[verifier::rlimit(60)]
pub fn layout_draft<
    M: Fn(&str) -> u32,
    S: Fn(&str) -> u32,
    N: Fn(&str) -> u32,
    T: Fn(&str) -> u32,
    B: Fn(&str) -> u32,
    P: Fn(u32) -> u32,
    F: Fn(u32, u32, u32, u32) -> (u32, u32),
    H: Fn(&str) -> u32,
    K: Fn(&str) -> u32,
>(
    draft: Draft,
    labels: Vec<Option<String>>,
    header: &RenderPreviewHeader,
    canvas_width_px: u32,
    max_height_px: u32,
    metrics: &ForwardMetrics,
    tools: &LayoutTools<M, S, N, T, B, P, F>,
    title_measure: &H,
    meta_measure: &K,
    table: &EmojiTable,
    poke: &Option<ResolvedImage>,
) -> (r: DraftLayout)
    requires
        tools_ok(*tools),
        measure_fn(title_measure),
        measure_fn(meta_measure),
        table.wf(),
        forall|j: int|
            0 <= j < draft.blocks@.len() ==> top_icons_ok(#[trigger] draft.blocks@[j], label_at(labels@, j)),
    ensures
        ({
            let canvas = at_least_one(canvas_width_px / RENDER_SCALE);
            let max_h = at_least_one(max_height_px / RENDER_SCALE);
            let cw = sat_sub(canvas, (2 * CONTENT_PADDING) as u32);
            let text_w = sat_sub(sat_sub(canvas, (2 * PAGE_PADDING) as u32), (AVATAR_SIZE + HEADER_GAP) as u32);
            let first_y = sat_add(sat_add(PAGE_PADDING, header_height_spec(*metrics)), HEADER_SPACING);
            let bs = r.blocks@;
            let bottom = if bs.len() == 0 {
                first_y
            } else {
                sat_sub(blocks_end(bs, first_y, BLOCK_SPACING), BLOCK_SPACING)
            };
            &&& r.title_text@ == truncate_spec(title_measure, text_w, header_title_spec(*header))
            &&& r.meta_text@ == if header.is_anonymous {
                Seq::<char>::empty()
            } else {
                truncate_spec(meta_measure, text_w, header_meta_spec(*header))
            }
            &&& r.header_height == header_height_spec(*metrics)
            &&& bs.len() == draft.blocks@.len()
            &&& stacked(bs, first_y, BLOCK_SPACING)
            &&& forall|j: int|
                0 <= j < bs.len() ==> top_ok(
                    *tools,
                    *metrics,
                    *table,
                    *poke,
                    #[trigger] draft.blocks@[j],
                    label_at(labels@, j),
                    CONTENT_PADDING,
                    bs[j].y,
                    cw,
                    bs[j],
                )
            &&& qr_ok(draft.blocks@, bs)
            &&& r.full_height == max_u32(sat_add(bottom, PAGE_PADDING), canvas)
            &&& r.pages@ == paginate_spec(
                spans_of(bs),
                r.full_height,
                max_h,
                at_least_one(min_u32(canvas, max_h)),
                PAGE_PADDING,
                BLOCK_SPACING,
            )
        }),
{
    let canvas = at_least_one_u32(canvas_width_px / RENDER_SCALE);
    let max_h = at_least_one_u32(max_height_px / RENDER_SCALE);
    let cw = sub_sat(canvas, 2 * CONTENT_PADDING);
    let text_w = sub_sat(sub_sat(canvas, 2 * PAGE_PADDING), AVATAR_SIZE + HEADER_GAP);
    let title_source = if header.is_anonymous {
        String::from_str("匿名")
    } else {
        match &header.sender_name {
            Some(n) => crate::text::owned(n.as_str()),
            None => if crate::text::same_text(header.user_id.as_str(), "unknown") {
                String::from_str("OQQWall")
            } else {
                crate::text::concat2("User ", header.user_id.as_str())
            },
        }
    };
    let title_text = truncate_text(title_source.as_str(), text_w, title_measure);
    let meta_text = if header.is_anonymous {
        String::new()
    } else {
        let s = if crate::text::same_text(header.user_id.as_str(), "unknown") {
            crate::text::concat2("QQ ", header.post_id_hex.as_str())
        } else {
            crate::text::concat2("QQ ", header.user_id.as_str())
        };
        truncate_text(s.as_str(), text_w, meta_measure)
    };
    let meta_y = add_sat(add_sat(add_sat(PAGE_PADDING, TITLE_SIZE), metrics.meta_size), 4);
    let header_height = max_of(AVATAR_SIZE, sub_sat(add_sat(meta_y, metrics.meta_size), PAGE_PADDING));
    let first_y = add_sat(add_sat(PAGE_PADDING, header_height), HEADER_SPACING);
    let ghost ins = draft.blocks@;
    let Draft { blocks } = draft;
    assert(ins.len() == blocks.len());
    let mut rest = blocks;
    let mut laid: Vec<BlockLayout> = Vec::new();
    let mut cursor = first_y;
    let mut j: usize = 0;
    while rest.len() > 0
        invariant
            j <= ins.len(),
            ins.len() <= usize::MAX,
            rest@ == ins.subrange(j as int, ins.len() as int),
            laid@.len() == j,
            tools_ok(*tools),
            table.wf(),
            forall|k: int| 0 <= k < ins.len() ==> top_icons_ok(#[trigger] ins[k], label_at(labels@, k)),
            stacked(laid@, first_y, BLOCK_SPACING),
            cursor == blocks_end(laid@, first_y, BLOCK_SPACING),
            forall|k: int|
                0 <= k < j ==> top_ok(
                    *tools,
                    *metrics,
                    *table,
                    *poke,
                    #[trigger] ins[k],
                    label_at(labels@, k),
                    CONTENT_PADDING,
                    laid@[k].y,
                    cw,
                    laid@[k],
                ),
        decreases rest@.len(),
    {
        let b = rest.remove(0);
        assert(b == ins[j as int]);
        let label: Option<&str> = if j < labels.len() {
            opt_as_str(&labels[j])
        } else {
            None
        };
        assert(opt_str_view(label) == label_at(labels@, j as int));
        let l = layout_top_block(b, label, CONTENT_PADDING, cursor, cw, metrics, tools, table, poke);
        let next = add_sat(add_sat(l.y, l.height), BLOCK_SPACING);
        let ghost before = laid@;
        laid.push(l);
        proof {
            assert(laid@.drop_last() == before);
            assert forall|k: int|
                0 <= k < j + 1 implies top_ok(
                *tools,
                *metrics,
                *table,
                *poke,
                #[trigger] ins[k],
                label_at(labels@, k),
                CONTENT_PADDING,
                laid@[k].y,
                cw,
                laid@[k],
            ) by {
                if k < j {
                    assert(laid@[k] == before[k]);
                }
            }
        }
        cursor = next;
        j = j + 1;
    }
    proof {
        assert(ins.subrange(j as int, ins.len() as int).len() == 0);
    }
    let bottom = if laid.len() == 0 {
        first_y
    } else {
        sub_sat(cursor, BLOCK_SPACING)
    };
    if laid.len() > 0 {
        let ghost pre = laid@;
        proof {
            assert forall|q: int| 0 <= q < ins.len() implies layout_link(#[trigger] laid@[q]) == card_link(ins[q]) by {
                assert(top_ok(*tools, *metrics, *table, *poke, ins[q], label_at(labels@, q), CONTENT_PADDING, laid@[q].y, cw, laid@[q]));
            }
        }
        laid = assign_item_qr(laid, Ghost(ins));
        proof {
            assert forall|q: int| 0 <= q < laid@.len() implies top_ok(
                *tools,
                *metrics,
                *table,
                *poke,
                #[trigger] ins[q],
                label_at(labels@, q),
                CONTENT_PADDING,
                laid@[q].y,
                cw,
                laid@[q],
            ) by {
                lemma_top_ok_but_qr(*tools, *metrics, *table, *poke, ins[q], label_at(labels@, q), CONTENT_PADDING, pre[q].y, cw, pre[q], laid@[q]);
            }
            assert forall|q: int| 0 < q < laid@.len() implies #[trigger] laid@[q].y == crate::forward_layout::next_y(laid@[q - 1], BLOCK_SPACING) by {
                assert(same_but_qr(pre[q], laid@[q]));
                assert(same_but_qr(pre[q - 1], laid@[q - 1]));
            }
            assert(same_but_qr(pre[0], laid@[0]));
            assert(same_but_qr(pre.last(), laid@.last()));
        }
    }
    let canvas_height = add_sat(bottom, PAGE_PADDING);
    let full_height = max_of(canvas_height, canvas);
    let mut spans: Vec<BlockSpan> = Vec::new();
    let mut k: usize = 0;
    while k < laid.len()
        invariant
            k <= laid@.len(),
            spans@ == spans_of(laid@).take(k as int),
        decreases laid@.len() - k,
    {
        spans.push(BlockSpan { y: laid[k].y, height: laid[k].height });
        k = k + 1;
        assert(spans@ =~= spans_of(laid@).take(k as int));
    }
    assert(spans@ =~= spans_of(laid@));
    let min_page = at_least_one_u32(min_of(canvas, max_h));
    let pages = paginate_render_pages(spans.as_slice(), full_height, max_h, min_page, PAGE_PADDING, BLOCK_SPACING);
    DraftLayout { title_text, meta_text, header_height, blocks: laid, full_height, pages }
}

} // verus!
