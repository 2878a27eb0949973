//! Where a shared card goes in a post: its width and height, and its
//! title, description and footer lines, with text measured by functions the
//! caller supplies.
use vstd::prelude::*;

use crate::measure::{call_size, measure_fn, measure_text, size_fn, size_of, width_of};
use crate::render::{
    json_card_has_side_media_slot, json_card_side_media_space, json_card_tag_row_height,
    json_card_top_qr_space, json_card_uses_bottom_qr, json_card_uses_vertical_media, kind_is,
    uses_bottom_qr, uses_vertical_media, JsonCardView, ResolvedImage, JSON_CARD_QR_SIZE,
    JSON_CARD_SIDE_GAP, JSON_CARD_TAG_ICON_SIZE,
};
use crate::text::same_text;
use crate::wrap::{
    limit_lines, limit_spec, sat_add, strings_view, truncate_spec, truncate_text, wrap_text,
    wrap_text_spec,
};

verus! {

/// The widest a card is drawn.
pub const JSON_CARD_MAX_WIDTH: u32 = 276;

/// The extra width of a contact card.
pub const JSON_CARD_CONTACT_WIDTH_EXTRA_PX: u32 = 1;

/// How much narrower a news card with a footer is drawn.
pub const JSON_CARD_NEWS_WITH_FOOTER_WIDTH_SHRINK_PX: u32 = 1;

/// The pictures of a card, as far as they were loaded.
#[derive(Debug)]
pub struct JsonCardImages {
    pub media: Option<ResolvedImage>,
    pub tag_icon: Option<ResolvedImage>,
    pub brand_icon: Option<ResolvedImage>,
}

/// A card laid out at `(x, y)`, with what drawing it needs.
#[derive(Debug)]
pub struct JsonCardLayout {
    pub x: u32,
    pub y: u32,
    pub width: u32,
    pub height: u32,
    pub view: JsonCardView,
    pub title_lines: Vec<String>,
    pub desc_lines: Vec<String>,
    pub footer_line: Option<String>,
    pub media: Option<ResolvedImage>,
    pub tag_icon: Option<ResolvedImage>,
    pub brand_icon: Option<ResolvedImage>,
    pub qr_url: Option<String>,
}

/// How a card's text and pictures are sized.
pub struct CardMetrics {
    pub card_padding: u32,
    pub card_line_height: u32,
    pub file_meta_height: u32,
    pub file_meta_gap: u32,
}

pub open spec fn sat_mul(a: u32, b: u32) -> u32 {
    if a * b > u32::MAX {
        u32::MAX
    } else {
        (a * b) as u32
    }
}

pub open spec fn sat_sub(a: u32, b: u32) -> u32 {
    if a >= b {
        (a - b) as u32
    } else {
        0
    }
}

pub open spec fn at_least_one(a: u32) -> u32 {
    if a < 1 {
        1
    } else {
        a
    }
}

pub open spec fn max_u32(a: u32, b: u32) -> u32 {
    if a >= b {
        a
    } else {
        b
    }
}

pub open spec fn min_u32(a: u32, b: u32) -> u32 {
    if a <= b {
        a
    } else {
        b
    }
}

pub(crate) fn mul_sat(a: u32, b: u32) -> (r: u32)
    ensures
        r == sat_mul(a, b),
{
    assert((a as u64) * (b as u64) <= u64::MAX) by (nonlinear_arith)
        requires
            a <= u32::MAX,
            b <= u32::MAX,
    ;
    let p = (a as u64) * (b as u64);
    if p > 4294967295 {
        4294967295
    } else {
        p as u32
    }
}

pub(crate) fn add_sat(a: u32, b: u32) -> (r: u32)
    ensures
        r == sat_add(a, b),
{
    a.saturating_add(b)
}

pub(crate) fn sub_sat(a: u32, b: u32) -> (r: u32)
    ensures
        r == sat_sub(a, b),
{
    if a >= b {
        a - b
    } else {
        0
    }
}

/// The widest of the lines as `measure` gives them, 0 for none.
pub open spec fn widest_spec<M: Fn(&str) -> u32>(measure: &M, lines: Seq<Seq<char>>) -> u32
    decreases lines.len(),
{
    if lines.len() == 0 {
        0
    } else {
        max_u32(widest_spec(measure, lines.drop_last()), width_of(measure, lines.last()))
    }
}

pub(crate) fn widest<M: Fn(&str) -> u32>(lines: &Vec<String>, measure: &M) -> (r: u32)
    requires
        measure_fn(measure),
    ensures
        r == widest_spec(measure, strings_view(lines@)),
{
    let ghost v = strings_view(lines@);
    let mut best: u32 = 0;
    let mut i: usize = 0;
    while i < lines.len()
        invariant
            i <= lines@.len(),
            v == strings_view(lines@),
            measure_fn(measure),
            best == widest_spec(measure, v.take(i as int)),
        decreases lines@.len() - i,
    {
        proof {
            assert(v.take(i + 1).drop_last() =~= v.take(i as int));
            assert(v.take(i + 1).last() == lines@[i as int]@);
        }
        let w = measure_text(measure, lines[i].as_str());
        if w > best {
            best = w;
        }
        i = i + 1;
    }
    assert(v.take(v.len() as int) =~= v);
    best
}

pub(crate) fn count_u32(n: usize) -> (r: u32)
    ensures
        r == if n > u32::MAX { u32::MAX as int } else { n as int },
{
    if n > 4294967295 {
        4294967295
    } else {
        n as u32
    }
}

pub open spec fn count_spec(n: nat) -> u32 {
    if n > u32::MAX {
        u32::MAX
    } else {
        n as u32
    }
}

// ----------------------------------------------------------------------
// What the layout is
// ----------------------------------------------------------------------
/// The widest a card is drawn within `content_width`.
pub open spec fn card_max_width(content_width: u32) -> u32 {
    at_least_one(min_u32(content_width, JSON_CARD_MAX_WIDTH))
}

/// Whether a card has a picture at its side.
pub open spec fn side_slot_spec(view: JsonCardView, media: Option<ResolvedImage>) -> bool {
    !uses_vertical_media(view) && (kind_is(view, "contact"@) || kind_is(view, "news"@)) && (
    view.media_source is Some || match media {
        Some(m) => m.bytes is Some,
        None => false,
    })
}

pub open spec fn top_qr_spec(view: JsonCardView) -> u32 {
    if view.jump_url is Some && !uses_bottom_qr(view) {
        (JSON_CARD_QR_SIZE + JSON_CARD_SIDE_GAP) as u32
    } else {
        0
    }
}

pub open spec fn media_space_spec(view: JsonCardView, media: Option<ResolvedImage>) -> u32 {
    if side_slot_spec(view, media) {
        (JSON_CARD_QR_SIZE + JSON_CARD_SIDE_GAP) as u32
    } else {
        0
    }
}

/// How wide the title may be.
pub open spec fn title_width_limit(content_width: u32, view: JsonCardView, media: Option<ResolvedImage>, pad: u32) -> u32 {
    at_least_one(
        sat_sub(
            card_max_width(content_width),
            sat_add(sat_add(sat_mul(pad, 2), top_qr_spec(view)), media_space_spec(view, media)),
        ),
    )
}

/// How wide the description and the footer may be.
pub open spec fn body_width_limit(content_width: u32, view: JsonCardView, media: Option<ResolvedImage>, pad: u32) -> u32 {
    if kind_is(view, "news"@) {
        at_least_one(sat_sub(card_max_width(content_width), sat_mul(pad, 2)))
    } else {
        title_width_limit(content_width, view, media, pad)
    }
}

/// The title's lines: wrapped to the title's width, at most two.
pub open spec fn title_lines_spec<T: Fn(&str) -> u32>(measure_title: &T, tw: u32, view: JsonCardView) -> Seq<Seq<char>> {
    limit_spec(measure_title, tw, wrap_text_spec(measure_title, tw, view.title@), 2)
}

/// The description's lines: wrapped to the body's width, one for a mini app.
pub open spec fn desc_lines_spec<B: Fn(&str) -> u32>(measure_body: &B, bw: u32, view: JsonCardView) -> Seq<Seq<char>> {
    match view.desc {
        Some(d) => limit_spec(
            measure_body,
            bw,
            wrap_text_spec(measure_body, bw, d@),
            if kind_is(view, "miniapp"@) {
                1int
            } else {
                usize::MAX as int
            },
        ),
        None => Seq::empty(),
    }
}

/// The footer's line: cut to the body's width.
pub open spec fn footer_spec<B: Fn(&str) -> u32>(measure_body: &B, bw: u32, view: JsonCardView) -> Option<Seq<char>> {
    match view.footer {
        Some(f) => Some(truncate_spec(measure_body, bw, f@)),
        None => None,
    }
}

/// The card's width: the widest it may be, or, for a contact or news card,
/// as wide as its text and side pieces need, within that and at least a QR
/// code wide (a news card with a footer one pixel less).
pub open spec fn card_width_spec(
    mcw: u32,
    view: JsonCardView,
    pad: u32,
    side_space: u32,
    title_width: u32,
    desc_width: u32,
    footer_width: u32,
    has_footer_line: bool,
) -> u32 {
    if kind_is(view, "contact"@) || kind_is(view, "news"@) {
        let content_fit = if kind_is(view, "news"@) {
            max_u32(max_u32(sat_add(title_width, side_space), desc_width), footer_width)
        } else {
            sat_add(side_space, max_u32(max_u32(title_width, desc_width), footer_width))
        };
        let extra: u32 = if kind_is(view, "contact"@) {
            JSON_CARD_CONTACT_WIDTH_EXTRA_PX
        } else {
            0
        };
        let w = max_u32(
            min_u32(sat_add(sat_add(sat_mul(pad, 2), content_fit), extra), mcw),
            JSON_CARD_QR_SIZE,
        );
        if kind_is(view, "news"@) && has_footer_line {
            sat_sub(w, JSON_CARD_NEWS_WITH_FOOTER_WIDTH_SHRINK_PX)
        } else {
            w
        }
    } else {
        mcw
    }
}

/// The card's height, from its lines, its pieces and its picture.
pub open spec fn card_height_spec(
    view: JsonCardView,
    m: CardMetrics,
    side_slot: bool,
    title_n: u32,
    desc_n: u32,
    has_footer: bool,
    preview: u32,
) -> u32 {
    let pad = m.card_padding;
    let qr_space = top_qr_spec(view);
    let footer_h: u32 = if has_footer {
        m.file_meta_height
    } else {
        0
    };
    let text_height = sat_add(
        sat_add(sat_mul(title_n, m.card_line_height), sat_mul(desc_n, m.file_meta_height)),
        footer_h,
    );
    if uses_vertical_media(view) {
        if kind_is(view, "miniapp"@) {
            let source_height: u32 = if desc_n > 0 {
                sat_add(sat_mul(desc_n, m.file_meta_height), (JSON_CARD_SIDE_GAP - 2) as u32)
            } else {
                0
            };
            let head_text = sat_add(source_height, sat_mul(title_n, m.card_line_height));
            let qr_h: u32 = if view.jump_url is Some {
                JSON_CARD_QR_SIZE
            } else {
                0
            };
            let preview_part: u32 = if preview > 0 {
                sat_add((JSON_CARD_SIDE_GAP - 2) as u32, preview)
            } else {
                0
            };
            let footer_part: u32 = if has_footer {
                sat_add((JSON_CARD_SIDE_GAP - 2) as u32, JSON_CARD_TAG_ICON_SIZE)
            } else {
                0
            };
            sat_add(sat_add(sat_add(sat_mul(pad, 2), max_u32(head_text, qr_h)), preview_part), footer_part)
        } else {
            let qr_floor: u32 = if qr_space > 0 {
                JSON_CARD_QR_SIZE
            } else {
                0
            };
            let bottom_qr_height: u32 = if uses_bottom_qr(view) {
                sat_add(JSON_CARD_QR_SIZE, pad)
            } else {
                0
            };
            let preview_part: u32 = if preview > 0 {
                sat_add(pad, preview)
            } else {
                0
            };
            sat_add(
                sat_add(sat_add(sat_mul(pad, 2), max_u32(text_height, qr_floor)), bottom_qr_height),
                preview_part,
            )
        }
    } else {
        let side_height: u32 = if qr_space > 0 || side_slot {
            JSON_CARD_QR_SIZE
        } else {
            0
        };
        if kind_is(view, "news"@) {
            let body_height = sat_add(
                sat_mul(desc_n, m.file_meta_height),
                if has_footer {
                    sat_add(m.file_meta_gap, JSON_CARD_TAG_ICON_SIZE)
                } else {
                    0
                },
            );
            let body_part: u32 = if body_height > 0 {
                sat_add(sat_add((JSON_CARD_SIDE_GAP - 2) as u32, (JSON_CARD_SIDE_GAP - 4) as u32), body_height)
            } else {
                0
            };
            sat_add(sat_add(sat_mul(pad, 2), max_u32(side_height, m.card_line_height)), body_part)
        } else {
            sat_add(sat_mul(pad, 2), max_u32(max_u32(text_height, side_height), m.card_line_height))
        }
    }
}

pub open spec fn opt_seq(o: Option<String>) -> Option<Seq<char>> {
    match o {
        Some(s) => Some(s@),
        None => None,
    }
}

/// The title's, description's and footer's lines of a card.
fn card_text<T: Fn(&str) -> u32, B: Fn(&str) -> u32>(
    view: &JsonCardView,
    tw: u32,
    bw: u32,
    measure_title: &T,
    measure_body: &B,
) -> (r: (Vec<String>, Vec<String>, Option<String>))
    requires
        measure_fn(measure_title),
        measure_fn(measure_body),
    ensures
        strings_view(r.0@) == title_lines_spec(measure_title, tw, *view),
        strings_view(r.1@) == desc_lines_spec(measure_body, bw, *view),
        opt_seq(r.2) == footer_spec(measure_body, bw, *view),
{
    let is_miniapp = same_text(view.view_kind.as_str(), "miniapp");
    let title_wrapped = wrap_text(view.title.as_str(), tw, measure_title);
    let title_lines = limit_lines(title_wrapped, 2, tw, measure_title);
    let desc_lines: Vec<String> = match &view.desc {
        Some(desc) => {
            let limit: usize = if is_miniapp { 1 } else { usize::MAX };
            let wrapped = wrap_text(desc.as_str(), bw, measure_body);
            limit_lines(wrapped, limit, bw, measure_body)
        },
        None => {
            let d: Vec<String> = Vec::new();
            assert(strings_view(d@) =~= Seq::<Seq<char>>::empty());
            d
        },
    };
    let footer_line: Option<String> = match &view.footer {
        Some(footer) => Some(truncate_text(footer.as_str(), bw, measure_body)),
        None => None,
    };
    (title_lines, desc_lines, footer_line)
}

/// The width of a card, from its lines.
fn card_width<T: Fn(&str) -> u32, B: Fn(&str) -> u32>(
    view: &JsonCardView,
    mcw: u32,
    pad: u32,
    side_space: u32,
    has_tag_icon: bool,
    title_lines: &Vec<String>,
    desc_lines: &Vec<String>,
    footer_line: &Option<String>,
    measure_title: &T,
    measure_body: &B,
) -> (w: u32)
    requires
        measure_fn(measure_title),
        measure_fn(measure_body),
    ensures
        w == card_width_spec(
            mcw,
            *view,
            pad,
            side_space,
            widest_spec(measure_title, strings_view(title_lines@)),
            widest_spec(measure_body, strings_view(desc_lines@)),
            match opt_seq(*footer_line) {
                Some(f) => sat_add(
                    if has_tag_icon {
                        (JSON_CARD_TAG_ICON_SIZE + 4) as u32
                    } else {
                        0
                    },
                    width_of(measure_body, f),
                ),
                None => 0,
            },
            footer_line is Some,
        ),
{
    let is_news = same_text(view.view_kind.as_str(), "news");
    let is_contact = same_text(view.view_kind.as_str(), "contact");
    if !(is_contact || is_news) {
        return mcw;
    }
    let title_width = widest(title_lines, measure_title);
    let desc_width = widest(desc_lines, measure_body);
    let footer_width: u32 = match footer_line {
        Some(line) => {
            let icon_space: u32 = if has_tag_icon { JSON_CARD_TAG_ICON_SIZE + 4 } else { 0 };
            add_sat(icon_space, measure_text(measure_body, line.as_str()))
        },
        None => 0,
    };
    let content_fit = if is_news {
        let a = add_sat(title_width, side_space);
        let b = if a >= desc_width { a } else { desc_width };
        if b >= footer_width { b } else { footer_width }
    } else {
        let a = if title_width >= desc_width { title_width } else { desc_width };
        let b = if a >= footer_width { a } else { footer_width };
        add_sat(side_space, b)
    };
    let extra: u32 = if is_contact { JSON_CARD_CONTACT_WIDTH_EXTRA_PX } else { 0 };
    let fit = add_sat(add_sat(mul_sat(pad, 2), content_fit), extra);
    let capped_fit = if fit <= mcw { fit } else { mcw };
    let width = if capped_fit >= JSON_CARD_QR_SIZE { capped_fit } else { JSON_CARD_QR_SIZE };
    if is_news && footer_line.is_some() {
        sub_sat(width, JSON_CARD_NEWS_WITH_FOOTER_WIDTH_SHRINK_PX)
    } else {
        width
    }
}

/// The height of a card.
fn card_height(
    view: &JsonCardView,
    metrics: &CardMetrics,
    side_slot: bool,
    title_n: u32,
    desc_n: u32,
    has_footer: bool,
    preview: u32,
) -> (h: u32)
    ensures
        h == card_height_spec(*view, *metrics, side_slot, title_n, desc_n, has_footer, preview),
{
    let pad = metrics.card_padding;
    let two_pad = mul_sat(pad, 2);
    let qr_space = json_card_top_qr_space(view);
    let is_news = same_text(view.view_kind.as_str(), "news");
    let is_miniapp = same_text(view.view_kind.as_str(), "miniapp");
    let footer_h: u32 = if has_footer { metrics.file_meta_height } else { 0 };
    let text_height = add_sat(
        add_sat(mul_sat(title_n, metrics.card_line_height), mul_sat(desc_n, metrics.file_meta_height)),
        footer_h,
    );
    if json_card_uses_vertical_media(view) {
        if is_miniapp {
            let source_height: u32 = if desc_n > 0 {
                add_sat(mul_sat(desc_n, metrics.file_meta_height), JSON_CARD_SIDE_GAP - 2)
            } else {
                0
            };
            let head_text = add_sat(source_height, mul_sat(title_n, metrics.card_line_height));
            let qr_h: u32 = if view.jump_url.is_some() { JSON_CARD_QR_SIZE } else { 0 };
            let header_height = if head_text >= qr_h { head_text } else { qr_h };
            let preview_part: u32 = if preview > 0 { add_sat(JSON_CARD_SIDE_GAP - 2, preview) } else { 0 };
            let footer_part: u32 = if has_footer {
                add_sat(JSON_CARD_SIDE_GAP - 2, json_card_tag_row_height(true))
            } else {
                0
            };
            add_sat(add_sat(add_sat(two_pad, header_height), preview_part), footer_part)
        } else {
            let qr_floor: u32 = if qr_space > 0 { JSON_CARD_QR_SIZE } else { 0 };
            let header_height = if text_height >= qr_floor { text_height } else { qr_floor };
            let bottom_qr_height: u32 = if json_card_uses_bottom_qr(view) { add_sat(JSON_CARD_QR_SIZE, pad) } else { 0 };
            let preview_part: u32 = if preview > 0 { add_sat(pad, preview) } else { 0 };
            add_sat(add_sat(add_sat(two_pad, header_height), bottom_qr_height), preview_part)
        }
    } else {
        let side_height: u32 = if qr_space > 0 || side_slot { JSON_CARD_QR_SIZE } else { 0 };
        if is_news {
            let body_height = add_sat(
                mul_sat(desc_n, metrics.file_meta_height),
                if has_footer { add_sat(metrics.file_meta_gap, json_card_tag_row_height(true)) } else { 0 },
            );
            let head = if side_height >= metrics.card_line_height { side_height } else { metrics.card_line_height };
            let body_part: u32 = if body_height > 0 {
                add_sat(add_sat(JSON_CARD_SIDE_GAP - 2, JSON_CARD_SIDE_GAP - 4), body_height)
            } else {
                0
            };
            add_sat(add_sat(two_pad, head), body_part)
        } else {
            let a = if text_height >= side_height { text_height } else { side_height };
            let b = if a >= metrics.card_line_height { a } else { metrics.card_line_height };
            add_sat(two_pad, b)
        }
    }
}

proof fn lemma_limit_len<M: Fn(&str) -> u32>(measure: &M, w: u32, lines: Seq<Seq<char>>, max_lines: int)
    requires
        lines.len() >= 1,
        max_lines >= 1,
    ensures
        1 <= limit_spec(measure, w, lines, max_lines).len() <= max_lines,
        limit_spec(measure, w, lines, max_lines).len() <= lines.len(),
{
}

proof fn lemma_wrap_text_nonempty<M: Fn(&str) -> u32>(measure: &M, w: u32, t: Seq<char>)
    ensures
        wrap_text_spec(measure, w, t).len() >= 1,
{
}

/// The card `l` is `view` laid out at `(x, y)` within `content_width`, with
/// `images` as its pictures: its lines, width and height as the card's rules
/// give them (all but the link its QR code shows).
pub open spec fn card_layout_spec<T: Fn(&str) -> u32, B: Fn(&str) -> u32, P: Fn(u32) -> u32>(
    l: JsonCardLayout,
    x: u32,
    y: u32,
    content_width: u32,
    view: JsonCardView,
    images: JsonCardImages,
    metrics: CardMetrics,
    measure_title: &T,
    measure_body: &B,
    preview_height: &P,
) -> bool {
    &&& l.x == x
    &&& l.y == y
    &&& l.view == view
    &&& l.media == images.media
    &&& l.tag_icon == images.tag_icon
    &&& l.brand_icon == images.brand_icon
    &&& ({
        let pad = metrics.card_padding;
        let tw = title_width_limit(content_width, view, images.media, pad);
        let bw = body_width_limit(content_width, view, images.media, pad);
        let title = title_lines_spec(measure_title, tw, view);
        let desc = desc_lines_spec(measure_body, bw, view);
        let footer = footer_spec(measure_body, bw, view);
        let side_space = sat_add(top_qr_spec(view), media_space_spec(view, images.media));
        let footer_width: u32 = match footer {
            Some(f) => sat_add(
                if images.tag_icon is Some {
                    (JSON_CARD_TAG_ICON_SIZE + 4) as u32
                } else {
                    0
                },
                width_of(measure_body, f),
            ),
            None => 0,
        };
        let width = card_width_spec(
            card_max_width(content_width),
            view,
            pad,
            side_space,
            widest_spec(measure_title, title),
            widest_spec(measure_body, desc),
            footer_width,
            footer is Some,
        );
        &&& strings_view(l.title_lines@) == title
        &&& strings_view(l.desc_lines@) == desc
        &&& opt_seq(l.footer_line) == footer
        &&& l.width == width
        &&& l.height == card_height_spec(
            view,
            metrics,
            side_slot_spec(view, images.media),
            count_spec(title.len()),
            count_spec(desc.len()),
            footer matches Some(f) && f.len() > 0,
            if uses_vertical_media(view) {
                size_of(preview_height, width)
            } else {
                0
            },
        )
    })
}

/// Lays out the card `view` at `(x, y)` within `content_width`:
/// `measure_title` and `measure_body` give the width of text in the title's
/// and the body's font, `preview_height` the height of the card's picture at
/// a card width, and `images` the card's pictures as far as they were
/// loaded. The title takes one or two lines, the description all its lines
/// (one for a mini app), the footer one; contact and news cards are as
/// narrow as their text allows.
#[verifier::rlimit(50)]
pub fn layout_json_card_block<T: Fn(&str) -> u32, B: Fn(&str) -> u32, P: Fn(u32) -> u32>(
    x: u32,
    y: u32,
    content_width: u32,
    view: JsonCardView,
    images: JsonCardImages,
    metrics: &CardMetrics,
    measure_title: &T,
    measure_body: &B,
    preview_height: &P,
) -> (l: JsonCardLayout)
    requires
        measure_fn(measure_title),
        measure_fn(measure_body),
        size_fn(preview_height),
    ensures
        card_layout_spec(l, x, y, content_width, view, images, *metrics, measure_title, measure_body, preview_height),
        opt_seq(l.qr_url) == opt_seq(view.jump_url),
        1 <= l.width,
        1 <= l.title_lines@.len() <= 2,
        (l.desc_lines@.len() > 0) == (view.desc is Some),
        (kind_is(view, "miniapp"@) && view.desc is Some) ==> l.desc_lines@.len() == 1,
        (l.footer_line is Some) == (view.footer is Some),
{
    let pad = metrics.card_padding;
    let is_news = same_text(view.view_kind.as_str(), "news");
    let capped = if content_width < JSON_CARD_MAX_WIDTH { content_width } else { JSON_CARD_MAX_WIDTH };
    let max_card_width = if capped < 1 { 1 } else { capped };
    let qr_space = json_card_top_qr_space(&view);
    let vertical_media = json_card_uses_vertical_media(&view);
    let side_media_slot = !vertical_media && json_card_has_side_media_slot(&view, images.media.as_ref());
    let media_space = json_card_side_media_space(&view, side_media_slot);
    let two_pad = mul_sat(pad, 2);
    let inner = add_sat(add_sat(two_pad, qr_space), media_space);
    let text_room = sub_sat(max_card_width, inner);
    let text_max_w = if text_room < 1 { 1 } else { text_room };
    let body_text_max_w = if is_news {
        let room = sub_sat(max_card_width, two_pad);
        if room < 1 { 1 } else { room }
    } else {
        text_max_w
    };
    let (title_lines, desc_lines, footer_line) = card_text(&view, text_max_w, body_text_max_w, measure_title, measure_body);
    let side_space = add_sat(qr_space, media_space);
    let width = card_width(
        &view,
        max_card_width,
        pad,
        side_space,
        images.tag_icon.is_some(),
        &title_lines,
        &desc_lines,
        &footer_line,
        measure_title,
        measure_body,
    );
    let has_footer = match &footer_line {
        Some(line) => crate::text::chars_of(line.as_str()).len() > 0,
        None => false,
    };
    let title_n = count_u32(title_lines.len());
    let desc_n = count_u32(desc_lines.len());
    let preview: u32 = if vertical_media { call_size(preview_height, width) } else { 0 };
    let height = card_height(&view, metrics, side_media_slot, title_n, desc_n, has_footer, preview);
    let qr_url = match &view.jump_url {
        Some(u) => Some(crate::text::owned(u.as_str())),
        None => None,
    };
    proof {
        assert(strings_view(title_lines@).len() == title_lines@.len());
        assert(strings_view(desc_lines@).len() == desc_lines@.len());
        let tw = text_max_w;
        lemma_wrap_text_nonempty(measure_title, tw, view.title@);
        lemma_limit_len(measure_title, tw, wrap_text_spec(measure_title, tw, view.title@), 2);
        if view.desc is Some {
            let d = view.desc->0;
            lemma_wrap_text_nonempty(measure_body, body_text_max_w, d@);
            lemma_limit_len(
                measure_body,
                body_text_max_w,
                wrap_text_spec(measure_body, body_text_max_w, d@),
                if kind_is(view, "miniapp"@) { 1int } else { usize::MAX as int },
            );
        }
    }
    JsonCardLayout {
        x,
        y,
        width,
        height,
        view,
        title_lines,
        desc_lines,
        footer_line,
        media: images.media,
        tag_icon: images.tag_icon,
        brand_icon: images.brand_icon,
        qr_url,
    }
}

} // verus!
