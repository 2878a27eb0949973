//! The rules of the post renderer that do not draw: sizes of the parts of a
//! card, the seed of the watermark, run penalties of QR codes, file icons,
//! how inline text is broken, and where images come from.
use vstd::prelude::*;

use crate::text::{chars_of, concat2, concat3, is_ws, owned, push_seq, string_of, subvec};

verus! {

pub const DEFAULT_CANVAS_WIDTH_PX: u32 = 1152;

pub const DEFAULT_MAX_HEIGHT_PX: u32 = 6912;

pub const JSON_CARD_QR_SIZE: u32 = 48;

pub const JSON_CARD_SIDE_GAP: u32 = 8;

pub const JSON_CARD_TAG_ICON_SIZE: u32 = 14;

pub const FORWARD_PREFIX: &'static str = "[合并转发:";

pub const EMOJI_PNG_RES_PREFIX: &'static str = "emoji_png/apple_color_emoji";

/// How posts are drawn for each group. `N` is the bot connection settings
/// of a group.
#[derive(Debug, Clone)]
pub struct RendererRuntimeConfig<N> {
    pub blob_root: String,
    pub canvas_width_px: u32,
    pub max_height_px: u32,
    pub napcat_by_group: Vec<(String, N)>,
    pub default_napcat: Option<N>,
    pub watermark_text_by_group: Vec<(String, String)>,
}

impl<N> RendererRuntimeConfig<N> {
    /// The usual settings, keeping rendered images under `blob_root`.
    pub fn with_blob_root(blob_root: String) -> (r: Self)
        ensures
            r.blob_root == blob_root,
            r.canvas_width_px == DEFAULT_CANVAS_WIDTH_PX,
            r.max_height_px == DEFAULT_MAX_HEIGHT_PX,
            r.napcat_by_group@.len() == 0,
            r.default_napcat is None,
            r.watermark_text_by_group@.len() == 0,
    {
        RendererRuntimeConfig {
            blob_root,
            canvas_width_px: DEFAULT_CANVAS_WIDTH_PX,
            max_height_px: DEFAULT_MAX_HEIGHT_PX,
            napcat_by_group: Vec::new(),
            default_napcat: None,
            watermark_text_by_group: Vec::new(),
        }
    }
}

/// What the header of a preview shows.
#[derive(Debug, Clone)]
pub struct RenderPreviewHeader {
    pub group_id: String,
    pub user_id: String,
    pub post_id_hex: String,
    pub sender_name: Option<String>,
    pub is_anonymous: bool,
}

impl Default for RenderPreviewHeader {
    fn default() -> (r: Self)
        ensures
            r.group_id@ == "fixture-group"@,
            r.user_id@ == "fixture-user"@,
            r.post_id_hex@ == "00000000000000000000000000000000"@,
            r.sender_name is Some,
            crate::json::opt_text(r.sender_name) == Some("fixture sender"@),
            !r.is_anonymous,
    {
        RenderPreviewHeader {
            group_id: owned("fixture-group"),
            user_id: owned("fixture-user"),
            post_id_hex: owned("00000000000000000000000000000000"),
            sender_name: Some(owned("fixture sender")),
            is_anonymous: false,
        }
    }
}

/// An image to draw: its bytes, when it could be had, and its size, when
/// it could be read.
#[derive(Debug, Clone)]
pub struct ResolvedImage {
    pub bytes: Option<Vec<u8>>,
    pub width: Option<u32>,
    pub height: Option<u32>,
}

impl ResolvedImage {
    pub fn has_bytes(&self) -> (r: bool)
        ensures
            r == self.bytes is Some,
    {
        self.bytes.is_some()
    }
}

// ----------------------------------------------------------------------
// Cards
// ----------------------------------------------------------------------
/// A shared card (a link, a mini app, a contact) as it is drawn.
#[derive(Debug, Clone)]
pub struct JsonCardView {
    pub view_kind: String,
    pub title: String,
    pub desc: Option<String>,
    pub footer: Option<String>,
    pub jump_url: Option<String>,
    pub media_source: Option<String>,
    pub tag_icon_source: Option<String>,
    pub brand_icon_source: Option<String>,
}

pub open spec fn kind_is(v: JsonCardView, k: Seq<char>) -> bool {
    v.view_kind@ == k
}

/// A card with its QR code at the bottom: one that links, unless it is a
/// contact, a news item or a mini app.
pub open spec fn uses_bottom_qr(v: JsonCardView) -> bool {
    v.jump_url is Some && !(kind_is(v, "contact"@) || kind_is(v, "news"@) || kind_is(v, "miniapp"@))
}

/// A card whose picture goes above its text.
pub open spec fn uses_vertical_media(v: JsonCardView) -> bool {
    (v.media_source is Some && !(kind_is(v, "contact"@) || kind_is(v, "news"@))) || uses_bottom_qr(
        v,
    )
}

pub fn json_card_uses_bottom_qr(view: &JsonCardView) -> (r: bool)
    ensures
        r == uses_bottom_qr(*view),
{
    let k = view.view_kind.as_str();
    view.jump_url.is_some() && !(crate::text::same_text(k, "contact") || crate::text::same_text(
        k,
        "news",
    ) || crate::text::same_text(k, "miniapp"))
}

pub fn json_card_uses_vertical_media(view: &JsonCardView) -> (r: bool)
    ensures
        r == uses_vertical_media(*view),
{
    let k = view.view_kind.as_str();
    (view.media_source.is_some() && !(crate::text::same_text(k, "contact")
        || crate::text::same_text(k, "news"))) || json_card_uses_bottom_qr(view)
}

/// The room the side picture takes, with its gap.
pub fn json_card_side_media_space(_view: &JsonCardView, has_side_media_slot: bool) -> (r: u32)
    ensures
        r == if has_side_media_slot {
            JSON_CARD_QR_SIZE + JSON_CARD_SIDE_GAP
        } else {
            0
        },
{
    if !has_side_media_slot {
        0
    } else {
        JSON_CARD_QR_SIZE + JSON_CARD_SIDE_GAP
    }
}

/// Whether a contact or news card has a picture at its side.
pub fn json_card_has_side_media_slot(view: &JsonCardView, media: Option<&ResolvedImage>) -> (r:
    bool)
    ensures
        r == ((kind_is(*view, "contact"@) || kind_is(*view, "news"@)) && (view.media_source is Some
            || match media {
            Some(m) => m.bytes is Some,
            None => false,
        })),
{
    let k = view.view_kind.as_str();
    (crate::text::same_text(k, "contact") || crate::text::same_text(k, "news")) && (
    view.media_source.is_some() || match media {
        Some(m) => m.has_bytes(),
        None => false,
    })
}

/// The room a QR code at the top takes, with its gap.
pub fn json_card_top_qr_space(view: &JsonCardView) -> (r: u32)
    ensures
        r == if view.jump_url is Some && !uses_bottom_qr(*view) {
            JSON_CARD_QR_SIZE + JSON_CARD_SIDE_GAP
        } else {
            0
        },
{
    if view.jump_url.is_some() && !json_card_uses_bottom_qr(view) {
        JSON_CARD_QR_SIZE + JSON_CARD_SIDE_GAP
    } else {
        0
    }
}

pub fn json_card_tag_row_height(has_tag: bool) -> (r: u32)
    ensures
        r == if has_tag {
            JSON_CARD_TAG_ICON_SIZE
        } else {
            0
        },
{
    if has_tag {
        JSON_CARD_TAG_ICON_SIZE
    } else {
        0
    }
}

/// The height of the head of a mini-app card: its source lines and title
/// lines, and at least the QR code when it has one.
pub open spec fn miniapp_header_spec(
    source_lines: nat,
    title_lines: nat,
    has_qr: bool,
    file_meta_height: nat,
    card_line_height: nat,
) -> nat {
    let source_height: nat = if source_lines > 0 {
        source_lines * file_meta_height + 6
    } else {
        0
    };
    let text_height: nat = source_height + title_lines * card_line_height;
    let qr: nat = if has_qr {
        JSON_CARD_QR_SIZE as nat
    } else {
        0
    };
    if text_height >= qr {
        text_height
    } else {
        qr
    }
}

pub fn json_card_miniapp_header_height(
    source_lines: usize,
    title_lines: usize,
    has_qr: bool,
    file_meta_height: u32,
    card_line_height: u32,
) -> (r: u32)
    requires
        source_lines <= u32::MAX,
        title_lines <= u32::MAX,
        source_lines * file_meta_height + title_lines * card_line_height + 6 <= u32::MAX,
    ensures
        r == miniapp_header_spec(
            source_lines as nat,
            title_lines as nat,
            has_qr,
            file_meta_height as nat,
            card_line_height as nat,
        ),
{
    assert(source_lines * file_meta_height <= u32::MAX) by (nonlinear_arith)
        requires
            source_lines * file_meta_height + title_lines * card_line_height + 6 <= u32::MAX,
            title_lines * card_line_height >= 0,
    ;
    assert(title_lines * card_line_height <= u32::MAX) by (nonlinear_arith)
        requires
            source_lines * file_meta_height + title_lines * card_line_height + 6 <= u32::MAX,
            source_lines * file_meta_height >= 0,
    ;
    let sl = source_lines as u32;
    let tl = title_lines as u32;
    assert(sl * file_meta_height + tl * card_line_height + 6 <= u32::MAX);
    let source_height: u32 = if source_lines > 0 {
        sl * file_meta_height + (JSON_CARD_SIDE_GAP - 2)
    } else {
        0
    };
    let text_height = source_height + tl * card_line_height;
    let qr: u32 = if has_qr {
        JSON_CARD_QR_SIZE
    } else {
        0
    };
    if text_height >= qr {
        text_height
    } else {
        qr
    }
}

/// The box of an image preview whose size is not known: half the width,
/// three quarters as high, at most 300, and never 0.
pub open spec fn fallback_size_spec(content_width: u32) -> (u32, u32) {
    let w: int = if content_width / 2 >= 1 {
        (content_width / 2) as int
    } else {
        1
    };
    let h3: int = if w * 3 > u32::MAX {
        u32::MAX as int
    } else {
        w * 3
    };
    let h: int = h3 / 4;
    let hc: int = if h > 300 {
        300
    } else {
        h
    };
    (w as u32, (if hc >= 1 {
        hc
    } else {
        1
    }) as u32)
}

pub fn image_preview_fallback_size(content_width: u32) -> (r: (u32, u32))
    ensures
        r == fallback_size_spec(content_width),
{
    let half = content_width / 2;
    let width: u32 = if half >= 1 {
        half
    } else {
        1
    };
    let h3: u32 = if width > u32::MAX / 3 {
        u32::MAX
    } else {
        width * 3
    };
    let h = h3 / 4;
    let hc = if h > 300 {
        300
    } else {
        h
    };
    let height = if hc >= 1 {
        hc
    } else {
        1
    };
    (width, height)
}

/// The text that stands for a forwarded bundle that could not be drawn.
pub fn forward_placeholder(id: &str) -> (r: String)
    ensures
        r@ == if id@.len() == 0 {
            "[合并转发]"@
        } else {
            FORWARD_PREFIX@ + id@ + "]"@
        },
{
    let v = chars_of(id);
    if v.len() == 0 {
        owned("[合并转发]")
    } else {
        concat3(FORWARD_PREFIX, id, "]")
    }
}

/// How deep forwarded messages inside forwarded messages are opened.
pub const MAX_FORWARD_DEPTH: u32 = 4;

/// A piece of a message's text: plain text, or a reference to forwarded
/// messages by their id.
#[derive(Debug, Clone, PartialEq, Eq)]
pub enum ForwardPiece {
    Text(String),
    Forward(String),
}

pub enum PieceView {
    Text(Seq<char>),
    Forward(Seq<char>),
}

pub open spec fn piece_view(p: ForwardPiece) -> PieceView {
    match p {
        ForwardPiece::Text(t) => PieceView::Text(t@),
        ForwardPiece::Forward(id) => PieceView::Forward(id@),
    }
}

pub open spec fn pieces_view(v: Seq<ForwardPiece>) -> Seq<PieceView> {
    v.map_values(|x: ForwardPiece| piece_view(x))
}

/// A text piece for `t`, trimmed; none when it is blank.
pub open spec fn text_piece(t: Seq<char>) -> Seq<PieceView> {
    let tr = crate::text::trim(t);
    if tr.len() == 0 {
        Seq::empty()
    } else {
        seq![PieceView::Text(tr)]
    }
}

/// The pieces of `s[i..]`: each `[合并转发:ID]` a reference to `ID`
/// (trimmed), the text between them text pieces; a reference left open runs
/// to the end as text.
pub open spec fn forward_pieces_from(s: Seq<char>, i: int) -> Seq<PieceView>
    decreases s.len() - i,
{
    if i < 0 || i > s.len() {
        Seq::empty()
    } else {
        match crate::text::find_from(s, FORWARD_PREFIX@, i) {
            None => text_piece(s.subrange(i, s.len() as int)),
            Some(start) => {
                let a = start + FORWARD_PREFIX@.len();
                match crate::text::find_char(s, ']', a) {
                    None => text_piece(s.subrange(i, start)) + text_piece(
                        s.subrange(start, s.len() as int),
                    ),
                    Some(end) => if i <= start && i < end + 1 <= s.len() {
                        text_piece(s.subrange(i, start)) + seq![
                            PieceView::Forward(crate::text::trim(s.subrange(a, end))),
                        ] + forward_pieces_from(s, end + 1)
                    } else {
                        Seq::empty()
                    },
                }
            },
        }
    }
}

/// The pieces of a message's text at depth `depth` of forwarding: beyond
/// the deepest that is opened, the whole text is one text piece.
pub open spec fn forward_split_spec(text: Seq<char>, depth: u32) -> Seq<PieceView> {
    if depth >= MAX_FORWARD_DEPTH {
        text_piece(text)
    } else {
        forward_pieces_from(text, 0)
    }
}

fn push_text_piece(out: &mut Vec<ForwardPiece>, s: &Vec<char>, from: usize, to: usize)
    requires
        from <= to <= s@.len(),
    ensures
        pieces_view(final(out)@) == pieces_view(old(out)@) + text_piece(s@.subrange(from as int, to as int)),
{
    let part = subvec(s, from, to);
    let t = crate::text::trim_vec(&part);
    if t.len() > 0 {
        out.push(ForwardPiece::Text(string_of(t.as_slice())));
        assert(pieces_view(out@) =~= pieces_view(old(out)@) + text_piece(
            s@.subrange(from as int, to as int),
        ));
    } else {
        assert(pieces_view(old(out)@) + Seq::<PieceView>::empty() =~= pieces_view(old(out)@));
    }
}

/// Splits a message's text into plain text and references to forwarded
/// messages, at forwarding depth `depth`.
pub fn split_forward_text(text: &str, depth: u32) -> (r: Vec<ForwardPiece>)
    ensures
        pieces_view(r@) == forward_split_spec(text@, depth),
{
    let s = chars_of(text);
    let mut out: Vec<ForwardPiece> = Vec::new();
    assert(s@.subrange(0, s@.len() as int) =~= s@);
    if depth >= MAX_FORWARD_DEPTH {
        push_text_piece(&mut out, &s, 0, s.len());
        assert(pieces_view(out@) =~= text_piece(text@));
        return out;
    }
    let prefix = chars_of(FORWARD_PREFIX);
    let mut i: usize = 0;
    let ghost total = forward_pieces_from(s@, 0);
    assert(pieces_view(out@) =~= Seq::<PieceView>::empty());
    loop
        invariant
            0 <= i <= s@.len(),
            depth < MAX_FORWARD_DEPTH,
            prefix@ == FORWARD_PREFIX@,
            s@ == text@,
            total == forward_pieces_from(s@, 0),
            pieces_view(out@) + forward_pieces_from(s@, i as int) == total,
        decreases s@.len() - i,
    {
        proof {
            crate::text::lemma_find_from(s@, prefix@, i as int);
        }
        match crate::text::find_from_exec(&s, &prefix, i) {
            None => {
                let ghost before = pieces_view(out@);
                push_text_piece(&mut out, &s, i, s.len());
                assert(pieces_view(out@) =~= total);
                return out;
            },
            Some(start) => {
                let a = start + prefix.len();
                proof {
                    crate::text::lemma_find_char(s@, ']', a as int);
                }
                match crate::text::find_char_from(&s, ']', a) {
                    None => {
                        let ghost before = pieces_view(out@);
                        push_text_piece(&mut out, &s, i, start);
                        push_text_piece(&mut out, &s, start, s.len());
                        assert(pieces_view(out@) =~= total);
                        return out;
                    },
                    Some(end) => {
                        let ghost before = pieces_view(out@);
                        push_text_piece(&mut out, &s, i, start);
                        let idv = subvec(&s, a, end);
                        let id = crate::text::trim_vec(&idv);
                        let ghost mid = pieces_view(out@);
                        out.push(ForwardPiece::Forward(string_of(id.as_slice())));
                        assert(pieces_view(out@) =~= mid.push(
                            PieceView::Forward(crate::text::trim(s@.subrange(a as int, end as int))),
                        ));
                        assert(pieces_view(out@) + forward_pieces_from(s@, end + 1) =~= before
                            + forward_pieces_from(s@, i as int));
                        i = end + 1;
                    },
                }
            },
        }
    }
}

/// What is done with a reference to forwarded messages.
#[derive(Debug, Clone, Copy, PartialEq, Eq, Structural)]
pub enum ForwardIdAction {
    /// Shown as a placeholder: no id, too deep, or already being opened.
    Placeholder,
    /// The messages were fetched before.
    Cached,
    /// Fetch the messages.
    Fetch,
}

pub fn forward_id_action(id: &str, depth: u32, cached: bool, seen: bool) -> (r: ForwardIdAction)
    ensures
        r == if id@.len() == 0 || depth >= MAX_FORWARD_DEPTH {
            ForwardIdAction::Placeholder
        } else if cached {
            ForwardIdAction::Cached
        } else if seen {
            ForwardIdAction::Placeholder
        } else {
            ForwardIdAction::Fetch
        },
{
    let v = chars_of(id);
    if v.len() == 0 || depth >= MAX_FORWARD_DEPTH {
        ForwardIdAction::Placeholder
    } else if cached {
        ForwardIdAction::Cached
    } else if seen {
        ForwardIdAction::Placeholder
    } else {
        ForwardIdAction::Fetch
    }
}

// ----------------------------------------------------------------------
// The watermark's randomness
// ----------------------------------------------------------------------
/// 64-bit FNV-1a over `bytes`, from `h`.
pub open spec fn fnv1a(h: u64, bytes: Seq<u8>) -> u64
    decreases bytes.len(),
{
    if bytes.len() == 0 {
        h
    } else {
        (fnv1a(h, bytes.drop_last()) ^ (bytes.last() as u64)).wrapping_mul(0x100000001b3)
    }
}

fn fnv1a_exec(h0: u64, bytes: &[u8]) -> (r: u64)
    ensures
        r == fnv1a(h0, bytes@),
{
    let mut h = h0;
    let mut i: usize = 0;
    while i < bytes.len()
        invariant
            0 <= i <= bytes@.len(),
            h == fnv1a(h0, bytes@.take(i as int)),
        decreases bytes@.len() - i,
    {
        assert(bytes@.take(i + 1).drop_last() =~= bytes@.take(i as int));
        h = (h ^ (bytes[i] as u64)).wrapping_mul(0x100000001b3);
        i = i + 1;
    }
    assert(bytes@.take(i as int) =~= bytes@);
    h
}

/// The seed of a post's watermark: FNV-1a over the post id, `0xff`, then
/// over the watermark text, so that one post always gets the same marks.
pub open spec fn watermark_seed_spec(post_id_hex: Seq<char>, text: Seq<char>) -> u64 {
    fnv1a(
        fnv1a(0xcbf29ce484222325, vstd::utf8::encode_utf8(post_id_hex)) ^ 0xff,
        vstd::utf8::encode_utf8(text),
    )
}

pub fn watermark_seed(post_id_hex: &str, watermark_text: &str) -> (r: u64)
    ensures
        r == watermark_seed_spec(post_id_hex@, watermark_text@),
{
    let a = fnv1a_exec(0xcbf29ce484222325, post_id_hex.as_bytes());
    fnv1a_exec(a ^ 0xff, watermark_text.as_bytes())
}

/// One xorshift64 step.
pub open spec fn xorshift(s: u64) -> u64 {
    let a = s ^ (s << 13u64);
    let b = a ^ (a >> 7u64);
    b ^ (b << 17u64)
}

/// A small xorshift generator: the same seed gives the same numbers.
pub struct DeterministicRng {
    state: u64,
}

impl DeterministicRng {
    pub closed spec fn state_of(&self) -> u64 {
        self.state
    }

    /// A generator from `seed`; 0 is replaced, as xorshift would stay at 0.
    pub fn new(seed: u64) -> (r: Self)
        ensures
            r.state_of() == if seed == 0 {
                0x9e3779b97f4a7c15u64
            } else {
                seed
            },
    {
        let state = if seed == 0 {
            0x9e3779b97f4a7c15u64
        } else {
            seed
        };
        DeterministicRng { state }
    }

    /// The next number: the state advanced one step, its bits 16 to 47.
    pub fn next_u32(&mut self) -> (r: u32)
        ensures
            final(self).state_of() == xorshift(old(self).state_of()),
            r == (xorshift(old(self).state_of()) >> 16u64) as u32,
    {
        self.state = self.state ^ (self.state << 13u64);
        self.state = self.state ^ (self.state >> 7u64);
        self.state = self.state ^ (self.state << 17u64);
        (self.state >> 16u64) as u32
    }
}

// ----------------------------------------------------------------------
// Emoji and text breaking
// ----------------------------------------------------------------------
pub open spec fn is_keycap_base(c: char) -> bool {
    ('0' <= c && c <= '9') || c == '#' || c == '*'
}

/// The base of a keycap sequence (a digit, `#` or `*`, an optional variation
/// selector, then the keycap mark), and whether it had the selector.
pub open spec fn keycap_spec(s: Seq<char>) -> Option<(char, bool)> {
    if s.len() < 2 || !is_keycap_base(s[0]) {
        None
    } else if s[1] == '\u{FE0F}' || s[1] == '\u{FE0E}' {
        if s.len() == 3 && s[2] == '\u{20E3}' {
            Some((s[0], true))
        } else {
            None
        }
    } else if s[1] == '\u{20E3}' && s.len() == 2 {
        Some((s[0], false))
    } else {
        None
    }
}

pub fn keycap_sequence_base(seq: &str) -> (r: Option<(char, bool)>)
    ensures
        r == keycap_spec(seq@),
{
    let s = chars_of(seq);
    if s.len() < 2 {
        return None;
    }
    let base = s[0];
    if !(('0' <= base && base <= '9') || base == '#' || base == '*') {
        return None;
    }
    let second = s[1];
    if second == '\u{FE0F}' || second == '\u{FE0E}' {
        if s.len() == 3 && s[2] == '\u{20E3}' {
            return Some((base, true));
        }
        return None;
    }
    if second == '\u{20E3}' && s.len() == 2 {
        return Some((base, false));
    }
    None
}

/// `prefix/gid_XXXX.png` with the glyph id in four hex digits.
pub fn emoji_png_resource_path(prefix: &str, glyph_id: u16) -> (r: String)
    ensures
        r@ == prefix@ + "/gid_"@ + crate::codec::hex_fixed(glyph_id as nat, 4) + ".png"@,
{
    let hex = crate::codec::hex_fixed_u128(glyph_id as u128, 4);
    let mut out = concat2(prefix, "/gid_");
    push_seq(&mut out, hex.as_str());
    push_seq(&mut out, ".png");
    out
}

/// Characters after which a line may break.
pub open spec fn is_break_spec(c: char) -> bool {
    is_ws(c) || c == '-' || c == '/' || c == '_' || c == '.' || c == ',' || c == ';' || c == ':'
        || c == '?' || c == '!' || c == '，' || c == '。' || c == '；' || c == '、' || c == '：'
}

pub fn is_break_char(ch: char) -> (r: bool)
    ensures
        r == is_break_spec(ch),
{
    crate::text::is_whitespace(ch) || ch == '-' || ch == '/' || ch == '_' || ch == '.' || ch == ','
        || ch == ';' || ch == ':' || ch == '?' || ch == '!' || ch == '，' || ch == '。' || ch == '；'
        || ch == '、' || ch == '：'
}

/// Selectors, joiners, the keycap mark and tag characters: drawn as part
/// of the emoji before them, not on their own.
pub open spec fn skip_emoji_spec(c: char) -> bool {
    c == '\u{FE0F}' || c == '\u{FE0E}' || c == '\u{200D}' || c == '\u{20E3}' || (0xE0020 <= (
    c as u32) && (c as u32) <= 0xE007F)
}

pub fn should_skip_emoji_char(ch: char) -> (r: bool)
    ensures
        r == skip_emoji_spec(ch),
{
    let u = ch as u32;
    ch == '\u{FE0F}' || ch == '\u{FE0E}' || ch == '\u{200D}' || ch == '\u{20E3}' || (0xE0020 <= u
        && u <= 0xE007F)
}

/// One unit of inline text: a character, a QQ face, or an emoji glyph.
#[derive(Debug, Clone, PartialEq, Eq)]
pub enum InlineAtom {
    Char(char),
    Face(String),
    Emoji(u16),
}

pub open spec fn atom_is_ws(a: InlineAtom) -> bool {
    match a {
        InlineAtom::Char(c) => is_ws(c),
        _ => false,
    }
}

pub fn inline_atom_is_break(atom: &InlineAtom) -> (r: bool)
    ensures
        r == match *atom {
            InlineAtom::Char(c) => is_break_spec(c),
            _ => false,
        },
{
    match atom {
        InlineAtom::Char(ch) => is_break_char(*ch),
        _ => false,
    }
}

pub fn inline_atom_is_whitespace(atom: &InlineAtom) -> (r: bool)
    ensures
        r == atom_is_ws(*atom),
{
    match atom {
        InlineAtom::Char(ch) => crate::text::is_whitespace(*ch),
        _ => false,
    }
}

/// How many atoms at the start of `s` are whitespace.
pub open spec fn leading_ws(s: Seq<InlineAtom>) -> nat
    decreases s.len(),
{
    if s.len() == 0 || !atom_is_ws(s[0]) {
        0
    } else {
        1 + leading_ws(s.drop_first())
    }
}

/// How many atoms at the end of `s` are whitespace.
pub open spec fn trailing_ws(s: Seq<InlineAtom>) -> nat
    decreases s.len(),
{
    if s.len() == 0 || !atom_is_ws(s.last()) {
        0
    } else {
        1 + trailing_ws(s.drop_last())
    }
}

proof fn lemma_leading_ws_bound(s: Seq<InlineAtom>)
    ensures
        leading_ws(s) <= s.len(),
    decreases s.len(),
{
    if s.len() > 0 && atom_is_ws(s[0]) {
        lemma_leading_ws_bound(s.drop_first());
    }
}

proof fn lemma_trailing_ws_bound(s: Seq<InlineAtom>)
    ensures
        trailing_ws(s) <= s.len(),
    decreases s.len(),
{
    if s.len() > 0 && atom_is_ws(s.last()) {
        lemma_trailing_ws_bound(s.drop_last());
    }
}

/// Drops the whitespace at the start of a line.
pub fn trim_inline_leading_spaces(atoms: &mut Vec<InlineAtom>)
    ensures
        final(atoms)@ == old(atoms)@.subrange(leading_ws(old(atoms)@) as int, old(atoms)@.len() as int),
{
    proof {
        lemma_leading_ws_bound(old(atoms)@);
    }
    let ghost removed: int = 0;
    while atoms.len() > 0 && inline_atom_is_whitespace(&atoms[0])
        invariant
            0 <= removed <= leading_ws(old(atoms)@),
            leading_ws(old(atoms)@) <= old(atoms)@.len(),
            atoms@ == old(atoms)@.subrange(removed, old(atoms)@.len() as int),
            leading_ws(atoms@) + removed == leading_ws(old(atoms)@),
        decreases atoms@.len(),
    {
        let ghost before = atoms@;
        atoms.remove(0);
        assert(atoms@ =~= before.drop_first());
        proof {
            removed = removed + 1;
        }
        assert(atoms@ =~= old(atoms)@.subrange(removed, old(atoms)@.len() as int));
    }
}

/// Drops the whitespace at the end of a line.
pub fn trim_inline_trailing_spaces(atoms: &mut Vec<InlineAtom>)
    ensures
        final(atoms)@ == old(atoms)@.take(old(atoms)@.len() - trailing_ws(old(atoms)@)),
{
    proof {
        lemma_trailing_ws_bound(old(atoms)@);
    }
    while atoms.len() > 0 && inline_atom_is_whitespace(&atoms[atoms.len() - 1])
        invariant
            trailing_ws(old(atoms)@) <= old(atoms)@.len(),
            atoms@.len() <= old(atoms)@.len(),
            atoms@ == old(atoms)@.take(atoms@.len() as int),
            atoms@.len() - trailing_ws(atoms@) == old(atoms)@.len() - trailing_ws(old(atoms)@),
        decreases atoms@.len(),
    {
        let ghost before = atoms@;
        atoms.pop();
        assert(atoms@ =~= before.drop_last());
        assert(atoms@ =~= old(atoms)@.take(atoms@.len() as int));
    }
}

/// The delay before rendering a post again, doubling from 10 seconds up to
/// 5 minutes.
pub open spec fn render_retry_spec(attempt: u32) -> int {
    let shift = if attempt == 0 {
        0nat
    } else if attempt - 1 > 10 {
        10nat
    } else {
        (attempt - 1) as nat
    };
    let delay: int = 10_000 * (crate::qzone::pow2_small(shift) as int);
    if delay < 300_000 {
        delay
    } else {
        300_000
    }
}

pub fn render_retry_delay_ms(attempt: u32) -> (r: i64)
    ensures
        r == render_retry_spec(attempt),
{
    let s: u32 = if attempt == 0 {
        0
    } else {
        attempt - 1
    };
    let shift: u32 = if s > 10 {
        10
    } else {
        s
    };
    let mut factor: i64 = 1;
    let mut k: u32 = 0;
    while k < shift
        invariant
            0 <= k <= shift <= 10,
            factor == crate::qzone::pow2_small(k as nat),
            1 <= factor <= 1024,
        decreases shift - k,
    {
        proof {
            crate::qzone::lemma_pow2_small_mono((k + 1) as nat, 10);
            reveal_with_fuel(crate::qzone::pow2_small, 11);
        }
        factor = factor * 2;
        k = k + 1;
    }
    let delay = 10_000 * factor;
    if delay < 300_000 {
        delay
    } else {
        300_000
    }
}

/// No font is registered under another name.
pub fn font_alias_for_path(_path: &str) -> (r: Option<&'static str>)
    ensures
        r is None,
{
    None
}

// ----------------------------------------------------------------------
// Hex
// ----------------------------------------------------------------------
/// The hex digit of a nibble; `'0'` for anything larger.
pub open spec fn nibble_spec(v: u8) -> char {
    if v <= 9 {
        ((('0' as u8) + v) as u8) as char
    } else if v <= 15 {
        ((('a' as u8) + (v - 10)) as u8) as char
    } else {
        '0'
    }
}

pub fn nibble_to_hex(value: u8) -> (r: char)
    ensures
        r == nibble_spec(value),
{
    if value <= 9 {
        (48u8 + value) as char
    } else if value <= 15 {
        (97u8 + (value - 10)) as char
    } else {
        '0'
    }
}

/// Bytes in lower-case hex, two digits each.
pub fn hex_encode(bytes: &[u8]) -> (r: String)
    ensures
        r@ == crate::codec::hex_lower_spec(bytes@),
{
    let mut out = String::new();
    let mut i: usize = 0;
    while i < bytes.len()
        invariant
            0 <= i <= bytes@.len(),
            out@ == crate::codec::hex_lower_spec(bytes@.take(i as int)),
        decreases bytes@.len() - i,
    {
        let b = bytes[i];
        assert(b >> 4 == b / 16) by (bit_vector);
        assert(b & 0x0f == b % 16) by (bit_vector);
        let hi = nibble_to_hex(b >> 4);
        let lo = nibble_to_hex(b & 0x0f);
        assert(hi == crate::codec::hex_digit((b / 16) as int));
        assert(lo == crate::codec::hex_digit((b % 16) as int));
        out.push(hi);
        out.push(lo);
        assert(bytes@.take(i + 1).drop_last() =~= bytes@.take(i as int));
        i = i + 1;
    }
    assert(bytes@.take(i as int) =~= bytes@);
    out
}

/// A 128-bit id as 32 lower-case hex digits.
pub fn id128_hex(value: u128) -> (s: String)
    ensures
        s@ == crate::codec::hex_fixed(value as nat, 32),
{
    crate::codec::id128_hex(value)
}

// ----------------------------------------------------------------------
// Files
// ----------------------------------------------------------------------
pub open spec fn remote_http(s: Seq<char>) -> bool {
    crate::text::starts_with(s, "http://"@) || crate::text::starts_with(s, "https://"@)
}

/// Whether a source is an `http` or `https` address.
pub fn is_remote_http(source: &str) -> (r: bool)
    ensures
        r == remote_http(source@),
{
    let s = chars_of(source);
    crate::text::starts_with_str(&s, "http://") || crate::text::starts_with_str(&s, "https://")
}

/// The last path segment of an address, without its query, when not empty.
pub open spec fn filename_spec(url: Seq<char>) -> Option<Seq<char>> {
    let path = crate::text::split_char(url, '?')[0];
    let name = crate::text::split_char(path, '/').last();
    if name.len() == 0 {
        None
    } else {
        Some(name)
    }
}

pub fn extract_filename(url: &str) -> (r: Option<String>)
    ensures
        crate::json::opt_text(r) == filename_spec(url@),
{
    let u = chars_of(url);
    let parts = crate::text::split_char_vec(&u, '?');
    assert(crate::text::vecs_view(parts@).len() > 0);
    let path = &parts[0];
    let segs = crate::text::split_char_vec(path, '/');
    assert(crate::text::vecs_view(segs@).len() > 0);
    let name = &segs[segs.len() - 1];
    assert(name@ == crate::text::split_char(path@, '/').last());
    if name.len() == 0 {
        None
    } else {
        Some(string_of(name.as_slice()))
    }
}

/// The extension of a file name: what follows its last `.`, or nothing.
pub open spec fn file_ext(name: Seq<char>) -> Seq<char> {
    let parts = crate::text::split_char(name, '.');
    if parts.len() > 1 {
        parts.last()
    } else {
        Seq::empty()
    }
}

proof fn lemma_split_char_single(t: Seq<char>, sep: char)
    ensures
        crate::text::split_char(t, sep).len() == 1 <==> !t.contains(sep),
        crate::text::split_char(t, sep).len() == 1 ==> crate::text::split_char(t, sep)[0] == t,
    decreases t.len(),
{
    if t.len() > 0 {
        lemma_split_char_single(t.drop_last(), sep);
        let (d, c) = crate::text::split_state(t.drop_last(), sep);
        if t.drop_last().contains(sep) {
            let i = choose|i: int| 0 <= i < t.drop_last().len() && t.drop_last()[i] == sep;
            assert(t[i] == sep);
        }
        if t.contains(sep) && t.last() != sep {
            let i = choose|i: int| 0 <= i < t.len() && t[i] == sep;
            assert(t.drop_last()[i] == sep);
        }
        if t.last() == sep {
            assert(t[t.len() - 1] == sep);
        }
        assert(t.drop_last().push(t.last()) =~= t);
    } else {
        assert(!t.contains(sep));
    }
}

fn file_ext_vec(name: &Vec<char>) -> (r: Vec<char>)
    ensures
        r@ == file_ext(name@),
{
    let parts = crate::text::split_char_vec(name, '.');
    assert(crate::text::vecs_view(parts@).len() == parts@.len());
    if parts.len() > 1 {
        let last = &parts[parts.len() - 1];
        crate::text::subvec(last, 0, last.len())
    } else {
        Vec::new()
    }
}

pub open spec fn upper_seq(s: Seq<char>) -> Seq<char> {
    s.map_values(|c: char| crate::text::upper_char(c))
}

/// The number of bytes of a character in UTF-8.
pub open spec fn utf8_len(c: char) -> nat {
    if (c as u32) < 0x80 {
        1
    } else if (c as u32) < 0x800 {
        2
    } else if (c as u32) < 0x10000 {
        3
    } else {
        4
    }
}

pub open spec fn utf8_count(s: Seq<char>) -> nat
    decreases s.len(),
{
    if s.len() == 0 {
        0
    } else {
        utf8_count(s.drop_last()) + utf8_len(s.last())
    }
}

/// The characters of `s` that fit in its first four bytes, when four bytes
/// end at a character.
pub open spec fn four_byte_prefix(s: Seq<char>) -> Option<Seq<char>> {
    if exists|k: int| 0 <= k <= s.len() && utf8_count(#[trigger] s.take(k)) == 4 {
        Some(s.take(choose|k: int| 0 <= k <= s.len() && utf8_count(#[trigger] s.take(k)) == 4))
    } else {
        None
    }
}

/// Whether the upper-cased extension of `name` can be cut at four bytes:
/// it is no longer, or four bytes end at a character.
pub open spec fn icon_text_cuttable(name: Seq<char>) -> bool {
    let u = upper_seq(file_ext(name));
    utf8_count(u) <= 4 || four_byte_prefix(u) is Some
}

/// The label of a file icon: its extension in upper case, cut to four
/// bytes, or `FILE`.
pub open spec fn icon_text_spec(name: Seq<char>) -> Seq<char> {
    let e = file_ext(name);
    let u = upper_seq(e);
    if e.len() == 0 {
        "FILE"@
    } else if utf8_count(u) <= 4 {
        u
    } else {
        four_byte_prefix(u).unwrap()
    }
}

proof fn lemma_utf8_count_take(s: Seq<char>, k: int)
    requires
        0 <= k < s.len(),
    ensures
        utf8_count(s.take(k + 1)) == utf8_count(s.take(k)) + utf8_len(s[k]),
        utf8_count(s.take(k)) <= utf8_count(s.take(k + 1)),
{
    assert(s.take(k + 1).drop_last() =~= s.take(k));
}

proof fn lemma_utf8_count_mono(s: Seq<char>, a: int, b: int)
    requires
        0 <= a <= b <= s.len(),
    ensures
        utf8_count(s.take(a)) + (b - a) <= utf8_count(s.take(b)),
    decreases b - a,
{
    if a < b {
        lemma_utf8_count_take(s, b - 1);
        lemma_utf8_count_mono(s, a, b - 1);
    }
}

/// The label of the icon of a file, from its extension.
pub fn file_icon_text(name: &str) -> (r: String)
    requires
        icon_text_cuttable(name@),
    ensures
        r@ == icon_text_spec(name@),
{
    let n = chars_of(name);
    let e = file_ext_vec(&n);
    if e.len() == 0 {
        return owned("FILE");
    }
    let mut u: Vec<char> = Vec::new();
    let mut i: usize = 0;
    while i < e.len()
        invariant
            0 <= i <= e@.len(),
            u@ =~= upper_seq(e@).take(i as int),
        decreases e@.len() - i,
    {
        let c = e[i];
        let up = if 'a' <= c && c <= 'z' {
            ((c as u32 as u8) - 32) as char
        } else {
            c
        };
        assert(up == crate::text::upper_char(c));
        u.push(up);
        i = i + 1;
    }
    assert(upper_seq(e@).take(i as int) =~= upper_seq(e@));
    let ghost us = u@;
    let mut bytes: usize = 0;
    let mut k: usize = 0;
    while k < u.len() && bytes < 4
        invariant
            0 <= k <= u@.len(),
            us == u@,
            bytes == utf8_count(us.take(k as int)),
            bytes <= 4 + 3,
            k > 0 ==> utf8_count(us.take(k - 1)) < 4,
        decreases u@.len() - k,
    {
        proof {
            lemma_utf8_count_take(us, k as int);
        }
        let c = u[k] as u32;
        let w: usize = if c < 0x80 {
            1
        } else if c < 0x800 {
            2
        } else if c < 0x10000 {
            3
        } else {
            4
        };
        bytes = bytes + w;
        k = k + 1;
    }
    if k == u.len() && bytes <= 4 {
        assert(us.take(k as int) =~= us);
        return string_of(u.as_slice());
    }
    proof {
        if bytes < 4 {
            assert(k == u@.len());
            assert(us.take(k as int) =~= us);
        }
        if k == u@.len() {
            assert(us.take(k as int) =~= us);
        }
        assert(utf8_count(us) > 4) by {
            if k < u@.len() {
                lemma_utf8_count_mono(us, k as int, us.len() as int);
                assert(us.take(us.len() as int) =~= us);
            }
        }
        let p = four_byte_prefix(us);
        assert(p is Some);
        let kk = choose|kk: int| 0 <= kk <= us.len() && utf8_count(#[trigger] us.take(kk)) == 4;
        if kk < k {
            lemma_utf8_count_mono(us, kk, k - 1);
        }
        if kk > k {
            lemma_utf8_count_mono(us, k as int, kk);
        }
        assert(kk == k);
    }
    let head = subvec(&u, 0, k);
    string_of(head.as_slice())
}

pub open spec fn ext_in(e: Seq<char>, list: Seq<&'static str>) -> bool {
    crate::text::listed(list, e)
}

/// The icon of a file, by its extension in lower case.
pub open spec fn icon_path_spec(name: Seq<char>) -> Seq<char> {
    let e = crate::qzone::ascii_lower(file_ext(name));
    if ext_in(e, seq!["doc", "docx"]) {
        "res/doc.png"@
    } else if ext_in(e, seq!["pdf"]) {
        "res/pdf.png"@
    } else if ext_in(e, seq!["xls", "xlsx", "csv"]) {
        "res/xls.png"@
    } else if ext_in(e, seq!["ppt", "pptx"]) {
        "res/ppt.png"@
    } else if ext_in(e, seq!["zip", "7z"]) {
        "res/zip.png"@
    } else if ext_in(e, seq!["rar"]) {
        "res/rar.png"@
    } else if ext_in(e, seq!["txt", "md", "log", "rtf"]) {
        "res/txt.png"@
    } else if ext_in(e, seq!["mp3", "wav", "flac", "m4a", "ogg", "aac"]) {
        "res/audio.png"@
    } else if ext_in(e, seq!["mp4", "mov", "mkv", "avi", "flv", "wmv"]) {
        "res/video.png"@
    } else if ext_in(e, seq!["jpg", "jpeg", "png", "gif", "webp", "bmp", "tif", "tiff", "heic"]) {
        "res/image.png"@
    } else if ext_in(e, seq!["apk"]) {
        "res/apk.png"@
    } else if ext_in(e, seq!["ipa"]) {
        "res/ipa.png"@
    } else if ext_in(e, seq!["dmg"]) {
        "res/dmg.png"@
    } else if ext_in(e, seq!["pkg"]) {
        "res/pkg.png"@
    } else if ext_in(e, seq!["exe", "msi"]) {
        "res/exe.png"@
    } else if ext_in(e, seq!["psd", "psb"]) {
        "res/ps.png"@
    } else if ext_in(e, seq!["ai"]) {
        "res/ai.png"@
    } else if ext_in(e, seq!["sketch"]) {
        "res/sketch.png"@
    } else if ext_in(e, seq!["xmind", "mindmap"]) {
        "res/mindmap.png"@
    } else if ext_in(e, seq!["note"]) {
        "res/note.png"@
    } else if ext_in(e, seq!["pages"]) {
        "res/pages.png"@
    } else if ext_in(e, seq!["key", "keynote"]) {
        "res/keynote.png"@
    } else if ext_in(e, seq!["numbers"]) {
        "res/numbers.png"@
    } else if ext_in(e, code_exts()) {
        "res/code.png"@
    } else {
        "res/unknown.png"@
    }
}

pub open spec fn code_exts() -> Seq<&'static str> {
    seq![
        "rs", "js", "ts", "json", "yaml", "yml", "toml", "go", "py", "java", "c", "cc", "cpp", "h",
        "hpp", "cs", "php", "rb", "swift", "kt", "kts", "html", "css", "scss", "sh", "bat", "ps1",
        "sql",
    ]
}

fn ext_is(e: &Vec<char>, list: &[&'static str]) -> (r: bool)
    ensures
        r == crate::text::listed(list@, e@),
{
    crate::text::in_list(e, list)
}

/// The icon of a file, by its extension.
pub fn file_icon_path(name: &str) -> (r: Option<&'static str>)
    ensures
        crate::qzone::static_text(r) == Some(icon_path_spec(name@)),
{
    let n = chars_of(name);
    let raw = file_ext_vec(&n);
    let e = crate::qzone::ascii_lower_vec(&raw);
    let a1 = ["doc", "docx"];
    assert(a1@ =~= seq!["doc", "docx"]);
    if ext_is(&e, &a1) {
        return Some("res/doc.png");
    }
    let a2 = ["pdf"];
    assert(a2@ =~= seq!["pdf"]);
    if ext_is(&e, &a2) {
        return Some("res/pdf.png");
    }
    let a3 = ["xls", "xlsx", "csv"];
    assert(a3@ =~= seq!["xls", "xlsx", "csv"]);
    if ext_is(&e, &a3) {
        return Some("res/xls.png");
    }
    let a4 = ["ppt", "pptx"];
    assert(a4@ =~= seq!["ppt", "pptx"]);
    if ext_is(&e, &a4) {
        return Some("res/ppt.png");
    }
    let a5 = ["zip", "7z"];
    assert(a5@ =~= seq!["zip", "7z"]);
    if ext_is(&e, &a5) {
        return Some("res/zip.png");
    }
    let a6 = ["rar"];
    assert(a6@ =~= seq!["rar"]);
    if ext_is(&e, &a6) {
        return Some("res/rar.png");
    }
    let a7 = ["txt", "md", "log", "rtf"];
    assert(a7@ =~= seq!["txt", "md", "log", "rtf"]);
    if ext_is(&e, &a7) {
        return Some("res/txt.png");
    }
    let a8 = ["mp3", "wav", "flac", "m4a", "ogg", "aac"];
    assert(a8@ =~= seq!["mp3", "wav", "flac", "m4a", "ogg", "aac"]);
    if ext_is(&e, &a8) {
        return Some("res/audio.png");
    }
    let a9 = ["mp4", "mov", "mkv", "avi", "flv", "wmv"];
    assert(a9@ =~= seq!["mp4", "mov", "mkv", "avi", "flv", "wmv"]);
    if ext_is(&e, &a9) {
        return Some("res/video.png");
    }
    let a10 = ["jpg", "jpeg", "png", "gif", "webp", "bmp", "tif", "tiff", "heic"];
    assert(a10@ =~= seq!["jpg", "jpeg", "png", "gif", "webp", "bmp", "tif", "tiff", "heic"]);
    if ext_is(&e, &a10) {
        return Some("res/image.png");
    }
    let a11 = ["apk"];
    assert(a11@ =~= seq!["apk"]);
    if ext_is(&e, &a11) {
        return Some("res/apk.png");
    }
    let a12 = ["ipa"];
    assert(a12@ =~= seq!["ipa"]);
    if ext_is(&e, &a12) {
        return Some("res/ipa.png");
    }
    let a13 = ["dmg"];
    assert(a13@ =~= seq!["dmg"]);
    if ext_is(&e, &a13) {
        return Some("res/dmg.png");
    }
    let a14 = ["pkg"];
    assert(a14@ =~= seq!["pkg"]);
    if ext_is(&e, &a14) {
        return Some("res/pkg.png");
    }
    let a15 = ["exe", "msi"];
    assert(a15@ =~= seq!["exe", "msi"]);
    if ext_is(&e, &a15) {
        return Some("res/exe.png");
    }
    let a16 = ["psd", "psb"];
    assert(a16@ =~= seq!["psd", "psb"]);
    if ext_is(&e, &a16) {
        return Some("res/ps.png");
    }
    let a17 = ["ai"];
    assert(a17@ =~= seq!["ai"]);
    if ext_is(&e, &a17) {
        return Some("res/ai.png");
    }
    let a18 = ["sketch"];
    assert(a18@ =~= seq!["sketch"]);
    if ext_is(&e, &a18) {
        return Some("res/sketch.png");
    }
    let a19 = ["xmind", "mindmap"];
    assert(a19@ =~= seq!["xmind", "mindmap"]);
    if ext_is(&e, &a19) {
        return Some("res/mindmap.png");
    }
    let a20 = ["note"];
    assert(a20@ =~= seq!["note"]);
    if ext_is(&e, &a20) {
        return Some("res/note.png");
    }
    let a21 = ["pages"];
    assert(a21@ =~= seq!["pages"]);
    if ext_is(&e, &a21) {
        return Some("res/pages.png");
    }
    let a22 = ["key", "keynote"];
    assert(a22@ =~= seq!["key", "keynote"]);
    if ext_is(&e, &a22) {
        return Some("res/keynote.png");
    }
    let a23 = ["numbers"];
    assert(a23@ =~= seq!["numbers"]);
    if ext_is(&e, &a23) {
        return Some("res/numbers.png");
    }
    let a24 = [
        "rs", "js", "ts", "json", "yaml", "yml", "toml", "go", "py", "java", "c", "cc", "cpp", "h",
        "hpp", "cs", "php", "rb", "swift", "kt", "kts", "html", "css", "scss", "sh", "bat", "ps1",
        "sql",
    ];
    assert(a24@ =~= code_exts());
    if ext_is(&e, &a24) {
        return Some("res/code.png");
    }
    Some("res/unknown.png")
}

// ----------------------------------------------------------------------
// QR codes
// ----------------------------------------------------------------------
/// The runs of equal cells of `line[..n]` (`n >= 1`): the finished run
/// lengths and the length of the run still open.
pub open spec fn run_state(line: Seq<bool>, n: int) -> (Seq<int>, int)
    decreases n,
{
    if n <= 1 {
        (Seq::empty(), 1)
    } else {
        let (done, cur) = run_state(line, n - 1);
        if line[n - 1] != line[n - 2] {
            (done.push(cur), 1)
        } else {
            (done, cur + 1)
        }
    }
}

/// The run lengths of a line, led by `-1` when it starts dark.
pub open spec fn qr_runs(line: Seq<bool>) -> Seq<int> {
    let (done, cur) = run_state(line, line.len() as int);
    (if line[0] {
        seq![-1int]
    } else {
        Seq::<int>::empty()
    }) + done.push(cur)
}

/// The penalty of run `i`: 3 and one per cell beyond five for a long run,
/// and 40 for a `1:1:3:1:1` finder-like pattern with room on one side.
pub open spec fn run_term(runs: Seq<int>, i: int) -> int {
    let n1: int = if runs[i] >= 5 {
        3 + (runs[i] - 5)
    } else {
        0
    };
    let lim: int = if runs.len() >= 2 {
        runs.len() - 2
    } else {
        0
    };
    let fact: int = runs[i] / 3;
    let n3: int = if i % 2 == 1 && i >= 3 && i < lim && runs[i] % 3 == 0 && runs[i - 2] == fact
        && runs[i - 1] == fact && runs[i + 1] == fact && runs[i + 2] == fact && (i == 3 || runs[i
        - 3] >= 4 * fact || i + 4 >= runs.len() || runs[i + 3] >= 4 * fact) {
        40
    } else {
        0
    };
    n1 + n3
}

pub open spec fn demerit_upto(runs: Seq<int>, k: int) -> int
    decreases k,
{
    if k <= 0 {
        0
    } else {
        demerit_upto(runs, k - 1) + run_term(runs, k - 1)
    }
}

/// The run penalty of one line of a QR code, as libqrencode counts it.
pub open spec fn run_demerit_spec(line: Seq<bool>) -> int {
    if line.len() == 0 {
        0
    } else {
        demerit_upto(qr_runs(line), qr_runs(line).len() as int)
    }
}

pub open spec fn pos_sum(s: Seq<int>) -> int
    decreases s.len(),
{
    if s.len() == 0 {
        0
    } else {
        pos_sum(s.drop_last()) + if s.last() > 0 {
            s.last()
        } else {
            0
        }
    }
}

proof fn lemma_run_state(line: Seq<bool>, n: int)
    requires
        1 <= n <= line.len(),
    ensures
        pos_sum(run_state(line, n).0) + run_state(line, n).1 == n,
        run_state(line, n).1 >= 1,
        run_state(line, n).1 <= n,
        run_state(line, n).0.len() <= n - 1,
        forall|k: int|
            0 <= k < run_state(line, n).0.len() ==> 1 <= #[trigger] run_state(line, n).0[k] <= n,
    decreases n,
{
    if n > 1 {
        lemma_run_state(line, n - 1);
        let (done, cur) = run_state(line, n - 1);
        if line[n - 1] != line[n - 2] {
            assert(done.push(cur).drop_last() =~= done);
        }
    }
}

proof fn lemma_pos_sum_take(s: Seq<int>, k: int)
    requires
        0 <= k <= s.len(),
    ensures
        pos_sum(s.take(k)) <= pos_sum(s),
    decreases s.len() - k,
{
    if k < s.len() {
        lemma_pos_sum_take(s, k + 1);
        assert(s.take(k + 1).drop_last() =~= s.take(k));
    } else {
        assert(s.take(k) =~= s);
    }
}

proof fn lemma_pos_sum_concat(a: Seq<int>, b: Seq<int>)
    ensures
        pos_sum(a + b) == pos_sum(a) + pos_sum(b),
    decreases b.len(),
{
    if b.len() == 0 {
        assert(a + b =~= a);
    } else {
        lemma_pos_sum_concat(a, b.drop_last());
        assert((a + b).drop_last() =~= a + b.drop_last());
    }
}

/// The run penalty of one line of a QR code.
pub fn libqrencode_qr_run_demerit(line: &[bool]) -> (r: i32)
    requires
        line@.len() <= 50_000_000,
    ensures
        r == run_demerit_spec(line@),
        0 <= r <= 41 * line@.len() + 40,
{
    if line.len() == 0 {
        return 0;
    }
    let ghost l = line@;
    let mut runs: Vec<i32> = Vec::new();
    if line[0] {
        runs.push(-1);
    }
    let ghost lead: Seq<int> = if l[0] {
        seq![-1int]
    } else {
        Seq::<int>::empty()
    };
    assert(runs@.map_values(|x: i32| x as int) =~= lead);
    let mut previous = line[0];
    let mut current_len: i32 = 1;
    let mut idx: usize = 1;
    while idx < line.len()
        invariant
            1 <= idx <= l.len(),
            l == line@,
            l.len() <= 50_000_000,
            previous == l[idx - 1],
            lead == (if l[0] {
                seq![-1int]
            } else {
                Seq::<int>::empty()
            }),
            runs@.map_values(|x: i32| x as int) == lead + run_state(l, idx as int).0,
            current_len == run_state(l, idx as int).1,
        decreases l.len() - idx,
    {
        proof {
            lemma_run_state(l, idx as int);
        }
        let current = line[idx];
        if current != previous {
            let ghost before = runs@.map_values(|x: i32| x as int);
            runs.push(current_len);
            assert(runs@.map_values(|x: i32| x as int) =~= before.push(current_len as int));
            current_len = 1;
            previous = current;
        } else {
            current_len = current_len + 1;
        }
        idx = idx + 1;
    }
    proof {
        lemma_run_state(l, l.len() as int);
    }
    let ghost before = runs@.map_values(|x: i32| x as int);
    runs.push(current_len);
    let ghost rs = runs@.map_values(|x: i32| x as int);
    assert(rs =~= before.push(current_len as int));
    assert(rs =~= qr_runs(l));
    proof {
        let (done, cur) = run_state(l, l.len() as int);
        lemma_pos_sum_concat(lead, done.push(cur));
        assert(done.push(cur).drop_last() =~= done);
        reveal_with_fuel(pos_sum, 2);
        assert(pos_sum(lead) == 0);
        assert(pos_sum(rs) == l.len());
        assert(rs.len() <= l.len() + 1);
        assert forall|j: int| 0 <= j < rs.len() implies -1 <= #[trigger] rs[j] <= 50_000_000 by {
            if j < lead.len() {
                assert(rs[j] == -1);
            } else if j - lead.len() < done.len() {
                assert(rs[j] == done[j - lead.len()]);
            } else {
                assert(rs[j] == cur);
            }
        }
    }
    let mut demerit: i32 = 0;
    let mut i: usize = 0;
    while i < runs.len()
        invariant
            0 <= i <= runs@.len(),
            rs == runs@.map_values(|x: i32| x as int),
            pos_sum(rs) == l.len(),
            rs.len() <= l.len() + 1,
            l.len() <= 50_000_000,
            demerit == demerit_upto(rs, i as int),
            0 <= demerit <= pos_sum(rs.take(i as int)) + 40 * i,
            forall|j: int| 0 <= j < rs.len() ==> -1 <= #[trigger] rs[j] <= 50_000_000,
        decreases runs@.len() - i,
    {
        proof {
            lemma_pos_sum_take(rs, i + 1);
            assert(rs.take(i + 1).drop_last() =~= rs.take(i as int));
            assert(rs[i as int] == runs@[i as int] as int);
        }
        let ri = runs[i];
        let mut term: i32 = 0;
        if ri >= 5 {
            term = 3 + (ri - 5);
        }
        let lim = if runs.len() >= 2 {
            runs.len() - 2
        } else {
            0
        };
        if (i & 1) == 1 && i >= 3 && i < lim && ri % 3 == 0 {
            let fact = ri / 3;
            assert(rs[i - 2] == runs@[i - 2] as int);
            assert(rs[i - 1] == runs@[i - 1] as int);
            assert(rs[i + 1] == runs@[i + 1] as int);
            assert(rs[i + 2] == runs@[i + 2] as int);
            assert(rs[i - 3] == runs@[i - 3] as int);
            if runs[i - 2] == fact && runs[i - 1] == fact && runs[i + 1] == fact && runs[i + 2]
                == fact {
                if i == 3 || runs[i - 3] >= 4 * fact {
                    term = term + 40;
                } else if i + 4 >= runs.len() || runs[i + 3] >= 4 * fact {
                    proof {
                        if i + 4 < runs.len() {
                            assert(rs[i + 3] == runs@[i + 3] as int);
                        }
                    }
                    term = term + 40;
                } else {
                    assert(rs[i + 3] == runs@[i + 3] as int);
                }
            }
        }
        assert((i & 1) == 1 <==> i % 2 == 1) by (bit_vector);
        assert(term == run_term(rs, i as int));
        assert(term <= (if rs[i as int] > 0 {
            rs[i as int]
        } else {
            0
        }) + 40);
        demerit = demerit + term;
        i = i + 1;
    }
    assert(rs.take(i as int) =~= rs);
    demerit
}

/// Whether cell `(x, y)` of a symbol `width` cells wide is dark.
pub open spec fn qr_cell(colors: Seq<bool>, width: int, x: int, y: int) -> bool {
    colors[y * width + x]
}

/// How many cells of `colors` are dark.
pub open spec fn dark_count(colors: Seq<bool>) -> int
    decreases colors.len(),
{
    if colors.len() == 0 {
        0
    } else {
        dark_count(colors.drop_last()) + if colors.last() {
            1int
        } else {
            0int
        }
    }
}

/// Whether the 2x2 square whose lower right cell is `(x, y)` is all one colour.
pub open spec fn same_square(colors: Seq<bool>, width: int, x: int, y: int) -> bool {
    let c = qr_cell(colors, width, x, y);
    c == qr_cell(colors, width, x - 1, y) && c == qr_cell(colors, width, x, y - 1) && c
        == qr_cell(colors, width, x - 1, y - 1)
}

/// One-colour squares ending in row `y` at columns `1..n`.
pub open spec fn squares_in_row(colors: Seq<bool>, width: int, y: int, n: int) -> int
    decreases n,
{
    if n <= 1 {
        0
    } else {
        squares_in_row(colors, width, y, n - 1) + if same_square(colors, width, n - 1, y) {
            1int
        } else {
            0int
        }
    }
}

/// One-colour squares ending in rows `1..m`.
pub open spec fn squares_upto(colors: Seq<bool>, width: int, m: int) -> int
    decreases m,
{
    if m <= 1 {
        0
    } else {
        squares_upto(colors, width, m - 1) + squares_in_row(colors, width, m - 1, width)
    }
}

pub open spec fn qr_row(colors: Seq<bool>, width: int, y: int) -> Seq<bool> {
    Seq::new(width as nat, |x: int| qr_cell(colors, width, x, y))
}

pub open spec fn qr_col(colors: Seq<bool>, width: int, x: int) -> Seq<bool> {
    Seq::new(width as nat, |y: int| qr_cell(colors, width, x, y))
}

/// Run penalties of rows `0..m`.
pub open spec fn rows_demerit(colors: Seq<bool>, width: int, m: int) -> int
    decreases m,
{
    if m <= 0 {
        0
    } else {
        rows_demerit(colors, width, m - 1) + run_demerit_spec(qr_row(colors, width, m - 1))
    }
}

/// Run penalties of columns `0..m`.
pub open spec fn cols_demerit(colors: Seq<bool>, width: int, m: int) -> int
    decreases m,
{
    if m <= 0 {
        0
    } else {
        cols_demerit(colors, width, m - 1) + run_demerit_spec(qr_col(colors, width, m - 1))
    }
}

/// 10 for every 5 percent by which the dark cells stray from half.
pub open spec fn balance_demerit(dark: int, width: int) -> int {
    let w2 = width * width;
    let bratio = (200 * dark + w2) / w2 / 2;
    let d = if bratio >= 50 {
        bratio - 50
    } else {
        50 - bratio
    };
    (d / 5) * 10
}

/// The penalty of a masked symbol, as libqrencode counts it: the balance of
/// dark and light, 3 for each one-colour 2x2 square, and the run penalties
/// of every row and column.
pub open spec fn qr_demerit_spec(colors: Seq<bool>, width: int) -> int {
    balance_demerit(dark_count(colors), width) + 3 * squares_upto(colors, width, width)
        + rows_demerit(colors, width, width) + cols_demerit(colors, width, width)
}

proof fn lemma_width_small(w: int)
    requires
        w >= 1,
        201 * w * w <= 2147483647,
    ensures
        w <= 3268,
        w * w <= 10684005,
{
    assert(w <= 3268) by (nonlinear_arith)
        requires
            w >= 1,
            201 * w * w <= 2147483647,
    ;
    assert(w * w <= 10684005) by (nonlinear_arith)
        requires
            201 * w * w <= 2147483647,
    ;
}

fn cell_at(colors: &[bool], width: usize, x: usize, y: usize) -> (r: bool)
    requires
        colors@.len() == width * width,
        x < width,
        y < width,
    ensures
        r == qr_cell(colors@, width as int, x as int, y as int),
{
    assert(y * width + x < width * width && y * width <= y * width + x) by (nonlinear_arith)
        requires
            x < width,
            y < width,
    ;
    assert(colors@.len() == colors.len());
    colors[y * width + x]
}

fn count_dark(colors: &[bool]) -> (r: usize)
    ensures
        r == dark_count(colors@),
        r <= colors@.len(),
{
    let mut n: usize = 0;
    let mut i: usize = 0;
    while i < colors.len()
        invariant
            0 <= i <= colors@.len(),
            n == dark_count(colors@.take(i as int)),
            n <= i,
        decreases colors@.len() - i,
    {
        assert(colors@.take(i + 1).drop_last() =~= colors@.take(i as int));
        if colors[i] {
            n = n + 1;
        }
        i = i + 1;
    }
    assert(colors@.take(i as int) =~= colors@);
    n
}

fn squares_of_row(colors: &[bool], width: usize, y: usize) -> (r: u64)
    requires
        colors@.len() == width * width,
        1 <= y < width,
    ensures
        r == squares_in_row(colors@, width as int, y as int, width as int),
        r <= width,
{
    let mut n: u64 = 0;
    let mut x: usize = 1;
    while x < width
        invariant
            1 <= x <= width,
            1 <= y < width,
            colors@.len() == width * width,
            n == squares_in_row(colors@, width as int, y as int, x as int),
            n <= x,
        decreases width - x,
    {
        let c = cell_at(colors, width, x, y);
        if c == cell_at(colors, width, x - 1, y) && c == cell_at(colors, width, x, y - 1) && c
            == cell_at(colors, width, x - 1, y - 1) {
            n = n + 1;
        }
        x = x + 1;
    }
    n
}

fn row_of(colors: &[bool], width: usize, y: usize) -> (r: Vec<bool>)
    requires
        colors@.len() == width * width,
        y < width,
    ensures
        r@ == qr_row(colors@, width as int, y as int),
{
    let mut r: Vec<bool> = Vec::new();
    let mut x: usize = 0;
    while x < width
        invariant
            0 <= x <= width,
            y < width,
            colors@.len() == width * width,
            r@ == qr_row(colors@, width as int, y as int).take(x as int),
        decreases width - x,
    {
        let c = cell_at(colors, width, x, y);
        r.push(c);
        assert(r@ =~= qr_row(colors@, width as int, y as int).take(x + 1));
        x = x + 1;
    }
    assert(r@ =~= qr_row(colors@, width as int, y as int));
    r
}

fn col_of(colors: &[bool], width: usize, x: usize) -> (r: Vec<bool>)
    requires
        colors@.len() == width * width,
        x < width,
    ensures
        r@ == qr_col(colors@, width as int, x as int),
{
    let mut r: Vec<bool> = Vec::new();
    let mut y: usize = 0;
    while y < width
        invariant
            0 <= y <= width,
            x < width,
            colors@.len() == width * width,
            r@ == qr_col(colors@, width as int, x as int).take(y as int),
        decreases width - y,
    {
        let c = cell_at(colors, width, x, y);
        r.push(c);
        assert(r@ =~= qr_col(colors@, width as int, x as int).take(y + 1));
        y = y + 1;
    }
    assert(r@ =~= qr_col(colors@, width as int, x as int));
    r
}

/// The penalty of a masked QR symbol of `width` by `width` cells, given row
/// by row (`true` for dark), as libqrencode counts it.
pub fn libqrencode_qr_demerit(colors: &[bool], width: usize) -> (r: i32)
    requires
        width >= 1,
        colors@.len() == width * width,
        201 * width * width <= i32::MAX,
    ensures
        r == qr_demerit_spec(colors@, width as int),
{
    let ghost c = colors@;
    let ghost w = width as int;
    proof {
        lemma_width_small(w);
    }
    let blacks = count_dark(colors);
    assert(width * width >= 1) by (nonlinear_arith)
        requires
            width >= 1,
    ;
    let w2: i64 = (width * width) as i64;
    let bratio: i64 = (200 * (blacks as i64) + w2) / w2 / 2;
    let ghost num: int = 200 * (blacks as int) + w2 as int;
    let ghost w2i: int = w2 as int;
    assert(num / w2i <= 201) by (nonlinear_arith)
        requires
            num == 200 * (blacks as int) + w2i,
            blacks <= w2i,
            w2i >= 1,
    ;
    assert(bratio <= 100);
    let d: i64 = if bratio >= 50 {
        bratio - 50
    } else {
        50 - bratio
    };
    let balance: i64 = (d / 5) * 10;
    assert(balance == balance_demerit(dark_count(c), w));
    let mut squares: i64 = 0;
    let mut y: usize = 1;
    while y < width
        invariant
            1 <= y <= width,
            width <= 3268,
            colors@ == c,
            w == width,
            c.len() == width * width,
            squares == squares_upto(c, w, y as int),
            0 <= squares <= y * width,
        decreases width - y,
    {
        let n = squares_of_row(colors, width, y);
        assert(squares + n <= (y + 1) * width) by (nonlinear_arith)
            requires
                squares <= y * width,
                n <= width,
        ;
        assert((y + 1) * width <= 3268 * 3268) by (nonlinear_arith)
            requires
                y < width,
                width <= 3268,
        ;
        squares = squares + n as i64;
        y = y + 1;
    }
    let line_max: i64 = 41 * (width as i64) + 40;
    let mut rows: i64 = 0;
    let mut k: usize = 0;
    while k < width
        invariant
            0 <= k <= width,
            width <= 3268,
            colors@ == c,
            w == width,
            c.len() == width * width,
            line_max == 41 * width + 40,
            rows == rows_demerit(c, w, k as int),
            0 <= rows <= k * line_max,
        decreases width - k,
    {
        let line = row_of(colors, width, k);
        let r = libqrencode_qr_run_demerit(line.as_slice());
        assert(rows + r <= (k + 1) * line_max) by (nonlinear_arith)
            requires
                rows <= k * line_max,
                r <= line_max,
        ;
        assert((k + 1) * line_max <= 3268 * (41 * 3268 + 40)) by (nonlinear_arith)
            requires
                k < width,
                width <= 3268,
                line_max == 41 * width + 40,
        ;
        rows = rows + r as i64;
        k = k + 1;
    }
    let mut cols: i64 = 0;
    let mut k: usize = 0;
    while k < width
        invariant
            0 <= k <= width,
            width <= 3268,
            colors@ == c,
            w == width,
            c.len() == width * width,
            line_max == 41 * width + 40,
            cols == cols_demerit(c, w, k as int),
            0 <= cols <= k * line_max,
        decreases width - k,
    {
        let line = col_of(colors, width, k);
        let r = libqrencode_qr_run_demerit(line.as_slice());
        assert(cols + r <= (k + 1) * line_max) by (nonlinear_arith)
            requires
                cols <= k * line_max,
                r <= line_max,
        ;
        assert((k + 1) * line_max <= 3268 * (41 * 3268 + 40)) by (nonlinear_arith)
            requires
                k < width,
                width <= 3268,
                line_max == 41 * width + 40,
        ;
        cols = cols + r as i64;
        k = k + 1;
    }
    assert(balance + 3 * squares + rows + cols <= 2147483647) by (nonlinear_arith)
        requires
            0 <= balance <= 100,
            0 <= squares <= width * width,
            0 <= rows <= width * line_max,
            0 <= cols <= width * line_max,
            line_max == 41 * width + 40,
            width * width <= 10684005,
            1 <= width <= 3268,
    ;
    (balance + 3 * squares + rows + cols) as i32
}

/// The first of the masked symbols with the smallest penalty, as libqrencode
/// picks its mask.
pub open spec fn best_mask_spec(masked: Seq<Seq<bool>>, width: int, r: int) -> bool {
    &&& 0 <= r < masked.len()
    &&& forall|j: int|
        0 <= j < masked.len() ==> qr_demerit_spec(masked[r], width) <= qr_demerit_spec(
            #[trigger] masked[j],
            width,
        )
    &&& forall|j: int|
        0 <= j < r ==> qr_demerit_spec(masked[r], width) < qr_demerit_spec(#[trigger] masked[j], width)
}

/// Which of the symbols, each the same code under another mask, has the
/// smallest penalty; the first of them on a tie.
pub fn libqrencode_best_qr_mask(masked: &Vec<Vec<bool>>, width: usize) -> (r: usize)
    requires
        masked@.len() >= 1,
        width >= 1,
        201 * width * width <= i32::MAX,
        forall|j: int| 0 <= j < masked@.len() ==> (#[trigger] masked@[j])@.len() == width * width,
    ensures
        best_mask_spec(vecs_bool_view(masked@), width as int, r as int),
{
    let ghost v = vecs_bool_view(masked@);
    let mut best: usize = 0;
    let mut best_score: i32 = libqrencode_qr_demerit(masked[0].as_slice(), width);
    let mut i: usize = 1;
    while i < masked.len()
        invariant
            1 <= i <= masked@.len(),
            v == vecs_bool_view(masked@),
            width >= 1,
            201 * width * width <= i32::MAX,
            forall|j: int| 0 <= j < masked@.len() ==> (#[trigger] masked@[j])@.len() == width * width,
            best < i,
            best_score == qr_demerit_spec(v[best as int], width as int),
            forall|j: int| 0 <= j < i ==> best_score <= qr_demerit_spec(#[trigger] v[j], width as int),
            forall|j: int| 0 <= j < best ==> best_score < qr_demerit_spec(#[trigger] v[j], width as int),
        decreases masked@.len() - i,
    {
        let score = libqrencode_qr_demerit(masked[i].as_slice(), width);
        assert(v[i as int] == masked@[i as int]@);
        if score < best_score {
            best = i;
            best_score = score;
        }
        i = i + 1;
    }
    best
}

pub open spec fn vecs_bool_view(v: Seq<Vec<bool>>) -> Seq<Seq<bool>> {
    v.map_values(|x: Vec<bool>| x@)
}

// ----------------------------------------------------------------------
// QR codes of runs of cards
// ----------------------------------------------------------------------
/// A block of a post as the QR codes of cards see it: whether it is a card,
/// the link the card jumps to, and the link its QR code shows.
#[derive(Debug, Clone, PartialEq, Eq)]
pub struct CardQrSlot {
    pub is_card: bool,
    pub jump_url: Option<String>,
    pub qr_url: Option<String>,
}

pub open spec fn linked(b: CardQrSlot) -> bool {
    b.is_card && b.jump_url is Some
}

/// The last block of the run of linked cards that goes on from `i`.
pub open spec fn run_end(bs: Seq<CardQrSlot>, i: int) -> int
    decreases bs.len() - i,
{
    if 0 <= i && i + 1 < bs.len() && linked(bs[i + 1]) {
        run_end(bs, i + 1)
    } else {
        i
    }
}

proof fn lemma_run_end(bs: Seq<CardQrSlot>, i: int)
    requires
        0 <= i < bs.len(),
        linked(bs[i]),
    ensures
        i <= run_end(bs, i) < bs.len(),
        linked(bs[run_end(bs, i)]),
    decreases bs.len() - i,
{
    if i + 1 < bs.len() && linked(bs[i + 1]) {
        lemma_run_end(bs, i + 1);
    }
}

fn clone_opt(o: &Option<String>) -> (r: Option<String>)
    ensures
        crate::json::opt_text(r) == crate::json::opt_text(*o),
{
    match o {
        Some(t) => Some(owned(t.as_str())),
        None => None,
    }
}

/// The slot after the QR codes of cards were given out: a card that links
/// shows the last link of its run; the rest as it was.
pub open spec fn qr_assigned(bs: Seq<CardQrSlot>, i: int, n: CardQrSlot) -> bool {
    let b = bs[i];
    &&& n.is_card == b.is_card
    &&& crate::json::opt_text(n.jump_url) == crate::json::opt_text(b.jump_url)
    &&& if linked(b) {
        crate::json::opt_text(n.qr_url) == crate::json::opt_text(bs[run_end(bs, i)].jump_url)
    } else {
        crate::json::opt_text(n.qr_url) == crate::json::opt_text(b.qr_url)
    }
}

/// Gives each card of a run of consecutive cards that link somewhere the
/// QR code of the run's last link; other blocks stay as they are.
pub fn assign_legacy_json_card_qr_urls(blocks: &mut Vec<CardQrSlot>)
    ensures
        final(blocks)@.len() == old(blocks)@.len(),
        forall|i: int|
            0 <= i < old(blocks)@.len() ==> qr_assigned(old(blocks)@, i, #[trigger] final(blocks)@[i]),
{
    let ghost orig = blocks@;
    let len = blocks.len();
    let mut i: usize = len;
    while i > 0
        invariant
            i <= len,
            len == orig.len(),
            blocks@.len() == len,
            forall|k: int| 0 <= k < i ==> #[trigger] blocks@[k] == orig[k],
            forall|k: int| i <= k < len ==> qr_assigned(orig, k, #[trigger] blocks@[k]),
        decreases i,
    {
        let k = i - 1;
        let is_linked = blocks[k].is_card && blocks[k].jump_url.is_some();
        if is_linked {
            assert(linked(orig[k as int]));
            let continues = k + 1 < len && blocks[k + 1].is_card && blocks[k + 1].jump_url.is_some();
            proof {
                lemma_run_end(orig, k as int);
                if k + 1 < len {
                    assert(qr_assigned(orig, k + 1, blocks@[k + 1]));
                }
            }
            let url = if continues {
                clone_opt(&blocks[k + 1].qr_url)
            } else {
                clone_opt(&blocks[k].jump_url)
            };
            let slot = CardQrSlot {
                is_card: blocks[k].is_card,
                jump_url: clone_opt(&blocks[k].jump_url),
                qr_url: url,
            };
            blocks.set(k, slot);
        }
        i = k;
    }
}

// ----------------------------------------------------------------------
// Replies and forwarded messages
// ----------------------------------------------------------------------
pub open spec fn opt_str_view(o: Option<&str>) -> Option<Seq<char>> {
    match o {
        Some(t) => Some(t@),
        None => None,
    }
}

/// The line under a quoted reply: its meta text, else its message id, else
/// `回复`.
pub open spec fn reply_meta_spec(meta: Option<Seq<char>>, id: Option<Seq<char>>) -> Seq<char> {
    match crate::json::nonempty_spec(or_blank(meta)) {
        Some(m) => m,
        None => match crate::json::nonempty_spec(or_blank(id)) {
            Some(i) => "id:"@ + i,
            None => "回复"@,
        },
    }
}

pub open spec fn or_blank(o: Option<Seq<char>>) -> Seq<char> {
    match o {
        Some(t) => t,
        None => Seq::empty(),
    }
}

/// The line under a quoted reply, from the reply's meta text and message id.
pub fn reply_meta_text(meta: Option<&str>, id: Option<&str>) -> (r: String)
    ensures
        r@ == reply_meta_spec(opt_str_view(meta), opt_str_view(id)),
{
    let m = match meta {
        Some(t) => crate::json::nonempty(t),
        None => None,
    };
    proof {
        assert(crate::json::nonempty_spec(Seq::<char>::empty()) is None) by {
            crate::text::lemma_trim_is_range(Seq::<char>::empty());
            crate::text::lemma_skip_ws(Seq::<char>::empty(), 0);
        }
    }
    match m {
        Some(t) => t,
        None => {
            let i = match id {
                Some(t) => crate::json::nonempty(t),
                None => None,
            };
            match i {
                Some(t) => concat2("id:", t.as_str()),
                None => owned("回复"),
            }
        },
    }
}

/// The sender's name of a forwarded message: the nickname, else the card,
/// of its `sender`; else its `sender_name`; else its `nickname`; trimmed,
/// and nothing when that is blank.
pub open spec fn forward_sender_spec(message: crate::json::JsonValue) -> Option<Seq<char>> {
    let from_sender = match crate::json::member(message, "sender"@) {
        Some(sender) => if sender is Object {
            match crate::json::member(sender, "nickname"@) {
                Some(x) => crate::json::as_text(x),
                None => match crate::json::member(sender, "card"@) {
                    Some(x) => crate::json::as_text(x),
                    None => None,
                },
            }
        } else {
            None
        },
        None => None,
    };
    let text_of = |key: Seq<char>|
        match crate::json::member(message, key) {
            Some(x) => crate::json::as_text(x),
            None => None,
        };
    let picked = match from_sender {
        Some(t) => Some(t),
        None => match text_of("sender_name"@) {
            Some(t) => Some(t),
            None => text_of("nickname"@),
        },
    };
    match picked {
        Some(t) => crate::json::nonempty_spec(t),
        None => None,
    }
}

fn member_str<'a>(v: &'a crate::json::JsonValue, key: &str) -> (r: Option<&'a str>)
    ensures
        match r {
            Some(t) => match crate::json::member(*v, key@) {
                Some(x) => crate::json::as_text(x) == Some(t@),
                None => false,
            },
            None => match crate::json::member(*v, key@) {
                Some(x) => crate::json::as_text(x) is None,
                None => true,
            },
        },
{
    match v.get(key) {
        Some(x) => x.as_str(),
        None => None,
    }
}

pub fn forward_sender_name(message: &crate::json::JsonValue) -> (r: Option<String>)
    ensures
        crate::json::opt_text(r) == forward_sender_spec(*message),
{
    let from_sender: Option<&str> = match message.get("sender") {
        Some(sender) => match sender {
            crate::json::JsonValue::Object(_) => match sender.get("nickname") {
                Some(x) => x.as_str(),
                None => member_str(sender, "card"),
            },
            _ => None,
        },
        None => None,
    };
    let picked = match from_sender {
        Some(t) => Some(t),
        None => match member_str(message, "sender_name") {
            Some(t) => Some(t),
            None => member_str(message, "nickname"),
        },
    };
    match picked {
        Some(t) => crate::json::nonempty(t),
        None => None,
    }
}

// ----------------------------------------------------------------------
// Pages
// ----------------------------------------------------------------------
/// Where a laid-out block starts and how tall it is.
#[derive(Debug, Clone, Copy)]
pub struct BlockSpan {
    pub y: u32,
    pub height: u32,
}

pub open spec fn min_u32(a: u32, b: u32) -> u32 {
    if a <= b {
        a
    } else {
        b
    }
}

pub open spec fn max_u32(a: u32, b: u32) -> u32 {
    if a >= b {
        a
    } else {
        b
    }
}

/// Where a page that starts at `start` may end before `hard_end`: below the
/// last block, among `blocks[i..]` that start lower than `start`, that ends
/// (with the padding) by `hard_end`; or, at the first block that does not,
/// half a spacing above that block when that is below `start`.
pub open spec fn soft_end(
    blocks: Seq<BlockSpan>,
    start: u32,
    hard_end: u32,
    padding: u32,
    spacing: u32,
    i: int,
    acc: Option<u32>,
) -> Option<u32>
    decreases blocks.len() - i,
{
    if i < 0 || i >= blocks.len() {
        acc
    } else {
        let b = blocks[i];
        if b.y <= start {
            soft_end(blocks, start, hard_end, padding, spacing, i + 1, acc)
        } else {
            let bottom = b.y.saturating_add(b.height).saturating_add(padding);
            if bottom > hard_end {
                let break_y = b.y.saturating_sub(spacing / 2);
                if break_y > start {
                    Some(break_y)
                } else {
                    acc
                }
            } else {
                soft_end(blocks, start, hard_end, padding, spacing, i + 1, Some(min_u32(bottom, hard_end)))
            }
        }
    }
}

/// Where a page that starts at `start` and may reach `hard_end` ends: at its
/// soft end, unless that leaves less than half the least page height.
pub open spec fn page_end(
    blocks: Seq<BlockSpan>,
    start: u32,
    hard_end: u32,
    min_page: u32,
    padding: u32,
    spacing: u32,
) -> u32 {
    let candidate = match soft_end(blocks, start, hard_end, padding, spacing, 0, None) {
        Some(e) => e,
        None => hard_end,
    };
    if candidate <= start || candidate - start < max_u32(min_page / 2, 1) {
        hard_end
    } else {
        min_u32(candidate, hard_end)
    }
}

/// The pages, as `(top, height)`, from `start` down to `full`.
pub open spec fn pages_from(
    blocks: Seq<BlockSpan>,
    start: u32,
    full: u32,
    max_page: u32,
    min_page: u32,
    padding: u32,
    spacing: u32,
) -> Seq<(u32, u32)>
    decreases full - start,
{
    if start >= full || max_page == 0 {
        Seq::empty()
    } else {
        let hard_end = min_u32(start.saturating_add(max_page), full);
        if hard_end >= full {
            seq![(start, max_u32((hard_end - start) as u32, min_page))]
        } else {
            let end = page_end(blocks, start, hard_end, min_page, padding, spacing);
            let height = max_u32((end - start) as u32, min_page);
            let next = max_u32(end, (start + 1) as u32);
            seq![(start, min_u32(height, max_page))] + pages_from(
                blocks,
                next,
                full,
                max_page,
                min_page,
                padding,
                spacing,
            )
        }
    }
}

/// The pages of a post `full_height` tall, with the page heights clamped as
/// the renderer clamps them.
pub open spec fn paginate_spec(
    blocks: Seq<BlockSpan>,
    full_height: u32,
    max_page_height: u32,
    min_page_height: u32,
    padding: u32,
    spacing: u32,
) -> Seq<(u32, u32)> {
    let full = max_u32(full_height, 1);
    let max_page = max_u32(max_page_height, 1);
    let min_page = max_u32(min_u32(min_page_height, max_page), 1);
    pages_from(blocks, 0, full, max_page, min_page, padding, spacing)
}

fn soft_end_exec(blocks: &[BlockSpan], start: u32, hard_end: u32, padding: u32, spacing: u32) -> (r:
    Option<u32>)
    ensures
        r == soft_end(blocks@, start, hard_end, padding, spacing, 0, None),
{
    let mut acc: Option<u32> = None;
    let mut i: usize = 0;
    while i < blocks.len()
        invariant
            0 <= i <= blocks@.len(),
            soft_end(blocks@, start, hard_end, padding, spacing, i as int, acc) == soft_end(
                blocks@,
                start,
                hard_end,
                padding,
                spacing,
                0,
                None,
            ),
        decreases blocks@.len() - i,
    {
        let b = blocks[i];
        if b.y > start {
            let bottom = b.y.saturating_add(b.height).saturating_add(padding);
            if bottom > hard_end {
                let break_y = b.y.saturating_sub(spacing / 2);
                if break_y > start {
                    return Some(break_y);
                }
                return acc;
            }
            acc = Some(if bottom <= hard_end {
                bottom
            } else {
                hard_end
            });
        }
        i = i + 1;
    }
    acc
}

/// Splits a post `full_height` tall into pages, as `(top, height)`: each
/// page ends below a block where one fits, and no page is taller than
/// `max_page_height` nor shorter than `min_page_height` (both clamped).
pub fn paginate_render_pages(
    blocks: &[BlockSpan],
    full_height: u32,
    max_page_height: u32,
    min_page_height: u32,
    padding: u32,
    spacing: u32,
) -> (r: Vec<(u32, u32)>)
    ensures
        r@ == paginate_spec(blocks@, full_height, max_page_height, min_page_height, padding, spacing),
{
    let full = if full_height >= 1 {
        full_height
    } else {
        1
    };
    let max_page = if max_page_height >= 1 {
        max_page_height
    } else {
        1
    };
    let clamped = if min_page_height <= max_page {
        min_page_height
    } else {
        max_page
    };
    let min_page = if clamped >= 1 {
        clamped
    } else {
        1
    };
    let ghost total = paginate_spec(blocks@, full_height, max_page_height, min_page_height, padding, spacing);
    let mut pages: Vec<(u32, u32)> = Vec::new();
    let mut start: u32 = 0;
    while start < full
        invariant
            1 <= max_page,
            1 <= min_page <= max_page,
            pages@ + pages_from(blocks@, start, full, max_page, min_page, padding, spacing) == total,
        decreases full - start,
    {
        let ghost rest = pages_from(blocks@, start, full, max_page, min_page, padding, spacing);
        let sum = start.saturating_add(max_page);
        let hard_end = if sum <= full {
            sum
        } else {
            full
        };
        if hard_end >= full {
            let h = hard_end - start;
            let height = if h >= min_page {
                h
            } else {
                min_page
            };
            let ghost before = pages@;
            pages.push((start, height));
            assert(pages@ + Seq::<(u32, u32)>::empty() =~= before + rest);
            start = full;
        } else {
            let soft = soft_end_exec(blocks, start, hard_end, padding, spacing);
            let candidate = match soft {
                Some(e) => e,
                None => hard_end,
            };
            let half = if min_page / 2 >= 1 {
                min_page / 2
            } else {
                1
            };
            let end = if candidate <= start || candidate - start < half {
                hard_end
            } else if candidate <= hard_end {
                candidate
            } else {
                hard_end
            };
            let span = end - start;
            let height = if span >= min_page {
                span
            } else {
                min_page
            };
            let capped = if height <= max_page {
                height
            } else {
                max_page
            };
            let next = if end >= start + 1 {
                end
            } else {
                start + 1
            };
            let ghost before = pages@;
            pages.push((start, capped));
            assert(pages@ + pages_from(blocks@, next, full, max_page, min_page, padding, spacing)
                =~= before + rest);
            start = next;
        }
    }
    assert(pages@ + Seq::<(u32, u32)>::empty() =~= pages@);
    pages
}

// ----------------------------------------------------------------------
// Image sources and sizes
// ----------------------------------------------------------------------
/// The width and height that `imagesize::blob_size` reads from the header
/// of `data`.
pub uninterp spec fn header_size(data: Seq<u8>) -> Option<(usize, usize)>;

/// The width and height of the image that `image::load_from_memory` decodes
/// from `data`.
pub uninterp spec fn decoded_size(data: Seq<u8>) -> Option<(u32, u32)>;

/// `imagesize::blob_size`: the size read from an image header, or nothing
/// when the header is not understood. The size is named, not stated.
#[verifier::external_body]
fn blob_size_of(data: &[u8]) -> (r: Option<(usize, usize)>)
    ensures
        r == header_size(data@),
{
    imagesize::blob_size(data).ok().map(|size| (size.width, size.height))
}

/// `image::load_from_memory`, then the decoded image's `width` and
/// `height`; nothing when it does not decode. The size is named, not stated.
#[verifier::external_body]
fn decoded_dimensions(data: &[u8]) -> (r: Option<(u32, u32)>)
    ensures
        r == decoded_size(data@),
{
    image::load_from_memory(data).ok().map(|img| (img.width(), img.height()))
}

/// The size of an image: from its header when that is understood (and
/// nothing when it does not fit in `u32`), else by decoding it.
pub open spec fn image_size_spec(data: Seq<u8>) -> Option<(u32, u32)> {
    match header_size(data) {
        Some((w, h)) => if w <= u32::MAX && h <= u32::MAX {
            Some((w as u32, h as u32))
        } else {
            None
        },
        None => decoded_size(data),
    }
}

pub fn image_size_from_bytes(bytes: &[u8]) -> (r: Option<(u32, u32)>)
    ensures
        r == image_size_spec(bytes@),
{
    match blob_size_of(bytes) {
        Some((w, h)) => {
            if w <= 4294967295usize && h <= 4294967295usize {
                Some((w as u32, h as u32))
            } else {
                None
            }
        },
        None => decoded_dimensions(bytes),
    }
}

impl ResolvedImage {
    /// An image with its bytes and the size read from them.
    pub fn from_bytes(bytes: Vec<u8>) -> (r: Self)
        ensures
            r.bytes == Some(bytes),
            match image_size_spec(bytes@) {
                Some((w, h)) => r.width == Some(w) && r.height == Some(h),
                None => r.width is None && r.height is None,
            },
    {
        let size = image_size_from_bytes(bytes.as_slice());
        let (width, height) = match size {
            Some((w, h)) => (Some(w), Some(h)),
            None => (None, None),
        };
        ResolvedImage { bytes: Some(bytes), width, height }
    }
}

/// A `data:` address read as `(MIME type, bytes)`: the type is the part of
/// the head before its first `;`; the payload is base64 when the head says
/// so. Nothing when there is no comma or the base64 does not decode.
pub open spec fn data_url_spec(source: Seq<char>) -> Option<(Seq<char>, Seq<u8>)> {
    if !crate::text::starts_with(source, "data:"@) {
        None
    } else {
        let rest = source.subrange(5, source.len() as int);
        match crate::text::find_char(rest, ',', 0) {
            None => None,
            Some(k) => {
                let meta = rest.take(k);
                let data = rest.subrange(k + 1, rest.len() as int);
                let mime = crate::text::split_char(meta, ';')[0];
                if crate::text::contains_seq(meta, ";base64"@) {
                    match crate::codec::base64_decoded(data) {
                        Some(b) => Some((mime, b)),
                        None => None,
                    }
                } else {
                    Some((mime, vstd::utf8::encode_utf8(data)))
                }
            },
        }
    }
}

fn utf8_bytes_of(t: &str) -> (r: Vec<u8>)
    ensures
        r@ == vstd::utf8::encode_utf8(t@),
{
    let b = t.as_bytes();
    let mut out: Vec<u8> = Vec::new();
    let mut i: usize = 0;
    while i < b.len()
        invariant
            0 <= i <= b@.len(),
            b@ == vstd::utf8::encode_utf8(t@),
            out@ =~= b@.take(i as int),
        decreases b@.len() - i,
    {
        out.push(b[i]);
        i = i + 1;
    }
    assert(b@.take(i as int) =~= b@);
    out
}

pub fn parse_data_url(source: &str) -> (r: Option<(String, Vec<u8>)>)
    ensures
        match r {
            Some((m, b)) => data_url_spec(source@) == Some((m@, b@)),
            None => data_url_spec(source@) is None,
        },
{
    let s = chars_of(source);
    if !crate::text::starts_with_str(&s, "data:") {
        return None;
    }
    proof {
        reveal_strlit("data:");
    }
    let rest = subvec(&s, 5, s.len());
    let k = match crate::text::find_char_from(&rest, ',', 0) {
        None => {
            return None;
        },
        Some(k) => k,
    };
    proof {
        crate::text::lemma_find_char(rest@, ',', 0);
    }
    let meta = subvec(&rest, 0, k);
    assert(meta@ =~= rest@.take(k as int));
    let data = subvec(&rest, k + 1, rest.len());
    let pieces = crate::text::split_char_vec(&meta, ';');
    assert(crate::text::vecs_view(pieces@).len() > 0);
    let mime = string_of(pieces[0].as_slice());
    let payload = string_of(data.as_slice());
    if crate::text::contains_str(&meta, ";base64") {
        match crate::codec::base64_decode(payload.as_str()) {
            Ok(b) => Some((mime, b)),
            Err(_) => None,
        }
    } else {
        let b = utf8_bytes_of(payload.as_str());
        Some((mime, b))
    }
}

/// The bytes of a `base64://` source, when it decodes.
pub open spec fn base64_url_spec(source: Seq<char>) -> Option<Seq<u8>> {
    if crate::text::starts_with(source, "base64://"@) {
        crate::codec::base64_decoded(source.subrange(9, source.len() as int))
    } else {
        None
    }
}

pub fn parse_base64_url(source: &str) -> (r: Option<Vec<u8>>)
    ensures
        match r {
            Some(b) => base64_url_spec(source@) == Some(b@),
            None => base64_url_spec(source@) is None,
        },
{
    let s = chars_of(source);
    if !crate::text::starts_with_str(&s, "base64://") {
        return None;
    }
    proof {
        reveal_strlit("base64://");
    }
    let payload = subvec(&s, 9, s.len());
    let p = string_of(payload.as_slice());
    match crate::codec::base64_decode(p.as_str()) {
        Ok(b) => Some(b),
        Err(_) => None,
    }
}

/// The image of a `data:` address.
pub fn resolved_image_from_data_url(url: &str) -> (r: Option<ResolvedImage>)
    ensures
        match data_url_spec(url@) {
            Some((_, b)) => match r {
                Some(img) => img.bytes is Some && img.bytes.unwrap()@ == b,
                None => false,
            },
            None => r is None,
        },
{
    match parse_data_url(url) {
        Some((_mime, bytes)) => Some(ResolvedImage::from_bytes(bytes)),
        None => None,
    }
}

/// The image of a `base64://` source.
pub fn resolved_image_from_base64_url(url: &str) -> (r: Option<ResolvedImage>)
    ensures
        match base64_url_spec(url@) {
            Some(b) => match r {
                Some(img) => img.bytes is Some && img.bytes.unwrap()@ == b,
                None => false,
            },
            None => r is None,
        },
{
    match parse_base64_url(url) {
        Some(bytes) => Some(ResolvedImage::from_bytes(bytes)),
        None => None,
    }
}

// ----------------------------------------------------------------------
// Laws
// ----------------------------------------------------------------------
/// A line trimmed at the start does not start with whitespace, and one
/// trimmed at the end does not end with it; trimming again changes nothing.
pub proof fn lemma_trimmed_line_ends(s: Seq<InlineAtom>)
    ensures
        ({
            let t = s.subrange(leading_ws(s) as int, s.len() as int);
            &&& t.len() > 0 ==> !atom_is_ws(t[0])
            &&& leading_ws(t) == 0
        }),
        ({
            let t = s.take(s.len() - trailing_ws(s));
            &&& t.len() > 0 ==> !atom_is_ws(t.last())
            &&& trailing_ws(t) == 0
        }),
    decreases s.len(),
{
    lemma_leading_ws_bound(s);
    lemma_trailing_ws_bound(s);
    if s.len() > 0 {
        if atom_is_ws(s[0]) {
            lemma_trimmed_line_ends(s.drop_first());
            assert(s.subrange(leading_ws(s) as int, s.len() as int) =~= s.drop_first().subrange(
                leading_ws(s.drop_first()) as int,
                s.drop_first().len() as int,
            ));
        } else {
            assert(s.subrange(0, s.len() as int) =~= s);
        }
        if atom_is_ws(s.last()) {
            lemma_trimmed_line_ends(s.drop_last());
            assert(s.take(s.len() - trailing_ws(s)) =~= s.drop_last().take(
                s.drop_last().len() - trailing_ws(s.drop_last()),
            ));
        } else {
            assert(s.take(s.len() as int) =~= s);
        }
    } else {
        assert(s.subrange(0, 0) =~= s);
        assert(s.take(0) =~= s);
    }
}

/// A render is retried after 10 seconds at the least and 5 minutes at the
/// most, and a later attempt never waits less than an earlier one.
pub proof fn lemma_render_retry_delay(a: u32, b: u32)
    ensures
        10_000 <= render_retry_spec(a) <= 300_000,
        a <= b ==> render_retry_spec(a) <= render_retry_spec(b),
{
    let sa: nat = if a == 0 {
        0nat
    } else if a - 1 > 10 {
        10nat
    } else {
        (a - 1) as nat
    };
    let sb: nat = if b == 0 {
        0nat
    } else if b - 1 > 10 {
        10nat
    } else {
        (b - 1) as nat
    };
    crate::qzone::lemma_pow2_small_mono(0, sa);
    if a <= b {
        crate::qzone::lemma_pow2_small_mono(sa, sb);
    }
    assert(crate::qzone::pow2_small(0) == 1);
}

/// The generator never reaches the state 0, in which it would stay.
pub proof fn lemma_rng_state_nonzero(s: u64)
    ensures
        s != 0 ==> xorshift(s) != 0,
{
    assert(s != 0 ==> ((s ^ (s << 13u64)) ^ ((s ^ (s << 13u64)) >> 7u64)) ^ (((s ^ (s << 13u64)) ^ ((
        s ^ (s << 13u64)) >> 7u64)) << 17u64) != 0) by (bit_vector);
}

/// The pages from `start` on: the first starts at `start`, they go down
/// without gaps, none is shorter than `min_page` nor taller than
/// `max_page`, and the last reaches `full`.
proof fn lemma_pages_from_cover(
    blocks: Seq<BlockSpan>,
    start: u32,
    full: u32,
    max_page: u32,
    min_page: u32,
    padding: u32,
    spacing: u32,
)
    requires
        start < full,
        1 <= min_page <= max_page,
    ensures
        ({
            let ps = pages_from(blocks, start, full, max_page, min_page, padding, spacing);
            &&& ps.len() >= 1
            &&& ps[0].0 == start
            &&& forall|k: int| 0 <= k < ps.len() ==> start <= (#[trigger] ps[k]).0 < full
            &&& forall|k: int| 0 <= k < ps.len() ==> min_page <= (#[trigger] ps[k]).1 <= max_page
            &&& forall|k: int|
                0 <= k < ps.len() - 1 ==> (#[trigger] ps[k]).0 < ps[k + 1].0 <= ps[k].0 + ps[k].1
            &&& ps.last().0 + ps.last().1 >= full
        }),
    decreases full - start,
{
    let ps = pages_from(blocks, start, full, max_page, min_page, padding, spacing);
    let hard_end = min_u32(start.saturating_add(max_page), full);
    if hard_end < full {
        let end = page_end(blocks, start, hard_end, min_page, padding, spacing);
        let next = max_u32(end, (start + 1) as u32);
        lemma_pages_from_cover(blocks, next, full, max_page, min_page, padding, spacing);
        let rest = pages_from(blocks, next, full, max_page, min_page, padding, spacing);
        assert(ps == seq![(start, min_u32(max_u32((end - start) as u32, min_page), max_page))] + rest);
        assert forall|k: int| 0 <= k < ps.len() implies start <= (#[trigger] ps[k]).0 < full by {
            if k > 0 {
                assert(ps[k] == rest[k - 1]);
            }
        }
        assert forall|k: int| 0 <= k < ps.len() implies min_page <= (#[trigger] ps[k]).1 <= max_page by {
            if k > 0 {
                assert(ps[k] == rest[k - 1]);
            }
        }
        assert forall|k: int| 0 <= k < ps.len() - 1 implies (#[trigger] ps[k]).0 < ps[k + 1].0 <= ps[k].0
            + ps[k].1 by {
            if k > 0 {
                assert(ps[k] == rest[k - 1]);
                assert(ps[k + 1] == rest[k]);
            } else {
                assert(ps[1] == rest[0]);
            }
        }
        assert(ps.last() == rest.last());
    }
}

/// A post is cut into pages that cover it from the top to the bottom with
/// no gap: the first page starts at the top, each next page starts lower but
/// no lower than where the one before it ends, the last reaches the bottom,
/// and every page is as tall as the clamped least height and no taller than
/// the clamped greatest.
pub proof fn lemma_pages_cover_post(
    blocks: Seq<BlockSpan>,
    full_height: u32,
    max_page_height: u32,
    min_page_height: u32,
    padding: u32,
    spacing: u32,
)
    ensures
        ({
            let ps = paginate_spec(blocks, full_height, max_page_height, min_page_height, padding, spacing);
            let full = max_u32(full_height, 1);
            let max_page = max_u32(max_page_height, 1);
            let min_page = max_u32(min_u32(min_page_height, max_page), 1);
            &&& ps.len() >= 1
            &&& ps[0].0 == 0
            &&& forall|k: int| 0 <= k < ps.len() ==> min_page <= (#[trigger] ps[k]).1 <= max_page
            &&& forall|k: int|
                0 <= k < ps.len() - 1 ==> (#[trigger] ps[k]).0 < ps[k + 1].0 <= ps[k].0 + ps[k].1
            &&& ps.last().0 < full <= ps.last().0 + ps.last().1
        }),
{
    let full = max_u32(full_height, 1);
    let max_page = max_u32(max_page_height, 1);
    let min_page = max_u32(min_u32(min_page_height, max_page), 1);
    lemma_pages_from_cover(blocks, 0, full, max_page, min_page, padding, spacing);
}

/// Two neighbouring cards that both link are in one run and show one QR
/// link: the last link of that run.
pub proof fn lemma_run_shares_qr(bs: Seq<CardQrSlot>, i: int)
    requires
        0 <= i,
        i + 1 < bs.len(),
        linked(bs[i]),
        linked(bs[i + 1]),
    ensures
        run_end(bs, i) == run_end(bs, i + 1),
        linked(bs[run_end(bs, i)]),
{
    lemma_run_end(bs, i + 1);
}

/// Text with no reference to forwarded messages is one text piece (or none
/// when blank), at any depth.
pub proof fn lemma_plain_text_is_one_piece(text: Seq<char>, depth: u32)
    requires
        crate::text::find_from(text, FORWARD_PREFIX@, 0) is None,
    ensures
        forward_split_spec(text, depth) == text_piece(text),
{
    assert(text.subrange(0, text.len() as int) =~= text);
}

} // verus!
