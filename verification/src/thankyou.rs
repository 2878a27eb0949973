//! Recognising a bare "thank you" sent after a submission was handled, so
//! that it is not taken for a new submission.
use vstd::prelude::*;

use crate::text::{
    chars_of, contains_char, contains_str, in_list, string_of, to_lower_char,
};
use crate::text::{contains_seq, is_digit, is_ws, listed, lower_char};
use crate::json::{json_string, member, member_text, member_text_of, JsonValue};

verus! {

/// Characters that are dropped from a message before it is compared.
pub const TEXT_REMOVE_CHARS: &'static str = " 　\t\r\n“”‘’《》〈〉【】。，、：；？！!?,.（）()「」『』[]{}<>~～·'\"`*_-=+|/\\^$#@%&";

/// Which reply the sender's message follows.
#[derive(Debug, Clone, Copy, PartialEq, Eq, Structural)]
pub enum ThankYouFeedbackKind {
    SendSucceeded,
    Rejected,
    ManualReply,
}

/// The rule by which a message was recognised.
#[derive(Debug, Clone, PartialEq, Eq)]
pub struct ThankYouMatch {
    pub rule: &'static str,
}

pub open spec fn rule_view(r: Option<ThankYouMatch>) -> Option<Seq<char>> {
    match r {
        Some(m) => Some(m.rule@),
        None => None,
    }
}

// ----------------------------------------------------------------------
// Normalising text
// ----------------------------------------------------------------------
/// Traditional forms, the ideographic space and full-width ASCII mapped to
/// their plain forms; the emoji variation selector and the zero-width
/// joiner dropped.
pub open spec fn fold_char(c: char) -> Option<char> {
    if c == '謝' {
        Some('谢')
    } else if c == '妳' {
        Some('你')
    } else if c == '嗎' {
        Some('吗')
    } else if c == '　' {
        Some(' ')
    } else if c == '\u{fe0f}' || c == '\u{200d}' {
        None
    } else if '\u{ff01}' <= c && c <= '\u{ff5e}' {
        Some(((c as u32) - 0xfee0) as char)
    } else {
        Some(c)
    }
}

/// What one character becomes once normalised, if it stays.
pub open spec fn norm_char(c: char) -> Option<char> {
    match fold_char(c) {
        None => None,
        Some(m) => if is_ws(m) || TEXT_REMOVE_CHARS@.contains(m) {
            None
        } else {
            Some(lower_char(m))
        },
    }
}

/// The text with each character normalised, dropped characters left out.
pub open spec fn normalize_spec(s: Seq<char>) -> Seq<char>
    decreases s.len(),
{
    if s.len() == 0 {
        Seq::empty()
    } else {
        normalize_spec(s.drop_last()) + match norm_char(s.last()) {
            Some(x) => seq![x],
            None => Seq::empty(),
        }
    }
}

fn fold_char_exec(c: char) -> (r: Option<char>)
    ensures
        r == fold_char(c),
{
    if c == '謝' {
        Some('谢')
    } else if c == '妳' {
        Some('你')
    } else if c == '嗎' {
        Some('吗')
    } else if c == '　' {
        Some(' ')
    } else if c == '\u{fe0f}' || c == '\u{200d}' {
        None
    } else if '\u{ff01}' <= c && c <= '\u{ff5e}' {
        let u: u32 = (c as u32) - 0xfee0;
        let b: u8 = u as u8;
        assert(b == u);
        Some(b as char)
    } else {
        Some(c)
    }
}

fn normalize_chars(input: &Vec<char>) -> (r: Vec<char>)
    ensures
        r@ == normalize_spec(input@),
{
    let remove = chars_of(TEXT_REMOVE_CHARS);
    let mut out: Vec<char> = Vec::new();
    let mut i: usize = 0;
    while i < input.len()
        invariant
            0 <= i <= input@.len(),
            remove@ == TEXT_REMOVE_CHARS@,
            out@ == normalize_spec(input@.take(i as int)),
        decreases input@.len() - i,
    {
        let c = input[i];
        assert(input@.take(i + 1).drop_last() =~= input@.take(i as int));
        assert(input@.take(i + 1).last() == c);
        match fold_char_exec(c) {
            None => {
                assert(out@ + Seq::<char>::empty() =~= out@);
            },
            Some(m) => {
                if crate::text::is_whitespace(m) || contains_char(&remove, m) {
                    assert(out@ + Seq::<char>::empty() =~= out@);
                } else {
                    let l = to_lower_char(m);
                    assert(out@.push(l) =~= out@ + seq![l]);
                    out.push(l);
                }
            },
        }
        i = i + 1;
    }
    assert(input@.take(i as int) =~= input@);
    out
}

/// The text as it is compared: mapped, without whitespace or punctuation,
/// ASCII letters lowered.
pub fn normalize_text(input: &str) -> (r: String)
    ensures
        r@ == normalize_spec(input@),
{
    let v = chars_of(input);
    let n = normalize_chars(&v);
    string_of(n.as_slice())
}

// ----------------------------------------------------------------------
// Word lists
// ----------------------------------------------------------------------
/// Words that show that the sender has more to say.
pub open spec fn continuation_needles() -> Seq<&'static str> {
    seq![
        "但",
        "但是",
        "不过",
        "另外",
        "还有",
        "补充",
        "改一下",
        "修改",
        "帮我",
        "能不能",
        "为什么",
        "怎么",
        "吗",
        "？",
        "?",
        "http",
        "www",
    ]
}

pub open spec fn has_continuation(v: Seq<char>) -> bool {
    exists|i: int|
        0 <= i < continuation_needles().len() && contains_seq(
            v,
            #[trigger] continuation_needles()[i]@,
        )
}

fn has_continuation_signal(value: &Vec<char>) -> (r: bool)
    ensures
        r == has_continuation(value@),
{
    let needles = [
        "但",
        "但是",
        "不过",
        "另外",
        "还有",
        "补充",
        "改一下",
        "修改",
        "帮我",
        "能不能",
        "为什么",
        "怎么",
        "吗",
        "？",
        "?",
        "http",
        "www",
    ];
    assert(needles@ =~= continuation_needles());
    let mut i: usize = 0;
    while i < needles.len()
        invariant
            0 <= i <= needles@.len(),
            needles@ == continuation_needles(),
            forall|k: int| 0 <= k < i ==> !contains_seq(value@, #[trigger] needles@[k]@),
        decreases needles@.len() - i,
    {
        if contains_str(value, needles[i]) {
            return true;
        }
        i = i + 1;
    }
    false
}

/// An ASCII digit, unless the text is exactly `3q`.
pub open spec fn has_blocking_digit_spec(v: Seq<char>) -> bool {
    (exists|i: int| 0 <= i < v.len() && is_digit(#[trigger] v[i])) && v != "3q"@
}

fn has_blocking_digit(value: &Vec<char>) -> (r: bool)
    ensures
        r == has_blocking_digit_spec(value@),
{
    let mut found = false;
    let mut i: usize = 0;
    while i < value.len()
        invariant
            0 <= i <= value@.len(),
            found == exists|k: int| 0 <= k < i && is_digit(#[trigger] value@[k]),
        decreases value@.len() - i,
    {
        if '0' <= value[i] && value[i] <= '9' {
            found = true;
        }
        i = i + 1;
    }
    found && !crate::text::eq_str(value, "3q")
}

pub open spec fn gratitude_words() -> Seq<&'static str> {
    seq![
        "谢谢",
        "谢谢你",
        "谢谢您",
        "谢谢啦",
        "谢谢了",
        "谢谢哈",
        "谢啦",
        "谢了",
        "多谢",
        "感谢",
        "感谢你",
        "感谢您",
        "感謝",
        "拜谢",
        "蟹蟹",
        "栓q",
        "thx",
        "thanks",
        "thankyou",
        "3q",
        "辛苦了",
        "麻烦了",
        "好的谢谢",
        "好谢谢",
        "收到谢谢",
        "ok谢谢",
        "嗯嗯谢谢",
    ]
}

fn is_gratitude_text(value: &Vec<char>) -> (r: bool)
    ensures
        r == listed(gratitude_words(), value@),
{
    let words = [
        "谢谢",
        "谢谢你",
        "谢谢您",
        "谢谢啦",
        "谢谢了",
        "谢谢哈",
        "谢啦",
        "谢了",
        "多谢",
        "感谢",
        "感谢你",
        "感谢您",
        "感謝",
        "拜谢",
        "蟹蟹",
        "栓q",
        "thx",
        "thanks",
        "thankyou",
        "3q",
        "辛苦了",
        "麻烦了",
        "好的谢谢",
        "好谢谢",
        "收到谢谢",
        "ok谢谢",
        "嗯嗯谢谢",
    ];
    assert(words@ =~= gratitude_words());
    in_list(value, &words)
}

pub open spec fn confirmation_words() -> Seq<&'static str> {
    seq![
        "好",
        "好的",
        "好滴",
        "好嘞",
        "收到",
        "已收到",
        "明白",
        "明白了",
        "了解",
        "了解了",
        "ok",
        "okay",
        "嗯",
        "嗯嗯",
        "行",
        "可以",
    ]
}

fn is_confirmation_text(value: &Vec<char>) -> (r: bool)
    ensures
        r == listed(confirmation_words(), value@),
{
    let words = [
        "好",
        "好的",
        "好滴",
        "好嘞",
        "收到",
        "已收到",
        "明白",
        "明白了",
        "了解",
        "了解了",
        "ok",
        "okay",
        "嗯",
        "嗯嗯",
        "行",
        "可以",
    ];
    assert(words@ =~= confirmation_words());
    in_list(value, &words)
}

pub open spec fn is_thanks_emoji(c: char) -> bool {
    c == '🙏' || c == '🙇' || c == '🤝' || c == '👍' || c == '❤' || c == '💗' || c == '💖'
}

/// At least one character, and only thanks emoji.
pub open spec fn thanks_emoji_only(v: Seq<char>) -> bool {
    v.len() > 0 && forall|i: int| 0 <= i < v.len() ==> is_thanks_emoji(#[trigger] v[i])
}

fn is_thanks_emoji_only(value: &Vec<char>) -> (r: bool)
    ensures
        r == thanks_emoji_only(value@),
{
    let mut count: usize = 0;
    let mut i: usize = 0;
    while i < value.len()
        invariant
            0 <= i <= value@.len(),
            count == i,
            forall|k: int| 0 <= k < i ==> is_thanks_emoji(#[trigger] value@[k]),
        decreases value@.len() - i,
    {
        let c = value[i];
        if c == '🙏' || c == '🙇' || c == '🤝' || c == '👍' || c == '❤' || c == '💗' || c == '💖' {
            count = count + 1;
        } else {
            return false;
        }
        i = i + 1;
    }
    count > 0
}

/// Whether a reply of this kind closes the exchange, so that a bare
/// confirmation counts as thanks.
pub open spec fn is_terminal(kind: ThankYouFeedbackKind) -> bool {
    kind == ThankYouFeedbackKind::SendSucceeded || kind == ThankYouFeedbackKind::Rejected
}

/// What `match_text` gives for a text of a message.
pub open spec fn match_text_spec(max_chars: nat, kind: ThankYouFeedbackKind, input: Seq<char>) -> Option<
    Seq<char>,
> {
    let n = normalize_spec(input);
    if has_continuation(input) {
        None
    } else if n.len() == 0 || n.len() > max_chars {
        None
    } else if has_continuation(n) || has_blocking_digit_spec(n) {
        None
    } else if listed(gratitude_words(), n) {
        Some("text_exact"@)
    } else if is_terminal(kind) && listed(confirmation_words(), n) {
        Some("text_confirm"@)
    } else if thanks_emoji_only(n) {
        Some("text_emoji"@)
    } else {
        None
    }
}

/// Whether the text of a message is a bare thanks, a bare confirmation
/// after a closing reply, or thanks emoji alone.
pub fn match_text_with_limit(max_text_chars: usize, kind: ThankYouFeedbackKind, input: &str) -> (r:
    Option<ThankYouMatch>)
    ensures
        rule_view(r) == match_text_spec(max_text_chars as nat, kind, input@),
{
    let raw = chars_of(input);
    if has_continuation_signal(&raw) {
        return None;
    }
    let n = normalize_chars(&raw);
    if n.len() == 0 || n.len() > max_text_chars {
        return None;
    }
    if has_continuation_signal(&n) || has_blocking_digit(&n) {
        return None;
    }
    if is_gratitude_text(&n) {
        return Some(ThankYouMatch { rule: "text_exact" });
    }
    let terminal = match kind {
        ThankYouFeedbackKind::SendSucceeded => true,
        ThankYouFeedbackKind::Rejected => true,
        ThankYouFeedbackKind::ManualReply => false,
    };
    if terminal && is_confirmation_text(&n) {
        return Some(ThankYouMatch { rule: "text_confirm" });
    }
    if is_thanks_emoji_only(&n) {
        return Some(ThankYouMatch { rule: "text_emoji" });
    }
    None
}

// ----------------------------------------------------------------------
// Hex fields of the registry
// ----------------------------------------------------------------------
/// `s` without all of its leading `"0x"`s (`trim_start_matches("0x")`).
pub open spec fn strip_0x(s: Seq<char>) -> Seq<char>
    decreases s.len(),
{
    if s.len() >= 2 && s[0] == '0' && s[1] == 'x' {
        strip_0x(s.subrange(2, s.len() as int))
    } else {
        s
    }
}

/// The value of a hex digit, or `-1`.
pub open spec fn hex_value(c: char) -> int {
    if '0' <= c && c <= '9' {
        (c as int) - ('0' as int)
    } else if 'a' <= c && c <= 'f' {
        (c as int) - ('a' as int) + 10
    } else if 'A' <= c && c <= 'F' {
        (c as int) - ('A' as int) + 10
    } else {
        -1
    }
}

pub open spec fn all_hex(s: Seq<char>) -> bool {
    forall|i: int| 0 <= i < s.len() ==> hex_value(#[trigger] s[i]) >= 0
}

pub open spec fn hex_digits_value(s: Seq<char>) -> nat
    decreases s.len(),
{
    if s.len() == 0 {
        0
    } else {
        hex_digits_value(s.drop_last()) * 16 + hex_value(s.last()) as nat
    }
}

/// `u64::from_str_radix(s, 16)`: an optional `+`, then at least one hex
/// digit, and a value that fits.
pub open spec fn parse_hex_spec(s: Seq<char>) -> Option<u64> {
    let d = if s.len() > 0 && s[0] == '+' {
        s.drop_first()
    } else {
        s
    };
    if d.len() > 0 && all_hex(d) && hex_digits_value(d) <= u64::MAX {
        Some(hex_digits_value(d) as u64)
    } else {
        None
    }
}

/// What `parse_u64_hex` gives: the trimmed text without leading `0x`s, in hex.
pub open spec fn parse_u64_hex_spec(s: Seq<char>) -> Option<u64> {
    parse_hex_spec(strip_0x(crate::text::trim(s)))
}

proof fn lemma_hex_value_grows(s: Seq<char>, k: int)
    requires
        all_hex(s),
        0 <= k <= s.len(),
    ensures
        hex_digits_value(s.take(k)) <= hex_digits_value(s),
    decreases s.len() - k,
{
    if k < s.len() {
        lemma_hex_value_grows(s, k + 1);
        assert(s.take(k + 1).drop_last() =~= s.take(k));
        assert(hex_value(s[k]) >= 0);
    } else {
        assert(s.take(k) =~= s);
    }
}

fn hex_value_exec(c: char) -> (r: i32)
    ensures
        r == hex_value(c),
{
    if '0' <= c && c <= '9' {
        (c as u32 - '0' as u32) as i32
    } else if 'a' <= c && c <= 'f' {
        (c as u32 - 'a' as u32 + 10) as i32
    } else if 'A' <= c && c <= 'F' {
        (c as u32 - 'A' as u32 + 10) as i32
    } else {
        -1
    }
}

fn parse_hex_vec(s: &Vec<char>) -> (r: Option<u64>)
    ensures
        r == parse_hex_spec(s@),
{
    let start: usize = if s.len() > 0 && s[0] == '+' {
        1
    } else {
        0
    };
    let ghost d = if s@.len() > 0 && s@[0] == '+' {
        s@.drop_first()
    } else {
        s@
    };
    assert(d =~= s@.subrange(start as int, s@.len() as int));
    if start >= s.len() {
        return None;
    }
    let mut acc: u64 = 0;
    let mut i = start;
    while i < s.len()
        invariant
            start <= i <= s@.len(),
            d =~= s@.subrange(start as int, s@.len() as int),
            d.len() > 0,
            parse_hex_spec(s@) == (if d.len() > 0 && all_hex(d) && hex_digits_value(d) <= u64::MAX {
                Some(hex_digits_value(d) as u64)
            } else {
                None
            }),
            all_hex(d.take(i - start)),
            acc as nat == hex_digits_value(d.take(i - start)),
        decreases s@.len() - i,
    {
        let c = s[i];
        let hv = hex_value_exec(c);
        if hv < 0 {
            assert(d[i - start] == c);
            assert(!all_hex(d));
            return None;
        }
        let v = hv as u64;
        assert(d.take(i - start).push(c) =~= d.take(i + 1 - start));
        assert(d.take(i + 1 - start).drop_last() =~= d.take(i - start));
        assert(hex_digits_value(d.take(i + 1 - start)) == acc * 16 + v);
        if acc > (u64::MAX - v) / 16 {
            proof {
                assert(hex_digits_value(d.take(i + 1 - start)) > u64::MAX) by (nonlinear_arith)
                    requires
                        acc > (u64::MAX - v) / 16,
                        hex_digits_value(d.take(i + 1 - start)) == acc * 16 + v,
                        v <= 15,
                ;
                if all_hex(d) {
                    lemma_hex_value_grows(d, i + 1 - start);
                }
            }
            return None;
        }
        acc = acc * 16 + v;
        i = i + 1;
    }
    assert(d.take(i - start) =~= d);
    Some(acc)
}

/// The trimmed text, without leading `0x`s, read as a hex `u64`.
pub fn parse_u64_hex(input: &str) -> (r: Option<u64>)
    ensures
        r == parse_u64_hex_spec(input@),
{
    let v = chars_of(input);
    let mut t = crate::text::trim_vec(&v);
    while t.len() >= 2 && t[0] == '0' && t[1] == 'x'
        invariant
            strip_0x(t@) == strip_0x(crate::text::trim(input@)),
        decreases t@.len(),
    {
        t = crate::text::subvec(&t, 2, t.len());
    }
    parse_hex_vec(&t)
}

pub open spec fn lower_seq(s: Seq<char>) -> Seq<char> {
    s.map_values(|c: char| lower_char(c))
}

/// What `normalize_hex` gives: trimmed, ASCII lowered, and not blank.
pub open spec fn normalize_hex_spec(input: Option<Seq<char>>) -> Option<Seq<char>> {
    match input {
        None => None,
        Some(s) => crate::json::nonempty_spec(lower_seq(crate::text::trim(s))),
    }
}

/// A hash as the registry keeps it: trimmed, lower-case, and not blank.
pub fn normalize_hex(input: Option<&str>) -> (r: Option<String>)
    ensures
        crate::json::opt_text(r) == normalize_hex_spec(
            match input {
                Some(s) => Some(s@),
                None => None,
            },
        ),
{
    match input {
        None => None,
        Some(s) => {
            let v = chars_of(s);
            let t = crate::text::trim_vec(&v);
            let mut low: Vec<char> = Vec::new();
            let mut i: usize = 0;
            while i < t.len()
                invariant
                    0 <= i <= t@.len(),
                    low@ =~= lower_seq(t@).take(i as int),
                decreases t@.len() - i,
            {
                low.push(to_lower_char(t[i]));
                i = i + 1;
            }
            assert(lower_seq(t@).take(i as int) =~= lower_seq(t@));
            let ls = string_of(low.as_slice());
            crate::json::nonempty(ls.as_str())
        },
    }
}

// ----------------------------------------------------------------------
// The registry of known thanks stickers and images
// ----------------------------------------------------------------------
/// A face entry of the registry file.
#[derive(Debug, Clone)]
pub struct RegistryFaceEntry {
    pub id: String,
    pub sha256: Option<String>,
    pub phash: Option<String>,
}

/// A market-face entry of the registry file.
#[derive(Debug, Clone)]
pub struct RegistryMfaceEntry {
    pub emoji_package_id: Option<String>,
    pub emoji_id: Option<String>,
    pub key: Option<String>,
}

/// An image entry of the registry file.
#[derive(Debug, Clone)]
pub struct RegistryImageEntry {
    pub file_unique: Option<String>,
    pub sha256: Option<String>,
    pub phash: Option<String>,
}

/// The registry file, once parsed. A missing list is empty.
#[derive(Debug, Clone)]
pub struct RegistryFile {
    pub face_ids: Vec<RegistryFaceEntry>,
    pub mfaces: Vec<RegistryMfaceEntry>,
    pub file_uniques: Vec<String>,
    pub images: Vec<RegistryImageEntry>,
}

/// The three parts by which a market face is known.
#[derive(Debug, Clone, PartialEq, Eq, Hash)]
pub struct MfaceKey {
    pub emoji_package_id: String,
    pub emoji_id: String,
    pub key: String,
}

pub open spec fn mface_view(k: MfaceKey) -> (Seq<char>, Seq<char>, Seq<char>) {
    (k.emoji_package_id@, k.emoji_id@, k.key@)
}

/// The known stickers and images. Each set holds no text twice.
#[derive(Debug, Clone)]
pub struct ThankYouRegistry {
    face_ids: Vec<String>,
    mfaces: Vec<MfaceKey>,
    file_uniques: Vec<String>,
    content_sha256: Vec<String>,
    phashes: Vec<u64>,
}

pub open spec fn has_text(v: Seq<String>, t: Seq<char>) -> bool {
    exists|i: int| 0 <= i < v.len() && (#[trigger] v[i])@ == t
}

pub open spec fn distinct_texts(v: Seq<String>) -> bool {
    forall|i: int, j: int| 0 <= i < j < v.len() ==> (#[trigger] v[i])@ != (#[trigger] v[j])@
}

pub open spec fn has_key(v: Seq<MfaceKey>, k: (Seq<char>, Seq<char>, Seq<char>)) -> bool {
    exists|i: int| 0 <= i < v.len() && mface_view(#[trigger] v[i]) == k
}

pub open spec fn distinct_keys(v: Seq<MfaceKey>) -> bool {
    forall|i: int, j: int|
        0 <= i < j < v.len() ==> mface_view(#[trigger] v[i]) != mface_view(#[trigger] v[j])
}

impl ThankYouRegistry {
    pub closed spec fn wf(&self) -> bool {
        &&& distinct_texts(self.face_ids@)
        &&& distinct_keys(self.mfaces@)
        &&& distinct_texts(self.file_uniques@)
        &&& distinct_texts(self.content_sha256@)
    }

    pub closed spec fn knows_face_id(&self, t: Seq<char>) -> bool {
        has_text(self.face_ids@, t)
    }

    pub closed spec fn knows_mface(&self, k: (Seq<char>, Seq<char>, Seq<char>)) -> bool {
        has_key(self.mfaces@, k)
    }

    pub closed spec fn knows_file_unique(&self, t: Seq<char>) -> bool {
        has_text(self.file_uniques@, t)
    }

    pub closed spec fn knows_sha256(&self, t: Seq<char>) -> bool {
        has_text(self.content_sha256@, t)
    }

    pub closed spec fn known_phashes(&self) -> Seq<u64> {
        self.phashes@
    }

    pub closed spec fn has_image_hashes_spec(&self) -> bool {
        self.content_sha256@.len() > 0 || self.phashes@.len() > 0
    }

    /// A registry that knows nothing.
    pub fn empty() -> (r: Self)
        ensures
            r.wf(),
            forall|t: Seq<char>| !r.knows_face_id(t),
            forall|k: (Seq<char>, Seq<char>, Seq<char>)| !r.knows_mface(k),
            forall|t: Seq<char>| !r.knows_file_unique(t),
            forall|t: Seq<char>| !r.knows_sha256(t),
            r.known_phashes().len() == 0,
            !r.has_image_hashes_spec(),
    {
        ThankYouRegistry {
            face_ids: Vec::new(),
            mfaces: Vec::new(),
            file_uniques: Vec::new(),
            content_sha256: Vec::new(),
            phashes: Vec::new(),
        }
    }

    /// Whether any image hash is known, so that an image is worth fetching.
    pub fn has_image_hashes(&self) -> (r: bool)
        ensures
            r == self.has_image_hashes_spec(),
    {
        self.content_sha256.len() > 0 || self.phashes.len() > 0
    }

    pub fn contains_face_id(&self, id: &str) -> (r: bool)
        ensures
            r == self.knows_face_id(id@),
    {
        find_text(&self.face_ids, id)
    }

    pub fn contains_mface(&self, k: &MfaceKey) -> (r: bool)
        ensures
            r == self.knows_mface(mface_view(*k)),
    {
        find_key(&self.mfaces, k)
    }

    pub fn contains_file_unique(&self, t: &str) -> (r: bool)
        ensures
            r == self.knows_file_unique(t@),
    {
        find_text(&self.file_uniques, t)
    }

    pub fn contains_sha256(&self, t: &str) -> (r: bool)
        ensures
            r == self.knows_sha256(t@),
    {
        find_text(&self.content_sha256, t)
    }

    /// Whether a known perceptual hash lies within `distance` bits of `h`.
    pub fn near_phash(&self, h: u64, distance: u32) -> (r: bool)
        ensures
            r == phash_near(self.known_phashes(), h, distance as nat),
    {
        let mut i: usize = 0;
        while i < self.phashes.len()
            invariant
                0 <= i <= self.phashes@.len(),
                forall|k: int|
                    0 <= k < i ==> popcount(#[trigger] self.phashes@[k] ^ h) > distance,
            decreases self.phashes@.len() - i,
        {
            if count_ones(self.phashes[i] ^ h) <= distance {
                return true;
            }
            i = i + 1;
        }
        false
    }
}

fn find_text(v: &Vec<String>, t: &str) -> (r: bool)
    ensures
        r == has_text(v@, t@),
{
    let mut i: usize = 0;
    while i < v.len()
        invariant
            0 <= i <= v@.len(),
            forall|k: int| 0 <= k < i ==> (#[trigger] v@[k])@ != t@,
        decreases v@.len() - i,
    {
        if crate::text::same_text(v[i].as_str(), t) {
            return true;
        }
        i = i + 1;
    }
    false
}

fn find_key(v: &Vec<MfaceKey>, k: &MfaceKey) -> (r: bool)
    ensures
        r == has_key(v@, mface_view(*k)),
{
    let mut i: usize = 0;
    while i < v.len()
        invariant
            0 <= i <= v@.len(),
            forall|j: int| 0 <= j < i ==> mface_view(#[trigger] v@[j]) != mface_view(*k),
        decreases v@.len() - i,
    {
        let e = &v[i];
        if crate::text::same_text(e.emoji_package_id.as_str(), k.emoji_package_id.as_str())
            && crate::text::same_text(e.emoji_id.as_str(), k.emoji_id.as_str())
            && crate::text::same_text(e.key.as_str(), k.key.as_str()) {
            return true;
        }
        i = i + 1;
    }
    false
}

fn insert_text(v: &mut Vec<String>, s: String)
    requires
        distinct_texts(old(v)@),
    ensures
        distinct_texts(final(v)@),
        forall|t: Seq<char>| has_text(final(v)@, t) <==> (has_text(old(v)@, t) || t == s@),
{
    if find_text(v, s.as_str()) {
        return;
    }
    let ghost sv = s@;
    v.push(s);
    assert forall|t: Seq<char>| has_text(v@, t) <==> (has_text(old(v)@, t) || t == sv) by {
        if has_text(old(v)@, t) {
            let i = choose|i: int| 0 <= i < old(v)@.len() && (#[trigger] old(v)@[i])@ == t;
            assert(v@[i] == old(v)@[i]);
        }
        if t == sv {
            assert(v@[v@.len() - 1]@ == sv);
        }
        if has_text(v@, t) {
            let i = choose|i: int| 0 <= i < v@.len() && (#[trigger] v@[i])@ == t;
            if i < old(v)@.len() {
                assert(old(v)@[i] == v@[i]);
            }
        }
    }
}

fn insert_key(v: &mut Vec<MfaceKey>, k: MfaceKey)
    requires
        distinct_keys(old(v)@),
    ensures
        distinct_keys(final(v)@),
        forall|t: (Seq<char>, Seq<char>, Seq<char>)|
            has_key(final(v)@, t) <==> (has_key(old(v)@, t) || t == mface_view(k)),
{
    if find_key(v, &k) {
        return;
    }
    let ghost kv = mface_view(k);
    v.push(k);
    assert forall|t: (Seq<char>, Seq<char>, Seq<char>)|
        has_key(v@, t) <==> (has_key(old(v)@, t) || t == kv) by {
        if has_key(old(v)@, t) {
            let i = choose|i: int| 0 <= i < old(v)@.len() && mface_view(#[trigger] old(v)@[i]) == t;
            assert(v@[i] == old(v)@[i]);
        }
        if t == kv {
            assert(mface_view(v@[v@.len() - 1]) == kv);
        }
        if has_key(v@, t) {
            let i = choose|i: int| 0 <= i < v@.len() && mface_view(#[trigger] v@[i]) == t;
            if i < old(v)@.len() {
                assert(old(v)@[i] == v@[i]);
            }
        }
    }
}

/// The number of one bits of `x`.
pub open spec fn popcount(x: u64) -> nat
    decreases x,
{
    if x == 0 {
        0
    } else {
        (x % 2) as nat + popcount(x / 2)
    }
}

/// `2^n`.
pub open spec fn two_pow(n: nat) -> nat
    decreases n,
{
    if n == 0 {
        1
    } else {
        2 * two_pow((n - 1) as nat)
    }
}

proof fn lemma_two_pow_64()
    ensures
        two_pow(64) == 0x1_0000_0000_0000_0000,
{
    reveal_with_fuel(two_pow, 65);
}

proof fn lemma_popcount_le(x: u64, n: nat)
    requires
        x < two_pow(n),
    ensures
        popcount(x) <= n,
    decreases n,
{
    if x != 0 {
        assert(n >= 1);
        assert((x / 2) < two_pow((n - 1) as nat));
        lemma_popcount_le((x / 2) as u64, (n - 1) as nat);
    }
}

/// `u64::count_ones`.
pub fn count_ones(x: u64) -> (r: u32)
    ensures
        r == popcount(x),
{
    proof {
        lemma_two_pow_64();
        lemma_popcount_le(x, 64);
    }
    let mut y = x;
    let mut c: u32 = 0;
    while y != 0
        invariant
            c + popcount(y) == popcount(x),
            c <= 64 - popcount(y),
            popcount(y) <= 64,
        decreases y,
    {
        assert(y & 1 == y % 2) by (bit_vector);
        assert(y >> 1 == y / 2) by (bit_vector);
        proof {
            lemma_two_pow_64();
            lemma_popcount_le(y, 64);
        }
        c = c + (y & 1) as u32;
        y = y >> 1;
    }
    c
}

/// Whether some hash of `known` lies within `distance` bits of `h`.
pub open spec fn phash_near(known: Seq<u64>, h: u64, distance: nat) -> bool {
    exists|i: int| 0 <= i < known.len() && popcount(#[trigger] known[i] ^ h) <= distance
}

// ----------------------------------------------------------------------
// Building the registry from its file
// ----------------------------------------------------------------------
pub open spec fn opt_push<T>(a: Seq<T>, o: Option<T>) -> Seq<T> {
    match o {
        Some(x) => a.push(x),
        None => a,
    }
}

pub proof fn lemma_contains_opt_push<T>(a: Seq<T>, o: Option<T>)
    ensures
        forall|y: T| #[trigger]
            opt_push(a, o).contains(y) <==> (a.contains(y) || o == Some(y)),
{
    assert forall|y: T| #[trigger] opt_push(a, o).contains(y) <==> (a.contains(y) || o == Some(y)) by {
        match o {
            Some(x) => {
                let b = a.push(x);
                if b.contains(y) {
                    let i = choose|i: int| 0 <= i < b.len() && b[i] == y;
                    if i < a.len() {
                        assert(a[i] == y);
                    }
                }
                if a.contains(y) {
                    let i = choose|i: int| 0 <= i < a.len() && a[i] == y;
                    assert(b[i] == y);
                }
                if y == x {
                    assert(b[a.len() as int] == y);
                }
            },
            None => {},
        }
    }
}

pub open spec fn opt_nonempty(o: Option<String>) -> Option<Seq<char>> {
    match o {
        Some(s) => crate::json::nonempty_spec(s@),
        None => None,
    }
}

pub open spec fn opt_phash(o: Option<String>) -> Option<u64> {
    match o {
        Some(s) => parse_u64_hex_spec(s@),
        None => None,
    }
}

/// The key of a market-face entry; its blank parts empty, and none when
/// every part is blank.
pub open spec fn mface_entry_key(e: RegistryMfaceEntry) -> Option<(Seq<char>, Seq<char>, Seq<char>)> {
    let p = match opt_nonempty(e.emoji_package_id) {
        Some(x) => x,
        None => Seq::empty(),
    };
    let i = match opt_nonempty(e.emoji_id) {
        Some(x) => x,
        None => Seq::empty(),
    };
    let k = match opt_nonempty(e.key) {
        Some(x) => x,
        None => Seq::empty(),
    };
    if p.len() == 0 && i.len() == 0 && k.len() == 0 {
        None
    } else {
        Some((p, i, k))
    }
}

pub open spec fn face_id_list(fs: Seq<RegistryFaceEntry>) -> Seq<Seq<char>>
    decreases fs.len(),
{
    if fs.len() == 0 {
        Seq::empty()
    } else {
        opt_push(face_id_list(fs.drop_last()), crate::json::nonempty_spec(fs.last().id@))
    }
}

pub open spec fn face_sha_list(fs: Seq<RegistryFaceEntry>) -> Seq<Seq<char>>
    decreases fs.len(),
{
    if fs.len() == 0 {
        Seq::empty()
    } else {
        opt_push(
            face_sha_list(fs.drop_last()),
            normalize_hex_spec(crate::json::opt_text(fs.last().sha256)),
        )
    }
}

pub open spec fn face_phash_list(fs: Seq<RegistryFaceEntry>) -> Seq<u64>
    decreases fs.len(),
{
    if fs.len() == 0 {
        Seq::empty()
    } else {
        opt_push(face_phash_list(fs.drop_last()), opt_phash(fs.last().phash))
    }
}

pub open spec fn mface_list(ms: Seq<RegistryMfaceEntry>) -> Seq<(Seq<char>, Seq<char>, Seq<char>)>
    decreases ms.len(),
{
    if ms.len() == 0 {
        Seq::empty()
    } else {
        opt_push(mface_list(ms.drop_last()), mface_entry_key(ms.last()))
    }
}

pub open spec fn file_unique_list(us: Seq<String>) -> Seq<Seq<char>>
    decreases us.len(),
{
    if us.len() == 0 {
        Seq::empty()
    } else {
        opt_push(file_unique_list(us.drop_last()), crate::json::nonempty_spec(us.last()@))
    }
}

pub open spec fn image_file_unique_list(is: Seq<RegistryImageEntry>) -> Seq<Seq<char>>
    decreases is.len(),
{
    if is.len() == 0 {
        Seq::empty()
    } else {
        opt_push(image_file_unique_list(is.drop_last()), opt_nonempty(is.last().file_unique))
    }
}

pub open spec fn image_sha_list(is: Seq<RegistryImageEntry>) -> Seq<Seq<char>>
    decreases is.len(),
{
    if is.len() == 0 {
        Seq::empty()
    } else {
        opt_push(
            image_sha_list(is.drop_last()),
            normalize_hex_spec(crate::json::opt_text(is.last().sha256)),
        )
    }
}

pub open spec fn image_phash_list(is: Seq<RegistryImageEntry>) -> Seq<u64>
    decreases is.len(),
{
    if is.len() == 0 {
        Seq::empty()
    } else {
        opt_push(image_phash_list(is.drop_last()), opt_phash(is.last().phash))
    }
}

fn opt_str(o: &Option<String>) -> (r: Option<&str>)
    ensures
        match r {
            Some(s) => crate::json::opt_text(*o) == Some(s@),
            None => o is None,
        },
{
    match o {
        Some(s) => Some(s.as_str()),
        None => None,
    }
}

fn nonempty_opt(o: &Option<String>) -> (r: Option<String>)
    ensures
        crate::json::opt_text(r) == opt_nonempty(*o),
{
    match o {
        Some(s) => crate::json::nonempty(s.as_str()),
        None => None,
    }
}

fn phash_opt(o: &Option<String>) -> (r: Option<u64>)
    ensures
        r == opt_phash(*o),
{
    match o {
        Some(s) => parse_u64_hex(s.as_str()),
        None => None,
    }
}

fn add_face_entries(
    fs: &Vec<RegistryFaceEntry>,
    ids: &mut Vec<String>,
    shas: &mut Vec<String>,
    phashes: &mut Vec<u64>,
)
    requires
        distinct_texts(old(ids)@),
        distinct_texts(old(shas)@),
    ensures
        distinct_texts(final(ids)@),
        distinct_texts(final(shas)@),
        forall|t: Seq<char>|
            has_text(final(ids)@, t) <==> (has_text(old(ids)@, t) || face_id_list(
                fs@,
            ).contains(t)),
        forall|t: Seq<char>|
            has_text(final(shas)@, t) <==> (has_text(old(shas)@, t) || face_sha_list(
                fs@,
            ).contains(t)),
        final(phashes)@ == old(phashes)@ + face_phash_list(fs@),
{
    let mut k: usize = 0;
    assert(fs@.take(0) =~= Seq::<RegistryFaceEntry>::empty());
    assert(old(phashes)@ + Seq::<u64>::empty() =~= old(phashes)@);
    while k < fs.len()
        invariant
            0 <= k <= fs@.len(),
            distinct_texts(ids@),
            distinct_texts(shas@),
            forall|t: Seq<char>|
                has_text(ids@, t) <==> (has_text(old(ids)@, t) || face_id_list(
                    fs@.take(k as int),
                ).contains(t)),
            forall|t: Seq<char>|
                has_text(shas@, t) <==> (has_text(old(shas)@, t) || face_sha_list(
                    fs@.take(k as int),
                ).contains(t)),
            phashes@ == old(phashes)@ + face_phash_list(fs@.take(k as int)),
        decreases fs@.len() - k,
    {
        let e = &fs[k];
        let ghost pre = fs@.take(k as int);
        let ghost next = fs@.take(k + 1);
        assert(next.drop_last() =~= pre);
        assert(next.last() == *e);
        proof {
            lemma_contains_opt_push(face_id_list(pre), crate::json::nonempty_spec(e.id@));
            lemma_contains_opt_push(
                face_sha_list(pre),
                normalize_hex_spec(crate::json::opt_text(e.sha256)),
            );
        }
        match crate::json::nonempty(e.id.as_str()) {
            Some(id) => insert_text(ids, id),
            None => {},
        }
        match normalize_hex(opt_str(&e.sha256)) {
            Some(h) => insert_text(shas, h),
            None => {},
        }
        let ghost before = phashes@;
        match phash_opt(&e.phash) {
            Some(h) => {
                phashes.push(h);
                assert(phashes@ =~= old(phashes)@ + face_phash_list(next));
            },
            None => {
                assert(phashes@ =~= old(phashes)@ + face_phash_list(next));
            },
        }
        k = k + 1;
    }
    assert(fs@.take(k as int) =~= fs@);
}

fn add_mface_entries(ms: &Vec<RegistryMfaceEntry>, keys: &mut Vec<MfaceKey>)
    requires
        distinct_keys(old(keys)@),
    ensures
        distinct_keys(final(keys)@),
        forall|t: (Seq<char>, Seq<char>, Seq<char>)|
            has_key(final(keys)@, t) <==> (has_key(old(keys)@, t) || mface_list(ms@).contains(t)),
{
    let mut k: usize = 0;
    assert(ms@.take(0) =~= Seq::<RegistryMfaceEntry>::empty());
    while k < ms.len()
        invariant
            0 <= k <= ms@.len(),
            distinct_keys(keys@),
            forall|t: (Seq<char>, Seq<char>, Seq<char>)|
                has_key(keys@, t) <==> (has_key(old(keys)@, t) || mface_list(
                    ms@.take(k as int),
                ).contains(t)),
        decreases ms@.len() - k,
    {
        let e = &ms[k];
        let ghost pre = ms@.take(k as int);
        let ghost next = ms@.take(k + 1);
        assert(next.drop_last() =~= pre);
        assert(next.last() == *e);
        proof {
            lemma_contains_opt_push(mface_list(pre), mface_entry_key(*e));
        }
        let po = nonempty_opt(&e.emoji_package_id);
        let io = nonempty_opt(&e.emoji_id);
        let ko = nonempty_opt(&e.key);
        let any = po.is_some() || io.is_some() || ko.is_some();
        proof {
            crate::json::lemma_nonempty_spec_len(e.emoji_package_id);
            crate::json::lemma_nonempty_spec_len(e.emoji_id);
            crate::json::lemma_nonempty_spec_len(e.key);
        }
        let p = match po {
            Some(x) => x,
            None => String::new(),
        };
        let i = match io {
            Some(x) => x,
            None => String::new(),
        };
        let kk = match ko {
            Some(x) => x,
            None => String::new(),
        };
        if any {
            let key = MfaceKey { emoji_package_id: p, emoji_id: i, key: kk };
            assert(mface_entry_key(*e) == Some(mface_view(key)));
            insert_key(keys, key);
        } else {
            assert(mface_entry_key(*e) is None);
        }
        k = k + 1;
    }
    assert(ms@.take(k as int) =~= ms@);
}

fn add_file_uniques(us: &Vec<String>, out: &mut Vec<String>)
    requires
        distinct_texts(old(out)@),
    ensures
        distinct_texts(final(out)@),
        forall|t: Seq<char>|
            has_text(final(out)@, t) <==> (has_text(old(out)@, t) || file_unique_list(
                us@,
            ).contains(t)),
{
    let mut k: usize = 0;
    assert(us@.take(0) =~= Seq::<String>::empty());
    while k < us.len()
        invariant
            0 <= k <= us@.len(),
            distinct_texts(out@),
            forall|t: Seq<char>|
                has_text(out@, t) <==> (has_text(old(out)@, t) || file_unique_list(
                    us@.take(k as int),
                ).contains(t)),
        decreases us@.len() - k,
    {
        let ghost pre = us@.take(k as int);
        let ghost next = us@.take(k + 1);
        assert(next.drop_last() =~= pre);
        assert(next.last() == us@[k as int]);
        proof {
            lemma_contains_opt_push(file_unique_list(pre), crate::json::nonempty_spec(us@[k as int]@));
        }
        match crate::json::nonempty(us[k].as_str()) {
            Some(v) => insert_text(out, v),
            None => {},
        }
        k = k + 1;
    }
    assert(us@.take(k as int) =~= us@);
}

fn add_image_entries(
    is: &Vec<RegistryImageEntry>,
    uniques: &mut Vec<String>,
    shas: &mut Vec<String>,
    phashes: &mut Vec<u64>,
)
    requires
        distinct_texts(old(uniques)@),
        distinct_texts(old(shas)@),
    ensures
        distinct_texts(final(uniques)@),
        distinct_texts(final(shas)@),
        forall|t: Seq<char>|
            has_text(final(uniques)@, t) <==> (has_text(old(uniques)@, t)
                || image_file_unique_list(is@).contains(t)),
        forall|t: Seq<char>|
            has_text(final(shas)@, t) <==> (has_text(old(shas)@, t) || image_sha_list(
                is@,
            ).contains(t)),
        final(phashes)@ == old(phashes)@ + image_phash_list(is@),
{
    let mut k: usize = 0;
    assert(is@.take(0) =~= Seq::<RegistryImageEntry>::empty());
    assert(old(phashes)@ + Seq::<u64>::empty() =~= old(phashes)@);
    while k < is.len()
        invariant
            0 <= k <= is@.len(),
            distinct_texts(uniques@),
            distinct_texts(shas@),
            forall|t: Seq<char>|
                has_text(uniques@, t) <==> (has_text(old(uniques)@, t)
                    || image_file_unique_list(is@.take(k as int)).contains(t)),
            forall|t: Seq<char>|
                has_text(shas@, t) <==> (has_text(old(shas)@, t) || image_sha_list(
                    is@.take(k as int),
                ).contains(t)),
            phashes@ == old(phashes)@ + image_phash_list(is@.take(k as int)),
        decreases is@.len() - k,
    {
        let e = &is[k];
        let ghost pre = is@.take(k as int);
        let ghost next = is@.take(k + 1);
        assert(next.drop_last() =~= pre);
        assert(next.last() == *e);
        proof {
            lemma_contains_opt_push(image_file_unique_list(pre), opt_nonempty(e.file_unique));
            lemma_contains_opt_push(
                image_sha_list(pre),
                normalize_hex_spec(crate::json::opt_text(e.sha256)),
            );
        }
        match nonempty_opt(&e.file_unique) {
            Some(v) => insert_text(uniques, v),
            None => {},
        }
        match normalize_hex(opt_str(&e.sha256)) {
            Some(h) => insert_text(shas, h),
            None => {},
        }
        match phash_opt(&e.phash) {
            Some(h) => {
                phashes.push(h);
                assert(phashes@ =~= old(phashes)@ + image_phash_list(next));
            },
            None => {
                assert(phashes@ =~= old(phashes)@ + image_phash_list(next));
            },
        }
        k = k + 1;
    }
    assert(is@.take(k as int) =~= is@);
}

impl ThankYouRegistry {
    /// The registry that a parsed registry file describes: blank entries
    /// left out, hashes lower-cased, perceptual hashes read as hex.
    pub fn from_registry_file(raw: &RegistryFile) -> (r: Self)
        ensures
            r.wf(),
            forall|t: Seq<char>| r.knows_face_id(t) <==> face_id_list(raw.face_ids@).contains(t),
            forall|k: (Seq<char>, Seq<char>, Seq<char>)|
                r.knows_mface(k) <==> mface_list(raw.mfaces@).contains(k),
            forall|t: Seq<char>|
                r.knows_file_unique(t) <==> (file_unique_list(raw.file_uniques@).contains(t)
                    || image_file_unique_list(raw.images@).contains(t)),
            forall|t: Seq<char>|
                r.knows_sha256(t) <==> (face_sha_list(raw.face_ids@).contains(t)
                    || image_sha_list(raw.images@).contains(t)),
            r.known_phashes() == face_phash_list(raw.face_ids@) + image_phash_list(raw.images@),
    {
        let mut face_ids: Vec<String> = Vec::new();
        let mut mfaces: Vec<MfaceKey> = Vec::new();
        let mut file_uniques: Vec<String> = Vec::new();
        let mut content_sha256: Vec<String> = Vec::new();
        let mut phashes: Vec<u64> = Vec::new();
        add_face_entries(&raw.face_ids, &mut face_ids, &mut content_sha256, &mut phashes);
        add_mface_entries(&raw.mfaces, &mut mfaces);
        add_file_uniques(&raw.file_uniques, &mut file_uniques);
        add_image_entries(&raw.images, &mut file_uniques, &mut content_sha256, &mut phashes);
        assert(Seq::<u64>::empty() + face_phash_list(raw.face_ids@) =~= face_phash_list(
            raw.face_ids@,
        ));
        ThankYouRegistry { face_ids, mfaces, file_uniques, content_sha256, phashes }
    }
}

// ----------------------------------------------------------------------
// Configuration
// ----------------------------------------------------------------------
/// The filter's settings and the registry it checks against.
#[derive(Debug, Clone)]
pub struct ThankYouFilterRuntimeConfig {
    pub enabled: bool,
    pub window_sec: u64,
    pub max_text_chars: usize,
    pub phash_distance: u32,
    pub registry: std::sync::Arc<ThankYouRegistry>,
}

pub const DEFAULT_WINDOW_SEC: u64 = 1800;

pub const DEFAULT_MAX_TEXT_CHARS: usize = 16;

pub const DEFAULT_PHASH_DISTANCE: u32 = 6;

/// The error for a registry file that did not parse.
pub open spec fn registry_error(detail: Seq<char>) -> Seq<char> {
    "invalid thank_you_filter registry json: "@ + detail
}

impl ThankYouFilterRuntimeConfig {
    /// The filter with the given settings over the registry that `parsed`
    /// holds, or the parse error of the registry file.
    pub fn with_registry_json(
        enabled: bool,
        window_sec: u64,
        max_text_chars: usize,
        phash_distance: u32,
        parsed: Result<RegistryFile, String>,
    ) -> (r: Result<Self, String>)
        ensures
            match (parsed, r) {
                (Ok(file), Ok(c)) => c.enabled == enabled && c.window_sec == window_sec
                    && c.max_text_chars == max_text_chars && c.phash_distance == phash_distance
                    && c.registry.wf() && (forall|t: Seq<char>|
                    c.registry.knows_face_id(t) <==> face_id_list(file.face_ids@).contains(t))
                    && (forall|k: (Seq<char>, Seq<char>, Seq<char>)|
                    c.registry.knows_mface(k) <==> mface_list(file.mfaces@).contains(k)) && (forall|
                    t: Seq<char>,
                |
                    c.registry.knows_file_unique(t) <==> (file_unique_list(
                        file.file_uniques@,
                    ).contains(t) || image_file_unique_list(file.images@).contains(t))) && (forall|
                    t: Seq<char>,
                |
                    c.registry.knows_sha256(t) <==> (face_sha_list(file.face_ids@).contains(t)
                        || image_sha_list(file.images@).contains(t)))
                    && c.registry.known_phashes() == face_phash_list(file.face_ids@)
                    + image_phash_list(file.images@),
                (Err(e), Err(m)) => m@ == registry_error(e@),
                _ => false,
            },
    {
        match parsed {
            Ok(file) => {
                let registry = ThankYouRegistry::from_registry_file(&file);
                Ok(
                    ThankYouFilterRuntimeConfig {
                        enabled,
                        window_sec,
                        max_text_chars,
                        phash_distance,
                        registry: std::sync::Arc::new(registry),
                    },
                )
            },
            Err(e) => Err(
                crate::text::concat2("invalid thank_you_filter registry json: ", e.as_str()),
            ),
        }
    }

    /// The filter with the given settings over the built-in registry,
    /// `builtin` being that registry file once parsed.
    pub fn with_builtin_registry(
        enabled: bool,
        window_sec: u64,
        max_text_chars: usize,
        phash_distance: u32,
        builtin: Result<RegistryFile, String>,
    ) -> (r: Result<Self, String>)
        ensures
            match (builtin, r) {
                (Ok(file), Ok(c)) => c.enabled == enabled && c.window_sec == window_sec
                    && c.max_text_chars == max_text_chars && c.phash_distance == phash_distance
                    && c.registry.wf() && (forall|t: Seq<char>|
                    c.registry.knows_face_id(t) <==> face_id_list(file.face_ids@).contains(t))
                    && (forall|k: (Seq<char>, Seq<char>, Seq<char>)|
                    c.registry.knows_mface(k) <==> mface_list(file.mfaces@).contains(k)) && (forall|
                    t: Seq<char>,
                |
                    c.registry.knows_file_unique(t) <==> (file_unique_list(
                        file.file_uniques@,
                    ).contains(t) || image_file_unique_list(file.images@).contains(t))) && (forall|
                    t: Seq<char>,
                |
                    c.registry.knows_sha256(t) <==> (face_sha_list(file.face_ids@).contains(t)
                        || image_sha_list(file.images@).contains(t)))
                    && c.registry.known_phashes() == face_phash_list(file.face_ids@)
                    + image_phash_list(file.images@),
                (Err(e), Err(m)) => m@ == registry_error(e@),
                _ => false,
            },
    {
        Self::with_registry_json(enabled, window_sec, max_text_chars, phash_distance, builtin)
    }

    /// The filter switched on with its usual settings over the built-in
    /// registry: a 30-minute window, at most 16 characters, 6 bits.
    pub fn builtin_enabled(builtin: Result<RegistryFile, String>) -> (r: Result<Self, String>)
        ensures
            match (builtin, r) {
                (Ok(file), Ok(c)) => c.enabled && c.window_sec == DEFAULT_WINDOW_SEC
                    && c.max_text_chars == DEFAULT_MAX_TEXT_CHARS && c.phash_distance
                    == DEFAULT_PHASH_DISTANCE && c.registry.wf() && (forall|t: Seq<char>|
                    c.registry.knows_face_id(t) <==> face_id_list(file.face_ids@).contains(t))
                    && (forall|k: (Seq<char>, Seq<char>, Seq<char>)|
                    c.registry.knows_mface(k) <==> mface_list(file.mfaces@).contains(k)) && (forall|
                    t: Seq<char>,
                |
                    c.registry.knows_file_unique(t) <==> (file_unique_list(
                        file.file_uniques@,
                    ).contains(t) || image_file_unique_list(file.images@).contains(t))) && (forall|
                    t: Seq<char>,
                |
                    c.registry.knows_sha256(t) <==> (face_sha_list(file.face_ids@).contains(t)
                        || image_sha_list(file.images@).contains(t)))
                    && c.registry.known_phashes() == face_phash_list(file.face_ids@)
                    + image_phash_list(file.images@),
                (Err(e), Err(m)) => m@ == registry_error(e@),
                _ => false,
            },
    {
        Self::with_builtin_registry(
            true,
            DEFAULT_WINDOW_SEC,
            DEFAULT_MAX_TEXT_CHARS,
            DEFAULT_PHASH_DISTANCE,
            builtin,
        )
    }

    /// The filter switched off, over an empty registry.
    pub fn disabled() -> (r: Self)
        ensures
            !r.enabled,
            r.window_sec == DEFAULT_WINDOW_SEC,
            r.max_text_chars == DEFAULT_MAX_TEXT_CHARS,
            r.phash_distance == DEFAULT_PHASH_DISTANCE,
            r.registry.wf(),
            forall|t: Seq<char>| !r.registry.knows_face_id(t),
            forall|k: (Seq<char>, Seq<char>, Seq<char>)| !r.registry.knows_mface(k),
            forall|t: Seq<char>| !r.registry.knows_file_unique(t),
            forall|t: Seq<char>| !r.registry.knows_sha256(t),
            r.registry.known_phashes().len() == 0,
    {
        ThankYouFilterRuntimeConfig {
            enabled: false,
            window_sec: DEFAULT_WINDOW_SEC,
            max_text_chars: DEFAULT_MAX_TEXT_CHARS,
            phash_distance: DEFAULT_PHASH_DISTANCE,
            registry: std::sync::Arc::new(ThankYouRegistry::empty()),
        }
    }
}

// ----------------------------------------------------------------------
// Message segments
// ----------------------------------------------------------------------
/// The one segment of a message that is checked.
#[derive(Debug)]
pub enum SegmentCandidate {
    Text(String),
    Face { id: String },
    Mface { emoji_package_id: String, emoji_id: String, key: String, summary: Option<String> },
    Image { file_unique: Option<String>, source: Option<String>, summary: Option<String> },
}

pub enum CandidateView {
    Text(Seq<char>),
    Face { id: Seq<char> },
    Mface {
        emoji_package_id: Seq<char>,
        emoji_id: Seq<char>,
        key: Seq<char>,
        summary: Option<Seq<char>>,
    },
    Image { file_unique: Option<Seq<char>>, source: Option<Seq<char>>, summary: Option<Seq<char>> },
}

impl View for SegmentCandidate {
    type V = CandidateView;

    open spec fn view(&self) -> CandidateView {
        match self {
            SegmentCandidate::Text(t) => CandidateView::Text(t@),
            SegmentCandidate::Face { id } => CandidateView::Face { id: id@ },
            SegmentCandidate::Mface { emoji_package_id, emoji_id, key, summary } => CandidateView::Mface {
                emoji_package_id: emoji_package_id@,
                emoji_id: emoji_id@,
                key: key@,
                summary: crate::json::opt_text(*summary),
            },
            SegmentCandidate::Image { file_unique, source, summary } => CandidateView::Image {
                file_unique: crate::json::opt_text(*file_unique),
                source: crate::json::opt_text(*source),
                summary: crate::json::opt_text(*summary),
            },
        }
    }
}

pub open spec fn candidate_opt_view(c: Option<SegmentCandidate>) -> Option<CandidateView> {
    match c {
        Some(x) => Some(x@),
        None => None,
    }
}

pub open spec fn opt_json(v: Option<&JsonValue>) -> Option<JsonValue> {
    match v {
        Some(x) => Some(*x),
        None => None,
    }
}

/// The `type` of a segment, when it is a string.
pub open spec fn segment_type_spec(item: JsonValue) -> Option<Seq<char>> {
    match member(item, "type"@) {
        Some(t) => crate::json::as_text(t),
        None => None,
    }
}

/// A segment with a type other than a reply marker.
pub open spec fn is_meaningful(item: JsonValue) -> bool {
    match segment_type_spec(item) {
        Some(t) => t != "reply"@,
        None => false,
    }
}

pub open spec fn meaningful_items(items: Seq<JsonValue>) -> Seq<JsonValue>
    decreases items.len(),
{
    if items.len() == 0 {
        Seq::empty()
    } else {
        opt_push(
            meaningful_items(items.drop_last()),
            if is_meaningful(items.last()) {
                Some(items.last())
            } else {
                None
            },
        )
    }
}

pub open spec fn or_empty(o: Option<Seq<char>>) -> Seq<char> {
    match o {
        Some(s) => s,
        None => Seq::empty(),
    }
}

/// The first of `url`, `path` and `file` that is a string or a number,
/// when it is not blank and not a market-face marker.
pub open spec fn image_source_spec(data: Option<JsonValue>) -> Option<Seq<char>> {
    match data {
        None => None,
        Some(d) => {
            let pick = |key: Seq<char>|
                match member(d, key) {
                    Some(x) => crate::json::json_string_spec(x),
                    None => None,
                };
            let first = if pick("url"@) is Some {
                pick("url"@)
            } else if pick("path"@) is Some {
                pick("path"@)
            } else {
                pick("file"@)
            };
            match first {
                None => None,
                Some(s) => match crate::json::nonempty_spec(s) {
                    None => None,
                    Some(t) => if t == "marketface"@ {
                        None
                    } else {
                        Some(t)
                    },
                },
            }
        },
    }
}

/// What `candidate_from_segment` gives.
pub open spec fn candidate_spec(item: JsonValue) -> Option<CandidateView> {
    match segment_type_spec(item) {
        None => None,
        Some(typ) => {
            let data = member(item, "data"@);
            if typ == "text"@ {
                match data {
                    None => None,
                    Some(d) => match member(d, "text"@) {
                        None => None,
                        Some(x) => match crate::json::json_string_spec(x) {
                            Some(t) => Some(CandidateView::Text(t)),
                            None => None,
                        },
                    },
                }
            } else if typ == "face"@ {
                match member_text(data, "id"@) {
                    Some(id) => Some(CandidateView::Face { id }),
                    None => None,
                }
            } else if typ == "mface"@ {
                Some(
                    CandidateView::Mface {
                        emoji_package_id: or_empty(member_text(data, "emoji_package_id"@)),
                        emoji_id: or_empty(member_text(data, "emoji_id"@)),
                        key: or_empty(member_text(data, "key"@)),
                        summary: member_text(data, "summary"@),
                    },
                )
            } else if typ == "image"@ {
                Some(
                    CandidateView::Image {
                        file_unique: member_text(data, "file_unique"@),
                        source: image_source_spec(data),
                        summary: member_text(data, "summary"@),
                    },
                )
            } else {
                None
            }
        },
    }
}

/// What `segment_candidate` gives: a string message, the single meaningful
/// segment of an array message, or else the raw text when it is not blank.
pub open spec fn segment_candidate_spec(message: Option<JsonValue>, raw: Option<Seq<char>>) -> Option<
    CandidateView,
> {
    match message {
        Some(JsonValue::Str(text)) => Some(CandidateView::Text(text@)),
        Some(JsonValue::Array(items)) => {
            let m = meaningful_items(items@);
            if m.len() != 1 {
                None
            } else {
                candidate_spec(m[0])
            }
        },
        _ => match raw {
            Some(r) => if crate::text::trim(r).len() == 0 {
                None
            } else {
                Some(CandidateView::Text(r))
            },
            None => None,
        },
    }
}

fn segment_type(item: &JsonValue) -> (r: Option<&str>)
    ensures
        match r {
            Some(s) => segment_type_spec(*item) == Some(s@),
            None => segment_type_spec(*item) is None,
        },
{
    match item.get("type") {
        Some(t) => t.as_str(),
        None => None,
    }
}

fn is_meaningful_exec(item: &JsonValue) -> (r: bool)
    ensures
        r == is_meaningful(*item),
{
    match segment_type(item) {
        Some(t) => !crate::text::same_text(t, "reply"),
        None => false,
    }
}

fn pick_text(d: &JsonValue, key: &str) -> (r: Option<String>)
    ensures
        crate::json::opt_text(r) == match member(*d, key@) {
            Some(x) => crate::json::json_string_spec(x),
            None => None,
        },
{
    match d.get(key) {
        Some(x) => json_string(x),
        None => None,
    }
}

fn image_source_from_data(data: Option<&JsonValue>) -> (r: Option<String>)
    ensures
        crate::json::opt_text(r) == image_source_spec(opt_json(data)),
{
    match data {
        None => None,
        Some(d) => {
            let first = match pick_text(d, "url") {
                Some(u) => Some(u),
                None => match pick_text(d, "path") {
                    Some(p) => Some(p),
                    None => pick_text(d, "file"),
                },
            };
            match first {
                None => None,
                Some(s) => match crate::json::nonempty(s.as_str()) {
                    None => None,
                    Some(t) => {
                        if crate::text::same_text(t.as_str(), "marketface") {
                            None
                        } else {
                            Some(t)
                        }
                    },
                },
            }
        },
    }
}

fn text_or_empty(o: Option<String>) -> (r: String)
    ensures
        r@ == or_empty(crate::json::opt_text(o)),
{
    match o {
        Some(s) => s,
        None => String::new(),
    }
}

/// The candidate that one segment stands for.
pub fn candidate_from_segment(item: &JsonValue) -> (r: Option<SegmentCandidate>)
    ensures
        candidate_opt_view(r) == candidate_spec(*item),
{
    let typ = match segment_type(item) {
        None => {
            return None;
        },
        Some(t) => t,
    };
    let data = item.get("data");
    proof {
        let od = opt_json(data);
        assert(od == member(*item, "data"@));
    }
    if crate::text::same_text(typ, "text") {
        match data {
            None => None,
            Some(d) => match d.get("text") {
                None => None,
                Some(x) => match json_string(x) {
                    Some(t) => Some(SegmentCandidate::Text(t)),
                    None => None,
                },
            },
        }
    } else if crate::text::same_text(typ, "face") {
        match member_text_of(data, "id") {
            Some(id) => Some(SegmentCandidate::Face { id }),
            None => None,
        }
    } else if crate::text::same_text(typ, "mface") {
        Some(
            SegmentCandidate::Mface {
                emoji_package_id: text_or_empty(member_text_of(data, "emoji_package_id")),
                emoji_id: text_or_empty(member_text_of(data, "emoji_id")),
                key: text_or_empty(member_text_of(data, "key")),
                summary: member_text_of(data, "summary"),
            },
        )
    } else if crate::text::same_text(typ, "image") {
        Some(
            SegmentCandidate::Image {
                file_unique: member_text_of(data, "file_unique"),
                source: image_source_from_data(data),
                summary: member_text_of(data, "summary"),
            },
        )
    } else {
        None
    }
}

/// The candidate of a message: the message text, or its one meaningful
/// segment, or else the raw text when it is not blank.
pub fn segment_candidate(message: Option<&JsonValue>, raw_message: Option<&str>) -> (r: Option<
    SegmentCandidate,
>)
    ensures
        candidate_opt_view(r) == segment_candidate_spec(
            opt_json(message),
            match raw_message {
                Some(s) => Some(s@),
                None => None,
            },
        ),
{
    match message {
        Some(JsonValue::Str(text)) => {
            return Some(SegmentCandidate::Text(crate::text::owned(text.as_str())));
        },
        Some(JsonValue::Array(items)) => {
            let mut count: usize = 0;
            let mut first: usize = 0;
            let mut i: usize = 0;
            assert(items@.take(0) =~= Seq::<JsonValue>::empty());
            while i < items.len()
                invariant
                    0 <= i <= items@.len(),
                    count <= i,
                    first < items@.len() || count == 0,
                    meaningful_items(items@.take(i as int)).len() == count,
                    count >= 1 ==> meaningful_items(items@.take(i as int))[0] == items@[first as int],
                decreases items@.len() - i,
            {
                let ghost pre = items@.take(i as int);
                assert(items@.take(i + 1).drop_last() =~= pre);
                assert(items@.take(i + 1).last() == items@[i as int]);
                if is_meaningful_exec(&items[i]) {
                    if count == 0 {
                        first = i;
                    }
                    count = count + 1;
                }
                i = i + 1;
            }
            assert(items@.take(i as int) =~= items@);
            if count != 1 {
                return None;
            }
            candidate_from_segment(&items[first])
        },
        _ => match raw_message {
            Some(r) => {
                let rv = chars_of(r);
                let t = crate::text::trim_vec(&rv);
                if t.len() == 0 {
                    None
                } else {
                    Some(SegmentCandidate::Text(crate::text::owned(r)))
                }
            },
            None => None,
        },
    }
}

// ----------------------------------------------------------------------
// Deciding
// ----------------------------------------------------------------------
/// What is left to do for a message: nothing, with the outcome, or fetch
/// an image and look at its bytes.
#[derive(Debug)]
pub enum ThankYouStep {
    Done(Option<ThankYouMatch>),
    FetchImage { source: String },
}

pub enum StepView {
    Done(Option<Seq<char>>),
    FetchImage(Seq<char>),
}

pub open spec fn step_view(s: ThankYouStep) -> StepView {
    match s {
        ThankYouStep::Done(m) => StepView::Done(rule_view(m)),
        ThankYouStep::FetchImage { source } => StepView::FetchImage(source@),
    }
}

pub open spec fn summary_match(c: ThankYouFilterRuntimeConfig, kind: ThankYouFeedbackKind, summary: Option<Seq<char>>) -> Option<Seq<char>> {
    match summary {
        Some(s) => match_text_spec(c.max_text_chars as nat, kind, s),
        None => None,
    }
}

/// What is decided for a candidate before any image is fetched.
pub open spec fn decide_spec(
    c: ThankYouFilterRuntimeConfig,
    kind: ThankYouFeedbackKind,
    cand: CandidateView,
) -> StepView {
    match cand {
        CandidateView::Text(t) => StepView::Done(match_text_spec(c.max_text_chars as nat, kind, t)),
        CandidateView::Face { id } => StepView::Done(
            if c.registry.knows_face_id(id) {
                Some("face_id"@)
            } else {
                None
            },
        ),
        CandidateView::Mface { emoji_package_id, emoji_id, key, summary } => if c.registry.knows_mface(
            (emoji_package_id, emoji_id, key),
        ) {
            StepView::Done(Some("mface_tuple"@))
        } else {
            StepView::Done(summary_match(c, kind, summary))
        },
        CandidateView::Image { file_unique, source, summary } => {
            if (match file_unique {
                Some(f) => c.registry.knows_file_unique(f),
                None => false,
            }) {
                StepView::Done(Some("image_file_unique"@))
            } else if summary_match(c, kind, summary) is Some {
                StepView::Done(summary_match(c, kind, summary))
            } else {
                match source {
                    None => StepView::Done(None),
                    Some(s) => if !c.registry.has_image_hashes_spec() {
                        StepView::Done(None)
                    } else {
                        StepView::FetchImage(s)
                    },
                }
            }
        },
    }
}

/// What `evaluate_message` gives.
pub open spec fn evaluate_spec(
    c: ThankYouFilterRuntimeConfig,
    kind: ThankYouFeedbackKind,
    message: Option<JsonValue>,
    raw: Option<Seq<char>>,
) -> StepView {
    if !c.enabled {
        StepView::Done(None)
    } else {
        match segment_candidate_spec(message, raw) {
            None => StepView::Done(None),
            Some(cand) => decide_spec(c, kind, cand),
        }
    }
}

fn summary_match_exec(
    config: &ThankYouFilterRuntimeConfig,
    kind: ThankYouFeedbackKind,
    summary: &Option<String>,
) -> (r: Option<ThankYouMatch>)
    ensures
        rule_view(r) == summary_match(*config, kind, crate::json::opt_text(*summary)),
{
    match summary {
        Some(s) => match_text(config, kind, s.as_str()),
        None => None,
    }
}

/// Whether the text of a message is a bare thanks under `config`.
pub fn match_text(config: &ThankYouFilterRuntimeConfig, kind: ThankYouFeedbackKind, input: &str) -> (r:
    Option<ThankYouMatch>)
    ensures
        rule_view(r) == match_text_spec(config.max_text_chars as nat, kind, input@),
{
    match_text_with_limit(config.max_text_chars, kind, input)
}

/// Decides on a message as far as can be done without fetching an image.
pub fn evaluate_message(
    config: &ThankYouFilterRuntimeConfig,
    feedback_kind: ThankYouFeedbackKind,
    message: Option<&JsonValue>,
    raw_message: Option<&str>,
) -> (r: ThankYouStep)
    ensures
        step_view(r) == evaluate_spec(
            *config,
            feedback_kind,
            opt_json(message),
            match raw_message {
                Some(s) => Some(s@),
                None => None,
            },
        ),
{
    if !config.enabled {
        return ThankYouStep::Done(None);
    }
    let candidate = match segment_candidate(message, raw_message) {
        None => {
            return ThankYouStep::Done(None);
        },
        Some(c) => c,
    };
    match candidate {
        SegmentCandidate::Text(text) => ThankYouStep::Done(
            match_text(config, feedback_kind, text.as_str()),
        ),
        SegmentCandidate::Face { id } => {
            if config.registry.contains_face_id(id.as_str()) {
                ThankYouStep::Done(Some(ThankYouMatch { rule: "face_id" }))
            } else {
                ThankYouStep::Done(None)
            }
        },
        SegmentCandidate::Mface { emoji_package_id, emoji_id, key, summary } => {
            let tuple = MfaceKey { emoji_package_id, emoji_id, key };
            if config.registry.contains_mface(&tuple) {
                ThankYouStep::Done(Some(ThankYouMatch { rule: "mface_tuple" }))
            } else {
                ThankYouStep::Done(summary_match_exec(config, feedback_kind, &summary))
            }
        },
        SegmentCandidate::Image { file_unique, source, summary } => {
            let known = match &file_unique {
                Some(f) => config.registry.contains_file_unique(f.as_str()),
                None => false,
            };
            if known {
                return ThankYouStep::Done(Some(ThankYouMatch { rule: "image_file_unique" }));
            }
            let m = summary_match_exec(config, feedback_kind, &summary);
            if m.is_some() {
                return ThankYouStep::Done(m);
            }
            match source {
                None => ThankYouStep::Done(None),
                Some(s) => {
                    if !config.registry.has_image_hashes() {
                        ThankYouStep::Done(None)
                    } else {
                        ThankYouStep::FetchImage { source: s }
                    }
                },
            }
        },
    }
}

// ----------------------------------------------------------------------
// Images
// ----------------------------------------------------------------------
pub open spec fn sum_levels(p: Seq<u8>) -> nat
    decreases p.len(),
{
    if p.len() == 0 {
        0
    } else {
        sum_levels(p.drop_last()) + p.last() as nat
    }
}

/// The first `n` levels as bits, first level highest: a bit is set where the
/// level is at least `avg`.
pub open spec fn level_bits(p: Seq<u8>, avg: nat, n: nat) -> nat
    decreases n,
{
    if n == 0 {
        0
    } else {
        level_bits(p, avg, (n - 1) as nat) * 2 + if p[n - 1] as nat >= avg {
            1nat
        } else {
            0nat
        }
    }
}

/// The average hash of 64 grey levels: bit `63 - i` is set where level `i`
/// is at least the mean (rounded down).
pub open spec fn ahash_spec(p: Seq<u8>) -> nat {
    level_bits(p, sum_levels(p) / 64, 64)
}

proof fn lemma_level_bits_bound(p: Seq<u8>, avg: nat, n: nat)
    ensures
        level_bits(p, avg, n) < two_pow(n),
    decreases n,
{
    if n > 0 {
        lemma_level_bits_bound(p, avg, (n - 1) as nat);
    }
}

proof fn lemma_sum_levels_bound(p: Seq<u8>)
    ensures
        sum_levels(p) <= 255 * p.len(),
    decreases p.len(),
{
    if p.len() > 0 {
        lemma_sum_levels_bound(p.drop_last());
    }
}

/// The average hash of an 8x8 grey thumbnail.
pub fn average_hash_of_levels(pixels: &[u8]) -> (r: u64)
    requires
        pixels@.len() == 64,
    ensures
        r == ahash_spec(pixels@),
{
    let mut sum: u32 = 0;
    let mut i: usize = 0;
    while i < pixels.len()
        invariant
            0 <= i <= 64,
            pixels@.len() == 64,
            sum == sum_levels(pixels@.take(i as int)),
            sum <= 255 * i,
        decreases 64 - i,
    {
        assert(pixels@.take(i + 1).drop_last() =~= pixels@.take(i as int));
        sum = sum + pixels[i] as u32;
        i = i + 1;
    }
    assert(pixels@.take(64) =~= pixels@);
    let avg: u32 = sum / 64;
    let mut out: u64 = 0;
    let mut j: usize = 0;
    while j < 64
        invariant
            0 <= j <= 64,
            pixels@.len() == 64,
            avg == sum_levels(pixels@) / 64,
            out == level_bits(pixels@, avg as nat, j as nat),
        decreases 64 - j,
    {
        proof {
            lemma_level_bits_bound(pixels@, avg as nat, (j + 1) as nat);
            lemma_two_pow_64();
            lemma_two_pow_mono((j + 1) as nat, 64);
        }
        let bit: u64 = if pixels[j] as u32 >= avg {
            1
        } else {
            0
        };
        out = out * 2 + bit;
        j = j + 1;
    }
    out
}

proof fn lemma_two_pow_mono(a: nat, b: nat)
    requires
        a <= b,
    ensures
        two_pow(a) <= two_pow(b),
    decreases b,
{
    if a < b {
        lemma_two_pow_mono(a, (b - 1) as nat);
    }
}

/// The average hash of an encoded image, or why it could not be decoded.
pub fn average_hash64(bytes: &[u8]) -> (r: Result<u64, String>)
    ensures
        match r {
            Ok(h) => match crate::codec::gray_thumbnail(bytes@) {
                Some(p) => h == ahash_spec(p),
                None => false,
            },
            Err(e) => crate::codec::gray_thumbnail(bytes@) is None && crate::text::starts_with(
                e@,
                "image decode failed: "@,
            ),
        },
{
    match crate::codec::gray_thumbnail_8x8(bytes) {
        Ok(levels) => Ok(average_hash_of_levels(levels.as_slice())),
        Err(e) => {
            let detail = crate::codec::image_error_text(&e);
            let msg = crate::text::concat2("image decode failed: ", detail.as_str());
            proof {
                reveal_strlit("image decode failed: ");
                assert(msg@.subrange(0, 21) =~= "image decode failed: "@);
            }
            Err(msg)
        },
    }
}

/// What `evaluate_fetched_image` gives for the bytes of a fetched image.
pub open spec fn fetched_image_spec(c: ThankYouFilterRuntimeConfig, bytes: Seq<u8>) -> Option<
    Seq<char>,
> {
    if c.registry.knows_sha256(crate::codec::hex_lower_spec(crate::codec::sha256_digest(bytes))) {
        Some("image_sha256"@)
    } else {
        match crate::codec::gray_thumbnail(bytes) {
            None => None,
            Some(p) => if phash_near(
                c.registry.known_phashes(),
                ahash_spec(p) as u64,
                c.phash_distance as nat,
            ) {
                Some("image_phash"@)
            } else {
                None
            },
        }
    }
}

/// The outcome for a message whose image has been fetched: a known
/// SHA-256, or a perceptual hash close to a known one.
pub fn evaluate_fetched_image(config: &ThankYouFilterRuntimeConfig, bytes: &[u8]) -> (r: Option<
    ThankYouMatch,
>)
    ensures
        rule_view(r) == fetched_image_spec(*config, bytes@),
{
    let sha = crate::codec::sha256_hex(bytes);
    if config.registry.contains_sha256(sha.as_str()) {
        return Some(ThankYouMatch { rule: "image_sha256" });
    }
    let phash = match average_hash64(bytes) {
        Ok(h) => h,
        Err(_) => {
            return None;
        },
    };
    if config.registry.near_phash(phash, config.phash_distance) {
        Some(ThankYouMatch { rule: "image_phash" })
    } else {
        None
    }
}

/// Where the bytes of an image come from.
#[derive(Debug)]
pub enum ImageFetch {
    /// The bytes were inline in the source, or the reason they could not be read.
    Inline(Result<Vec<u8>, String>),
    /// An `http` or `https` address to download.
    Remote(String),
    /// A path on disk.
    File(String),
}

/// The source of an image, read by its prefix.
pub enum SourceKind {
    Base64(Seq<char>),
    DataUri(Option<Seq<char>>),
    Remote(Seq<char>),
    File(Seq<char>),
}

pub open spec fn source_kind(s: Seq<char>) -> SourceKind {
    if crate::text::starts_with(s, "base64://"@) {
        SourceKind::Base64(s.subrange(9, s.len() as int))
    } else if crate::text::starts_with(s, "data:"@) {
        let rest = s.subrange(5, s.len() as int);
        match crate::text::find_char(rest, ',', 0) {
            None => SourceKind::DataUri(None),
            Some(k) => SourceKind::DataUri(Some(rest.subrange(k + 1, rest.len() as int))),
        }
    } else if crate::text::starts_with(s, "http://"@) || crate::text::starts_with(s, "https://"@) {
        SourceKind::Remote(s)
    } else if crate::text::starts_with(s, "file://"@) {
        SourceKind::File(s.subrange(7, s.len() as int))
    } else {
        SourceKind::File(s)
    }
}

fn decode_payload(payload: &Vec<char>, prefix: &str) -> (r: Result<Vec<u8>, String>)
    ensures
        match r {
            Ok(v) => crate::codec::base64_decoded(payload@) == Some(v@),
            Err(e) => crate::codec::base64_decoded(payload@) is None && crate::text::starts_with(
                e@,
                prefix@,
            ),
        },
{
    let text = string_of(payload.as_slice());
    match crate::codec::base64_decode(text.as_str()) {
        Ok(v) => Ok(v),
        Err(e) => {
            let detail = crate::codec::decode_error_text(&e);
            let msg = crate::text::concat2(prefix, detail.as_str());
            assert(msg@.subrange(0, prefix@.len() as int) =~= prefix@);
            Err(msg)
        },
    }
}

/// Where to get the bytes of an image from, decoding inline base64 at once.
pub fn image_fetch_plan(source: &str) -> (r: ImageFetch)
    ensures
        match (source_kind(source@), r) {
            (SourceKind::Base64(p), ImageFetch::Inline(res)) => match res {
                Ok(v) => crate::codec::base64_decoded(p) == Some(v@),
                Err(e) => crate::codec::base64_decoded(p) is None && crate::text::starts_with(
                    e@,
                    "invalid base64 image: "@,
                ),
            },
            (SourceKind::DataUri(None), ImageFetch::Inline(res)) => match res {
                Ok(_) => false,
                Err(e) => e@ == "invalid data uri image"@,
            },
            (SourceKind::DataUri(Some(p)), ImageFetch::Inline(res)) => match res {
                Ok(v) => crate::codec::base64_decoded(p) == Some(v@),
                Err(e) => crate::codec::base64_decoded(p) is None && crate::text::starts_with(
                    e@,
                    "invalid data uri image: "@,
                ),
            },
            (SourceKind::Remote(u), ImageFetch::Remote(x)) => x@ == u,
            (SourceKind::File(f), ImageFetch::File(x)) => x@ == f,
            _ => false,
        },
{
    let s = chars_of(source);
    if crate::text::starts_with_str(&s, "base64://") {
        proof {
            reveal_strlit("base64://");
        }
        let payload = crate::text::subvec(&s, 9, s.len());
        return ImageFetch::Inline(decode_payload(&payload, "invalid base64 image: "));
    }
    if crate::text::starts_with_str(&s, "data:") {
        proof {
            reveal_strlit("data:");
        }
        let rest = crate::text::subvec(&s, 5, s.len());
        match crate::text::find_char_from(&rest, ',', 0) {
            None => {
                return ImageFetch::Inline(Err(crate::text::owned("invalid data uri image")));
            },
            Some(k) => {
                proof {
                    crate::text::lemma_find_char(rest@, ',', 0);
                }
                let payload = crate::text::subvec(&rest, k + 1, rest.len());
                return ImageFetch::Inline(decode_payload(&payload, "invalid data uri image: "));
            },
        }
    }
    if crate::text::starts_with_str(&s, "http://") || crate::text::starts_with_str(&s, "https://") {
        return ImageFetch::Remote(crate::text::owned(source));
    }
    if crate::text::starts_with_str(&s, "file://") {
        proof {
            reveal_strlit("file://");
        }
        let path = crate::text::subvec(&s, 7, s.len());
        return ImageFetch::File(string_of(path.as_slice()));
    }
    ImageFetch::File(crate::text::owned(source))
}

// ----------------------------------------------------------------------
// Laws
// ----------------------------------------------------------------------
/// A text that shows the sender has more to say is never taken for thanks;
/// a match is never empty nor longer than the limit once normalized; a
/// manual reply is never matched as a bare confirmation; what matches after
/// a manual reply matches after any reply; and raising the limit keeps
/// every match as it was.
pub proof fn lemma_text_match_laws(
    max_chars: nat,
    more_chars: nat,
    kind: ThankYouFeedbackKind,
    input: Seq<char>,
)
    ensures
        has_continuation(input) ==> match_text_spec(max_chars, kind, input) is None,
        match_text_spec(max_chars, kind, input) is Some ==> 0 < normalize_spec(input).len()
            <= max_chars,
        match_text_spec(max_chars, ThankYouFeedbackKind::ManualReply, input) != Some(
            "text_confirm"@,
        ),
        match_text_spec(max_chars, ThankYouFeedbackKind::ManualReply, input) is Some
            ==> match_text_spec(max_chars, kind, input) is Some,
        (max_chars <= more_chars && match_text_spec(max_chars, kind, input) is Some)
            ==> match_text_spec(more_chars, kind, input) == match_text_spec(max_chars, kind, input),
{
    reveal_strlit("text_confirm");
    reveal_strlit("text_exact");
    reveal_strlit("text_emoji");
    assert("text_exact"@.len() != "text_confirm"@.len());
    assert("text_emoji"@.len() != "text_confirm"@.len());
}

/// A disabled filter lets every message through.
pub proof fn lemma_disabled_matches_nothing(
    c: ThankYouFilterRuntimeConfig,
    kind: ThankYouFeedbackKind,
    message: Option<JsonValue>,
    raw: Option<Seq<char>>,
)
    requires
        !c.enabled,
    ensures
        evaluate_spec(c, kind, message, raw) == StepView::Done(None),
{
}

/// A known perceptual hash is near itself, and a hash near a known one
/// stays near when the allowed distance grows.
pub proof fn lemma_phash_near_laws(known: Seq<u64>, h: u64, d1: nat, d2: nat)
    ensures
        known.contains(h) ==> phash_near(known, h, d1),
        (d1 <= d2 && phash_near(known, h, d1)) ==> phash_near(known, h, d2),
{
    if known.contains(h) {
        let i = choose|i: int| 0 <= i < known.len() && known[i] == h;
        assert(h ^ h == 0) by (bit_vector);
        assert(popcount(known[i] ^ h) == 0);
    }
}


/// The bare thanks that the filter knows: thanks in Chinese (simplified and
/// traditional), the usual variants and slang, and English thanks.
pub open spec fn known_thanks() -> Seq<Seq<char>> {
    seq![
        "谢谢"@,
        "谢谢你"@,
        "谢谢您"@,
        "谢谢啦"@,
        "谢谢了"@,
        "谢谢哈"@,
        "谢啦"@,
        "谢了"@,
        "多谢"@,
        "感谢"@,
        "感谢你"@,
        "感谢您"@,
        "感謝"@,
        "拜谢"@,
        "蟹蟹"@,
        "栓q"@,
        "thx"@,
        "thanks"@,
        "thankyou"@,
        "3q"@,
        "辛苦了"@,
        "麻烦了"@,
        "好的谢谢"@,
        "好谢谢"@,
        "收到谢谢"@,
        "ok谢谢"@,
        "嗯嗯谢谢"@,
    ]
}

/// A bare thanks is recognised whatever reply it follows: a text that
/// normalises to one of the known thanks, with no sign that the sender goes
/// on (raw or normalised), no digit that blocks a match, and within the
/// length limit, matches as `text_exact`.
pub proof fn lemma_known_thanks_match(max_chars: nat, kind: ThankYouFeedbackKind, input: Seq<char>)
    requires
        known_thanks().contains(normalize_spec(input)),
        !has_continuation(input),
        !has_continuation(normalize_spec(input)),
        !has_blocking_digit_spec(normalize_spec(input)),
        0 < normalize_spec(input).len() <= max_chars,
    ensures
        match_text_spec(max_chars, kind, input) == Some("text_exact"@),
{
    let n = normalize_spec(input);
    let words = gratitude_words();
    assert(words.map_values(|w: &str| w@) =~= known_thanks());
    let k = choose|k: int| 0 <= k < known_thanks().len() && known_thanks()[k] == n;
    assert(words.map_values(|w: &str| w@)[k] == words[k]@);
    assert(listed(words, n));
}

} // verus!
