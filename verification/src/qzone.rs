//! Publishing to QQ Zone: how failures are classified and reported, which
//! accounts send, the text of a batch, which posts go into a batch, and the
//! small parsers of the upload replies.
use vstd::prelude::*;

use crate::json::{JsonNumber, JsonValue};
use crate::text::{
    chars_of, concat2, concat3, contains_str, dec, dec_int, i64_to_string, owned, push_seq,
    string_of, subvec, trim, trim_vec, u64_to_string,
};

verus! {

pub const ERROR_BODY_PREVIEW_CHARS: usize = 512;

/// How a failure is treated: when to retry, and whether to tell an operator.
#[derive(Debug, Clone, Copy, PartialEq, Eq, Structural)]
pub enum QzoneErrorKind {
    Network,
    RiskControl,
    Account,
    Unknown,
}

/// A failure to publish, with its kind and a message for the log.
#[derive(Debug, Clone)]
pub struct QzoneError {
    pub kind: QzoneErrorKind,
    pub message: String,
}

impl QzoneError {
    pub fn new(kind: QzoneErrorKind, message: &str) -> (r: Self)
        ensures
            r.kind == kind,
            r.message@ == message@,
    {
        QzoneError { kind, message: owned(message) }
    }

    pub fn network(message: &str) -> (r: Self)
        ensures
            r.kind == QzoneErrorKind::Network,
            r.message@ == message@,
    {
        Self::new(QzoneErrorKind::Network, message)
    }

    pub fn risk(message: &str) -> (r: Self)
        ensures
            r.kind == QzoneErrorKind::RiskControl,
            r.message@ == message@,
    {
        Self::new(QzoneErrorKind::RiskControl, message)
    }

    pub fn account(message: &str) -> (r: Self)
        ensures
            r.kind == QzoneErrorKind::Account,
            r.message@ == message@,
    {
        Self::new(QzoneErrorKind::Account, message)
    }

    pub fn unknown(message: &str) -> (r: Self)
        ensures
            r.kind == QzoneErrorKind::Unknown,
            r.message@ == message@,
    {
        Self::new(QzoneErrorKind::Unknown, message)
    }

    /// The same failure, its message led by what was being done.
    pub fn with_context(self, ctx: &str) -> (r: Self)
        ensures
            r.kind == self.kind,
            r.message@ == ctx@ + ": "@ + self.message@,
    {
        QzoneError { kind: self.kind, message: concat3(ctx, ": ", self.message.as_str()) }
    }
}

/// The kind of failure that an HTTP status stands for.
pub open spec fn status_kind(status: u16) -> QzoneErrorKind {
    if status == 401 || status == 403 {
        QzoneErrorKind::Account
    } else if status == 429 {
        QzoneErrorKind::RiskControl
    } else if 500 <= status && status <= 599 {
        QzoneErrorKind::Network
    } else {
        QzoneErrorKind::Unknown
    }
}

/// The failure for a reply with an unexpected HTTP status.
pub fn classify_http_status(context: &str, status: u16) -> (r: QzoneError)
    ensures
        r.kind == status_kind(status),
        r.message@ == context@ + ": http "@ + dec(status as nat),
{
    let kind = if status == 401 || status == 403 {
        QzoneErrorKind::Account
    } else if status == 429 {
        QzoneErrorKind::RiskControl
    } else if 500 <= status && status <= 599 {
        QzoneErrorKind::Network
    } else {
        QzoneErrorKind::Unknown
    };
    let code = u64_to_string(status as u64);
    QzoneError { kind, message: concat3(context, ": http ", code.as_str()) }
}

/// What `summarize_response_body` gives: the trimmed body, cut to 512
/// characters with a note of its length when it is longer.
pub open spec fn body_summary(body: Seq<char>) -> Seq<char> {
    let t = trim(body);
    if t.len() == 0 {
        "<empty>"@
    } else if t.len() > ERROR_BODY_PREVIEW_CHARS {
        t.take(ERROR_BODY_PREVIEW_CHARS as int) + "...(truncated, "@ + dec(t.len()) + " chars total)"@
    } else {
        t
    }
}

/// A reply body as it goes into an error message.
pub fn summarize_response_body(body: &str) -> (r: String)
    ensures
        r@ == body_summary(body@),
{
    let v = chars_of(body);
    let t = trim_vec(&v);
    if t.len() == 0 {
        return owned("<empty>");
    }
    if t.len() > ERROR_BODY_PREVIEW_CHARS {
        let head = subvec(&t, 0, ERROR_BODY_PREVIEW_CHARS);
        let mut out = string_of(head.as_slice());
        push_seq(&mut out, "...(truncated, ");
        let n = u64_to_string(t.len() as u64);
        push_seq(&mut out, n.as_str());
        push_seq(&mut out, " chars total)");
        assert(head@ =~= t@.take(ERROR_BODY_PREVIEW_CHARS as int));
        return out;
    }
    string_of(t.as_slice())
}

/// The failure with the reply body added to its message.
pub fn with_response_body(err: QzoneError, body: &str) -> (r: QzoneError)
    ensures
        r.kind == err.kind,
        r.message@ == err.message@ + "; body="@ + body_summary(body@),
{
    let summary = summarize_response_body(body);
    QzoneError { kind: err.kind, message: concat3(err.message.as_str(), "; body=", summary.as_str()) }
}

/// The failure for an HTTP status, with the reply body in its message.
pub fn classify_http_status_with_body(context: &str, status: u16, body: &str) -> (r: QzoneError)
    ensures
        r.kind == status_kind(status),
        r.message@ == context@ + ": http "@ + dec(status as nat) + "; body="@ + body_summary(
            body@,
        ),
{
    with_response_body(classify_http_status(context, status), body)
}

/// The failure with a response code (already written out) and the reply
/// body added to its message.
pub fn with_response_code_and_body(err: QzoneError, code_label: &str, code: &str, body: &str) -> (r:
    QzoneError)
    ensures
        r.kind == err.kind,
        r.message@ == err.message@ + "; "@ + code_label@ + "="@ + code@ + "; body="@
            + body_summary(body@),
{
    let summary = summarize_response_body(body);
    let mut message = concat3(err.message.as_str(), "; ", code_label);
    push_seq(&mut message, "=");
    push_seq(&mut message, code);
    push_seq(&mut message, "; body=");
    push_seq(&mut message, summary.as_str());
    QzoneError { kind: err.kind, message }
}

pub open spec fn ascii_lower(s: Seq<char>) -> Seq<char> {
    s.map_values(|c: char| crate::text::lower_char(c))
}

pub fn ascii_lower_vec(s: &Vec<char>) -> (r: Vec<char>)
    ensures
        r@ == ascii_lower(s@),
{
    let mut out: Vec<char> = Vec::new();
    let mut i: usize = 0;
    while i < s.len()
        invariant
            0 <= i <= s@.len(),
            out@ =~= ascii_lower(s@).take(i as int),
        decreases s@.len() - i,
    {
        out.push(crate::text::to_lower_char(s[i]));
        i = i + 1;
    }
    assert(ascii_lower(s@).take(i as int) =~= ascii_lower(s@));
    out
}

/// The kind that the words of an error message point to.
pub open spec fn text_error_kind(message: Seq<char>) -> QzoneErrorKind {
    let l = ascii_lower(message);
    let has = |w: Seq<char>| crate::text::contains_seq(l, w);
    if has("cookie"@) || has("p_skey"@) || has("skey"@) || has("login"@) || has("auth"@)
        || crate::text::contains_seq(message, "登录"@) {
        QzoneErrorKind::Account
    } else if has("risk"@) || has("limit"@) || has("频繁"@) || has("风控"@) || has("安全"@) {
        QzoneErrorKind::RiskControl
    } else if has("timeout"@) || has("connect"@) || has("network"@) {
        QzoneErrorKind::Network
    } else {
        QzoneErrorKind::Unknown
    }
}

/// The failure that an error message from the service stands for.
pub fn classify_text_error(message: &str) -> (r: QzoneError)
    ensures
        r.kind == text_error_kind(message@),
        r.message@ == message@,
{
    let m = chars_of(message);
    let l = ascii_lower_vec(&m);
    if contains_str(&l, "cookie") || contains_str(&l, "p_skey") || contains_str(&l, "skey")
        || contains_str(&l, "login") || contains_str(&l, "auth") || contains_str(&m, "登录") {
        return QzoneError::account(message);
    }
    if contains_str(&l, "risk") || contains_str(&l, "limit") || contains_str(&l, "频繁")
        || contains_str(&l, "风控") || contains_str(&l, "安全") {
        return QzoneError::risk(message);
    }
    if contains_str(&l, "timeout") || contains_str(&l, "connect") || contains_str(&l, "network") {
        return QzoneError::network(message);
    }
    QzoneError::unknown(message)
}

/// The failure for a reply whose code is not zero; `json_text` is the reply
/// written out as compact JSON.
pub fn classify_json_response_error(code: i64, message: &str, json_text: &str) -> (r: QzoneError)
    ensures
        r.kind == text_error_kind(message@),
        r.message@ == message@ + "; "@ + "code"@ + "="@ + dec_int(code as int) + "; body="@
            + body_summary(json_text@),
{
    let c = i64_to_string(code);
    with_response_code_and_body(classify_text_error(message), "code", c.as_str(), json_text)
}

/// The message of a reply, or the given default.
pub open spec fn message_or(json: JsonValue, default: Seq<char>) -> Seq<char> {
    match crate::json::member(json, "message"@) {
        Some(m) => match crate::json::as_text(m) {
            Some(t) => t,
            None => default,
        },
        None => default,
    }
}

fn message_or_exec(json: &JsonValue, default: &str) -> (r: String)
    ensures
        r@ == message_or(*json, default@),
{
    match json.get("message") {
        Some(m) => match m.as_str() {
            Some(t) => owned(t),
            None => owned(default),
        },
        None => owned(default),
    }
}

/// The code of a reply, as `ret.as_i64()`.
pub open spec fn ret_code(json: JsonValue) -> Option<i64> {
    match crate::json::member(json, "ret"@) {
        Some(r) => crate::json::as_i64_spec(r),
        None => None,
    }
}

/// The failure that a reply reports with a nonzero `ret`, if any.
/// `json_text` is the reply written out as compact JSON.
pub fn classify_response_error(json: &JsonValue, json_text: &str) -> (r: Option<QzoneError>)
    ensures
        match ret_code(*json) {
            Some(code) => if code != 0 {
                match r {
                    Some(e) => e.kind == text_error_kind(message_or(*json, "qzone error"@))
                        && e.message@ == message_or(*json, "qzone error"@) + "; "@ + "code"@ + "="@
                        + dec_int(code as int) + "; body="@ + body_summary(json_text@),
                    None => false,
                }
            } else {
                r is None
            },
            None => r is None,
        },
{
    let ret = match json.get("ret") {
        Some(v) => v.as_i64(),
        None => None,
    };
    match ret {
        Some(code) => {
            if code != 0 {
                let message = message_or_exec(json, "qzone error");
                Some(classify_json_response_error(code, message.as_str(), json_text))
            } else {
                None
            }
        },
        None => None,
    }
}

/// `2^shift` for small shifts.
pub open spec fn pow2_small(n: nat) -> nat
    decreases n,
{
    if n == 0 {
        1
    } else {
        2 * pow2_small((n - 1) as nat)
    }
}

/// The first delay and the longest delay of each kind, in milliseconds.
pub open spec fn retry_bounds(kind: QzoneErrorKind) -> (int, int) {
    match kind {
        QzoneErrorKind::Network => (5_000, 60_000),
        QzoneErrorKind::RiskControl => (60_000, 1_800_000),
        QzoneErrorKind::Account => (600_000, 3_600_000),
        QzoneErrorKind::Unknown => (60_000, 600_000),
    }
}

/// The delay before retry number `attempt`: it doubles from the first
/// delay on each attempt, up to ten doublings, and never passes the longest.
pub open spec fn retry_delay_spec(kind: QzoneErrorKind, attempt: u32) -> int {
    let (base, max) = retry_bounds(kind);
    let shift = if attempt == 0 {
        0nat
    } else if attempt - 1 > 10 {
        10nat
    } else {
        (attempt - 1) as nat
    };
    let delay = base * pow2_small(shift);
    if delay < max {
        delay
    } else {
        max
    }
}

/// How long to wait before retrying after a failure of `kind`.
pub fn retry_delay_ms(kind: QzoneErrorKind, attempt: u32) -> (r: i64)
    ensures
        r == retry_delay_spec(kind, attempt),
{
    let (base, max): (i64, i64) = match kind {
        QzoneErrorKind::Network => (5_000, 60_000),
        QzoneErrorKind::RiskControl => (60_000, 1_800_000),
        QzoneErrorKind::Account => (600_000, 3_600_000),
        QzoneErrorKind::Unknown => (60_000, 600_000),
    };
    let s: u32 = if attempt == 0 {
        0
    } else {
        attempt - 1
    };
    let shift: u32 = if s > 10 {
        10
    } else {
        s
    };
    let mut factor: i64 = 1;
    let mut k: u32 = 0;
    while k < shift
        invariant
            0 <= k <= shift <= 10,
            factor == pow2_small(k as nat),
            1 <= factor <= 1024,
        decreases shift - k,
    {
        proof {
            lemma_pow2_small_mono((k + 1) as nat, 10);
            reveal_with_fuel(pow2_small, 11);
        }
        factor = factor * 2;
        k = k + 1;
    }
    assert(base * factor <= 600_000 * 1024) by (nonlinear_arith)
        requires
            0 < base <= 600_000,
            0 < factor <= 1024,
    ;
    let delay = base * factor;
    if delay < max {
        delay
    } else {
        max
    }
}

pub proof fn lemma_pow2_small_mono(a: nat, b: nat)
    requires
        a <= b,
    ensures
        pow2_small(a) <= pow2_small(b),
    decreases b,
{
    if a < b {
        lemma_pow2_small_mono(a, (b - 1) as nat);
    }
}

// ----------------------------------------------------------------------
// Cookies
// ----------------------------------------------------------------------
pub open spec fn pairs_view(v: Seq<(String, String)>) -> Seq<(Seq<char>, Seq<char>)> {
    v.map_values(|p: (String, String)| (p.0@, p.1@))
}

/// The pieces of `s` between the separator `sep`, as `str::split` gives them.
pub open spec fn split_on(s: Seq<char>, sep: char) -> Seq<Seq<char>> {
    crate::text::split_char(s, sep)
}

/// `(key, value)` of one cookie: both trimmed, split at the first `=`.
pub open spec fn cookie_pair(part: Seq<char>) -> (Seq<char>, Seq<char>) {
    let t = trim(part);
    match crate::text::find_char(t, '=', 0) {
        Some(k) => (trim(t.subrange(0, k)), trim(t.subrange(k + 1, t.len() as int))),
        None => (trim(t), Seq::empty()),
    }
}

/// `m` with `key` set to `value`: replaced in place when present, else added.
pub open spec fn assoc_insert(m: Seq<(Seq<char>, Seq<char>)>, key: Seq<char>, value: Seq<char>) -> Seq<
    (Seq<char>, Seq<char>),
> {
    match assoc_index(m, key, m.len() as int) {
        Some(i) => m.update(i, (key, value)),
        None => m.push((key, value)),
    }
}

/// Index of the entry for `key` among `m[..n]`, if any.
pub open spec fn assoc_index(m: Seq<(Seq<char>, Seq<char>)>, key: Seq<char>, n: int) -> Option<int>
    decreases n,
{
    if n <= 0 || n > m.len() {
        None
    } else if m[n - 1].0 == key {
        Some(n - 1)
    } else {
        assoc_index(m, key, n - 1)
    }
}

/// The cookies of the first `n` pieces of a cookie header.
pub open spec fn cookies_of(parts: Seq<Seq<char>>, n: int) -> Seq<(Seq<char>, Seq<char>)>
    decreases n,
{
    if n <= 0 || n > parts.len() {
        Seq::empty()
    } else {
        let prev = cookies_of(parts, n - 1);
        let t = trim(parts[n - 1]);
        let (k, v) = cookie_pair(parts[n - 1]);
        if t.len() == 0 || k.len() == 0 {
            prev
        } else {
            assoc_insert(prev, k, v)
        }
    }
}

/// What `parse_cookie_string` gives: each `key=value` once, later ones winning.
pub open spec fn parse_cookie_spec(header: Seq<char>) -> Seq<(Seq<char>, Seq<char>)> {
    let parts = split_on(header, ';');
    cookies_of(parts, parts.len() as int)
}

fn find_cookie(m: &Vec<(String, String)>, key: &Vec<char>) -> (r: Option<usize>)
    ensures
        match r {
            Some(i) => i < m@.len() && assoc_index(pairs_view(m@), key@, m@.len() as int) == Some(
                i as int,
            ),
            None => assoc_index(pairs_view(m@), key@, m@.len() as int) is None,
        },
{
    let ghost pv = pairs_view(m@);
    let mut n = m.len();
    while n > 0
        invariant
            n <= m@.len(),
            pv == pairs_view(m@),
            assoc_index(pv, key@, n as int) == assoc_index(pv, key@, m@.len() as int),
        decreases n,
    {
        if crate::text::eq_str(key, m[n - 1].0.as_str()) {
            assert(pv[n - 1].0 == key@);
            return Some(n - 1);
        }
        n = n - 1;
    }
    None
}

/// The cookies of a `Cookie:` header, in order of first appearance; a key
/// that occurs again takes its later value.
pub fn parse_cookie_string(cookie_header: &str) -> (r: Vec<(String, String)>)
    ensures
        pairs_view(r@) == parse_cookie_spec(cookie_header@),
{
    let h = chars_of(cookie_header);
    let parts = crate::text::split_char_vec(&h, ';');
    let ghost ps = crate::text::vecs_view(parts@);
    let mut out: Vec<(String, String)> = Vec::new();
    let mut i: usize = 0;
    assert(pairs_view(out@) =~= Seq::<(Seq<char>, Seq<char>)>::empty());
    while i < parts.len()
        invariant
            0 <= i <= parts@.len(),
            ps == crate::text::vecs_view(parts@),
            ps == split_on(cookie_header@, ';'),
            pairs_view(out@) == cookies_of(ps, i as int),
        decreases parts@.len() - i,
    {
        let part = &parts[i];
        assert(ps[i as int] == part@);
        let t = trim_vec(part);
        let (key, value) = match crate::text::find_char_from(&t, '=', 0) {
            Some(k) => {
                proof {
                    crate::text::lemma_find_char(t@, '=', 0);
                }
                (trim_vec(&subvec(&t, 0, k)), trim_vec(&subvec(&t, k + 1, t.len())))
            },
            None => (trim_vec(&t), Vec::new()),
        };
        if t.len() > 0 && key.len() > 0 {
            let ks = string_of(key.as_slice());
            let vs = string_of(value.as_slice());
            let ghost before = pairs_view(out@);
            match find_cookie(&out, &key) {
                Some(j) => {
                    out.set(j, (ks, vs));
                    assert(pairs_view(out@) =~= before.update(j as int, (key@, value@)));
                },
                None => {
                    out.push((ks, vs));
                    assert(pairs_view(out@) =~= before.push((key@, value@)));
                },
            }
        }
        i = i + 1;
    }
    out
}

/// The cookies joined as a `Cookie:` header, `k=v` with `"; "` between.
pub open spec fn cookie_header_spec(m: Seq<(Seq<char>, Seq<char>)>) -> Seq<char>
    decreases m.len(),
{
    if m.len() == 0 {
        Seq::empty()
    } else if m.len() == 1 {
        m[0].0 + "="@ + m[0].1
    } else {
        cookie_header_spec(m.drop_last()) + "; "@ + m.last().0 + "="@ + m.last().1
    }
}

/// The `Cookie:` header for `cookies`, in their order.
pub fn build_cookie_header(cookies: &Vec<(String, String)>) -> (r: String)
    ensures
        r@ == cookie_header_spec(pairs_view(cookies@)),
{
    let ghost pv = pairs_view(cookies@);
    let mut out = String::new();
    let mut i: usize = 0;
    assert(pv.take(0) =~= Seq::<(Seq<char>, Seq<char>)>::empty());
    while i < cookies.len()
        invariant
            0 <= i <= cookies@.len(),
            pv == pairs_view(cookies@),
            out@ == cookie_header_spec(pv.take(i as int)),
        decreases cookies@.len() - i,
    {
        assert(pv.take(i + 1).drop_last() =~= pv.take(i as int));
        assert(pv.take(i + 1).last() == pv[i as int]);
        if i > 0 {
            push_seq(&mut out, "; ");
        } else {
            assert(pv.take(1)[0] == pv[0]);
        }
        push_seq(&mut out, cookies[i].0.as_str());
        push_seq(&mut out, "=");
        push_seq(&mut out, cookies[i].1.as_str());
        i = i + 1;
    }
    assert(pv.take(i as int) =~= pv);
    out
}

/// The hash that Qzone asks for as `g_tk`: `h = 33 * h + b` over the bytes,
/// from 5381, in 32 bits.
pub open spec fn gtk_hash(bytes: Seq<u8>) -> u32
    decreases bytes.len(),
{
    if bytes.len() == 0 {
        5381
    } else {
        let h = gtk_hash(bytes.drop_last());
        let shifted = ((h as int * 32) % 0x1_0000_0000) as u32;
        h.wrapping_add(shifted.wrapping_add(bytes.last() as u32))
    }
}

/// The `g_tk` token for a `p_skey` or `skey`, in decimal.
pub fn generate_gtk(skey: &str) -> (r: String)
    ensures
        r@ == dec((gtk_hash(vstd::utf8::encode_utf8(skey@)) % 0x8000_0000) as nat),
{
    let bytes = skey.as_bytes();
    let mut h: u32 = 5381;
    let mut i: usize = 0;
    while i < bytes.len()
        invariant
            0 <= i <= bytes@.len(),
            bytes@ == vstd::utf8::encode_utf8(skey@),
            h == gtk_hash(bytes@.take(i as int)),
        decreases bytes@.len() - i,
    {
        let b = bytes[i];
        assert(bytes@.take(i + 1).drop_last() =~= bytes@.take(i as int));
        assert((h << 5u32) == ((h as int * 32) % 0x1_0000_0000) as u32) by (bit_vector);
        let shifted = h << 5u32;
        let inner = shifted.wrapping_add(b as u32);
        h = h.wrapping_add(inner);
        i = i + 1;
    }
    assert(bytes@.take(i as int) =~= bytes@);
    assert(h & 0x7fff_ffffu32 == h % 0x8000_0000) by (bit_vector);
    u64_to_string((h & 0x7fff_ffff) as u64)
}

// ----------------------------------------------------------------------
// Requests to the service
// ----------------------------------------------------------------------
pub const EMOTION_PUBLISH_URL: &'static str =
    "https://user.qzone.qq.com/proxy/domain/taotao.qzone.qq.com/cgi-bin/emotion_cgi_publish_v6";

pub const UPLOAD_IMAGE_URL: &'static str = "https://up.qzone.qq.com/cgi-bin/upload/cgi_upload_image";

pub const CHROME_USER_AGENT: &'static str = "Mozilla/5.0 (Windows NT 10.0; WOW64) AppleWebKit/537.36 (KHTML, like Gecko) Chrome/116.1.3702.40 Safari/537.36 QBWebViewUA/2 QBWebViewType/1 WKType/1";

pub const UPLOAD_BACK_URLS: &'static str = "http://upbak.photo.qzone.qq.com/cgi-bin/upload/cgi_upload_image,http://119.147.64.75/cgi-bin/upload/cgi_upload_image";

/// The value of cookie `key`.
pub open spec fn cookie_spec(cookies: Seq<(Seq<char>, Seq<char>)>, key: Seq<char>) -> Option<
    Seq<char>,
> {
    match assoc_index(cookies, key, cookies.len() as int) {
        Some(i) => Some(cookies[i].1),
        None => None,
    }
}

/// The value of cookie `key`.
pub fn cookie_value<'a>(cookies: &'a Vec<(String, String)>, key: &str) -> (r: Option<&'a String>)
    ensures
        match r {
            Some(v) => cookie_spec(pairs_view(cookies@), key@) == Some(v@),
            None => cookie_spec(pairs_view(cookies@), key@) is None,
        },
{
    let kv = chars_of(key);
    match find_cookie(cookies, &kv) {
        Some(i) => {
            assert(pairs_view(cookies@)[i as int] == (cookies@[i as int].0@, cookies@[i as int].1@));
            Some(&cookies[i].1)
        },
        None => None,
    }
}

/// `s` without its leading `o`s.
pub open spec fn strip_o(s: Seq<char>) -> Seq<char>
    decreases s.len(),
{
    if s.len() > 0 && s[0] == 'o' {
        strip_o(s.drop_first())
    } else {
        s
    }
}

fn strip_o_vec(s: &Vec<char>) -> (r: Vec<char>)
    ensures
        r@ == strip_o(s@),
{
    let mut i: usize = 0;
    assert(s@.subrange(0, s@.len() as int) =~= s@);
    while i < s.len() && s[i] == 'o'
        invariant
            0 <= i <= s@.len(),
            strip_o(s@.subrange(i as int, s@.len() as int)) == strip_o(s@),
        decreases s@.len() - i,
    {
        assert(s@.subrange(i + 1, s@.len() as int) =~= s@.subrange(i as int, s@.len() as int).drop_first());
        i = i + 1;
    }
    assert(i < s@.len() ==> s@.subrange(i as int, s@.len() as int)[0] == s@[i as int]);
    subvec(s, i, s.len())
}

/// The account number of the `uin` cookie (`o` prefixes taken off), or 0.
pub open spec fn uin_spec(cookies: Seq<(Seq<char>, Seq<char>)>) -> u64 {
    match cookie_spec(cookies, "uin"@) {
        Some(v) => match crate::text::parse_u64_spec(strip_o(trim(v))) {
            Some(n) => n,
            None => 0,
        },
        None => 0,
    }
}

/// The key that signs requests: `p_skey`, else `skey`.
pub open spec fn session_key_spec(cookies: Seq<(Seq<char>, Seq<char>)>) -> Option<Seq<char>> {
    match cookie_spec(cookies, "p_skey"@) {
        Some(k) => Some(k),
        None => cookie_spec(cookies, "skey"@),
    }
}

pub open spec fn gtk_of(key: Seq<char>) -> Seq<char> {
    dec((gtk_hash(vstd::utf8::encode_utf8(key)) % 0x8000_0000) as nat)
}

/// What a logged-in session signs its requests with.
#[derive(Debug, Clone)]
pub struct QzoneCredentials {
    pub gtk: String,
    pub uin: u64,
}

impl QzoneCredentials {
    /// The token and account number of a session's cookies; an account
    /// failure when neither `p_skey` nor `skey` is there.
    pub fn from_cookie_map(cookies: &Vec<(String, String)>) -> (r: Result<QzoneCredentials, QzoneError>)
        ensures
            match session_key_spec(pairs_view(cookies@)) {
                None => r matches Err(e) && e.kind == QzoneErrorKind::Account && e.message@
                    == "missing p_skey/skey"@,
                Some(k) => r matches Ok(c) && c.gtk@ == gtk_of(k) && c.uin == uin_spec(
                    pairs_view(cookies@),
                ),
            },
    {
        let key = match cookie_value(cookies, "p_skey") {
            Some(k) => k,
            None => match cookie_value(cookies, "skey") {
                Some(k) => k,
                None => {
                    return Err(QzoneError::account("missing p_skey/skey"));
                },
            },
        };
        let gtk = generate_gtk(key.as_str());
        let uin = match cookie_value(cookies, "uin") {
            Some(v) => {
                let t = trim_vec(&chars_of(v.as_str()));
                let digits = strip_o_vec(&t);
                match crate::text::parse_u64_vec(&digits) {
                    Some(n) => n,
                    None => 0,
                }
            },
            None => 0,
        };
        Ok(QzoneCredentials { gtk, uin })
    }
}

/// The `skey` (else `p_skey`) and the `p_skey` that an upload sends.
pub fn upload_keys(cookies: &Vec<(String, String)>) -> (r: Result<(String, String), QzoneError>)
    ensures
        ({
            let c = pairs_view(cookies@);
            let skey = match cookie_spec(c, "skey"@) {
                Some(k) => Some(k),
                None => cookie_spec(c, "p_skey"@),
            };
            match skey {
                None => r matches Err(e) && e.kind == QzoneErrorKind::Account && e.message@
                    == "missing skey"@,
                Some(k) => match cookie_spec(c, "p_skey"@) {
                    None => r matches Err(e) && e.kind == QzoneErrorKind::Account && e.message@
                        == "missing p_skey"@,
                    Some(p) => r matches Ok(pair) && pair.0@ == k && pair.1@ == p,
                },
            }
        }),
{
    let skey = match cookie_value(cookies, "skey") {
        Some(k) => k,
        None => match cookie_value(cookies, "p_skey") {
            Some(k) => k,
            None => {
                return Err(QzoneError::account("missing skey"));
            },
        },
    };
    let p_skey = match cookie_value(cookies, "p_skey") {
        Some(k) => k,
        None => {
            return Err(QzoneError::account("missing p_skey"));
        },
    };
    Ok((owned(skey.as_str()), owned(p_skey.as_str())))
}

/// The texts of `ws` joined by `sep`.
pub open spec fn join_sep(ws: Seq<Seq<char>>, sep: Seq<char>) -> Seq<char>
    decreases ws.len(),
{
    if ws.len() == 0 {
        Seq::empty()
    } else if ws.len() == 1 {
        ws[0]
    } else {
        join_sep(ws.drop_last(), sep) + sep + ws.last()
    }
}

fn join_strings(ws: &Vec<String>, sep: &str) -> (r: String)
    ensures
        r@ == join_sep(crate::shortcut::strings_view(ws@), sep@),
{
    let ghost v = crate::shortcut::strings_view(ws@);
    let mut out = String::new();
    let mut i: usize = 0;
    while i < ws.len()
        invariant
            0 <= i <= ws@.len(),
            v == crate::shortcut::strings_view(ws@),
            out@ == join_sep(v.take(i as int), sep@),
        decreases ws@.len() - i,
    {
        assert(v.take(i + 1).drop_last() =~= v.take(i as int));
        assert(v.take(i + 1).last() == ws@[i as int]@);
        if i > 0 {
            push_seq(&mut out, sep);
        } else {
            assert(v.take(0) =~= Seq::<Seq<char>>::empty());
            assert(out@ =~= Seq::<char>::empty());
        }
        push_seq(&mut out, ws[i].as_str());
        proof {
            if i == 0 {
                assert(out@ =~= ws@[0]@);
            }
        }
        i = i + 1;
    }
    assert(v.take(i as int) =~= v);
    out
}

fn field(key: &str, value: &str) -> (r: (String, String))
    ensures
        r.0@ == key@,
        r.1@ == value@,
{
    (owned(key), owned(value))
}

/// The form that publishes a post with `content`: the fixed fields, the
/// account number, and, when images were uploaded, their `pic_bo` and
/// `richval` joined by tabs.
pub open spec fn publish_form_spec(
    content: Seq<char>,
    uin: u64,
    pic_bos: Seq<Seq<char>>,
    richvals: Seq<Seq<char>>,
) -> Seq<(Seq<char>, Seq<char>)> {
    let base = seq![
        ("syn_tweet_verson"@, "1"@),
        ("paramstr"@, "1"@),
        ("who"@, "1"@),
        ("con"@, content),
        ("feedversion"@, "1"@),
        ("ver"@, "1"@),
        ("ugc_right"@, "1"@),
        ("to_sign"@, "0"@),
        ("hostuin"@, dec(uin as nat)),
        ("code_version"@, "1"@),
        ("format"@, "fs"@),
        ("pic_template"@, ""@),
        ("special_url"@, ""@),
        ("qzreferrer"@, "https://user.qzone.qq.com/"@ + dec(uin as nat)),
    ];
    if pic_bos.len() == 0 {
        base
    } else {
        base + seq![
            ("subrichtype"@, "1"@),
            ("pic_bo"@, join_sep(pic_bos, "\t"@)),
            ("richtype"@, "1"@),
            ("richval"@, join_sep(richvals, "\t"@)),
        ]
    }
}

/// The form that publishes a post: `pic_bos` and `richvals` are those of
/// the uploaded images, in order (none for a post without images).
pub fn publish_form(content: &str, uin: u64, pic_bos: &Vec<String>, richvals: &Vec<String>) -> (r:
    Vec<(String, String)>)
    ensures
        pairs_view(r@) == publish_form_spec(
            content@,
            uin,
            crate::shortcut::strings_view(pic_bos@),
            crate::shortcut::strings_view(richvals@),
        ),
{
    let u = u64_to_string(uin);
    let referrer = concat2("https://user.qzone.qq.com/", u.as_str());
    let mut form: Vec<(String, String)> = Vec::new();
    form.push(field("syn_tweet_verson", "1"));
    form.push(field("paramstr", "1"));
    form.push(field("who", "1"));
    form.push(field("con", content));
    form.push(field("feedversion", "1"));
    form.push(field("ver", "1"));
    form.push(field("ugc_right", "1"));
    form.push(field("to_sign", "0"));
    form.push(field("hostuin", u.as_str()));
    form.push(field("code_version", "1"));
    form.push(field("format", "fs"));
    form.push(field("pic_template", ""));
    form.push(field("special_url", ""));
    form.push(field("qzreferrer", referrer.as_str()));
    let ghost base = pairs_view(form@);
    assert(base =~= publish_form_spec(
        content@,
        uin,
        Seq::empty(),
        Seq::empty(),
    ));
    if pic_bos.len() > 0 {
        let pb = join_strings(pic_bos, "\t");
        let rv = join_strings(richvals, "\t");
        form.push(field("subrichtype", "1"));
        form.push(field("pic_bo", pb.as_str()));
        form.push(field("richtype", "1"));
        form.push(field("richval", rv.as_str()));
        assert(pairs_view(form@) =~= base + seq![
            ("subrichtype"@, "1"@),
            ("pic_bo"@, pb@),
            ("richtype"@, "1"@),
            ("richval"@, rv@),
        ]);
    }
    form
}

/// The form that uploads one image, sent as base64 in `picfile`.
pub open spec fn upload_form_spec(
    uin: u64,
    gtk: Seq<char>,
    skey: Seq<char>,
    p_skey: Seq<char>,
    picfile: Seq<char>,
) -> Seq<(Seq<char>, Seq<char>)> {
    seq![
        ("filename"@, "filename"@),
        ("zzpanelkey"@, ""@),
        ("uploadtype"@, "1"@),
        ("albumtype"@, "7"@),
        ("exttype"@, "0"@),
        ("skey"@, skey),
        ("zzpaneluin"@, dec(uin as nat)),
        ("p_uin"@, dec(uin as nat)),
        ("uin"@, dec(uin as nat)),
        ("p_skey"@, p_skey),
        ("output_type"@, "jsonhtml"@),
        ("qzonetoken"@, ""@),
        ("refer"@, "shuoshuo"@),
        ("charset"@, "utf-8"@),
        ("output_charset"@, "utf-8"@),
        ("upload_hd"@, "1"@),
        ("hd_width"@, "2048"@),
        ("hd_height"@, "10000"@),
        ("hd_quality"@, "96"@),
        ("backUrls"@, UPLOAD_BACK_URLS@),
        ("url"@, UPLOAD_IMAGE_URL@ + "?g_tk="@ + gtk),
        ("base64"@, "1"@),
        ("picfile"@, picfile),
    ]
}

/// The form that uploads `image`, prepared for upload.
pub fn upload_form(uin: u64, gtk: &str, skey: &str, p_skey: &str, image: &[u8]) -> (r: Vec<
    (String, String),
>)
    ensures
        pairs_view(r@) == upload_form_spec(
            uin,
            gtk@,
            skey@,
            p_skey@,
            crate::codec::base64_encoded(image@),
        ),
{
    let picfile = crate::codec::base64_encode(image);
    let u = u64_to_string(uin);
    let url = concat3(UPLOAD_IMAGE_URL, "?g_tk=", gtk);
    let mut form: Vec<(String, String)> = Vec::new();
    form.push(field("filename", "filename"));
    form.push(field("zzpanelkey", ""));
    form.push(field("uploadtype", "1"));
    form.push(field("albumtype", "7"));
    form.push(field("exttype", "0"));
    form.push(field("skey", skey));
    form.push(field("zzpaneluin", u.as_str()));
    form.push(field("p_uin", u.as_str()));
    form.push(field("uin", u.as_str()));
    form.push(field("p_skey", p_skey));
    form.push(field("output_type", "jsonhtml"));
    form.push(field("qzonetoken", ""));
    form.push(field("refer", "shuoshuo"));
    form.push(field("charset", "utf-8"));
    form.push(field("output_charset", "utf-8"));
    form.push(field("upload_hd", "1"));
    form.push(field("hd_width", "2048"));
    form.push(field("hd_height", "10000"));
    form.push(field("hd_quality", "96"));
    form.push(field("backUrls", UPLOAD_BACK_URLS));
    form.push(field("url", url.as_str()));
    form.push(field("base64", "1"));
    form.push(field("picfile", picfile.as_str()));
    assert(pairs_view(form@) =~= upload_form_spec(
        uin,
        gtk@,
        skey@,
        p_skey@,
        crate::codec::base64_encoded(image@),
    ));
    form
}

// ----------------------------------------------------------------------
// Images for upload
// ----------------------------------------------------------------------
/// The largest image that is uploaded as it is.
pub const MAX_UPLOAD_IMAGE_BYTES: usize = 4194304;

/// The least width and height to which an image is shrunk for JPEG.
pub const JPEG_MIN_DIMENSION: u32 = 512;

/// A colour channel of a pixel with opacity `alpha` laid over white, as
/// JPEG has no transparency: rounded to the nearest level.
pub open spec fn blend_on_white_spec(channel: u8, alpha: u8) -> int {
    (channel * alpha + 255 * (255 - alpha) + 127) / 255
}

pub fn blend_on_white(channel: u8, alpha: u8) -> (r: u8)
    ensures
        r == blend_on_white_spec(channel, alpha),
{
    let fg = channel as u32;
    let a = alpha as u32;
    assert(fg * a <= 65025) by (nonlinear_arith)
        requires
            fg <= 255,
            a <= 255,
    ;
    let v = (fg * a + 255 * (255 - a) + 127) / 255;
    assert(fg * a + 255 * (255 - a) <= 65025) by (nonlinear_arith)
        requires
            fg <= 255,
            a <= 255,
    ;
    v as u8
}

/// How an image is made small enough to upload, by its size and format.
#[derive(Debug, Clone, Copy, PartialEq, Eq, Structural)]
pub enum UploadPlan {
    /// Small enough: sent as it is.
    Original,
    /// An animation: re-encoded at most 1080p, else its first frame as JPEG.
    Gif,
    /// A PNG: kept as PNG at most 1080p when it has transparency, else JPEG.
    Png,
    /// Anything else: re-encoded as JPEG.
    Jpeg,
}

/// The format of an image, as `image::guess_format` tells it.
#[derive(Debug, Clone, Copy, PartialEq, Eq, Structural)]
pub enum UploadSourceFormat {
    Gif,
    Png,
    Other,
}

/// The eight bytes every PNG file starts with.
pub open spec fn png_signature() -> Seq<u8> {
    seq![0x89u8, 0x50u8, 0x4eu8, 0x47u8, 0x0du8, 0x0au8, 0x1au8, 0x0au8]
}

/// The six bytes a GIF file starts with, for the given version letter
/// (`'9'` or `'7'`).
pub open spec fn gif_signature(version: u8) -> Seq<u8> {
    seq![0x47u8, 0x49u8, 0x46u8, 0x38u8, version, 0x61u8]
}

pub open spec fn starts_with_bytes(data: Seq<u8>, prefix: Seq<u8>) -> bool {
    prefix.len() <= data.len() && data.subrange(0, prefix.len() as int) == prefix
}

/// The format told by the leading bytes: PNG, GIF (87a or 89a), or other.
pub open spec fn sniffed_format_spec(data: Seq<u8>) -> UploadSourceFormat {
    if starts_with_bytes(data, png_signature()) {
        UploadSourceFormat::Png
    } else if starts_with_bytes(data, gif_signature(0x39u8)) || starts_with_bytes(
        data,
        gif_signature(0x37u8),
    ) {
        UploadSourceFormat::Gif
    } else {
        UploadSourceFormat::Other
    }
}

/// `image::guess_format`, read as PNG, GIF or other. Its table of magic bytes
/// lists the PNG signature first, then JPEG's (which starts with 0xff), then
/// the two GIF signatures; a buffer that starts with none of these three is
/// another format or unknown.
#[verifier::external_body]
fn guess_upload_format(data: &[u8]) -> (r: UploadSourceFormat)
    ensures
        r == sniffed_format_spec(data@),
{
    match image::guess_format(data) {
        Ok(image::ImageFormat::Gif) => UploadSourceFormat::Gif,
        Ok(image::ImageFormat::Png) => UploadSourceFormat::Png,
        _ => UploadSourceFormat::Other,
    }
}

/// The format of an image about to be uploaded, by its leading bytes.
pub fn detect_upload_source_format(image: &[u8]) -> (r: UploadSourceFormat)
    ensures
        r == sniffed_format_spec(image@),
{
    guess_upload_format(image)
}

pub fn upload_plan(size: usize, format: UploadSourceFormat) -> (r: UploadPlan)
    ensures
        size <= MAX_UPLOAD_IMAGE_BYTES ==> r == UploadPlan::Original,
        size > MAX_UPLOAD_IMAGE_BYTES ==> r == match format {
            UploadSourceFormat::Gif => UploadPlan::Gif,
            UploadSourceFormat::Png => UploadPlan::Png,
            UploadSourceFormat::Other => UploadPlan::Jpeg,
        },
{
    if size <= MAX_UPLOAD_IMAGE_BYTES {
        return UploadPlan::Original;
    }
    match format {
        UploadSourceFormat::Gif => UploadPlan::Gif,
        UploadSourceFormat::Png => UploadPlan::Png,
        UploadSourceFormat::Other => UploadPlan::Jpeg,
    }
}

/// Whether some pixel of RGBA bytes is not fully opaque.
pub open spec fn has_transparency_spec(rgba: Seq<u8>) -> bool {
    exists|i: int| 0 <= i < rgba.len() / 4 && #[trigger] rgba[4 * i + 3] < 255
}

pub fn rgba_has_transparency(rgba: &[u8]) -> (r: bool)
    ensures
        r == has_transparency_spec(rgba@),
{
    let n = rgba.len() / 4;
    let mut i: usize = 0;
    while i < n
        invariant
            0 <= i <= n,
            n == rgba@.len() / 4,
            forall|k: int| 0 <= k < i ==> #[trigger] rgba@[4 * k + 3] == 255,
        decreases n - i,
    {
        assert(4 * i + 3 < rgba@.len());
        assert(rgba@.len() == rgba.len());
        if rgba[4 * i + 3] < 255 {
            return true;
        }
        i = i + 1;
    }
    false
}

// ----------------------------------------------------------------------
// One send of a batch
// ----------------------------------------------------------------------
/// How long the posts put back into the queue by a batch wait: a year, so
/// that only the batch's outcome moves them.
pub const STACKING_HOLD_MS: i64 = 31536000000;

pub open spec fn kind_name_spec(kind: QzoneErrorKind) -> Seq<char> {
    match kind {
        QzoneErrorKind::Network => "Network"@,
        QzoneErrorKind::RiskControl => "RiskControl"@,
        QzoneErrorKind::Account => "Account"@,
        QzoneErrorKind::Unknown => "Unknown"@,
    }
}

/// The name of a kind of failure.
pub fn kind_name(kind: QzoneErrorKind) -> (r: &'static str)
    ensures
        r@ == kind_name_spec(kind),
{
    match kind {
        QzoneErrorKind::Network => "Network",
        QzoneErrorKind::RiskControl => "RiskControl",
        QzoneErrorKind::Account => "Account",
        QzoneErrorKind::Unknown => "Unknown",
    }
}

/// A failure as it is reported: its kind in brackets, then its message.
pub open spec fn failure_text_spec(e: QzoneError) -> Seq<char> {
    "["@ + kind_name_spec(e.kind) + "] "@ + e.message@
}

pub fn failure_text(e: &QzoneError) -> (r: String)
    ensures
        r@ == failure_text_spec(*e),
{
    let mut out = concat3("[", kind_name(e.kind), "] ");
    push_seq(&mut out, e.message.as_str());
    out
}

pub open spec fn sat_add_i64(a: i64, b: int) -> i64 {
    if a + b > i64::MAX {
        i64::MAX
    } else {
        (a + b) as i64
    }
}

/// When a failed send is tried again: after the delay for its kind and
/// attempt, counted from when the send started.
pub fn retry_at_ms(started_at_ms: i64, kind: QzoneErrorKind, attempt: u32) -> (r: i64)
    ensures
        r == sat_add_i64(started_at_ms, retry_delay_spec(kind, attempt)),
{
    let delay = retry_delay_ms(kind, attempt);
    proof {
        lemma_retry_delay(kind, attempt, attempt);
    }
    if started_at_ms > i64::MAX - delay {
        i64::MAX
    } else {
        started_at_ms + delay
    }
}

/// When the posts that a batch puts back into the queue may go again.
pub fn requeue_not_before(started_at_ms: i64) -> (r: i64)
    ensures
        r == sat_add_i64(started_at_ms, STACKING_HOLD_MS as int),
{
    if started_at_ms > i64::MAX - STACKING_HOLD_MS {
        i64::MAX
    } else {
        started_at_ms + STACKING_HOLD_MS
    }
}

/// What the sender does next in one send of a batch.
#[derive(Debug)]
pub enum SendAction {
    /// Publish the batch from `account`.
    Publish { account: String },
    /// `account` failed: the send is over, to be tried again at
    /// `retry_at_ms`; `error` is the failure as reported.
    Retry { account: String, attempt: u32, retry_at_ms: i64, error: String },
    /// Every account published: the send is reported under `account`, with
    /// `remote_id` the first post id that an account gave.
    Sent { account: String, remote_id: Option<String> },
}

/// One send of a batch over the accounts of its group, in order, stopping
/// at the first that fails.
pub struct SendRound {
    accounts: Vec<String>,
    next: usize,
    final_account: String,
    first_remote: Option<String>,
    attempt: u32,
    started_at_ms: i64,
}

pub open spec fn opt_view(o: Option<String>) -> Option<Seq<char>> {
    match o {
        Some(s) => Some(s@),
        None => None,
    }
}

impl SendRound {
    pub closed spec fn accounts_view(&self) -> Seq<Seq<char>> {
        crate::shortcut::strings_view(self.accounts@)
    }

    /// How many accounts have published so far.
    pub closed spec fn published(&self) -> nat {
        self.next as nat
    }

    /// Whether the send is over.
    pub closed spec fn finished(&self) -> bool {
        self.next >= self.accounts@.len()
    }

    pub closed spec fn final_account_view(&self) -> Seq<char> {
        self.final_account@
    }

    pub closed spec fn first_remote_view(&self) -> Option<Seq<char>> {
        opt_view(self.first_remote)
    }

    pub closed spec fn attempt_of(&self) -> u32 {
        self.attempt
    }

    pub closed spec fn started_of(&self) -> i64 {
        self.started_at_ms
    }

    pub closed spec fn wf(&self) -> bool {
        self.next <= self.accounts@.len()
    }

    /// A send of attempt `attempt`, started at `started_at_ms` by the
    /// schedule under `account`, over `accounts` (those that
    /// `select_send_accounts` gives, never none): the first account
    /// publishes first.
    pub fn start(accounts: Vec<String>, account: &str, attempt: u32, started_at_ms: i64) -> (r: (
        SendRound,
        SendAction,
    ))
        requires
            accounts@.len() >= 1,
        ensures
            r.0.wf(),
            r.0.accounts_view() == crate::shortcut::strings_view(accounts@),
            r.0.published() == 0,
            !r.0.finished(),
            r.0.final_account_view() == account@,
            r.0.first_remote_view() is None,
            r.0.attempt_of() == attempt,
            r.0.started_of() == started_at_ms,
            r.1 matches SendAction::Publish { account: a } && a@ == accounts@[0]@,
    {
        let first = owned(accounts[0].as_str());
        let round = SendRound {
            accounts,
            next: 0,
            final_account: owned(account),
            first_remote: None,
            attempt,
            started_at_ms,
        };
        (round, SendAction::Publish { account: first })
    }

    /// The account's publish gave `result` (the post id it reported, if
    /// any, or its failure): the next account publishes; or, after a
    /// failure, the send is over and is retried; or, after the last
    /// account, the send is over and done.
    pub fn on_published(&mut self, result: Result<Option<String>, QzoneError>) -> (action: SendAction)
        requires
            old(self).wf(),
            !old(self).finished(),
        ensures
            final(self).wf(),
            final(self).accounts_view() == old(self).accounts_view(),
            final(self).attempt_of() == old(self).attempt_of(),
            final(self).started_of() == old(self).started_of(),
            ({
                let done = old(self).accounts_view()[old(self).published() as int];
                match result {
                    Err(e) => {
                        &&& final(self).finished()
                        &&& action matches SendAction::Retry { account, attempt, retry_at_ms, error }
                            && account@ == done && attempt == old(self).attempt_of() && retry_at_ms
                            == sat_add_i64(
                            old(self).started_of(),
                            retry_delay_spec(e.kind, old(self).attempt_of()),
                        ) && error@ == failure_text_spec(e)
                    },
                    Ok(remote) => {
                        &&& final(self).published() == old(self).published() + 1
                        &&& final(self).final_account_view() == done
                        &&& final(self).first_remote_view() == match old(self).first_remote_view() {
                            Some(t) => Some(t),
                            None => opt_view(remote),
                        }
                        &&& if final(self).published() < final(self).accounts_view().len() {
                            &&& !final(self).finished()
                            &&& action matches SendAction::Publish { account }
                                && account@ == final(self).accounts_view()[final(self).published() as int]
                        } else {
                            &&& final(self).finished()
                            &&& action matches SendAction::Sent { account, remote_id }
                                && account@ == done
                                && opt_view(remote_id) == final(self).first_remote_view()
                        }
                    },
                }
            }),
    {
        let i = self.next;
        let len = self.accounts.len();
        assert(i < len);
        assert(self.accounts_view()[i as int] == self.accounts@[i as int]@);
        match result {
            Err(e) => {
                let account = owned(self.accounts[i].as_str());
                let retry = retry_at_ms(self.started_at_ms, e.kind, self.attempt);
                let error = failure_text(&e);
                self.next = self.accounts.len();
                SendAction::Retry { account, attempt: self.attempt, retry_at_ms: retry, error }
            },
            Ok(remote) => {
                self.final_account = owned(self.accounts[i].as_str());
                if self.first_remote.is_none() {
                    self.first_remote = remote;
                }
                self.next = i + 1;
                if self.next < len {
                    let n = self.next;
                    assert(self.accounts_view()[n as int] == self.accounts@[n as int]@);
                    SendAction::Publish { account: owned(self.accounts[n].as_str()) }
                } else {
                    let remote_id = match &self.first_remote {
                        Some(t) => Some(owned(t.as_str())),
                        None => None,
                    };
                    SendAction::Sent { account: owned(self.final_account.as_str()), remote_id }
                }
            },
        }
    }
}

/// The outcome of each post of a sent batch: the leader carries the post
/// id that the send gave; the others none.
pub fn batch_remote_ids(batch: &Vec<u128>, leader: u128, remote_id: &Option<String>) -> (r: Vec<
    (u128, Option<String>),
>)
    ensures
        r@.len() == batch@.len(),
        forall|i: int|
            0 <= i < batch@.len() ==> (#[trigger] r@[i]).0 == batch@[i] && opt_view(r@[i].1) == if batch@[i]
                == leader {
                opt_view(*remote_id)
            } else {
                None
            },
{
    let mut out: Vec<(u128, Option<String>)> = Vec::new();
    let mut i: usize = 0;
    while i < batch.len()
        invariant
            0 <= i <= batch@.len(),
            out@.len() == i,
            forall|k: int|
                0 <= k < i ==> (#[trigger] out@[k]).0 == batch@[k] && opt_view(out@[k].1) == if batch@[k]
                    == leader {
                    opt_view(*remote_id)
                } else {
                    None
                },
        decreases batch@.len() - i,
    {
        let id = batch[i];
        let remote = if id == leader {
            match remote_id {
                Some(t) => Some(owned(t.as_str())),
                None => None,
            }
        } else {
            None
        };
        out.push((id, remote));
        i = i + 1;
    }
    out
}

// ----------------------------------------------------------------------
// Replies of the service
// ----------------------------------------------------------------------
/// The failure that a reply reports, led by what was being done.
pub fn reply_error(json: &JsonValue, json_text: &str, context: &str) -> (r: Option<QzoneError>)
    ensures
        match ret_code(*json) {
            Some(code) => if code != 0 {
                match r {
                    Some(e) => e.kind == text_error_kind(message_or(*json, "qzone error"@))
                        && e.message@ == context@ + ": "@ + message_or(*json, "qzone error"@)
                        + "; "@ + "code"@ + "="@ + dec_int(code as int) + "; body="@
                        + body_summary(json_text@),
                    None => false,
                }
            } else {
                r is None
            },
            None => r is None,
        },
{
    match classify_response_error(json, json_text) {
        Some(e) => Some(e.with_context(context)),
        None => None,
    }
}

/// The `tid` of a publish reply, or `unknown`.
pub open spec fn tid_spec(json: JsonValue) -> Seq<char> {
    match crate::json::member(json, "tid"@) {
        Some(t) => match crate::json::as_text(t) {
            Some(s) => s,
            None => "unknown"@,
        },
        None => "unknown"@,
    }
}

/// What a publish gives once the service answered with a success status:
/// `json` is the reply read as JSON (or as the JSON in its callback), when
/// it could be; `json_text` is that JSON written out compactly. A blank
/// reply counts as success with an unknown id; a reply that is not JSON is
/// an unknown failure; a reply with a nonzero `ret` is the failure it
/// reports; otherwise the post's `tid`.
pub fn publish_outcome(body: &str, json: Option<&JsonValue>, json_text: &str) -> (r: Result<
    String,
    QzoneError,
>)
    ensures
        match json {
            None => if trim(body@).len() == 0 {
                r matches Ok(t) && t@ == "unknown"@
            } else {
                r matches Err(e) && e.kind == QzoneErrorKind::Unknown && e.message@
                    == "invalid publish response body"@
            },
            Some(j) => match ret_code(*j) {
                Some(code) => if code != 0 {
                    r matches Err(e) && e.kind == text_error_kind(message_or(*j, "qzone error"@))
                        && e.message@ == "publish response"@ + ": "@ + message_or(
                        *j,
                        "qzone error"@,
                    ) + "; "@ + "code"@ + "="@ + dec_int(code as int) + "; body="@
                        + body_summary(json_text@)
                } else {
                    r matches Ok(t) && t@ == tid_spec(*j)
                },
                None => r matches Ok(t) && t@ == tid_spec(*j),
            },
        },
{
    match json {
        None => {
            let t = trim_vec(&chars_of(body));
            if t.len() == 0 {
                Ok(owned("unknown"))
            } else {
                Err(QzoneError::unknown("invalid publish response body"))
            }
        },
        Some(j) => {
            match reply_error(j, json_text, "publish response") {
                Some(e) => Err(e),
                None => match j.get("tid") {
                    Some(t) => match t.as_str() {
                        Some(s) => Ok(owned(s)),
                        None => Ok(owned("unknown")),
                    },
                    None => Ok(owned("unknown")),
                },
            }
        },
    }
}

/// The last position of `c` in `s[..n]`.
pub open spec fn last_char(s: Seq<char>, c: char, n: int) -> Option<int>
    decreases n,
{
    if n <= 0 || n > s.len() {
        None
    } else if s[n - 1] == c {
        Some(n - 1)
    } else {
        last_char(s, c, n - 1)
    }
}

/// Whether the last `}` of `body` does not come before its first `{` by
/// more than one place.
pub open spec fn braces_in_order(body: Seq<char>) -> bool {
    match (crate::text::find_char(body, '{', 0), last_char(body, '}', body.len() as int)) {
        (Some(a), Some(b)) => a <= b + 1,
        _ => true,
    }
}

/// The text of an upload reply from its first `{` to its last `}`, which
/// is the JSON the reply carries; an unknown failure when either is
/// missing.
pub fn upload_json_span(body: &str) -> (r: Result<String, QzoneError>)
    requires
        braces_in_order(body@),
    ensures
        match (crate::text::find_char(body@, '{', 0), last_char(body@, '}', body@.len() as int)) {
            (Some(a), Some(b)) => r matches Ok(t) && t@ == body@.subrange(a, b + 1),
            _ => r matches Err(e) && e.kind == QzoneErrorKind::Unknown && e.message@
                == "invalid upload response"@,
        },
{
    let v = chars_of(body);
    let start = match crate::text::find_char_from(&v, '{', 0) {
        Some(a) => a,
        None => {
            return Err(QzoneError::unknown("invalid upload response"));
        },
    };
    proof {
        crate::text::lemma_find_char(v@, '{', 0);
    }
    let mut n = v.len();
    while n > 0 && v[n - 1] != '}'
        invariant
            n <= v@.len(),
            last_char(v@, '}', n as int) == last_char(v@, '}', v@.len() as int),
        decreases n,
    {
        n = n - 1;
    }
    if n == 0 {
        return Err(QzoneError::unknown("invalid upload response"));
    }
    let end = n - 1;
    assert(last_char(v@, '}', n as int) == Some(end as int));
    Ok(string_of(subvec(&v, start, end + 1).as_slice()))
}

/// The failure of a request that got no usable reply: `detail` is the
/// transport error's text, `status` the HTTP status it carries, if any, and
/// `url` the address it names, if any. Such a failure is a network failure.
pub open spec fn transport_message(
    context: Seq<char>,
    detail: Seq<char>,
    status: Option<u16>,
    url: Option<Seq<char>>,
) -> Seq<char> {
    let m1 = context + ": "@ + detail + "; status="@ + match status {
        Some(s) => dec(s as nat),
        None => "<none>"@,
    };
    let m2 = match url {
        Some(u) => if crate::text::contains_seq(m1, u) {
            m1
        } else {
            m1 + "; url="@ + u
        },
        None => m1,
    };
    m2 + "; body="@ + if status is Some {
        "<unavailable from reqwest transport error>"@
    } else {
        "<no response>"@
    }
}

pub fn classify_reqwest_error(context: &str, detail: &str, status: Option<u16>, url: Option<&str>) -> (r:
    QzoneError)
    ensures
        r.kind == QzoneErrorKind::Network,
        r.message@ == transport_message(
            context@,
            detail@,
            status,
            match url {
                Some(u) => Some(u@),
                None => None,
            },
        ),
{
    let mut message = concat3(context, ": ", detail);
    push_seq(&mut message, "; status=");
    match status {
        Some(s) => {
            let t = u64_to_string(s as u64);
            push_seq(&mut message, t.as_str());
        },
        None => push_seq(&mut message, "<none>"),
    }
    match url {
        Some(u) => {
            let mv = chars_of(message.as_str());
            if !contains_str(&mv, u) {
                push_seq(&mut message, "; url=");
                push_seq(&mut message, u);
            }
        },
        None => {},
    }
    push_seq(&mut message, "; body=");
    if status.is_some() {
        push_seq(&mut message, "<unavailable from reqwest transport error>");
    } else {
        push_seq(&mut message, "<no response>");
    }
    QzoneError::network(message.as_str())
}

/// How many images go into one post: the per-post limit, or all of them
/// (at least one) when there is none.
pub open spec fn chunk_size_spec(count: nat, max_images_per_post: nat) -> nat {
    if max_images_per_post > 0 {
        max_images_per_post
    } else if count > 1 {
        count
    } else {
        1
    }
}

/// The images `[start, end)` of each post, from `start` on, `size` at a time.
pub open spec fn chunks_from(count: nat, size: nat, start: nat) -> Seq<(nat, nat)>
    decreases count - start,
{
    if start >= count || size == 0 {
        Seq::empty()
    } else {
        let end = if start + size <= count {
            start + size
        } else {
            count
        };
        seq![(start, end)] + chunks_from(count, size, end)
    }
}

pub open spec fn ranges_view(v: Seq<(usize, usize)>) -> Seq<(nat, nat)> {
    v.map_values(|p: (usize, usize)| (p.0 as nat, p.1 as nat))
}

/// How the images of a batch are shared out among posts: in order,
/// `max_images_per_post` to a post, or all in one post when that is 0.
pub fn image_chunks(count: usize, max_images_per_post: usize) -> (r: Vec<(usize, usize)>)
    ensures
        ranges_view(r@) == chunks_from(
            count as nat,
            chunk_size_spec(count as nat, max_images_per_post as nat),
            0,
        ),
{
    let size = if max_images_per_post > 0 {
        max_images_per_post
    } else if count > 1 {
        count
    } else {
        1
    };
    let ghost total = chunks_from(count as nat, size as nat, 0);
    let mut out: Vec<(usize, usize)> = Vec::new();
    let mut start: usize = 0;
    while start < count
        invariant
            start <= count,
            size >= 1,
            ranges_view(out@) + chunks_from(count as nat, size as nat, start as nat) == total,
        decreases count - start,
    {
        let end = if size <= count - start {
            start + size
        } else {
            count
        };
        let ghost before = ranges_view(out@);
        out.push((start, end));
        assert(ranges_view(out@) =~= before.push((start as nat, end as nat)));
        assert(ranges_view(out@) + chunks_from(count as nat, size as nat, end as nat) =~= before
            + chunks_from(count as nat, size as nat, start as nat));
        start = end;
    }
    assert(ranges_view(out@) + Seq::<(nat, nat)>::empty() =~= ranges_view(out@));
    out
}


/// What publishing one account's batch does next.
#[derive(Debug)]
pub enum BatchAction {
    /// Publish the text with the images `[start, end)`.
    Publish { start: usize, end: usize },
    /// The batch failed with `error`; the account's cookies are to be
    /// fetched anew when `refresh_cookies` says so.
    Fail { error: QzoneError, refresh_cookies: bool },
    /// Every post was published; `first_tid` is the id the first post gave.
    Done { first_tid: Option<String> },
}

/// Publishing the images of a batch from one account, a post at a time,
/// stopping at the first post that fails.
pub struct BatchPublish {
    chunks: Vec<(usize, usize)>,
    next: usize,
    first_tid: Option<String>,
}

impl BatchPublish {
    /// The posts' image ranges, in order.
    pub closed spec fn chunks_view(&self) -> Seq<(nat, nat)> {
        ranges_view(self.chunks@)
    }

    /// How many posts were published.
    pub closed spec fn published(&self) -> nat {
        self.next as nat
    }

    pub closed spec fn first_tid_view(&self) -> Option<Seq<char>> {
        opt_view(self.first_tid)
    }

    pub closed spec fn wf(&self) -> bool {
        self.next <= self.chunks@.len()
    }

    /// A batch of `image_count` images, `max_images_per_post` to a post (all
    /// in one when 0): the first post is published first; with no image the
    /// batch fails at once, the cookies kept.
    pub fn start(image_count: usize, max_images_per_post: usize) -> (r: (BatchPublish, BatchAction))
        ensures
            r.0.wf(),
            r.0.chunks_view() == chunks_from(
                image_count as nat,
                chunk_size_spec(image_count as nat, max_images_per_post as nat),
                0,
            ),
            r.0.published() == 0,
            r.0.first_tid_view() is None,
            image_count == 0 ==> (r.1 matches BatchAction::Fail { error, refresh_cookies } && !refresh_cookies
                && error.kind == QzoneErrorKind::Unknown && error.message@ == "empty images"@),
            image_count > 0 ==> (r.1 matches BatchAction::Publish { start, end } && (start as nat, end as nat)
                == r.0.chunks_view()[0]),
    {
        let chunks = image_chunks(image_count, max_images_per_post);
        let b = BatchPublish { chunks, next: 0, first_tid: None };
        if image_count == 0 {
            return (b, BatchAction::Fail { error: QzoneError::unknown("empty images"), refresh_cookies: false });
        }
        proof {
            let size = chunk_size_spec(image_count as nat, max_images_per_post as nat);
            assert(chunks_from(image_count as nat, size, 0).len() > 0);
        }
        let (s, e) = b.chunks[0];
        assert(b.chunks_view()[0] == (s as nat, e as nat));
        (b, BatchAction::Publish { start: s, end: e })
    }

    /// The post gave `outcome` (its id, or its failure): the next post is
    /// published; after a failure the batch fails and the cookies are
    /// fetched anew; after the last post the batch is done with the first
    /// post's id.
    pub fn on_published(&mut self, outcome: Result<String, QzoneError>) -> (action: BatchAction)
        requires
            old(self).wf(),
            old(self).published() < old(self).chunks_view().len(),
        ensures
            final(self).wf(),
            final(self).chunks_view() == old(self).chunks_view(),
            match outcome {
                Err(e) => action matches BatchAction::Fail { error, refresh_cookies } && refresh_cookies
                    && error == e,
                Ok(tid) => {
                    &&& final(self).published() == old(self).published() + 1
                    &&& final(self).first_tid_view() == match old(self).first_tid_view() {
                        Some(t) => Some(t),
                        None => Some(tid@),
                    }
                    &&& if final(self).published() < final(self).chunks_view().len() {
                        action matches BatchAction::Publish { start, end } && (start as nat, end as nat)
                            == final(self).chunks_view()[final(self).published() as int]
                    } else {
                        action matches BatchAction::Done { first_tid } && opt_view(first_tid)
                            == final(self).first_tid_view()
                    }
                },
            },
    {
        match outcome {
            Err(e) => BatchAction::Fail { error: e, refresh_cookies: true },
            Ok(tid) => {
                if self.first_tid.is_none() {
                    self.first_tid = Some(tid);
                }
                assert(ranges_view(self.chunks@).len() == self.chunks@.len());
                assert(self.next < self.chunks.len());
                self.next = self.next + 1;
                if self.next < self.chunks.len() {
                    let (s, e) = self.chunks[self.next];
                    assert(self.chunks_view()[self.next as int] == (s as nat, e as nat));
                    BatchAction::Publish { start: s, end: e }
                } else {
                    let first_tid = match &self.first_tid {
                        Some(t) => Some(owned(t.as_str())),
                        None => None,
                    };
                    BatchAction::Done { first_tid }
                }
            },
        }
    }
}

// ----------------------------------------------------------------------
// Accounts and the text of a batch
// ----------------------------------------------------------------------
/// The trimmed, non-blank texts of `v`, each once, in order of first appearance.
pub open spec fn unique_trimmed(v: Seq<Seq<char>>) -> Seq<Seq<char>>
    decreases v.len(),
{
    if v.len() == 0 {
        Seq::empty()
    } else {
        let prev = unique_trimmed(v.drop_last());
        let t = trim(v.last());
        if t.len() == 0 || prev.contains(t) {
            prev
        } else {
            prev.push(t)
        }
    }
}

/// The accounts that send for a group: its configured accounts, trimmed and
/// each once, or else the fallback account alone.
pub open spec fn send_accounts_spec(accounts: Option<Seq<Seq<char>>>, fallback: Seq<char>) -> Seq<
    Seq<char>,
> {
    let u = match accounts {
        Some(a) => unique_trimmed(a),
        None => Seq::empty(),
    };
    if u.len() == 0 {
        seq![fallback]
    } else {
        u
    }
}

fn contains_text(v: &Vec<Vec<char>>, t: &Vec<char>) -> (r: bool)
    ensures
        r == crate::text::vecs_view(v@).contains(t@),
{
    let ghost vv = crate::text::vecs_view(v@);
    let mut i: usize = 0;
    while i < v.len()
        invariant
            0 <= i <= v@.len(),
            vv == crate::text::vecs_view(v@),
            forall|k: int| 0 <= k < i ==> vv[k] != t@,
        decreases v@.len() - i,
    {
        if crate::text::eq_vec(&v[i], t) {
            assert(vv[i as int] == t@);
            return true;
        }
        i = i + 1;
    }
    false
}

fn strings_of(v: &Vec<Vec<char>>) -> (r: Vec<String>)
    ensures
        crate::shortcut::strings_view(r@) == crate::text::vecs_view(v@),
{
    let mut out: Vec<String> = Vec::new();
    let mut i: usize = 0;
    while i < v.len()
        invariant
            0 <= i <= v@.len(),
            crate::shortcut::strings_view(out@) =~= crate::text::vecs_view(v@).take(i as int),
        decreases v@.len() - i,
    {
        let ghost before = out@;
        let x = string_of(v[i].as_slice());
        out.push(x);
        assert(crate::shortcut::strings_view(out@) =~= crate::shortcut::strings_view(before).push(
            v@[i as int]@,
        ));
        assert(crate::text::vecs_view(v@).take(i + 1) =~= crate::text::vecs_view(v@).take(
            i as int,
        ).push(v@[i as int]@));
        i = i + 1;
    }
    assert(crate::text::vecs_view(v@).take(i as int) =~= crate::text::vecs_view(v@));
    out
}

/// The accounts that send for a group, in order, each once; the fallback
/// account when none is configured.
pub fn select_send_accounts(accounts: Option<&Vec<String>>, fallback_account: &str) -> (r: Vec<
    String,
>)
    ensures
        crate::shortcut::strings_view(r@) == send_accounts_spec(
            match accounts {
                Some(a) => Some(crate::shortcut::strings_view(a@)),
                None => None,
            },
            fallback_account@,
        ),
{
    let mut out: Vec<Vec<char>> = Vec::new();
    match accounts {
        Some(list) => {
            let ghost sv = crate::shortcut::strings_view(list@);
            let mut i: usize = 0;
            assert(sv.take(0) =~= Seq::<Seq<char>>::empty());
            while i < list.len()
                invariant
                    0 <= i <= list@.len(),
                    sv == crate::shortcut::strings_view(list@),
                    crate::text::vecs_view(out@) == unique_trimmed(sv.take(i as int)),
                decreases list@.len() - i,
            {
                assert(sv.take(i + 1).drop_last() =~= sv.take(i as int));
                assert(sv.take(i + 1).last() == list@[i as int]@);
                let v = chars_of(list[i].as_str());
                let t = trim_vec(&v);
                if t.len() > 0 && !contains_text(&out, &t) {
                    let ghost before = crate::text::vecs_view(out@);
                    let ghost tv = t@;
                    out.push(t);
                    assert(crate::text::vecs_view(out@) =~= before.push(tv));
                }
                i = i + 1;
            }
            assert(sv.take(i as int) =~= sv);
        },
        None => {
            assert(crate::text::vecs_view(out@) =~= Seq::<Seq<char>>::empty());
        },
    }
    if out.len() == 0 {
        let mut one: Vec<String> = Vec::new();
        one.push(owned(fallback_account));
        assert(crate::shortcut::strings_view(one@) =~= seq![fallback_account@]);
        return one;
    }
    strings_of(&out)
}

/// Who sent a message that went into a post.
#[derive(Debug, Clone)]
pub struct IngressAuthor {
    pub user_id: String,
    pub sender_name: Option<String>,
}

/// Whether an author is named in the text of a post: a real user id, and a
/// sender name (a post without one is anonymous).
pub open spec fn mention_spec(a: IngressAuthor) -> bool {
    let u = trim(a.user_id@);
    let name = match a.sender_name {
        Some(n) => trim(n@),
        None => Seq::empty(),
    };
    !(u.len() == 0 || u == "unknown"@ || u == "0"@) && name.len() > 0
}

/// Whether the author of a post is mentioned when it is published.
pub fn should_mention(author: &IngressAuthor) -> (r: bool)
    ensures
        r == mention_spec(*author),
{
    let uv = chars_of(author.user_id.as_str());
    let u = trim_vec(&uv);
    if u.len() == 0 || crate::text::eq_str(&u, "unknown") || crate::text::eq_str(&u, "0") {
        return false;
    }
    match &author.sender_name {
        Some(n) => {
            let nv = chars_of(n.as_str());
            let t = trim_vec(&nv);
            t.len() > 0
        },
        None => false,
    }
}

/// What the text of a batch needs to know of one post.
#[derive(Debug, Clone)]
pub struct BatchPostInfo {
    pub post_id: u128,
    pub external_code: Option<u64>,
    pub review_code: Option<u64>,
    pub anonymous: bool,
    pub authors: Vec<IngressAuthor>,
}

/// The number a post is published under: its external number, else its
/// review code, else its id.
pub open spec fn post_code(p: BatchPostInfo) -> nat {
    match p.external_code {
        Some(c) => c as nat,
        None => match p.review_code {
            Some(c) => c as nat,
            None => p.post_id as nat,
        },
    }
}

pub open spec fn min_code(ps: Seq<BatchPostInfo>) -> nat
    decreases ps.len(),
{
    if ps.len() <= 1 {
        post_code(ps[0])
    } else {
        let m = min_code(ps.drop_last());
        if post_code(ps.last()) < m {
            post_code(ps.last())
        } else {
            m
        }
    }
}

pub open spec fn max_code(ps: Seq<BatchPostInfo>) -> nat
    decreases ps.len(),
{
    if ps.len() <= 1 {
        post_code(ps[0])
    } else {
        let m = max_code(ps.drop_last());
        if post_code(ps.last()) > m {
            post_code(ps.last())
        } else {
            m
        }
    }
}

/// `#n`, or `#low~high` when the numbers differ, or `#0` for no post.
pub open spec fn batch_head(ps: Seq<BatchPostInfo>) -> Seq<char> {
    if ps.len() == 0 {
        "#0"@
    } else if min_code(ps) == max_code(ps) {
        "#"@ + dec(min_code(ps))
    } else {
        "#"@ + dec(min_code(ps)) + "~"@ + dec(max_code(ps))
    }
}

/// The trimmed ids of the authors that are mentioned, in order.
pub open spec fn author_ids(authors: Seq<IngressAuthor>) -> Seq<Seq<char>>
    decreases authors.len(),
{
    if authors.len() == 0 {
        Seq::empty()
    } else {
        author_ids(authors.drop_last()) + if mention_spec(authors.last()) {
            seq![trim(authors.last().user_id@)]
        } else {
            Seq::<Seq<char>>::empty()
        }
    }
}

/// The ids mentioned for each post that is not anonymous, in order.
pub open spec fn candidate_ids(ps: Seq<BatchPostInfo>) -> Seq<Seq<char>>
    decreases ps.len(),
{
    if ps.len() == 0 {
        Seq::empty()
    } else {
        candidate_ids(ps.drop_last()) + if ps.last().anonymous {
            Seq::<Seq<char>>::empty()
        } else {
            author_ids(ps.last().authors@)
        }
    }
}

/// `v` with each text kept at its first place only.
pub open spec fn dedup(v: Seq<Seq<char>>) -> Seq<Seq<char>>
    decreases v.len(),
{
    if v.len() == 0 {
        Seq::empty()
    } else {
        let prev = dedup(v.drop_last());
        if prev.contains(v.last()) {
            prev
        } else {
            prev.push(v.last())
        }
    }
}

pub open spec fn mention_text(id: Seq<char>) -> Seq<char> {
    "@{uin:"@ + id + ",nick:,who:1}"@
}

/// The mentions joined by `", "`.
pub open spec fn join_mentions(ids: Seq<Seq<char>>) -> Seq<char>
    decreases ids.len(),
{
    if ids.len() == 0 {
        Seq::empty()
    } else if ids.len() == 1 {
        mention_text(ids[0])
    } else {
        join_mentions(ids.drop_last()) + ", "@ + mention_text(ids.last())
    }
}

/// What `build_publish_text_for_batch` gives.
pub open spec fn publish_text_spec(ps: Seq<BatchPostInfo>, at_unprived_sender: bool) -> Seq<char> {
    let ids = dedup(candidate_ids(ps));
    if !at_unprived_sender || ids.len() == 0 {
        batch_head(ps)
    } else {
        batch_head(ps) + " "@ + join_mentions(ids)
    }
}

fn u128_to_string(n: u128) -> (s: String)
    ensures
        s@ == dec(n as nat),
    decreases n,
{
    if n < 10 {
        let mut s = String::new();
        let c = ((n as u8) + 48u8) as char;
        assert(c == crate::text::digit_char(n as int));
        s.push(c);
        assert(s@ =~= seq![crate::text::digit_char(n as int)]);
        s
    } else {
        let mut s = u128_to_string(n / 10);
        let c = (((n % 10) as u8) + 48u8) as char;
        s.push(c);
        s
    }
}

fn post_code_exec(p: &BatchPostInfo) -> (r: u128)
    ensures
        r == post_code(*p),
{
    match p.external_code {
        Some(c) => c as u128,
        None => match p.review_code {
            Some(c) => c as u128,
            None => p.post_id,
        },
    }
}

/// The text of a published batch: the numbers of its posts and, when
/// `at_unprived_sender`, a mention of each author who is not anonymous.
pub fn build_publish_text_for_batch(posts: &Vec<BatchPostInfo>, at_unprived_sender: bool) -> (r:
    String)
    ensures
        r@ == publish_text_spec(posts@, at_unprived_sender),
{
    let ps = posts;
    let mut text = if ps.len() == 0 {
        owned("#0")
    } else {
        let mut lo = post_code_exec(&ps[0]);
        let mut hi = lo;
        let mut i: usize = 1;
        assert(ps@.take(1).len() == 1);
        while i < ps.len()
            invariant
                1 <= i <= ps@.len(),
                lo == min_code(ps@.take(i as int)),
                hi == max_code(ps@.take(i as int)),
            decreases ps@.len() - i,
        {
            assert(ps@.take(i + 1).drop_last() =~= ps@.take(i as int));
            assert(ps@.take(i + 1).last() == ps@[i as int]);
            let c = post_code_exec(&ps[i]);
            if c < lo {
                lo = c;
            }
            if c > hi {
                hi = c;
            }
            i = i + 1;
        }
        assert(ps@.take(i as int) =~= ps@);
        let mut t = owned("#");
        let lo_s = u128_to_string(lo);
        push_seq(&mut t, lo_s.as_str());
        if lo != hi {
            push_seq(&mut t, "~");
            let hi_s = u128_to_string(hi);
            push_seq(&mut t, hi_s.as_str());
        }
        t
    };
    if !at_unprived_sender {
        return text;
    }
    let mut ids: Vec<Vec<char>> = Vec::new();
    let mut i: usize = 0;
    assert(ps@.take(0) =~= Seq::<BatchPostInfo>::empty());
    while i < ps.len()
        invariant
            0 <= i <= ps@.len(),
            crate::text::vecs_view(ids@) == dedup(candidate_ids(ps@.take(i as int))),
        decreases ps@.len() - i,
    {
        let p = &ps[i];
        let ghost base = candidate_ids(ps@.take(i as int));
        assert(ps@.take(i + 1).drop_last() =~= ps@.take(i as int));
        assert(ps@.take(i + 1).last() == *p);
        if !p.anonymous {
            let authors = &p.authors;
            let mut j: usize = 0;
            assert(authors@.take(0) =~= Seq::<IngressAuthor>::empty());
            assert(base + author_ids(authors@.take(0)) =~= base);
            while j < authors.len()
                invariant
                    0 <= j <= authors@.len(),
                    crate::text::vecs_view(ids@) == dedup(base + author_ids(authors@.take(j as int))),
                decreases authors@.len() - j,
            {
                let a = &authors[j];
                let ghost pre = author_ids(authors@.take(j as int));
                assert(authors@.take(j + 1).drop_last() =~= authors@.take(j as int));
                assert(authors@.take(j + 1).last() == *a);
                if should_mention(a) {
                    let uv = chars_of(a.user_id.as_str());
                    let u = trim_vec(&uv);
                    assert(base + author_ids(authors@.take(j + 1)) =~= (base + pre).push(u@));
                    assert((base + pre).push(u@).drop_last() =~= base + pre);
                    if !contains_text(&ids, &u) {
                        let ghost before = crate::text::vecs_view(ids@);
                        let ghost uu = u@;
                        ids.push(u);
                        assert(crate::text::vecs_view(ids@) =~= before.push(uu));
                    }
                } else {
                    assert(base + author_ids(authors@.take(j + 1)) =~= base + pre);
                }
                j = j + 1;
            }
            assert(authors@.take(j as int) =~= authors@);
        } else {
            assert(base + Seq::<Seq<char>>::empty() =~= base);
        }
        i = i + 1;
    }
    assert(ps@.take(i as int) =~= ps@);
    if ids.len() == 0 {
        return text;
    }
    let ghost iv = crate::text::vecs_view(ids@);
    let ghost head = text@;
    push_seq(&mut text, " ");
    let mut k: usize = 0;
    assert(iv.take(0) =~= Seq::<Seq<char>>::empty());
    while k < ids.len()
        invariant
            0 <= k <= ids@.len(),
            iv == crate::text::vecs_view(ids@),
            text@ == head + " "@ + join_mentions(iv.take(k as int)),
        decreases ids@.len() - k,
    {
        assert(iv.take(k + 1).drop_last() =~= iv.take(k as int));
        assert(iv.take(k + 1).last() == ids@[k as int]@);
        if k > 0 {
            push_seq(&mut text, ", ");
        } else {
            assert(iv.take(1)[0] == ids@[0]@);
        }
        push_seq(&mut text, "@{uin:");
        let id = string_of(ids[k].as_slice());
        push_seq(&mut text, id.as_str());
        push_seq(&mut text, ",nick:,who:1}");
        k = k + 1;
    }
    assert(iv.take(k as int) =~= iv);
    text
}

// ----------------------------------------------------------------------
// Choosing the posts of a batch
// ----------------------------------------------------------------------
/// How urgently a post is sent. Only normal posts are sent together with others.
#[derive(Debug, Clone, Copy, PartialEq, Eq, Structural)]
pub enum SendPriority {
    Normal,
    High,
}

/// A post waiting to be sent, with the number of images it would upload.
#[derive(Debug, Clone)]
pub struct QueuedSendPlan {
    pub post_id: u128,
    pub group_id: String,
    pub priority: SendPriority,
    pub not_before_ms: i64,
    pub seq: u64,
    pub image_count: usize,
}

/// A post to put back in the queue after a batch was taken.
#[derive(Debug, Clone, Copy, PartialEq, Eq, Structural)]
pub struct RequeuePostPlan {
    pub post_id: u128,
    pub priority: SendPriority,
    pub seq: u64,
}

/// `(seq, post id, images)` of a queued post.
pub type PlanKey = (u64, u128, usize);

/// Queue order: by sequence number, then by post id.
pub open spec fn key_before(a: PlanKey, b: PlanKey) -> bool {
    a.0 < b.0 || (a.0 == b.0 && a.1 < b.1)
}

/// Whether a plan may join a batch of `group_id` with `priority` at `now`.
pub open spec fn eligible(p: QueuedSendPlan, group_id: Seq<char>, priority: SendPriority, now: i64) -> bool {
    p.group_id@ == group_id && p.priority == priority && p.not_before_ms <= now
}

/// The keys of the eligible plans, in the order of `plans`.
pub open spec fn eligible_keys(
    plans: Seq<QueuedSendPlan>,
    group_id: Seq<char>,
    priority: SendPriority,
    now: i64,
) -> Seq<PlanKey>
    decreases plans.len(),
{
    if plans.len() == 0 {
        Seq::empty()
    } else {
        let prev = eligible_keys(plans.drop_last(), group_id, priority, now);
        let p = plans.last();
        if eligible(p, group_id, priority, now) {
            prev.push((p.seq, p.post_id, p.image_count))
        } else {
            prev
        }
    }
}

/// Index of the first key of `ks[..n]` that no other key comes before.
pub open spec fn min_index(ks: Seq<PlanKey>, n: int) -> int
    decreases n,
{
    if n <= 1 {
        0
    } else {
        let m = min_index(ks, n - 1);
        if key_before(ks[n - 1], ks[m]) {
            n - 1
        } else {
            m
        }
    }
}

pub proof fn lemma_min_index(ks: Seq<PlanKey>, n: int)
    requires
        1 <= n <= ks.len(),
    ensures
        0 <= min_index(ks, n) < n,
        forall|j: int| 0 <= j < n ==> !key_before(#[trigger] ks[j], ks[min_index(ks, n)]),
    decreases n,
{
    if n > 1 {
        lemma_min_index(ks, n - 1);
    }
}

/// The keys in queue order.
pub open spec fn sort_keys(ks: Seq<PlanKey>) -> Seq<PlanKey>
    decreases ks.len(),
{
    if ks.len() == 0 {
        Seq::empty()
    } else {
        proof {
            lemma_min_index(ks, ks.len() as int);
        }
        let m = min_index(ks, ks.len() as int);
        seq![ks[m]] + sort_keys(ks.remove(m))
    }
}

/// The keys without the one of post `id`.
pub open spec fn without_post(ks: Seq<PlanKey>, id: u128) -> Seq<PlanKey>
    decreases ks.len(),
{
    if ks.len() == 0 {
        Seq::empty()
    } else {
        let prev = without_post(ks.drop_last(), id);
        if ks.last().1 == id {
            prev
        } else {
            prev.push(ks.last())
        }
    }
}

pub open spec fn sat_add(a: int, b: int) -> int {
    if a + b > usize::MAX {
        usize::MAX as int
    } else {
        a + b
    }
}

/// How many of `others[i..]` join a batch that holds `1 + i` posts and
/// `total` images: each while the batch has room and its images stay within
/// the limit (0 for none).
pub open spec fn greedy_from(others: Seq<PlanKey>, i: int, total: int, max_batch: int, max_images: int) -> int
    decreases others.len() - i,
{
    if i < 0 || i >= others.len() {
        0
    } else if 1 + i >= max_batch || (max_images > 0 && sat_add(total, others[i].2 as int)
        > max_images) {
        0
    } else {
        1 + greedy_from(others, i + 1, sat_add(total, others[i].2 as int), max_batch, max_images)
    }
}

/// The largest batch: `max_queue`, or no limit when it is 0.
pub open spec fn max_batch_posts(max_queue: usize) -> int {
    if max_queue == 0 {
        usize::MAX as int
    } else {
        max_queue as int
    }
}

/// The posts of the batch that `leader` leads.
pub open spec fn batch_spec(
    others: Seq<PlanKey>,
    leader: u128,
    leader_priority: SendPriority,
    leader_images: usize,
    max_queue: usize,
    max_images_per_post: usize,
) -> Seq<u128> {
    let mb = max_batch_posts(max_queue);
    if leader_priority != SendPriority::Normal || mb <= 1 {
        seq![leader]
    } else {
        let k = greedy_from(others, 0, leader_images as int, mb, max_images_per_post as int);
        seq![leader] + others.take(k).map_values(|key: PlanKey| key.1)
    }
}

pub open spec fn requeue_spec(others: Seq<PlanKey>, priority: SendPriority) -> Seq<RequeuePostPlan> {
    others.map_values(|key: PlanKey| RequeuePostPlan { post_id: key.1, priority, seq: key.0 })
}

/// The queued posts other than the leader that may go with it, in queue order.
pub open spec fn others_spec(
    plans: Seq<QueuedSendPlan>,
    group_id: Seq<char>,
    leader: u128,
    priority: SendPriority,
    now: i64,
) -> Seq<PlanKey> {
    without_post(sort_keys(eligible_keys(plans, group_id, priority, now)), leader)
}

fn sort_plan_keys(keys: Vec<PlanKey>) -> (r: Vec<PlanKey>)
    ensures
        r@ == sort_keys(keys@),
{
    let mut rem = keys;
    let mut out: Vec<PlanKey> = Vec::new();
    let ghost orig = rem@;
    assert(out@ + sort_keys(rem@) =~= sort_keys(orig));
    while rem.len() > 0
        invariant
            out@ + sort_keys(rem@) == sort_keys(orig),
        decreases rem@.len(),
    {
        let mut m: usize = 0;
        let mut j: usize = 1;
        while j < rem.len()
            invariant
                1 <= j <= rem@.len(),
                m == min_index(rem@, j as int),
            decreases rem@.len() - j,
        {
            proof {
                lemma_min_index(rem@, j as int);
            }
            let a = rem[j];
            let b = rem[m];
            if a.0 < b.0 || (a.0 == b.0 && a.1 < b.1) {
                m = j;
            }
            j = j + 1;
        }
        proof {
            lemma_min_index(rem@, rem@.len() as int);
        }
        let ghost before = rem@;
        let k = rem.remove(m);
        assert(out@.push(k) + sort_keys(rem@) =~= out@ + sort_keys(before));
        out.push(k);
    }
    assert(out@ + sort_keys(rem@) =~= out@);
    out
}

/// The batch that a leading post takes from the queue of its group, and
/// the queued posts to put back. `leader_image_count` is the number of
/// images the leader uploads.
pub fn collect_batch_post_ids(
    plans: &Vec<QueuedSendPlan>,
    group_id: &str,
    leader: u128,
    leader_priority: SendPriority,
    started_at_ms: i64,
    max_queue: usize,
    max_images_per_post: usize,
    leader_image_count: usize,
) -> (r: (Vec<u128>, Vec<RequeuePostPlan>))
    ensures
        r.0@ == batch_spec(
            others_spec(plans@, group_id@, leader, leader_priority, started_at_ms),
            leader,
            leader_priority,
            leader_image_count,
            max_queue,
            max_images_per_post,
        ),
        r.1@ == requeue_spec(
            others_spec(plans@, group_id@, leader, leader_priority, started_at_ms),
            leader_priority,
        ),
{
    let mut keys: Vec<PlanKey> = Vec::new();
    let mut i: usize = 0;
    assert(plans@.take(0) =~= Seq::<QueuedSendPlan>::empty());
    while i < plans.len()
        invariant
            0 <= i <= plans@.len(),
            keys@ == eligible_keys(plans@.take(i as int), group_id@, leader_priority, started_at_ms),
        decreases plans@.len() - i,
    {
        let p = &plans[i];
        assert(plans@.take(i + 1).drop_last() =~= plans@.take(i as int));
        assert(plans@.take(i + 1).last() == *p);
        if crate::text::same_text(p.group_id.as_str(), group_id) && p.priority == leader_priority
            && p.not_before_ms <= started_at_ms {
            keys.push((p.seq, p.post_id, p.image_count));
        }
        i = i + 1;
    }
    assert(plans@.take(i as int) =~= plans@);
    let sorted = sort_plan_keys(keys);
    let mut others: Vec<PlanKey> = Vec::new();
    let mut requeue: Vec<RequeuePostPlan> = Vec::new();
    let mut j: usize = 0;
    assert(sorted@.take(0) =~= Seq::<PlanKey>::empty());
    while j < sorted.len()
        invariant
            0 <= j <= sorted@.len(),
            others@ == without_post(sorted@.take(j as int), leader),
            requeue@ == requeue_spec(others@, leader_priority),
        decreases sorted@.len() - j,
    {
        let k = sorted[j];
        assert(sorted@.take(j + 1).drop_last() =~= sorted@.take(j as int));
        assert(sorted@.take(j + 1).last() == k);
        if k.1 != leader {
            let ghost before = requeue@;
            others.push(k);
            requeue.push(RequeuePostPlan { post_id: k.1, priority: leader_priority, seq: k.0 });
            assert(requeue@ =~= requeue_spec(others@, leader_priority));
        }
        j = j + 1;
    }
    assert(sorted@.take(j as int) =~= sorted@);
    let mut batch: Vec<u128> = Vec::new();
    batch.push(leader);
    let max_batch: usize = if max_queue == 0 {
        usize::MAX
    } else {
        max_queue
    };
    if leader_priority != SendPriority::Normal || max_batch <= 1 {
        assert(batch@ =~= seq![leader]);
        return (batch, requeue);
    }
    let ghost mb = max_batch as int;
    let ghost mi = max_images_per_post as int;
    let mut total: usize = leader_image_count;
    let mut t: usize = 0;
    assert(others@.take(0).map_values(|key: PlanKey| key.1) =~= Seq::<u128>::empty());
    while t < others.len()
        invariant_except_break
            0 <= t <= others@.len(),
            batch@ == seq![leader] + others@.take(t as int).map_values(|key: PlanKey| key.1),
            greedy_from(others@, 0, leader_image_count as int, mb, mi) == t + greedy_from(
                others@,
                t as int,
                total as int,
                mb,
                mi,
            ),
            batch@.len() == 1 + t,
            mb == max_batch,
            mi == max_images_per_post,
        ensures
            batch@ == seq![leader] + others@.take(
                greedy_from(others@, 0, leader_image_count as int, mb, mi),
            ).map_values(|key: PlanKey| key.1),
        decreases others@.len() - t,
    {
        let k = others[t];
        let next = if k.2 > usize::MAX - total {
            usize::MAX
        } else {
            total + k.2
        };
        if batch.len() >= max_batch || (max_images_per_post > 0 && next > max_images_per_post) {
            break;
        }
        batch.push(k.1);
        assert(others@.take(t + 1).map_values(|key: PlanKey| key.1) =~= others@.take(
            t as int,
        ).map_values(|key: PlanKey| key.1).push(k.1));
        total = next;
        t = t + 1;
    }
    (batch, requeue)
}

// ----------------------------------------------------------------------
// Upload replies
// ----------------------------------------------------------------------
/// The `bo=` parameter of an image address, up to the next `&`.
pub open spec fn extract_bo_spec(v: Seq<char>) -> Option<Seq<char>> {
    match crate::text::find_from(v, "bo="@, 0) {
        None => None,
        Some(i) => {
            let rest = v.subrange(i + 3, v.len() as int);
            let end = match crate::text::find_char(rest, '&', 0) {
                Some(e) => e,
                None => rest.len() as int,
            };
            if end == 0 {
                None
            } else {
                Some(rest.take(end))
            }
        },
    }
}

/// The `bo=` parameter of an image address, when it is not empty.
pub fn extract_bo(value: &str) -> (r: Option<String>)
    ensures
        crate::json::opt_text(r) == extract_bo_spec(value@),
{
    let v = chars_of(value);
    let marker = chars_of("bo=");
    proof {
        reveal_strlit("bo=");
        crate::text::lemma_find_from(v@, marker@, 0);
    }
    assert(marker@.len() == 3);
    match crate::text::find_from_exec(&v, &marker, 0) {
        None => None,
        Some(i) => {
            assert(crate::text::occurs_at(v@, marker@, i as int));
            assert(i + 3 <= v.len());
            let rest = subvec(&v, i + 3, v.len());
            let end = match crate::text::find_char_from(&rest, '&', 0) {
                Some(e) => {
                    proof {
                        crate::text::lemma_find_char(rest@, '&', 0);
                    }
                    e
                },
                None => rest.len(),
            };
            if end == 0 {
                None
            } else {
                let head = subvec(&rest, 0, end);
                assert(head@ =~= rest@.take(end as int));
                Some(string_of(head.as_slice()))
            }
        },
    }
}

/// A number written out as JSON writes it.
pub open spec fn number_text(n: JsonNumber) -> Seq<char> {
    match n {
        JsonNumber::PosInt(v) => dec(v as nat),
        JsonNumber::NegInt(v) => dec_int(v as int),
        JsonNumber::Float(t) => t@,
    }
}

/// An error as `(kind, message)`.
pub open spec fn err_view(e: QzoneError) -> (QzoneErrorKind, Seq<char>) {
    (e.kind, e.message@)
}

/// What `field_to_string` gives: a string or a number as text.
pub open spec fn field_spec(data: JsonValue, key: Seq<char>) -> Result<Seq<char>, (QzoneErrorKind, Seq<char>)> {
    match crate::json::member(data, key) {
        None => Err((QzoneErrorKind::Unknown, "upload response missing "@ + key)),
        Some(JsonValue::Str(s)) => Ok(s@),
        Some(JsonValue::Number(n)) => Ok(number_text(n)),
        Some(_) => Err((QzoneErrorKind::Unknown, "invalid field "@ + key)),
    }
}

pub open spec fn str_result_view(r: Result<String, QzoneError>) -> Result<Seq<char>, (QzoneErrorKind, Seq<char>)> {
    match r {
        Ok(s) => Ok(s@),
        Err(e) => Err(err_view(e)),
    }
}

/// A field of an upload reply as text.
pub fn field_to_string(data: &JsonValue, key: &str) -> (r: Result<String, QzoneError>)
    ensures
        str_result_view(r) == field_spec(*data, key@),
{
    match data.get(key) {
        None => {
            let m = concat2("upload response missing ", key);
            Err(QzoneError { kind: QzoneErrorKind::Unknown, message: m })
        },
        Some(JsonValue::Str(s)) => Ok(owned(s.as_str())),
        Some(JsonValue::Number(n)) => match n {
            JsonNumber::PosInt(v) => Ok(u64_to_string(*v)),
            JsonNumber::NegInt(v) => Ok(i64_to_string(*v)),
            JsonNumber::Float(t) => Ok(owned(t.as_str())),
        },
        Some(_) => {
            let m = concat2("invalid field ", key);
            Err(QzoneError { kind: QzoneErrorKind::Unknown, message: m })
        },
    }
}

/// The text of member `key` of `d`, when it is a string.
pub open spec fn text_member(d: JsonValue, key: Seq<char>) -> Option<Seq<char>> {
    match crate::json::member(d, key) {
        Some(x) => crate::json::as_text(x),
        None => None,
    }
}

/// The fields of an upload reply, or the first that fails.
pub open spec fn rich_fields(data: JsonValue) -> Result<Seq<Seq<char>>, (QzoneErrorKind, Seq<char>)> {
    match field_spec(data, "albumid"@) {
        Err(e) => Err(e),
        Ok(albumid) => match field_spec(data, "lloc"@) {
            Err(e) => Err(e),
            Ok(lloc) => match field_spec(data, "sloc"@) {
                Err(e) => Err(e),
                Ok(sloc) => match field_spec(data, "type"@) {
                    Err(e) => Err(e),
                    Ok(kind) => match field_spec(data, "height"@) {
                        Err(e) => Err(e),
                        Ok(height) => match field_spec(data, "width"@) {
                            Err(e) => Err(e),
                            Ok(width) => Ok(seq![albumid, lloc, sloc, kind, height, width]),
                        },
                    },
                },
            },
        },
    }
}

/// `,albumid,lloc,sloc,type,height,width,,height,width`.
pub open spec fn richval_text(f: Seq<Seq<char>>) -> Seq<char> {
    ","@ + f[0] + ","@ + f[1] + ","@ + f[2] + ","@ + f[3] + ","@ + f[4] + ","@ + f[5] + ",,"@
        + f[4] + ","@ + f[5]
}

/// What `get_picbo_and_richval` gives.
pub open spec fn picbo_spec(upload: JsonValue, upload_text: Seq<char>) -> Result<
    (Seq<char>, Seq<char>),
    (QzoneErrorKind, Seq<char>),
> {
    let ret: int = match ret_code(upload) {
        Some(c) => c as int,
        None => -1,
    };
    if ret != 0 {
        let m = message_or(upload, "upload image failed"@);
        Err(
            (
                text_error_kind(m),
                m + "; "@ + "code"@ + "="@ + dec_int(ret) + "; body="@ + body_summary(upload_text),
            ),
        )
    } else {
        match crate::json::member(upload, "data"@) {
            None => Err((QzoneErrorKind::Unknown, "upload response missing data"@)),
            Some(data) => match text_member(data, "url"@) {
                None => Err((QzoneErrorKind::Unknown, "upload response missing url"@)),
                Some(url) => match extract_bo_spec(url) {
                    None => Err((QzoneErrorKind::Unknown, "upload response missing picbo"@)),
                    Some(url_bo) => {
                        let pre_bo = match text_member(data, "pre"@) {
                            Some(p) => extract_bo_spec(p),
                            None => None,
                        };
                        let first = match pre_bo {
                            Some(p) => p,
                            None => url_bo,
                        };
                        match rich_fields(data) {
                            Err(e) => Err(e),
                            Ok(f) => Ok((first + "\t"@ + url_bo, richval_text(f))),
                        }
                    },
                },
            },
        }
    }
}

pub open spec fn pair_result_view(r: Result<(String, String), QzoneError>) -> Result<
    (Seq<char>, Seq<char>),
    (QzoneErrorKind, Seq<char>),
> {
    match r {
        Ok((a, b)) => Ok((a@, b@)),
        Err(e) => Err(err_view(e)),
    }
}

/// The `pic_bo` and `richval` that a post needs for an uploaded image, read
/// from the upload reply; `upload_text` is that reply written out as
/// compact JSON.
pub fn get_picbo_and_richval(upload: &JsonValue, upload_text: &str) -> (r: Result<
    (String, String),
    QzoneError,
>)
    ensures
        pair_result_view(r) == picbo_spec(*upload, upload_text@),
{
    let ret: i64 = match upload.get("ret") {
        Some(v) => match v.as_i64() {
            Some(c) => c,
            None => -1,
        },
        None => -1,
    };
    if ret != 0 {
        let message = message_or_exec(upload, "upload image failed");
        return Err(classify_json_response_error(ret, message.as_str(), upload_text));
    }
    let data = match upload.get("data") {
        Some(d) => d,
        None => {
            return Err(QzoneError::unknown("upload response missing data"));
        },
    };
    let url = match data.get("url") {
        Some(u) => match u.as_str() {
            Some(t) => t,
            None => {
                return Err(QzoneError::unknown("upload response missing url"));
            },
        },
        None => {
            return Err(QzoneError::unknown("upload response missing url"));
        },
    };
    let url_bo = match extract_bo(url) {
        Some(b) => b,
        None => {
            return Err(QzoneError::unknown("upload response missing picbo"));
        },
    };
    let pre_bo = match data.get("pre") {
        Some(p) => match p.as_str() {
            Some(t) => extract_bo(t),
            None => None,
        },
        None => None,
    };
    let picbo = match pre_bo {
        Some(p) => concat3(p.as_str(), "\t", url_bo.as_str()),
        None => concat3(url_bo.as_str(), "\t", url_bo.as_str()),
    };
    let albumid = field_to_string(data, "albumid")?;
    let lloc = field_to_string(data, "lloc")?;
    let sloc = field_to_string(data, "sloc")?;
    let kind = field_to_string(data, "type")?;
    let height = field_to_string(data, "height")?;
    let width = field_to_string(data, "width")?;
    let mut richval = owned(",");
    push_seq(&mut richval, albumid.as_str());
    push_seq(&mut richval, ",");
    push_seq(&mut richval, lloc.as_str());
    push_seq(&mut richval, ",");
    push_seq(&mut richval, sloc.as_str());
    push_seq(&mut richval, ",");
    push_seq(&mut richval, kind.as_str());
    push_seq(&mut richval, ",");
    push_seq(&mut richval, height.as_str());
    push_seq(&mut richval, ",");
    push_seq(&mut richval, width.as_str());
    push_seq(&mut richval, ",,");
    push_seq(&mut richval, height.as_str());
    push_seq(&mut richval, ",");
    push_seq(&mut richval, width.as_str());
    Ok((picbo, richval))
}

// ----------------------------------------------------------------------
// Inline image sources, content types and the local preview page
// ----------------------------------------------------------------------
/// The bytes of an inline source and the MIME type it names, if any.
pub type InlineImage = (Option<String>, Vec<u8>);

/// A source read by its prefix, for `decode_inline_source`.
pub enum InlineKind {
    /// `data:` without a comma.
    BadDataUrl,
    /// `data:meta,payload`: the MIME type (the part of `meta` before the
    /// first `;`, when not empty), whether `meta` says base64, the payload.
    DataUrl(Option<Seq<char>>, bool, Seq<char>),
    /// `base64://payload`.
    Base64(Seq<char>),
    /// Neither.
    Other,
}

pub open spec fn inline_kind(s: Seq<char>) -> InlineKind {
    if crate::text::starts_with(s, "data:"@) {
        let rest = s.subrange(5, s.len() as int);
        match crate::text::find_char(rest, ',', 0) {
            None => InlineKind::BadDataUrl,
            Some(k) => {
                let meta = rest.take(k);
                let first = crate::text::split_char(meta, ';')[0];
                InlineKind::DataUrl(
                    if first.len() == 0 {
                        None
                    } else {
                        Some(first)
                    },
                    crate::text::contains_seq(meta, ";base64"@),
                    rest.subrange(k + 1, rest.len() as int),
                )
            },
        }
    } else if crate::text::starts_with(s, "base64://"@) {
        InlineKind::Base64(s.subrange(9, s.len() as int))
    } else {
        InlineKind::Other
    }
}

fn utf8_bytes(t: &str) -> (r: Vec<u8>)
    ensures
        r@ == vstd::utf8::encode_utf8(t@),
{
    let b = t.as_bytes();
    let mut out: Vec<u8> = Vec::new();
    let mut i: usize = 0;
    while i < b.len()
        invariant
            0 <= i <= b@.len(),
            b@ == vstd::utf8::encode_utf8(t@),
            out@ =~= b@.take(i as int),
        decreases b@.len() - i,
    {
        out.push(b[i]);
        i = i + 1;
    }
    assert(b@.take(i as int) =~= b@);
    out
}

/// The bytes of a `data:` or `base64://` source, with the MIME type a data
/// address names; nothing for any other source.
pub fn decode_inline_source(source: &str) -> (r: Result<Option<InlineImage>, QzoneError>)
    ensures
        match (inline_kind(source@), r) {
            (InlineKind::BadDataUrl, Err(e)) => e.kind == QzoneErrorKind::Unknown && e.message@
                == "invalid data url"@,
            (InlineKind::DataUrl(mime, is_b64, payload), Ok(Some((m, bytes)))) => crate::json::opt_text(m)
                == mime && if is_b64 {
                crate::codec::base64_decoded(payload) == Some(bytes@)
            } else {
                bytes@ == vstd::utf8::encode_utf8(payload)
            },
            (InlineKind::DataUrl(_, is_b64, payload), Err(e)) => is_b64
                && crate::codec::base64_decoded(payload) is None && e.kind
                == QzoneErrorKind::Unknown && crate::text::starts_with(
                e.message@,
                "invalid data url base64: "@,
            ),
            (InlineKind::Base64(payload), Ok(Some((m, bytes)))) => m is None
                && crate::codec::base64_decoded(payload) == Some(bytes@),
            (InlineKind::Base64(payload), Err(e)) => crate::codec::base64_decoded(payload) is None
                && e.kind == QzoneErrorKind::Unknown && crate::text::starts_with(
                e.message@,
                "invalid base64 image: "@,
            ),
            (InlineKind::Other, Ok(None)) => true,
            _ => false,
        },
{
    let s = chars_of(source);
    if crate::text::starts_with_str(&s, "data:") {
        proof {
            reveal_strlit("data:");
        }
        let rest = subvec(&s, 5, s.len());
        let k = match crate::text::find_char_from(&rest, ',', 0) {
            None => {
                return Err(QzoneError::unknown("invalid data url"));
            },
            Some(k) => k,
        };
        proof {
            crate::text::lemma_find_char(rest@, ',', 0);
        }
        let meta = subvec(&rest, 0, k);
        assert(meta@ =~= rest@.take(k as int));
        let payload = subvec(&rest, k + 1, rest.len());
        let pieces = crate::text::split_char_vec(&meta, ';');
        assert(crate::text::vecs_view(pieces@).len() > 0);
        let first = &pieces[0];
        assert(first@ == crate::text::split_char(meta@, ';')[0]);
        let mime = if first.len() == 0 {
            None
        } else {
            Some(string_of(first.as_slice()))
        };
        let p = string_of(payload.as_slice());
        if contains_str(&meta, ";base64") {
            match crate::codec::base64_decode(p.as_str()) {
                Ok(bytes) => {
                    return Ok(Some((mime, bytes)));
                },
                Err(e) => {
                    let detail = crate::codec::decode_error_text(&e);
                    let m = concat2("invalid data url base64: ", detail.as_str());
                    proof {
                        reveal_strlit("invalid data url base64: ");
                    }
                    assert(m@.subrange(0, 25) =~= "invalid data url base64: "@);
                    return Err(QzoneError { kind: QzoneErrorKind::Unknown, message: m });
                },
            }
        } else {
            let bytes = utf8_bytes(p.as_str());
            return Ok(Some((mime, bytes)));
        }
    }
    if crate::text::starts_with_str(&s, "base64://") {
        proof {
            reveal_strlit("base64://");
        }
        let payload = subvec(&s, 9, s.len());
        let p = string_of(payload.as_slice());
        match crate::codec::base64_decode(p.as_str()) {
            Ok(bytes) => {
                return Ok(Some((None, bytes)));
            },
            Err(e) => {
                let detail = crate::codec::decode_error_text(&e);
                let m = concat2("invalid base64 image: ", detail.as_str());
                proof {
                    reveal_strlit("invalid base64 image: ");
                }
                assert(m@.subrange(0, 22) =~= "invalid base64 image: "@);
                return Err(QzoneError { kind: QzoneErrorKind::Unknown, message: m });
            },
        }
    }
    Ok(None)
}

/// The file extension for a `Content-Type`.
pub open spec fn ext_for_type(content_type: Seq<char>) -> Option<Seq<char>> {
    let base = ascii_lower(trim(crate::text::split_char(content_type, ';')[0]));
    if base == "image/png"@ {
        Some("png"@)
    } else if base == "image/jpeg"@ {
        Some("jpg"@)
    } else if base == "image/gif"@ {
        Some("gif"@)
    } else if base == "image/webp"@ {
        Some("webp"@)
    } else if base == "image/svg+xml"@ {
        Some("svg"@)
    } else {
        None
    }
}

pub open spec fn static_text(r: Option<&'static str>) -> Option<Seq<char>> {
    match r {
        Some(s) => Some(s@),
        None => None,
    }
}

/// The file extension that a `Content-Type` stands for.
pub fn ext_from_content_type(content_type: &str) -> (r: Option<&'static str>)
    ensures
        static_text(r) == ext_for_type(content_type@),
{
    let c = chars_of(content_type);
    let pieces = crate::text::split_char_vec(&c, ';');
    assert(crate::text::vecs_view(pieces@).len() > 0);
    let t = trim_vec(&pieces[0]);
    let base = ascii_lower_vec(&t);
    if crate::text::eq_str(&base, "image/png") {
        Some("png")
    } else if crate::text::eq_str(&base, "image/jpeg") {
        Some("jpg")
    } else if crate::text::eq_str(&base, "image/gif") {
        Some("gif")
    } else if crate::text::eq_str(&base, "image/webp") {
        Some("webp")
    } else if crate::text::eq_str(&base, "image/svg+xml") {
        Some("svg")
    } else {
        None
    }
}

/// The extension of the file name of `path`, as `Path::extension` gives it
/// under the path rules of the system the library is built for (on Unix,
/// `/` separates components).
pub uninterp spec fn path_extension(path: Seq<char>) -> Option<Seq<char>>;

/// `std::path::Path::extension` of `path`, as text. The result is named,
/// not stated: it follows the target system's path rules.
#[verifier::external_body]
fn path_extension_of(path: &str) -> (r: Option<String>)
    ensures
        crate::json::opt_text(r) == path_extension(path@),
{
    std::path::Path::new(path).extension().and_then(|e| e.to_str()).map(|e| e.to_string())
}

/// The MIME type for the extension of a file.
pub open spec fn mime_for_path(path: Seq<char>) -> Option<Seq<char>> {
    match path_extension(path) {
        None => None,
        Some(e) => {
            let x = ascii_lower(e);
            if x == "png"@ {
                Some("image/png"@)
            } else if x == "jpg"@ || x == "jpeg"@ {
                Some("image/jpeg"@)
            } else if x == "gif"@ {
                Some("image/gif"@)
            } else if x == "webp"@ {
                Some("image/webp"@)
            } else if x == "svg"@ || x == "svgz"@ {
                Some("image/svg+xml"@)
            } else {
                None
            }
        },
    }
}

/// The MIME type of an image file, by its extension.
pub fn mime_from_path(path: &str) -> (r: Option<&'static str>)
    ensures
        static_text(r) == mime_for_path(path@),
{
    let ext = match path_extension_of(path) {
        None => {
            return None;
        },
        Some(e) => e,
    };
    let ev = chars_of(ext.as_str());
    let x = ascii_lower_vec(&ev);
    if crate::text::eq_str(&x, "png") {
        Some("image/png")
    } else if crate::text::eq_str(&x, "jpg") || crate::text::eq_str(&x, "jpeg") {
        Some("image/jpeg")
    } else if crate::text::eq_str(&x, "gif") {
        Some("image/gif")
    } else if crate::text::eq_str(&x, "webp") {
        Some("image/webp")
    } else if crate::text::eq_str(&x, "svg") || crate::text::eq_str(&x, "svgz") {
        Some("image/svg+xml")
    } else {
        None
    }
}

/// A 128-bit id as 32 lower-case hex digits.
pub fn id128_hex(value: u128) -> (s: String)
    ensures
        s@ == crate::codec::hex_fixed(value as nat, 32),
{
    crate::codec::id128_hex(value)
}

/// The port of the local preview server.
pub const EMUQZONE_PORT: u16 = 18080;

/// The page of the local preview server, which lists what would have been
/// published.
pub const EMUQZONE_PAGE: &'static str = r#"<!DOCTYPE html>
<html lang="en">
<head>
<meta charset="UTF-8">
<title>EmuQzone</title>
<style>
body { font-family: Arial, sans-serif; margin: 20px; }
.post { border: 1px solid #ddd; margin: 10px 0; padding: 15px; border-radius: 6px; }
.post-header { font-weight: bold; margin-bottom: 8px; }
.post-content { white-space: pre-wrap; margin-bottom: 8px; }
.post-images { display: flex; gap: 10px; flex-wrap: wrap; }
.post-image { max-width: 220px; max-height: 220px; border-radius: 4px; }
.refresh-btn { padding: 8px 14px; background: #1e88e5; color: white; border: none; border-radius: 4px; cursor: pointer; }
</style>
</head>
<body>
<h1>EmuQzone</h1>
<p>Listening on http://127.0.0.1:18080</p>
<button class="refresh-btn" onclick="loadData()">Refresh</button>
<div id="posts"></div>
<script>
function loadData() {
  fetch('/data')
    .then(r => r.json())
    .then(data => {
      const posts = document.getElementById('posts');
      if (!data.length) {
        posts.innerHTML = '<p>No posts yet.</p>';
        return;
      }
      const ordered = [...data].sort((a, b) => b.timestamp_ms - a.timestamp_ms);
      posts.innerHTML = ordered.map(post => `
        <div class="post">
          <div class="post-header">Post #${post.id} - ${post.timestamp_ms}</div>
          <div class="post-content">${post.text || ''}</div>
          ${post.images && post.images.length ? `
            <div class="post-images">
              ${post.images.map(img => `<img src="${img}" alt="image" class="post-image">`).join('')}
            </div>` : ''}
          <div>Status: ${post.status} | Images: ${post.image_count || 0}</div>
        </div>
      `).join('');
    })
    .catch(() => {
      document.getElementById('posts').innerHTML = '<p>Failed to load data.</p>';
    });
}
loadData();
setInterval(loadData, 5000);
</script>
</body>
</html>"#;

/// The page of the local preview server.
pub fn emuqzone_html() -> (r: String)
    ensures
        r@ == EMUQZONE_PAGE@,
{
    owned(EMUQZONE_PAGE)
}

/// How many posts the local preview server keeps.
pub const EMUQZONE_MAX_POSTS: usize = 50;

/// A post as the local preview server shows it.
#[derive(Debug, Clone)]
pub struct EmuQzonePost {
    pub id: u64,
    pub timestamp_ms: i64,
    pub text: String,
    pub images: Vec<String>,
    pub image_count: usize,
    pub status: String,
}

/// The posts that the local preview server shows: the latest ones, oldest
/// first, each with the next number.
pub struct EmuQzoneState {
    posts: Vec<EmuQzonePost>,
    next_id: u64,
}

impl EmuQzoneState {
    pub closed spec fn posts_view(&self) -> Seq<EmuQzonePost> {
        self.posts@
    }

    pub closed spec fn next_id_of(&self) -> u64 {
        self.next_id
    }

    /// No more posts are kept than the server shows.
    pub open spec fn wf(&self) -> bool {
        self.posts_view().len() <= EMUQZONE_MAX_POSTS
    }

    /// The posts are numbered in increasing order, below the next number.
    pub open spec fn ordered(&self) -> bool {
        &&& forall|i: int, j: int|
            0 <= i < j < self.posts_view().len() ==> (#[trigger] self.posts_view()[i]).id
                < (#[trigger] self.posts_view()[j]).id
        &&& forall|i: int|
            0 <= i < self.posts_view().len() ==> (#[trigger] self.posts_view()[i]).id
                < self.next_id_of()
    }

    pub fn new() -> (r: Self)
        ensures
            r.wf(),
            r.ordered(),
            r.posts_view().len() == 0,
            r.next_id_of() == 0,
    {
        EmuQzoneState { posts: Vec::new(), next_id: 0 }
    }

    pub fn posts(&self) -> (r: &Vec<EmuQzonePost>)
        ensures
            r@ == self.posts_view(),
    {
        &self.posts
    }

    /// Adds a post published at `timestamp_ms`, dropping the oldest when
    /// more would be kept than the server shows.
    pub fn append(&mut self, text: String, images: Vec<String>, timestamp_ms: i64)
        requires
            old(self).wf(),
        ensures
            final(self).wf(),
            ({
                let before = old(self).posts_view();
                let after = final(self).posts_view();
                let p = after.last();
                &&& after.len() >= 1
                &&& after.len() == if before.len() < EMUQZONE_MAX_POSTS {
                    before.len() + 1
                } else {
                    EMUQZONE_MAX_POSTS as nat
                }
                &&& after.drop_last() == before.skip(before.len() + 1 - after.len())
                &&& p.id == old(self).next_id_of()
                &&& p.timestamp_ms == timestamp_ms
                &&& p.text == text
                &&& p.images == images
                &&& p.image_count == images@.len()
                &&& p.status@ == "success"@
            }),
            final(self).next_id_of() == if old(self).next_id_of() < u64::MAX {
                (old(self).next_id_of() + 1) as u64
            } else {
                u64::MAX
            },
            (old(self).ordered() && old(self).next_id_of() < u64::MAX) ==> final(self).ordered(),
    {
        let ghost before = self.posts@;
        let count = images.len();
        let post = EmuQzonePost {
            id: self.next_id,
            timestamp_ms,
            text,
            images,
            image_count: count,
            status: owned("success"),
        };
        self.next_id = self.next_id.saturating_add(1);
        self.posts.push(post);
        if self.posts.len() > EMUQZONE_MAX_POSTS {
            self.posts.remove(0);
        }
        proof {
            let after = self.posts@;
            assert(after.drop_last() =~= before.skip(before.len() + 1 - after.len()));
        }
    }
}

/// A post of the local preview server (stored as `EmuQzoneState`).
pub fn append_emuqzone_post(state: &mut EmuQzoneState, text: String, images: Vec<String>, timestamp_ms: i64)
    requires
        old(state).wf(),
    ensures
        final(state).wf(),
        final(state).posts_view().last().id == old(state).next_id_of(),
        final(state).posts_view().last().text == text,
        final(state).posts_view().last().images == images,
{
    state.append(text, images, timestamp_ms);
}

/// What the local preview server answers.
#[derive(Debug, Clone, Copy, PartialEq, Eq, Structural)]
pub enum EmuRoute {
    /// The page.
    Page,
    /// The posts, as JSON.
    Data,
    NotFound,
}

/// The path of an HTTP request: the second word of its first line, or `/`.
pub open spec fn request_path(request: Seq<char>) -> Seq<char> {
    let line = match crate::text::find_char(request, '\n', 0) {
        Some(k) => request.subrange(0, k),
        None => request,
    };
    let words = crate::text::tokens(line);
    if words.len() >= 2 {
        words[1]
    } else {
        "/"@
    }
}

pub fn emuqzone_route(request: &str) -> (r: EmuRoute)
    ensures
        r == if request_path(request@) == "/"@ {
            EmuRoute::Page
        } else if request_path(request@) == "/data"@ {
            EmuRoute::Data
        } else {
            EmuRoute::NotFound
        },
{
    let v = chars_of(request);
    let line = match crate::text::find_char_from(&v, '\n', 0) {
        Some(k) => {
            proof {
                crate::text::lemma_find_char(v@, '\n', 0);
            }
            subvec(&v, 0, k)
        },
        None => v,
    };
    let words = crate::text::tokens_vec(&line);
    let path = if words.len() >= 2 {
        assert(crate::text::vecs_view(words@)[1] == words@[1]@);
        string_of(words[1].as_slice())
    } else {
        owned("/")
    };
    let pv = chars_of(path.as_str());
    if crate::text::eq_str(&pv, "/") {
        EmuRoute::Page
    } else if crate::text::eq_str(&pv, "/data") {
        EmuRoute::Data
    } else {
        EmuRoute::NotFound
    }
}

pub open spec fn status_text_spec(status: u16) -> Seq<char> {
    if status == 200 {
        "OK"@
    } else if status == 404 {
        "Not Found"@
    } else {
        "Error"@
    }
}

/// The head of an HTTP response of the local preview server.
pub fn http_response_head(status: u16, content_type: &str, body_len: usize) -> (r: String)
    ensures
        r@ == "HTTP/1.1 "@ + dec(status as nat) + " "@ + status_text_spec(status)
            + "\r\nContent-Type: "@ + content_type@ + "\r\nContent-Length: "@ + dec(body_len as nat)
            + "\r\nConnection: close\r\nAccess-Control-Allow-Origin: *\r\n\r\n"@,
{
    let code = u64_to_string(status as u64);
    let text = if status == 200 {
        "OK"
    } else if status == 404 {
        "Not Found"
    } else {
        "Error"
    };
    let len = u64_to_string(body_len as u64);
    let mut out = concat3("HTTP/1.1 ", code.as_str(), " ");
    push_seq(&mut out, text);
    push_seq(&mut out, "\r\nContent-Type: ");
    push_seq(&mut out, content_type);
    push_seq(&mut out, "\r\nContent-Length: ");
    push_seq(&mut out, len.as_str());
    push_seq(&mut out, "\r\nConnection: close\r\nAccess-Control-Allow-Origin: *\r\n\r\n");
    out
}

// ----------------------------------------------------------------------
// JSON inside callback pages
// ----------------------------------------------------------------------
/// Where the object that opens before `i` closes: scanning from `i` with
/// `depth` braces open, inside a string or not, after a backslash in one or
/// not. `None` when a brace closes that was never opened or the text ends.
pub open spec fn balanced_end(s: Seq<char>, i: int, depth: nat, in_string: bool, escape: bool) -> Option<
    int,
>
    decreases s.len() - i,
{
    if i < 0 || i >= s.len() {
        None
    } else {
        let c = s[i];
        if in_string {
            if escape {
                balanced_end(s, i + 1, depth, true, false)
            } else if c == '\\' {
                balanced_end(s, i + 1, depth, true, true)
            } else if c == '"' {
                balanced_end(s, i + 1, depth, false, false)
            } else {
                balanced_end(s, i + 1, depth, true, false)
            }
        } else if c == '"' {
            balanced_end(s, i + 1, depth, true, false)
        } else if c == '{' {
            balanced_end(s, i + 1, depth + 1, false, false)
        } else if c == '}' {
            if depth == 0 {
                None
            } else if depth == 1 {
                Some(i + 1)
            } else {
                balanced_end(s, i + 1, (depth - 1) as nat, false, false)
            }
        } else {
            balanced_end(s, i + 1, depth, false, false)
        }
    }
}

/// The balanced `{...}` object that starts at character `start` of `s`.
pub open spec fn balanced_slice(s: Seq<char>, start: int) -> Option<Seq<char>> {
    if start < 0 || start > s.len() {
        None
    } else {
        match balanced_end(s, start, 0, false, false) {
            Some(end) => Some(s.subrange(start, end)),
            None => None,
        }
    }
}

pub proof fn lemma_balanced_end(s: Seq<char>, i: int, depth: nat, in_string: bool, escape: bool)
    requires
        0 <= i,
    ensures
        match balanced_end(s, i, depth, in_string, escape) {
            Some(e) => i < e <= s.len(),
            None => true,
        },
    decreases s.len() - i,
{
    if i < s.len() {
        let c = s[i];
        if in_string {
            if escape {
                lemma_balanced_end(s, i + 1, depth, true, false);
            } else if c == '\\' {
                lemma_balanced_end(s, i + 1, depth, true, true);
            } else if c == '"' {
                lemma_balanced_end(s, i + 1, depth, false, false);
            } else {
                lemma_balanced_end(s, i + 1, depth, true, false);
            }
        } else if c == '"' {
            lemma_balanced_end(s, i + 1, depth, true, false);
        } else if c == '{' {
            lemma_balanced_end(s, i + 1, depth + 1, false, false);
        } else if c == '}' {
            if depth > 1 {
                lemma_balanced_end(s, i + 1, (depth - 1) as nat, false, false);
            }
        } else {
            lemma_balanced_end(s, i + 1, depth, false, false);
        }
    }
}

fn balanced_end_exec(s: &Vec<char>, start: usize) -> (r: Option<usize>)
    requires
        start <= s@.len(),
    ensures
        match r {
            Some(e) => balanced_end(s@, start as int, 0, false, false) == Some(e as int),
            None => balanced_end(s@, start as int, 0, false, false) is None,
        },
{
    let mut depth: usize = 0;
    let mut in_string = false;
    let mut escape = false;
    let mut i = start;
    while i < s.len()
        invariant
            start <= i <= s@.len(),
            depth <= i,
            !in_string ==> !escape,
            balanced_end(s@, i as int, depth as nat, in_string, escape) == balanced_end(
                s@,
                start as int,
                0,
                false,
                false,
            ),
        decreases s@.len() - i,
    {
        let c = s[i];
        if in_string {
            if escape {
                escape = false;
            } else if c == '\\' {
                escape = true;
            } else if c == '"' {
                in_string = false;
            }
        } else if c == '"' {
            in_string = true;
        } else if c == '{' {
            depth = depth + 1;
        } else if c == '}' {
            if depth == 0 {
                return None;
            }
            if depth == 1 {
                return Some(i + 1);
            }
            depth = depth - 1;
        }
        i = i + 1;
    }
    None
}

/// The balanced `{...}` object that starts at character `start` of `body`:
/// braces inside strings do not count.
pub fn extract_balanced_json(body: &str, start: usize) -> (r: Option<String>)
    ensures
        crate::json::opt_text(r) == balanced_slice(body@, start as int),
{
    let s = chars_of(body);
    if start > s.len() {
        return None;
    }
    match balanced_end_exec(&s, start) {
        None => None,
        Some(end) => {
            proof {
                lemma_balanced_end(s@, start as int, 0, false, false);
            }
            let t = subvec(&s, start, end);
            Some(string_of(t.as_slice()))
        },
    }
}

/// The objects found after each place of `marker` in `t` from `offset`:
/// the balanced object from the first `{` after the marker, where there is one.
pub open spec fn marker_candidates(t: Seq<char>, marker: Seq<char>, offset: int) -> Seq<Seq<char>>
    decreases t.len() + 1 - offset,
{
    if marker.len() == 0 || offset < 0 {
        Seq::empty()
    } else {
        proof {
            crate::text::lemma_find_from(t, marker, offset);
        }
        match crate::text::find_from(t, marker, offset) {
            None => Seq::empty(),
            Some(pos) => {
                let here = match crate::text::find_char(t, '{', pos + marker.len()) {
                    Some(open) => match balanced_slice(t, open) {
                        Some(x) => seq![x],
                        None => Seq::empty(),
                    },
                    None => Seq::empty(),
                };
                here + marker_candidates(t, marker, pos + marker.len())
            },
        }
    }
}

/// The last position before `end` where `t` holds `c`.
pub open spec fn rfind_char(t: Seq<char>, c: char, end: int) -> Option<int>
    decreases end,
{
    if end <= 0 || end > t.len() {
        None
    } else if t[end - 1] == c {
        Some(end - 1)
    } else {
        rfind_char(t, c, end - 1)
    }
}

/// The objects that enclose each place of `key` in `t` from `offset`: from
/// the last `{` before it. The search ends at a place with no `{` before it.
pub open spec fn key_candidates(t: Seq<char>, key: Seq<char>, offset: int) -> Seq<Seq<char>>
    decreases t.len() + 1 - offset,
{
    if key.len() == 0 || offset < 0 {
        Seq::empty()
    } else {
        proof {
            crate::text::lemma_find_from(t, key, offset);
        }
        match crate::text::find_from(t, key, offset) {
            None => Seq::empty(),
            Some(pos) => match rfind_char(t, '{', pos) {
                None => Seq::empty(),
                Some(start) => {
                    let here = match balanced_slice(t, start) {
                        Some(x) => seq![x],
                        None => Seq::empty(),
                    };
                    here + key_candidates(t, key, pos + key.len())
                },
            },
        }
    }
}

/// The texts to try, in order, as the JSON of a reply that may be wrapped
/// in a callback page: the whole body; the objects after
/// `frameElement.callback`; those after `cb(`; those around `"ret"`; and the
/// object at the first `{`.
pub open spec fn proxy_candidates_spec(body: Seq<char>) -> Seq<Seq<char>> {
    let t = trim(body);
    let last = match crate::text::find_char(t, '{', 0) {
        Some(start) => match balanced_slice(t, start) {
            Some(x) => seq![x],
            None => Seq::empty(),
        },
        None => Seq::empty(),
    };
    seq![body] + marker_candidates(t, "frameElement.callback"@, 0) + marker_candidates(t, "cb("@, 0)
        + key_candidates(t, "\"ret\""@, 0) + last
}

fn balanced_vec(t: &Vec<char>, start: usize) -> (r: Option<Vec<char>>)
    ensures
        match r {
            Some(x) => balanced_slice(t@, start as int) == Some(x@),
            None => balanced_slice(t@, start as int) is None,
        },
{
    if start > t.len() {
        return None;
    }
    match balanced_end_exec(t, start) {
        None => None,
        Some(end) => {
            proof {
                lemma_balanced_end(t@, start as int, 0, false, false);
            }
            Some(subvec(t, start, end))
        },
    }
}

fn push_marker_candidates(out: &mut Vec<Vec<char>>, t: &Vec<char>, marker: &str)
    requires
        marker@.len() > 0,
    ensures
        crate::text::vecs_view(final(out)@) == crate::text::vecs_view(old(out)@)
            + marker_candidates(t@, marker@, 0),
{
    let m = chars_of(marker);
    let mut offset: usize = 0;
    assert(crate::text::vecs_view(out@) + marker_candidates(t@, m@, 0) =~= crate::text::vecs_view(
        old(out)@,
    ) + marker_candidates(t@, m@, 0));
    loop
        invariant
            m@ == marker@,
            m@.len() > 0,
            offset <= t@.len() + 1,
            crate::text::vecs_view(out@) + marker_candidates(t@, m@, offset as int)
                == crate::text::vecs_view(old(out)@) + marker_candidates(t@, m@, 0),
        decreases t@.len() + 1 - offset,
    {
        proof {
            crate::text::lemma_find_from(t@, m@, offset as int);
        }
        match crate::text::find_from_exec(t, &m, offset) {
            None => {
                assert(crate::text::vecs_view(out@) + Seq::<Seq<char>>::empty()
                    =~= crate::text::vecs_view(out@));
                return ;
            },
            Some(pos) => {
                assert(crate::text::occurs_at(t@, m@, pos as int));
                assert(pos + m.len() <= t.len());
                let after = pos + m.len();
                let ghost before = crate::text::vecs_view(out@);
                let ghost here: Seq<Seq<char>> = match crate::text::find_char(t@, '{', after as int) {
                    Some(open) => match balanced_slice(t@, open) {
                        Some(x) => seq![x],
                        None => Seq::empty(),
                    },
                    None => Seq::empty(),
                };
                match crate::text::find_char_from(t, '{', after) {
                    Some(open) => {
                        match balanced_vec(t, open) {
                            Some(x) => {
                                let ghost xv = x@;
                                out.push(x);
                                assert(crate::text::vecs_view(out@) =~= before + here);
                            },
                            None => {
                                assert(crate::text::vecs_view(out@) =~= before + here);
                            },
                        }
                    },
                    None => {
                        assert(crate::text::vecs_view(out@) =~= before + here);
                    },
                }
                assert(marker_candidates(t@, m@, offset as int) == here + marker_candidates(
                    t@,
                    m@,
                    after as int,
                ));
                assert((before + here) + marker_candidates(t@, m@, after as int) =~= before + (here
                    + marker_candidates(t@, m@, after as int)));
                offset = after;
            },
        }
    }
}

fn rfind_char_exec(t: &Vec<char>, c: char, end: usize) -> (r: Option<usize>)
    requires
        end <= t@.len(),
    ensures
        match r {
            Some(i) => rfind_char(t@, c, end as int) == Some(i as int),
            None => rfind_char(t@, c, end as int) is None,
        },
{
    let mut e = end;
    while e > 0
        invariant
            e <= end <= t@.len(),
            rfind_char(t@, c, e as int) == rfind_char(t@, c, end as int),
        decreases e,
    {
        if t[e - 1] == c {
            return Some(e - 1);
        }
        e = e - 1;
    }
    None
}

fn push_key_candidates(out: &mut Vec<Vec<char>>, t: &Vec<char>, key: &str)
    requires
        key@.len() > 0,
    ensures
        crate::text::vecs_view(final(out)@) == crate::text::vecs_view(old(out)@) + key_candidates(
            t@,
            key@,
            0,
        ),
{
    let k = chars_of(key);
    let mut offset: usize = 0;
    loop
        invariant
            k@ == key@,
            k@.len() > 0,
            offset <= t@.len() + 1,
            crate::text::vecs_view(out@) + key_candidates(t@, k@, offset as int)
                == crate::text::vecs_view(old(out)@) + key_candidates(t@, k@, 0),
        decreases t@.len() + 1 - offset,
    {
        proof {
            crate::text::lemma_find_from(t@, k@, offset as int);
        }
        match crate::text::find_from_exec(t, &k, offset) {
            None => {
                assert(crate::text::vecs_view(out@) + Seq::<Seq<char>>::empty()
                    =~= crate::text::vecs_view(out@));
                return ;
            },
            Some(pos) => {
                assert(crate::text::occurs_at(t@, k@, pos as int));
                assert(pos + k.len() <= t.len());
                match rfind_char_exec(t, '{', pos) {
                    None => {
                        assert(crate::text::vecs_view(out@) + Seq::<Seq<char>>::empty()
                            =~= crate::text::vecs_view(out@));
                        return ;
                    },
                    Some(start) => {
                        let ghost before = crate::text::vecs_view(out@);
                        let ghost here: Seq<Seq<char>> = match balanced_slice(t@, start as int) {
                            Some(x) => seq![x],
                            None => Seq::empty(),
                        };
                        match balanced_vec(t, start) {
                            Some(x) => {
                                out.push(x);
                                assert(crate::text::vecs_view(out@) =~= before + here);
                            },
                            None => {
                                assert(crate::text::vecs_view(out@) =~= before + here);
                            },
                        }
                        let after = pos + k.len();
                        assert((before + here) + key_candidates(t@, k@, after as int) =~= before + (
                        here + key_candidates(t@, k@, after as int)));
                        offset = after;
                    },
                }
            },
        }
    }
}

/// The texts to try, in order, as the JSON of a reply that may come wrapped
/// in a callback page; the first that parses is the reply.
pub fn proxy_callback_candidates(body: &str) -> (r: Vec<String>)
    ensures
        crate::shortcut::strings_view(r@) == proxy_candidates_spec(body@),
{
    let b = chars_of(body);
    let t = trim_vec(&b);
    let mut out: Vec<Vec<char>> = Vec::new();
    let ghost bv = b@;
    out.push(b);
    assert(crate::text::vecs_view(out@) =~= seq![bv]);
    proof {
        reveal_strlit("frameElement.callback");
        reveal_strlit("cb(");
        reveal_strlit("\"ret\"");
    }
    push_marker_candidates(&mut out, &t, "frameElement.callback");
    push_marker_candidates(&mut out, &t, "cb(");
    push_key_candidates(&mut out, &t, "\"ret\"");
    let ghost before = crate::text::vecs_view(out@);
    let ghost last: Seq<Seq<char>> = match crate::text::find_char(t@, '{', 0) {
        Some(start) => match balanced_slice(t@, start) {
            Some(x) => seq![x],
            None => Seq::empty(),
        },
        None => Seq::empty(),
    };
    match crate::text::find_char_from(&t, '{', 0) {
        Some(start) => match balanced_vec(&t, start) {
            Some(x) => {
                out.push(x);
                assert(crate::text::vecs_view(out@) =~= before + last);
            },
            None => {
                assert(crate::text::vecs_view(out@) =~= before + last);
            },
        },
        None => {
            assert(crate::text::vecs_view(out@) =~= before + last);
        },
    }
    let r = strings_of(&out);
    assert(crate::text::vecs_view(out@) =~= proxy_candidates_spec(body@));
    r
}

// ----------------------------------------------------------------------
// Settings
// ----------------------------------------------------------------------
/// How each group publishes. `N` is the bot connection settings of a group.
#[derive(Debug, Clone)]
pub struct QzoneRuntimeConfig<N> {
    pub napcat_by_group: Vec<(String, N)>,
    pub default_napcat: Option<N>,
    pub accounts_by_group: Vec<(String, Vec<String>)>,
    pub at_unprived_sender: bool,
    pub max_queue_by_group: Vec<(String, usize)>,
    pub max_images_per_post_by_group: Vec<(String, usize)>,
    pub individual_images_by_group: Vec<(String, bool)>,
    pub default_max_queue: usize,
    pub default_max_images_per_post: usize,
    pub default_individual_images: bool,
    pub use_virt_qzone: bool,
}

/// The value of `group` in an association list: its last entry.
pub open spec fn group_value<T>(m: Seq<(String, T)>, group: Seq<char>) -> Option<T>
    decreases m.len(),
{
    if m.len() == 0 {
        None
    } else if m.last().0@ == group {
        Some(m.last().1)
    } else {
        group_value(m.drop_last(), group)
    }
}

fn group_index<T>(m: &Vec<(String, T)>, group: &str) -> (r: Option<usize>)
    ensures
        match r {
            Some(i) => i < m@.len() && group_value(m@, group@) == Some(m@[i as int].1),
            None => group_value(m@, group@) is None,
        },
{
    let mut n = m.len();
    assert(m@.take(n as int) =~= m@);
    while n > 0
        invariant
            n <= m@.len(),
            group_value(m@.take(n as int), group@) == group_value(m@, group@),
        decreases n,
    {
        assert(m@.take(n as int).drop_last() =~= m@.take(n - 1));
        assert(m@.take(n as int).last() == m@[n - 1]);
        if crate::text::same_text(m[n - 1].0.as_str(), group) {
            return Some(n - 1);
        }
        n = n - 1;
    }
    assert(m@.take(0) =~= Seq::<(String, T)>::empty());
    None
}

impl<N> QzoneRuntimeConfig<N> {
    /// The largest batch for a group.
    pub fn max_queue_for(&self, group_id: &str) -> (r: usize)
        ensures
            r == match group_value(self.max_queue_by_group@, group_id@) {
                Some(v) => v,
                None => self.default_max_queue,
            },
    {
        match group_index(&self.max_queue_by_group, group_id) {
            Some(i) => self.max_queue_by_group[i].1,
            None => self.default_max_queue,
        }
    }

    /// The most images in one batch for a group.
    pub fn max_images_per_post_for(&self, group_id: &str) -> (r: usize)
        ensures
            r == match group_value(self.max_images_per_post_by_group@, group_id@) {
                Some(v) => v,
                None => self.default_max_images_per_post,
            },
    {
        match group_index(&self.max_images_per_post_by_group, group_id) {
            Some(i) => self.max_images_per_post_by_group[i].1,
            None => self.default_max_images_per_post,
        }
    }

    /// Whether a group also uploads the original images of its posts.
    pub fn individual_images_for(&self, group_id: &str) -> (r: bool)
        ensures
            r == match group_value(self.individual_images_by_group@, group_id@) {
                Some(v) => v,
                None => self.default_individual_images,
            },
    {
        match group_index(&self.individual_images_by_group, group_id) {
            Some(i) => self.individual_images_by_group[i].1,
            None => self.default_individual_images,
        }
    }

    /// The configured accounts of a group, if any.
    pub fn accounts_for(&self, group_id: &str) -> (r: Option<&Vec<String>>)
        ensures
            match r {
                Some(v) => group_value(self.accounts_by_group@, group_id@) == Some(*v),
                None => group_value(self.accounts_by_group@, group_id@) is None,
            },
    {
        match group_index(&self.accounts_by_group, group_id) {
            Some(i) => Some(&self.accounts_by_group[i].1),
            None => None,
        }
    }

    /// The bot connection of a group, or the default one.
    pub fn napcat_for(&self, group_id: &str) -> (r: Option<&N>)
        ensures
            match r {
                Some(v) => match group_value(self.napcat_by_group@, group_id@) {
                    Some(g) => *v == g,
                    None => self.default_napcat == Some(*v),
                },
                None => group_value(self.napcat_by_group@, group_id@) is None
                    && self.default_napcat is None,
            },
    {
        match group_index(&self.napcat_by_group, group_id) {
            Some(i) => Some(&self.napcat_by_group[i].1),
            None => match &self.default_napcat {
                Some(n) => Some(n),
                None => None,
            },
        }
    }
}

// ----------------------------------------------------------------------
// Laws
// ----------------------------------------------------------------------
/// Every key that `sort_keys` gives out was among its input.
proof fn lemma_sort_keys_from_input(ks: Seq<PlanKey>)
    ensures
        forall|x: PlanKey| #[trigger] sort_keys(ks).contains(x) ==> ks.contains(x),
        sort_keys(ks).len() == ks.len(),
    decreases ks.len(),
{
    if ks.len() > 0 {
        lemma_min_index(ks, ks.len() as int);
        let m = min_index(ks, ks.len() as int);
        let rest = ks.remove(m);
        ks.remove_ensures(m);
        lemma_sort_keys_from_input(rest);
        let s = sort_keys(ks);
        assert(s == seq![ks[m]] + sort_keys(rest));
        assert forall|x: PlanKey| s.contains(x) implies ks.contains(x) by {
            let i = choose|i: int| 0 <= i < s.len() && s[i] == x;
            if i == 0 {
                assert(ks[m] == x);
            } else {
                assert(sort_keys(rest)[i - 1] == x);
                assert(sort_keys(rest).contains(x));
                assert(rest.contains(x));
                let j = choose|j: int| 0 <= j < rest.len() && rest[j] == x;
                assert(0 <= j < ks.len() - 1);
                if j < m {
                    assert(ks[j] == x);
                } else {
                    assert(ks[j + 1] == x);
                }
            }
        }
    }
}

/// The queue order: no key of the sorted queue comes before a key ahead of it.
pub proof fn lemma_sort_keys_sorted(ks: Seq<PlanKey>)
    ensures
        forall|i: int, j: int|
            0 <= i < j < sort_keys(ks).len() ==> !key_before(
                #[trigger] sort_keys(ks)[j],
                #[trigger] sort_keys(ks)[i],
            ),
        sort_keys(ks).len() == ks.len(),
    decreases ks.len(),
{
    lemma_sort_keys_from_input(ks);
    if ks.len() > 0 {
        lemma_min_index(ks, ks.len() as int);
        let m = min_index(ks, ks.len() as int);
        let rest = ks.remove(m);
        ks.remove_ensures(m);
        lemma_sort_keys_sorted(rest);
        lemma_sort_keys_from_input(rest);
        let s = sort_keys(ks);
        let t = sort_keys(rest);
        assert(s == seq![ks[m]] + t);
        assert forall|i: int, j: int| 0 <= i < j < s.len() implies !key_before(
            #[trigger] s[j],
            #[trigger] s[i],
        ) by {
            if i == 0 {
                assert(s[j] == t[j - 1]);
                assert(t.contains(t[j - 1]));
                assert(rest.contains(s[j]));
                let k = choose|k: int| 0 <= k < rest.len() && rest[k] == s[j];
                if k < m {
                    assert(ks[k] == s[j]);
                } else {
                    assert(ks[k + 1] == s[j]);
                }
            } else {
                assert(s[i] == t[i - 1]);
                assert(s[j] == t[j - 1]);
            }
        }
    }
}

proof fn lemma_without_post(ks: Seq<PlanKey>, id: u128)
    ensures
        forall|i: int| 0 <= i < without_post(ks, id).len() ==> (#[trigger] without_post(ks, id)[i]).1 != id,
    decreases ks.len(),
{
    if ks.len() > 0 {
        lemma_without_post(ks.drop_last(), id);
        let prev = without_post(ks.drop_last(), id);
        if ks.last().1 != id {
            assert forall|i: int| 0 <= i < prev.push(ks.last()).len() implies (#[trigger] prev.push(
                ks.last(),
            )[i]).1 != id by {
                if i < prev.len() {
                    assert(prev.push(ks.last())[i] == prev[i]);
                }
            }
        }
    }
}

/// Images of `others[i..i + k]` added to `total`, saturating.
pub open spec fn sat_images(others: Seq<PlanKey>, i: int, k: int, total: int) -> int
    decreases k,
{
    if k <= 0 {
        total
    } else {
        sat_images(others, i + 1, k - 1, sat_add(total, others[i].2 as int))
    }
}

proof fn lemma_greedy_limits(others: Seq<PlanKey>, i: int, total: int, mb: int, mi: int)
    requires
        0 <= i <= others.len(),
        0 <= total,
    ensures
        0 <= greedy_from(others, i, total, mb, mi) <= others.len() - i,
        greedy_from(others, i, total, mb, mi) > 0 ==> i + greedy_from(others, i, total, mb, mi)
            < mb,
        (mi > 0 && greedy_from(others, i, total, mb, mi) > 0) ==> sat_images(
            others,
            i,
            greedy_from(others, i, total, mb, mi),
            total,
        ) <= mi,
    decreases others.len() - i,
{
    if i < others.len() && !(1 + i >= mb || (mi > 0 && sat_add(total, others[i].2 as int) > mi)) {
        let next = sat_add(total, others[i].2 as int);
        lemma_greedy_limits(others, i + 1, next, mb, mi);
        let k = greedy_from(others, i + 1, next, mb, mi);
        assert(greedy_from(others, i, total, mb, mi) == 1 + k);
        if k == 0 {
            assert(sat_images(others, i + 1, 0, next) == next);
        }
    }
}

/// A batch starts with its leader, which occurs in it once; it holds at most
/// `max_queue` posts (when that is set); and when it holds more than the
/// leader, its images stay within `max_images_per_post` (when that is set).
/// The posts put back are the other queued posts, never the leader.
pub proof fn lemma_batch_limits(
    plans: Seq<QueuedSendPlan>,
    group_id: Seq<char>,
    leader: u128,
    leader_priority: SendPriority,
    now: i64,
    leader_images: usize,
    max_queue: usize,
    max_images_per_post: usize,
)
    ensures
        ({
            let others = others_spec(plans, group_id, leader, leader_priority, now);
            let batch = batch_spec(
                others,
                leader,
                leader_priority,
                leader_images,
                max_queue,
                max_images_per_post,
            );
            let k = greedy_from(
                others,
                0,
                leader_images as int,
                max_batch_posts(max_queue),
                max_images_per_post as int,
            );
            &&& batch.len() >= 1
            &&& batch[0] == leader
            &&& forall|i: int| 1 <= i < batch.len() ==> batch[i] != leader
            &&& max_queue > 0 ==> batch.len() <= max_queue
            &&& (leader_priority == SendPriority::Normal && max_batch_posts(max_queue) > 1
                && max_images_per_post > 0 && batch.len() > 1) ==> sat_images(
                others,
                0,
                k,
                leader_images as int,
            ) <= max_images_per_post
            &&& forall|i: int|
                0 <= i < requeue_spec(others, leader_priority).len() ==> (#[trigger] requeue_spec(
                    others,
                    leader_priority,
                )[i]).post_id != leader
        }),
{
    let others = others_spec(plans, group_id, leader, leader_priority, now);
    let mb = max_batch_posts(max_queue);
    let mi = max_images_per_post as int;
    lemma_without_post(sort_keys(eligible_keys(plans, group_id, leader_priority, now)), leader);
    lemma_greedy_limits(others, 0, leader_images as int, mb, mi);
    let k = greedy_from(others, 0, leader_images as int, mb, mi);
    let batch = batch_spec(others, leader, leader_priority, leader_images, max_queue, max_images_per_post);
    if !(leader_priority != SendPriority::Normal || mb <= 1) {
        let tail = others.take(k).map_values(|key: PlanKey| key.1);
        assert(batch == seq![leader] + tail);
        assert forall|i: int| 1 <= i < batch.len() implies batch[i] != leader by {
            assert(batch[i] == tail[i - 1]);
            assert(tail[i - 1] == others[i - 1].1);
        }
    }
}

/// The accounts that send are never none, and the configured ones are
/// trimmed, not blank, and each there once.
pub proof fn lemma_send_accounts(accounts: Option<Seq<Seq<char>>>, fallback: Seq<char>)
    ensures
        send_accounts_spec(accounts, fallback).len() >= 1,
        forall|i: int, j: int|
            0 <= i < j < send_accounts_spec(accounts, fallback).len() ==> #[trigger] send_accounts_spec(
                accounts,
                fallback,
            )[i] != #[trigger] send_accounts_spec(accounts, fallback)[j],
{
    match accounts {
        Some(a) => lemma_unique_trimmed(a),
        None => {},
    }
}

proof fn lemma_unique_trimmed(v: Seq<Seq<char>>)
    ensures
        forall|i: int, j: int|
            0 <= i < j < unique_trimmed(v).len() ==> #[trigger] unique_trimmed(v)[i]
                != #[trigger] unique_trimmed(v)[j],
        forall|i: int| 0 <= i < unique_trimmed(v).len() ==> (#[trigger] unique_trimmed(v)[i]).len() > 0,
    decreases v.len(),
{
    if v.len() > 0 {
        lemma_unique_trimmed(v.drop_last());
        let prev = unique_trimmed(v.drop_last());
        let t = trim(v.last());
        if !(t.len() == 0 || prev.contains(t)) {
            let u = prev.push(t);
            assert forall|i: int, j: int| 0 <= i < j < u.len() implies #[trigger] u[i] != #[trigger] u[j] by {
                if j == u.len() - 1 {
                    if u[i] == u[j] {
                        assert(prev[i] == t);
                        assert(prev.contains(t));
                    }
                }
            }
        }
    }
}

/// A retry never waits less than the first delay of its kind nor more than
/// the longest, and a later attempt never waits less than an earlier one.
pub proof fn lemma_retry_delay(kind: QzoneErrorKind, a: u32, b: u32)
    ensures
        retry_bounds(kind).0 <= retry_delay_spec(kind, a) <= retry_bounds(kind).1,
        a <= b ==> retry_delay_spec(kind, a) <= retry_delay_spec(kind, b),
{
    let sa: nat = if a == 0 {
        0nat
    } else if a - 1 > 10 {
        10nat
    } else {
        (a - 1) as nat
    };
    let sb: nat = if b == 0 {
        0nat
    } else if b - 1 > 10 {
        10nat
    } else {
        (b - 1) as nat
    };
    lemma_pow2_small_pos(sa);
    if a <= b {
        lemma_pow2_small_mono(sa, sb);
    }
    let base = retry_bounds(kind).0;
    assert(base * pow2_small(sa) >= base) by (nonlinear_arith)
        requires
            base > 0,
            pow2_small(sa) >= 1,
    ;
    if a <= b {
        assert(base * pow2_small(sa) <= base * pow2_small(sb)) by (nonlinear_arith)
            requires
                base > 0,
                pow2_small(sa) <= pow2_small(sb),
        ;
    }
}

proof fn lemma_pow2_small_pos(n: nat)
    ensures
        pow2_small(n) >= 1,
    decreases n,
{
    if n > 0 {
        lemma_pow2_small_pos((n - 1) as nat);
    }
}

proof fn lemma_chunks_from_cover(count: nat, size: nat, start: nat)
    requires
        size >= 1,
        start <= count,
    ensures
        ({
            let cs = chunks_from(count, size, start);
            &&& start == count ==> cs.len() == 0
            &&& start < count ==> cs.len() >= 1 && cs[0].0 == start && cs.last().1 == count
            &&& forall|k: int| 0 <= k < cs.len() ==> (#[trigger] cs[k]).0 < cs[k].1 <= cs[k].0 + size
            &&& forall|k: int| 0 <= k < cs.len() - 1 ==> (#[trigger] cs[k]).1 == cs[k + 1].0
        }),
    decreases count - start,
{
    if start < count {
        let end = if start + size <= count {
            start + size
        } else {
            count
        };
        lemma_chunks_from_cover(count, size, end);
        let cs = chunks_from(count, size, start);
        let rest = chunks_from(count, size, end);
        assert(cs == seq![(start, end)] + rest);
        assert forall|k: int| 0 <= k < cs.len() implies (#[trigger] cs[k]).0 < cs[k].1 <= cs[k].0
            + size by {
            if k > 0 {
                assert(cs[k] == rest[k - 1]);
            }
        }
        assert forall|k: int| 0 <= k < cs.len() - 1 implies (#[trigger] cs[k]).1 == cs[k + 1].0 by {
            assert(cs[k + 1] == rest[k]);
            if k > 0 {
                assert(cs[k] == rest[k - 1]);
            }
        }
        if rest.len() > 0 {
            assert(cs.last() == rest.last());
        }
    }
}

/// The images of a batch are shared out among posts in order, none left
/// out and none sent twice: the posts take consecutive runs of images from
/// the first to the last, each run with at least one image and no more than
/// the per-post limit (when there is one).
pub proof fn lemma_image_chunks_cover(count: nat, max_images_per_post: nat)
    ensures
        ({
            let size = chunk_size_spec(count, max_images_per_post);
            let cs = chunks_from(count, size, 0);
            &&& count == 0 ==> cs.len() == 0
            &&& count > 0 ==> cs.len() >= 1 && cs[0].0 == 0 && cs.last().1 == count
            &&& forall|k: int| 0 <= k < cs.len() ==> (#[trigger] cs[k]).0 < cs[k].1 <= cs[k].0 + size
            &&& forall|k: int| 0 <= k < cs.len() - 1 ==> (#[trigger] cs[k]).1 == cs[k + 1].0
            &&& max_images_per_post > 0 ==> size == max_images_per_post
        }),
{
    lemma_chunks_from_cover(count, chunk_size_spec(count, max_images_per_post), 0);
}


/// How an HTTP status is classified: refused credentials (401) and
/// forbidden access (403) are account failures and nothing else is; too
/// many requests (429) is risk control; server errors (5xx) are network
/// failures; any other status is unknown.
pub proof fn lemma_http_status_kinds(status: u16)
    ensures
        (status_kind(status) == QzoneErrorKind::Account) <==> (status == 401 || status == 403),
        status == 429 ==> status_kind(status) == QzoneErrorKind::RiskControl,
        500 <= status <= 599 ==> status_kind(status) == QzoneErrorKind::Network,
        !(status == 401 || status == 403 || status == 429 || (500 <= status <= 599)) ==> status_kind(status)
            == QzoneErrorKind::Unknown,
{
}

} // verus!
