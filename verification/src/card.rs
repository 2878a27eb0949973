//! Shared cards: what a card shows, read out of the JSON that the bot hands
//! over for a card message.
use vstd::prelude::*;

use crate::json::{as_text, member, nonempty, nonempty_spec, opt_text, JsonValue};
use crate::render::JsonCardView;
use crate::text::{chars_of, concat2, occurs_at, occurs_at_exec, owned, string_of, trim};

verus! {

// ----------------------------------------------------------------------
// Replacing text
// ----------------------------------------------------------------------
/// `s[i..]` with each `pat` replaced by `rep`, from left to right, as
/// `str::replace` does for a pattern that is not empty.
pub open spec fn replace_from(s: Seq<char>, pat: Seq<char>, rep: Seq<char>, i: int) -> Seq<char>
    decreases s.len() - i,
{
    if i < 0 || i >= s.len() {
        Seq::empty()
    } else if pat.len() > 0 && occurs_at(s, pat, i) {
        rep + replace_from(s, pat, rep, i + pat.len())
    } else {
        seq![s[i]] + replace_from(s, pat, rep, i + 1)
    }
}

pub open spec fn replace_all(s: Seq<char>, pat: Seq<char>, rep: Seq<char>) -> Seq<char> {
    replace_from(s, pat, rep, 0)
}

fn replace_chars(s: &Vec<char>, pat: &str, rep: &str) -> (r: Vec<char>)
    requires
        pat@.len() > 0,
    ensures
        r@ == replace_all(s@, pat@, rep@),
{
    let p = chars_of(pat);
    let q = chars_of(rep);
    let mut out: Vec<char> = Vec::new();
    let mut i: usize = 0;
    while i < s.len()
        invariant
            0 <= i <= s@.len(),
            p@ == pat@,
            q@ == rep@,
            p@.len() > 0,
            out@ + replace_from(s@, p@, q@, i as int) == replace_all(s@, p@, q@),
        decreases s@.len() - i,
    {
        if occurs_at_exec(s, &p, i) {
            let ghost before = out@;
            let mut k: usize = 0;
            while k < q.len()
                invariant
                    0 <= k <= q@.len(),
                    out@ == before + q@.subrange(0, k as int),
                decreases q@.len() - k,
            {
                out.push(q[k]);
                assert(before + q@.subrange(0, k + 1) =~= (before + q@.subrange(0, k as int)).push(
                    q@[k as int],
                ));
                k = k + 1;
            }
            assert(q@.subrange(0, q@.len() as int) =~= q@);
            assert(before + (q@ + replace_from(s@, p@, q@, i + p@.len())) =~= before + q@
                + replace_from(s@, p@, q@, i + p@.len()));
            i = i + p.len();
        } else {
            let ghost before = out@;
            out.push(s[i]);
            assert(before + (seq![s@[i as int]] + replace_from(s@, p@, q@, i + 1)) =~= out@
                + replace_from(s@, p@, q@, i + 1));
            i = i + 1;
        }
    }
    assert(out@ + Seq::<char>::empty() =~= out@);
    out
}

/// The card text with the escapes that the bot leaves in it undone: `&#44;`
/// becomes a comma, then `\/` a slash.
pub open spec fn normalize_card_spec(raw: Seq<char>) -> Seq<char> {
    replace_all(replace_all(raw, "&#44;"@, ","@), "\\/"@, "/"@)
}

pub fn normalize_card_json(raw: &str) -> (r: String)
    ensures
        r@ == normalize_card_spec(raw@),
{
    proof {
        reveal_strlit("&#44;");
        reveal_strlit("\\/");
    }
    let v = chars_of(raw);
    let a = replace_chars(&v, "&#44;", ",");
    let b = replace_chars(&a, "\\/", "/");
    string_of(b.as_slice())
}

// ----------------------------------------------------------------------
// Fields
// ----------------------------------------------------------------------
/// The string under the first of `keys[i..]` under which `v` holds a string.
pub open spec fn first_string_member(v: JsonValue, keys: Seq<&str>, i: int) -> Option<Seq<char>>
    decreases keys.len() - i,
{
    if i < 0 || i >= keys.len() {
        None
    } else {
        match member(v, keys[i]@) {
            Some(x) => match as_text(x) {
                Some(t) => Some(t),
                None => first_string_member(v, keys, i + 1),
            },
            None => first_string_member(v, keys, i + 1),
        }
    }
}

/// The first string of `v` under one of `keys`, trimmed, unless it is blank.
pub open spec fn field_spec(v: JsonValue, keys: Seq<&str>) -> Option<Seq<char>> {
    match first_string_member(v, keys, 0) {
        Some(t) => nonempty_spec(t),
        None => None,
    }
}

/// The first string of `value` under one of `keys`, trimmed, unless it is
/// blank.
pub fn json_field_string(value: &JsonValue, keys: &[&str]) -> (r: Option<String>)
    ensures
        opt_text(r) == field_spec(*value, keys@),
{
    let mut i: usize = 0;
    while i < keys.len()
        invariant
            0 <= i <= keys@.len(),
            first_string_member(*value, keys@, i as int) == first_string_member(*value, keys@, 0),
        decreases keys@.len() - i,
    {
        match value.get(keys[i]) {
            Some(x) => match x.as_str() {
                Some(t) => {
                    return nonempty(t);
                },
                None => {},
            },
            None => {},
        }
        i = i + 1;
    }
    None
}

/// The first value under `meta`, when `meta` is an object.
pub open spec fn first_meta_spec(v: JsonValue) -> Option<JsonValue> {
    match member(v, "meta"@) {
        Some(JsonValue::Object(ms)) => if ms@.len() > 0 {
            Some(ms@[0].1)
        } else {
            None
        },
        _ => None,
    }
}

pub fn first_meta_value(value: &JsonValue) -> (r: Option<&JsonValue>)
    ensures
        match r {
            Some(x) => first_meta_spec(*value) == Some(*x),
            None => first_meta_spec(*value) is None,
        },
{
    match value.get("meta") {
        Some(JsonValue::Object(ms)) => {
            if ms.len() > 0 {
                Some(&ms[0].1)
            } else {
                None
            }
        },
        _ => None,
    }
}

// ----------------------------------------------------------------------
// The QQ number of a contact
// ----------------------------------------------------------------------
/// The pieces of `t` between characters that are not ASCII digits, as
/// `(finished pieces, open piece)`.
pub open spec fn digit_run_state(t: Seq<char>) -> (Seq<Seq<char>>, Seq<char>)
    decreases t.len(),
{
    if t.len() == 0 {
        (Seq::empty(), Seq::empty())
    } else {
        let (done, cur) = digit_run_state(t.drop_last());
        if !crate::text::is_digit(t.last()) {
            (done.push(cur), Seq::empty())
        } else {
            (done, cur.push(t.last()))
        }
    }
}

/// `t` split at every character that is not an ASCII digit.
pub open spec fn digit_runs(t: Seq<char>) -> Seq<Seq<char>> {
    digit_run_state(t).0.push(digit_run_state(t).1)
}

/// The first of `ps[i..]` with at least five characters.
pub open spec fn first_long(ps: Seq<Seq<char>>, i: int) -> Option<Seq<char>>
    decreases ps.len() - i,
{
    if i < 0 || i >= ps.len() {
        None
    } else if ps[i].len() >= 5 {
        Some(ps[i])
    } else {
        first_long(ps, i + 1)
    }
}

proof fn lemma_first_long_push(ps: Seq<Seq<char>>, x: Seq<char>, i: int)
    requires
        0 <= i <= ps.len(),
    ensures
        first_long(ps.push(x), i) == match first_long(ps, i) {
            Some(y) => Some(y),
            None => if x.len() >= 5 {
                Some(x)
            } else {
                None
            },
        },
    decreases ps.len() - i,
{
    if i < ps.len() {
        assert(ps.push(x)[i] == ps[i]);
        lemma_first_long_push(ps, x, i + 1);
    } else {
        assert(ps.push(x)[i] == x);
        assert(first_long(ps.push(x), i + 1) is None);
    }
}

pub open spec fn contact_url_spec(contact: JsonValue) -> Option<Seq<char>> {
    match field_spec(contact, seq!["contact"]) {
        None => None,
        Some(t) => match first_long(digit_runs(t), 0) {
            None => None,
            Some(u) => Some("https://mp.qzone.qq.com/u/"@ + u),
        },
    }
}

/// The first run of at least five digits of `t`.
fn first_long_digit_run(t: &Vec<char>) -> (r: Option<Vec<char>>)
    ensures
        match r {
            Some(u) => first_long(digit_runs(t@), 0) == Some(u@),
            None => first_long(digit_runs(t@), 0) is None,
        },
{
    let mut found: Option<Vec<char>> = None;
    let mut cur: Vec<char> = Vec::new();
    let ghost mut done: Seq<Seq<char>> = Seq::empty();
    let mut i: usize = 0;
    assert(t@.take(0) =~= Seq::<char>::empty());
    while i < t.len()
        invariant
            0 <= i <= t@.len(),
            digit_run_state(t@.take(i as int)) == (done, cur@),
            match found {
                Some(u) => first_long(done, 0) == Some(u@),
                None => first_long(done, 0) is None,
            },
        decreases t@.len() - i,
    {
        let c = t[i];
        assert(t@.take(i + 1).drop_last() =~= t@.take(i as int));
        assert(t@.take(i + 1).last() == c);
        if '0' <= c && c <= '9' {
            cur.push(c);
        } else {
            proof {
                lemma_first_long_push(done, cur@, 0);
            }
            if found.is_none() && cur.len() >= 5 {
                found = Some(cur);
            }
            proof {
                done = done.push(cur@);
            }
            cur = Vec::new();
        }
        i = i + 1;
    }
    assert(t@.take(i as int) =~= t@);
    proof {
        lemma_first_long_push(done, cur@, 0);
    }
    match found {
        Some(u) => Some(u),
        None => {
            if cur.len() >= 5 {
                Some(cur)
            } else {
                None
            }
        },
    }
}

/// The profile page of a contact card's QQ number: the first run of at
/// least five digits in its `contact` text.
pub fn contact_uin_url(contact: &JsonValue) -> (r: Option<String>)
    ensures
        opt_text(r) == contact_url_spec(*contact),
{
    let keys = ["contact"];
    assert(keys@ =~= seq!["contact"]);
    let text = json_field_string(contact, &keys);
    match text {
        None => None,
        Some(t) => {
            let tv = chars_of(t.as_str());
            match first_long_digit_run(&tv) {
                None => None,
                Some(u) => {
                    let us = string_of(u.as_slice());
                    Some(concat2("https://mp.qzone.qq.com/u/", us.as_str()))
                },
            }
        },
    }
}

// ----------------------------------------------------------------------
// Searching a whole value
// ----------------------------------------------------------------------
/// The first of `keys[i..]` under which the object `v` holds a string that
/// is not blank, trimmed.
pub open spec fn first_key_text(v: JsonValue, keys: Seq<&str>, i: int) -> Option<Seq<char>>
    decreases keys.len() - i,
{
    if i < 0 || i >= keys.len() {
        None
    } else {
        let hit = match member(v, keys[i]@) {
            Some(x) => match as_text(x) {
                Some(t) => nonempty_spec(t),
                None => None,
            },
            None => None,
        };
        if hit is Some {
            hit
        } else {
            first_key_text(v, keys, i + 1)
        }
    }
}

/// A text found in `v` for `keys`: in an object, under the first of `keys`
/// that gives one, else in its members in order; in an array, in its items
/// in order; a string that is not blank is itself found.
pub open spec fn find_spec(v: JsonValue, keys: Seq<&str>) -> Option<Seq<char>>
    decreases v, 0int,
{
    match v {
        JsonValue::Object(ms) => match first_key_text(v, keys, 0) {
            Some(t) => Some(t),
            None => find_in_members(ms@, keys, 0),
        },
        JsonValue::Array(items) => find_in_items(items@, keys, 0),
        JsonValue::Str(s) => nonempty_spec(s@),
        _ => None,
    }
}

pub open spec fn find_in_members(ms: Seq<(String, JsonValue)>, keys: Seq<&str>, i: int) -> Option<
    Seq<char>,
>
    decreases ms, ms.len() - i,
{
    if i < 0 || i >= ms.len() {
        None
    } else {
        match find_spec(ms[i].1, keys) {
            Some(t) => Some(t),
            None => find_in_members(ms, keys, i + 1),
        }
    }
}

pub open spec fn find_in_items(items: Seq<JsonValue>, keys: Seq<&str>, i: int) -> Option<Seq<char>>
    decreases items, items.len() - i,
{
    if i < 0 || i >= items.len() {
        None
    } else {
        match find_spec(items[i], keys) {
            Some(t) => Some(t),
            None => find_in_items(items, keys, i + 1),
        }
    }
}

fn first_key_text_exec(value: &JsonValue, keys: &[&str]) -> (r: Option<String>)
    ensures
        opt_text(r) == first_key_text(*value, keys@, 0),
{
    let mut i: usize = 0;
    while i < keys.len()
        invariant
            0 <= i <= keys@.len(),
            first_key_text(*value, keys@, i as int) == first_key_text(*value, keys@, 0),
        decreases keys@.len() - i,
    {
        let hit = match value.get(keys[i]) {
            Some(x) => match x.as_str() {
                Some(t) => nonempty(t),
                None => None,
            },
            None => None,
        };
        if hit.is_some() {
            return hit;
        }
        i = i + 1;
    }
    None
}

/// A text found in `value` for `keys`, searching members and items in order.
pub fn find_json_string(value: &JsonValue, keys: &[&str]) -> (r: Option<String>)
    ensures
        opt_text(r) == find_spec(*value, keys@),
    decreases value,
{
    match value {
        JsonValue::Object(ms) => {
            let direct = first_key_text_exec(value, keys);
            if direct.is_some() {
                return direct;
            }
            let mut i: usize = 0;
            while i < ms.len()
                invariant
                    0 <= i <= ms@.len(),
                    *value == JsonValue::Object(*ms),
                    first_key_text(*value, keys@, 0) is None,
                    find_in_members(ms@, keys@, i as int) == find_spec(*value, keys@),
                decreases ms@.len() - i,
            {
                proof {
                    assert(decreases_to!(*value => ms@[i as int].1));
                }
                let found = find_json_string(&ms[i].1, keys);
                if found.is_some() {
                    return found;
                }
                i = i + 1;
            }
            None
        },
        JsonValue::Array(items) => {
            let mut i: usize = 0;
            while i < items.len()
                invariant
                    0 <= i <= items@.len(),
                    *value == JsonValue::Array(*items),
                    find_in_items(items@, keys@, i as int) == find_spec(*value, keys@),
                decreases items@.len() - i,
            {
                proof {
                    assert(decreases_to!(*value => items@[i as int]));
                }
                let found = find_json_string(&items[i], keys);
                if found.is_some() {
                    return found;
                }
                i = i + 1;
            }
            None
        },
        JsonValue::Str(t) => nonempty(t.as_str()),
        _ => None,
    }
}

// ----------------------------------------------------------------------
// The card
// ----------------------------------------------------------------------
/// What a card shows, as text.
pub struct CardFields {
    pub view_kind: Seq<char>,
    pub title: Seq<char>,
    pub desc: Option<Seq<char>>,
    pub footer: Option<Seq<char>>,
    pub jump_url: Option<Seq<char>>,
    pub media_source: Option<Seq<char>>,
    pub tag_icon_source: Option<Seq<char>>,
    pub brand_icon_source: Option<Seq<char>>,
}

pub open spec fn card_fields(c: JsonCardView) -> CardFields {
    CardFields {
        view_kind: c.view_kind@,
        title: c.title@,
        desc: opt_text(c.desc),
        footer: opt_text(c.footer),
        jump_url: opt_text(c.jump_url),
        media_source: opt_text(c.media_source),
        tag_icon_source: opt_text(c.tag_icon_source),
        brand_icon_source: opt_text(c.brand_icon_source),
    }
}

pub open spec fn or_text(o: Option<Seq<char>>, d: Seq<char>) -> Seq<char> {
    match o {
        Some(t) => t,
        None => d,
    }
}

pub open spec fn either(a: Option<Seq<char>>, b: Option<Seq<char>>) -> Option<Seq<char>> {
    match a {
        Some(t) => Some(t),
        None => b,
    }
}

/// The value at `/a/b`.
pub open spec fn at2(v: JsonValue, a: Seq<char>, b: Seq<char>) -> Option<JsonValue> {
    match member(v, a) {
        Some(x) => member(x, b),
        None => None,
    }
}

pub open spec fn contact_keys() -> (Seq<&'static str>, Seq<&'static str>, Seq<&'static str>, Seq<&'static str>, Seq<&'static str>) {
    (
        seq!["nickname", "title", "name"],
        seq!["contact", "desc", "description"],
        seq!["tag", "source", "footer"],
        seq!["jumpUrl", "jump_url", "url", "link"],
        seq!["avatar", "icon", "preview"],
    )
}

pub open spec fn icon_keys() -> (Seq<&'static str>, Seq<&'static str>) {
    (seq!["tagIcon", "tag_icon"], seq!["sourcelogo", "sourceLogo"])
}

/// A contact card.
pub open spec fn contact_card(kind: Seq<char>, c: JsonValue) -> CardFields {
    let k = contact_keys();
    CardFields {
        view_kind: kind,
        title: or_text(field_spec(c, k.0), "联系人"@),
        desc: field_spec(c, k.1),
        footer: field_spec(c, k.2),
        jump_url: either(field_spec(c, k.3), contact_url_spec(c)),
        media_source: field_spec(c, k.4),
        tag_icon_source: field_spec(c, icon_keys().0),
        brand_icon_source: None,
    }
}

/// A mini app card.
pub open spec fn miniapp_card(kind: Seq<char>, m: JsonValue) -> CardFields {
    CardFields {
        view_kind: kind,
        title: or_text(field_spec(m, seq!["title", "name"]), "小程序卡片"@),
        desc: field_spec(m, seq!["source"]),
        footer: field_spec(m, seq!["tag", "footer"]),
        jump_url: field_spec(m, seq!["jumpUrl", "jump_url", "doc_url", "url", "link"]),
        media_source: field_spec(m, seq!["preview", "cover", "image"]),
        tag_icon_source: field_spec(m, icon_keys().0),
        brand_icon_source: field_spec(m, icon_keys().1),
    }
}

/// A news card.
pub open spec fn news_card(kind: Seq<char>, n: JsonValue) -> CardFields {
    CardFields {
        view_kind: kind,
        title: or_text(field_spec(n, seq!["title", "name"]), "分享"@),
        desc: field_spec(n, seq!["desc", "description"]),
        footer: field_spec(n, seq!["tag", "source", "footer"]),
        jump_url: field_spec(n, seq!["jumpUrl", "jump_url", "url", "link"]),
        media_source: field_spec(n, seq!["preview", "cover", "image", "thumb"]),
        tag_icon_source: field_spec(n, icon_keys().0),
        brand_icon_source: None,
    }
}

/// A card of another kind, read from the first value under `meta`.
pub open spec fn generic_card(kind: Seq<char>, v: JsonValue, g: JsonValue) -> CardFields {
    CardFields {
        view_kind: kind,
        title: or_text(
            either(field_spec(g, seq!["title", "name"]), field_spec(v, seq!["prompt", "summary"])),
            "[卡片]"@,
        ),
        desc: field_spec(g, seq!["desc", "description", "text", "content"]),
        footer: field_spec(g, seq!["source", "tag", "app", "footer"]),
        jump_url: field_spec(g, seq!["jumpUrl", "jump_url", "url", "targetUrl", "link"]),
        media_source: field_spec(
            g,
            seq!["preview", "image", "icon", "cover", "picture", "thumbnail", "img_url"],
        ),
        tag_icon_source: field_spec(g, icon_keys().0),
        brand_icon_source: field_spec(g, icon_keys().1),
    }
}

pub open spec fn find_opt(v: Option<JsonValue>, keys: Seq<&str>) -> Option<Seq<char>> {
    match v {
        Some(x) => find_spec(x, keys),
        None => None,
    }
}

/// A card read by searching the whole value, or an empty card when the text
/// was not JSON.
pub open spec fn searched_card(v: Option<JsonValue>) -> CardFields {
    CardFields {
        view_kind: or_text(
            match v {
                Some(x) => field_spec(x, seq!["type", "view", "template"]),
                None => None,
            },
            "json"@,
        ),
        title: or_text(find_opt(v, seq!["title", "nickname", "prompt", "name"]), "[卡片]"@),
        desc: find_opt(v, seq!["desc", "description", "text", "content"]),
        footer: find_opt(v, seq!["source", "app", "tag", "footer"]),
        jump_url: find_opt(v, seq!["url", "jump_url", "jumpUrl", "qqdocurl", "targetUrl", "link"]),
        media_source: find_opt(
            v,
            seq!["preview", "avatar", "image", "icon", "cover", "picture", "thumbnail", "img_url"],
        ),
        tag_icon_source: find_opt(v, icon_keys().0),
        brand_icon_source: find_opt(v, icon_keys().1),
    }
}

/// What `parse_json_card_view` gives for the parsed card, or for `None` when
/// the card text was not JSON.
pub open spec fn card_spec(value: Option<JsonValue>) -> CardFields {
    match value {
        None => searched_card(None),
        Some(v) => {
            let kind = or_text(field_spec(v, seq!["view", "type", "template"]), "json"@);
            if kind == "contact"@ && at2(v, "meta"@, "contact"@) is Some {
                contact_card(kind, at2(v, "meta"@, "contact"@)->0)
            } else if kind == "miniapp"@ && at2(v, "meta"@, "miniapp"@) is Some {
                miniapp_card(kind, at2(v, "meta"@, "miniapp"@)->0)
            } else if kind == "news"@ && at2(v, "meta"@, "news"@) is Some {
                news_card(kind, at2(v, "meta"@, "news"@)->0)
            } else if first_meta_spec(v) is Some {
                generic_card(kind, v, first_meta_spec(v)->0)
            } else {
                searched_card(Some(v))
            }
        },
    }
}

fn or_default(o: Option<String>, d: &str) -> (r: String)
    ensures
        r@ == or_text(opt_text(o), d@),
{
    match o {
        Some(t) => t,
        None => owned(d),
    }
}

fn or_next(a: Option<String>, b: Option<String>) -> (r: Option<String>)
    ensures
        opt_text(r) == either(opt_text(a), opt_text(b)),
{
    match a {
        Some(t) => Some(t),
        None => b,
    }
}

fn value_at<'a>(v: &'a JsonValue, a: &str, b: &str) -> (r: Option<&'a JsonValue>)
    ensures
        match r {
            Some(x) => at2(*v, a@, b@) == Some(*x),
            None => at2(*v, a@, b@) is None,
        },
{
    match v.get(a) {
        Some(x) => x.get(b),
        None => None,
    }
}

fn contact_card_exec(kind: String, c: &JsonValue) -> (r: JsonCardView)
    ensures
        card_fields(r) == contact_card(kind@, *c),
{
    let k0 = ["nickname", "title", "name"];
    let k1 = ["contact", "desc", "description"];
    let k2 = ["tag", "source", "footer"];
    let k3 = ["jumpUrl", "jump_url", "url", "link"];
    let k4 = ["avatar", "icon", "preview"];
    let ki = ["tagIcon", "tag_icon"];
    assert(k0@ =~= contact_keys().0);
    assert(k1@ =~= contact_keys().1);
    assert(k2@ =~= contact_keys().2);
    assert(k3@ =~= contact_keys().3);
    assert(k4@ =~= contact_keys().4);
    assert(ki@ =~= icon_keys().0);
    JsonCardView {
        view_kind: kind,
        title: or_default(json_field_string(c, &k0), "联系人"),
        desc: json_field_string(c, &k1),
        footer: json_field_string(c, &k2),
        jump_url: or_next(json_field_string(c, &k3), contact_uin_url(c)),
        media_source: json_field_string(c, &k4),
        tag_icon_source: json_field_string(c, &ki),
        brand_icon_source: None,
    }
}

fn miniapp_card_exec(kind: String, m: &JsonValue) -> (r: JsonCardView)
    ensures
        card_fields(r) == miniapp_card(kind@, *m),
{
    let k0 = ["title", "name"];
    let k1 = ["source"];
    let k2 = ["tag", "footer"];
    let k3 = ["jumpUrl", "jump_url", "doc_url", "url", "link"];
    let k4 = ["preview", "cover", "image"];
    let ki = ["tagIcon", "tag_icon"];
    let kb = ["sourcelogo", "sourceLogo"];
    assert(k0@ =~= seq!["title", "name"]);
    assert(k1@ =~= seq!["source"]);
    assert(k2@ =~= seq!["tag", "footer"]);
    assert(k3@ =~= seq!["jumpUrl", "jump_url", "doc_url", "url", "link"]);
    assert(k4@ =~= seq!["preview", "cover", "image"]);
    assert(ki@ =~= icon_keys().0);
    assert(kb@ =~= icon_keys().1);
    JsonCardView {
        view_kind: kind,
        title: or_default(json_field_string(m, &k0), "小程序卡片"),
        desc: json_field_string(m, &k1),
        footer: json_field_string(m, &k2),
        jump_url: json_field_string(m, &k3),
        media_source: json_field_string(m, &k4),
        tag_icon_source: json_field_string(m, &ki),
        brand_icon_source: json_field_string(m, &kb),
    }
}

fn news_card_exec(kind: String, n: &JsonValue) -> (r: JsonCardView)
    ensures
        card_fields(r) == news_card(kind@, *n),
{
    let k0 = ["title", "name"];
    let k1 = ["desc", "description"];
    let k2 = ["tag", "source", "footer"];
    let k3 = ["jumpUrl", "jump_url", "url", "link"];
    let k4 = ["preview", "cover", "image", "thumb"];
    let ki = ["tagIcon", "tag_icon"];
    assert(k0@ =~= seq!["title", "name"]);
    assert(k1@ =~= seq!["desc", "description"]);
    assert(k2@ =~= seq!["tag", "source", "footer"]);
    assert(k3@ =~= seq!["jumpUrl", "jump_url", "url", "link"]);
    assert(k4@ =~= seq!["preview", "cover", "image", "thumb"]);
    assert(ki@ =~= icon_keys().0);
    JsonCardView {
        view_kind: kind,
        title: or_default(json_field_string(n, &k0), "分享"),
        desc: json_field_string(n, &k1),
        footer: json_field_string(n, &k2),
        jump_url: json_field_string(n, &k3),
        media_source: json_field_string(n, &k4),
        tag_icon_source: json_field_string(n, &ki),
        brand_icon_source: None,
    }
}

fn generic_card_exec(kind: String, v: &JsonValue, g: &JsonValue) -> (r: JsonCardView)
    ensures
        card_fields(r) == generic_card(kind@, *v, *g),
{
    let k0 = ["title", "name"];
    let kp = ["prompt", "summary"];
    let k1 = ["desc", "description", "text", "content"];
    let k2 = ["source", "tag", "app", "footer"];
    let k3 = ["jumpUrl", "jump_url", "url", "targetUrl", "link"];
    let k4 = ["preview", "image", "icon", "cover", "picture", "thumbnail", "img_url"];
    let ki = ["tagIcon", "tag_icon"];
    let kb = ["sourcelogo", "sourceLogo"];
    assert(k0@ =~= seq!["title", "name"]);
    assert(kp@ =~= seq!["prompt", "summary"]);
    assert(k1@ =~= seq!["desc", "description", "text", "content"]);
    assert(k2@ =~= seq!["source", "tag", "app", "footer"]);
    assert(k3@ =~= seq!["jumpUrl", "jump_url", "url", "targetUrl", "link"]);
    assert(k4@ =~= seq!["preview", "image", "icon", "cover", "picture", "thumbnail", "img_url"]);
    assert(ki@ =~= icon_keys().0);
    assert(kb@ =~= icon_keys().1);
    JsonCardView {
        view_kind: kind,
        title: or_default(or_next(json_field_string(g, &k0), json_field_string(v, &kp)), "[卡片]"),
        desc: json_field_string(g, &k1),
        footer: json_field_string(g, &k2),
        jump_url: json_field_string(g, &k3),
        media_source: json_field_string(g, &k4),
        tag_icon_source: json_field_string(g, &ki),
        brand_icon_source: json_field_string(g, &kb),
    }
}

fn find_in(v: Option<&JsonValue>, keys: &[&str]) -> (r: Option<String>)
    ensures
        opt_text(r) == find_opt(
            match v {
                Some(x) => Some(*x),
                None => None,
            },
            keys@,
        ),
{
    match v {
        Some(x) => find_json_string(x, keys),
        None => None,
    }
}

fn searched_card_exec(v: Option<&JsonValue>) -> (r: JsonCardView)
    ensures
        card_fields(r) == searched_card(
            match v {
                Some(x) => Some(*x),
                None => None,
            },
        ),
{
    let kk = ["type", "view", "template"];
    let k0 = ["title", "nickname", "prompt", "name"];
    let k1 = ["desc", "description", "text", "content"];
    let k2 = ["source", "app", "tag", "footer"];
    let k3 = ["url", "jump_url", "jumpUrl", "qqdocurl", "targetUrl", "link"];
    let k4 = ["preview", "avatar", "image", "icon", "cover", "picture", "thumbnail", "img_url"];
    let ki = ["tagIcon", "tag_icon"];
    let kb = ["sourcelogo", "sourceLogo"];
    assert(kk@ =~= seq!["type", "view", "template"]);
    assert(k0@ =~= seq!["title", "nickname", "prompt", "name"]);
    assert(k1@ =~= seq!["desc", "description", "text", "content"]);
    assert(k2@ =~= seq!["source", "app", "tag", "footer"]);
    assert(k3@ =~= seq!["url", "jump_url", "jumpUrl", "qqdocurl", "targetUrl", "link"]);
    assert(k4@ =~= seq![
        "preview",
        "avatar",
        "image",
        "icon",
        "cover",
        "picture",
        "thumbnail",
        "img_url",
    ]);
    assert(ki@ =~= icon_keys().0);
    assert(kb@ =~= icon_keys().1);
    let kind = match v {
        Some(x) => json_field_string(x, &kk),
        None => None,
    };
    JsonCardView {
        view_kind: or_default(kind, "json"),
        title: or_default(find_in(v, &k0), "[卡片]"),
        desc: find_in(v, &k1),
        footer: find_in(v, &k2),
        jump_url: find_in(v, &k3),
        media_source: find_in(v, &k4),
        tag_icon_source: find_in(v, &ki),
        brand_icon_source: find_in(v, &kb),
    }
}

/// What a card shows, read from its parsed JSON (`None` when the card text
/// was not JSON). A contact, mini app or news card is read from its part
/// under `meta`; a card of another kind from the first value under `meta`;
/// a card without `meta` by searching the whole value.
pub fn parse_json_card_view(value: Option<&JsonValue>) -> (r: JsonCardView)
    ensures
        card_fields(r) == card_spec(
            match value {
                Some(x) => Some(*x),
                None => None,
            },
        ),
{
    match value {
        None => searched_card_exec(None),
        Some(v) => {
            let kk = ["view", "type", "template"];
            assert(kk@ =~= seq!["view", "type", "template"]);
            let kind = or_default(json_field_string(v, &kk), "json");
            let is_contact = crate::text::same_text(kind.as_str(), "contact");
            let is_miniapp = crate::text::same_text(kind.as_str(), "miniapp");
            let is_news = crate::text::same_text(kind.as_str(), "news");
            if is_contact {
                if let Some(c) = value_at(v, "meta", "contact") {
                    return contact_card_exec(kind, c);
                }
            }
            if is_miniapp {
                if let Some(m) = value_at(v, "meta", "miniapp") {
                    return miniapp_card_exec(kind, m);
                }
            }
            if is_news {
                if let Some(n) = value_at(v, "meta", "news") {
                    return news_card_exec(kind, n);
                }
            }
            proof {
                reveal_strlit("contact");
                reveal_strlit("miniapp");
                reveal_strlit("news");
            }
            match first_meta_value(v) {
                Some(g) => generic_card_exec(kind, v, g),
                None => searched_card_exec(Some(v)),
            }
        },
    }
}

// ----------------------------------------------------------------------
// Laws
// ----------------------------------------------------------------------
pub open spec fn filled(o: Option<Seq<char>>) -> bool {
    match o {
        Some(t) => t.len() > 0,
        None => true,
    }
}

proof fn lemma_first_key_text_filled(v: JsonValue, keys: Seq<&str>, i: int)
    ensures
        filled(first_key_text(v, keys, i)),
    decreases keys.len() - i,
{
    if 0 <= i < keys.len() {
        lemma_first_key_text_filled(v, keys, i + 1);
    }
}

proof fn lemma_find_filled(v: JsonValue, keys: Seq<&str>)
    ensures
        filled(find_spec(v, keys)),
    decreases v, 0int,
{
    match v {
        JsonValue::Object(ms) => {
            lemma_first_key_text_filled(v, keys, 0);
            lemma_find_members_filled(ms@, keys, 0);
        },
        JsonValue::Array(items) => {
            lemma_find_items_filled(items@, keys, 0);
        },
        _ => {},
    }
}

proof fn lemma_find_members_filled(ms: Seq<(String, JsonValue)>, keys: Seq<&str>, i: int)
    ensures
        filled(find_in_members(ms, keys, i)),
    decreases ms, ms.len() - i,
{
    if 0 <= i < ms.len() {
        lemma_find_filled(ms[i].1, keys);
        lemma_find_members_filled(ms, keys, i + 1);
    }
}

proof fn lemma_find_items_filled(items: Seq<JsonValue>, keys: Seq<&str>, i: int)
    ensures
        filled(find_in_items(items, keys, i)),
    decreases items, items.len() - i,
{
    if 0 <= i < items.len() {
        lemma_find_filled(items[i], keys);
        lemma_find_items_filled(items, keys, i + 1);
    }
}

/// Every card has a kind and a title, and each text that a card holds has
/// at least one character.
pub proof fn lemma_card_texts_filled(value: Option<JsonValue>)
    ensures
        card_spec(value).view_kind.len() > 0,
        card_spec(value).title.len() > 0,
        filled(card_spec(value).desc),
        filled(card_spec(value).footer),
        filled(card_spec(value).jump_url),
        filled(card_spec(value).media_source),
        filled(card_spec(value).tag_icon_source),
        filled(card_spec(value).brand_icon_source),
{
    reveal_strlit("json");
    reveal_strlit("[卡片]");
    reveal_strlit("联系人");
    reveal_strlit("小程序卡片");
    reveal_strlit("分享");
    reveal_strlit("https://mp.qzone.qq.com/u/");
    match value {
        Some(v) => {
            lemma_find_filled(v, seq!["title", "nickname", "prompt", "name"]);
            lemma_find_filled(v, seq!["desc", "description", "text", "content"]);
            lemma_find_filled(v, seq!["source", "app", "tag", "footer"]);
            lemma_find_filled(
                v,
                seq!["url", "jump_url", "jumpUrl", "qqdocurl", "targetUrl", "link"],
            );
            lemma_find_filled(
                v,
                seq![
                    "preview",
                    "avatar",
                    "image",
                    "icon",
                    "cover",
                    "picture",
                    "thumbnail",
                    "img_url",
                ],
            );
            lemma_find_filled(v, icon_keys().0);
            lemma_find_filled(v, icon_keys().1);
        },
        None => {},
    }
}


/// The string under `key` of the object `v`, when it is a string.
pub open spec fn string_member(v: JsonValue, key: Seq<char>) -> Option<Seq<char>> {
    match member(v, key) {
        Some(x) => as_text(x),
        None => None,
    }
}

/// A news card whose `meta.news` holds a string `title` that is not blank
/// is shown with that title, trimmed; a non-blank string `desc` is its
/// description and a non-blank string `jumpUrl` its link, both trimmed.
pub proof fn lemma_news_card_title(v: JsonValue, n: JsonValue, title: Seq<char>)
    requires
        field_spec(v, seq!["view", "type", "template"]) == Some("news"@),
        at2(v, "meta"@, "news"@) == Some(n),
        member(n, "title"@) matches Some(t) && as_text(t) == Some(title),
        trim(title).len() > 0,
    ensures
        card_spec(Some(v)).title == trim(title),
        card_spec(Some(v)).view_kind == "news"@,
        string_member(n, "desc"@) matches Some(d) ==> (trim(d).len() > 0 ==> card_spec(Some(v)).desc == Some(
            trim(d),
        )),
        string_member(n, "jumpUrl"@) matches Some(u) ==> (trim(u).len() > 0 ==> card_spec(Some(v)).jump_url
            == Some(trim(u))),
{
    reveal_strlit("news");
    reveal_strlit("contact");
    reveal_strlit("miniapp");
    let keys = seq!["title", "name"];
    assert(keys[0]@ == "title"@);
    assert(first_string_member(n, keys, 0) == Some(title));
    let dk = seq!["desc", "description"];
    assert(dk[0]@ == "desc"@);
    let uk = seq!["jumpUrl", "jump_url", "url", "link"];
    assert(uk[0]@ == "jumpUrl"@);
}

} // verus!
