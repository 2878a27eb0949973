//! Shortcut commands: named sequences of review or global commands, with
//! placeholders filled in from the context they run in.
use vstd::prelude::*;

use crate::text::{
    chars_of, concat2, concat3, eq_ignore_ascii_case_str, eq_str, find_char_from, in_list,
    first_token_vec, join_space_from, owned, parse_u64_vec, push_seq, split_once_ws_vec,
    string_of, subvec, tokens_vec, trim_start_vec, trim_vec, u64_to_string,
};
use crate::text::{
    eq_ignore_ascii_case, find_char, first_token, join_space, listed, parse_u64_spec, split_once_ws,
    tokens, trim, trim_start, vecs_view,
};

verus! {

pub type ReviewCode = u64;

pub const RAW_BUILTIN_PREFIX: &'static str = "原始";

pub const REVIEW_DEFER_MS: i64 = 180000;

/// Which set of commands a shortcut stands for.
#[derive(Debug, Clone, Copy, PartialEq, Eq, Structural)]
pub enum ShortcutScope {
    Review,
    Global,
}

/// A command on one post under review.
#[derive(Debug, Clone, PartialEq, Eq)]
pub enum ReviewAction {
    Approve,
    Skip,
    Defer { delay_ms: i64 },
    Delete,
    Reject,
    Immediate,
    Refresh,
    Rerender,
    SelectAllMessages,
    ToggleAnonymous,
    ExpandAudit,
    Show,
    Comment { text: String },
    Reply { text: String },
    Merge { review_code: ReviewCode },
    Blacklist { reason: Option<String> },
    QuickReply { key: String },
}

/// A command on the wall as a whole.
#[derive(Debug, Clone, PartialEq, Eq)]
pub enum GlobalAction {
    Help,
    Recall { review_code: ReviewCode },
    Withdraw { review_code: ReviewCode },
    Info { review_code: ReviewCode },
    ManualRelogin,
    AutoRelogin,
    PendingList,
    PendingClear,
    SendQueueClear,
    SendQueueFlush,
    SendInFlightClear,
    BlacklistList,
    BlacklistRemove { sender_id: String },
    SetExternalNumber { value: u64 },
    QuickReplyList,
    QuickReplyAdd { key: String, text: String },
    QuickReplyDelete { key: String },
    ShortcutList,
    ShortcutAdd { scope: ShortcutScope, key: String, definition: String },
    ShortcutDelete { scope: ShortcutScope, key: String },
    SelfCheck,
    SystemRepair,
}

/// The values that placeholders of a shortcut stand for.
#[derive(Debug, Clone)]
pub struct ShortcutTemplateContext<'a> {
    pub args: &'a str,
    pub review_code: Option<ReviewCode>,
    pub sender_id: Option<&'a str>,
    pub group_id: &'a str,
}

// ----------------------------------------------------------------------
// Names
// ----------------------------------------------------------------------
pub open spec fn has_ws(s: Seq<char>) -> bool {
    exists|i: int| 0 <= i < s.len() && crate::text::is_ws(#[trigger] s[i])
}

/// What `validate_shortcut_name` gives for `name`.
pub open spec fn validate_name_spec(name: Seq<char>) -> Result<Seq<char>, Seq<char>> {
    let t = crate::text::trim(name);
    if t.len() == 0 {
        Err("快捷指令名不能为空"@)
    } else if t == RAW_BUILTIN_PREFIX@ {
        Err("快捷指令名不能为 "@ + RAW_BUILTIN_PREFIX@)
    } else if has_ws(t) {
        Err("快捷指令名不能包含空白字符"@)
    } else {
        Ok(t)
    }
}

pub open spec fn result_view(r: Result<String, String>) -> Result<Seq<char>, Seq<char>> {
    match r {
        Ok(s) => Ok(s@),
        Err(e) => Err(e@),
    }
}

fn has_ws_vec(v: &Vec<char>) -> (r: bool)
    ensures
        r == has_ws(v@),
{
    let mut i: usize = 0;
    while i < v.len()
        invariant
            0 <= i <= v@.len(),
            forall|k: int| 0 <= k < i ==> !crate::text::is_ws(v@[k]),
        decreases v@.len() - i,
    {
        if crate::text::is_whitespace(v[i]) {
            return true;
        }
        i = i + 1;
    }
    false
}

fn validate_name_vec(name: &Vec<char>) -> (r: Result<String, String>)
    ensures
        result_view(r) == validate_name_spec(name@),
{
    let t = trim_vec(name);
    if t.len() == 0 {
        return Err(owned("快捷指令名不能为空"));
    }
    if eq_str(&t, RAW_BUILTIN_PREFIX) {
        return Err(concat2("快捷指令名不能为 ", RAW_BUILTIN_PREFIX));
    }
    if has_ws_vec(&t) {
        return Err(owned("快捷指令名不能包含空白字符"));
    }
    Ok(string_of(t.as_slice()))
}

/// Checks a shortcut name: trimmed, not empty, not the reserved prefix, and
/// without inner whitespace. Gives back the trimmed name.
pub fn validate_shortcut_name(name: &str) -> (r: Result<String, String>)
    ensures
        result_view(r) == validate_name_spec(name@),
{
    let v = chars_of(name);
    validate_name_vec(&v)
}

pub fn shortcut_scope_label(scope: ShortcutScope) -> (r: &'static str)
    ensures
        r@ == match scope {
            ShortcutScope::Review => "审核"@,
            ShortcutScope::Global => "全局"@,
        },
{
    match scope {
        ShortcutScope::Review => "审核",
        ShortcutScope::Global => "全局",
    }
}

pub fn shortcut_field_name(scope: ShortcutScope) -> (r: &'static str)
    ensures
        r@ == match scope {
            ShortcutScope::Review => "review_shortcuts"@,
            ShortcutScope::Global => "global_shortcuts"@,
        },
{
    match scope {
        ShortcutScope::Review => "review_shortcuts",
        ShortcutScope::Global => "global_shortcuts",
    }
}

pub open spec fn scope_token_spec(t: Seq<char>) -> Option<ShortcutScope> {
    let x = crate::text::trim(t);
    if x == "审核"@ || x == "review"@ {
        Some(ShortcutScope::Review)
    } else if x == "全局"@ || x == "global"@ {
        Some(ShortcutScope::Global)
    } else {
        None
    }
}

fn scope_token_vec(token: &Vec<char>) -> (r: Option<ShortcutScope>)
    ensures
        r == scope_token_spec(token@),
{
    let x = trim_vec(token);
    if eq_str(&x, "审核") || eq_str(&x, "review") {
        Some(ShortcutScope::Review)
    } else if eq_str(&x, "全局") || eq_str(&x, "global") {
        Some(ShortcutScope::Global)
    } else {
        None
    }
}

/// The scope that a token names, in Chinese or English.
pub fn parse_shortcut_scope_token(token: &str) -> (r: Option<ShortcutScope>)
    ensures
        r == scope_token_spec(token@),
{
    let v = chars_of(token);
    scope_token_vec(&v)
}

pub open spec fn review_command_names() -> Seq<&'static str> {
    seq![
        "是",
        "否",
        "等",
        "删",
        "拒",
        "立即",
        "刷新",
        "重渲染",
        "消息全选",
        "匿",
        "扩列审查",
        "扩列",
        "查",
        "查成分",
        "展示",
        "评论",
        "回复",
        "合并",
        "拉黑",
    ]
}

pub open spec fn global_command_names() -> Seq<&'static str> {
    seq![
        "帮助",
        "调出",
        "撤回",
        "信息",
        "手动重新登录",
        "自动重新登录",
        "待处理",
        "删除待处理",
        "删除暂存区",
        "发送暂存区",
        "清理发送中",
        "列出拉黑",
        "取消拉黑",
        "设定编号",
        "快捷回复",
        "快捷指令",
        "自检",
        "系统修复",
    ]
}

/// Whether `name`, trimmed, is one of the built-in review commands.
pub fn is_builtin_review_command_name(name: &str) -> (r: bool)
    ensures
        r == listed(review_command_names(), crate::text::trim(name@)),
{
    let list = [
        "是",
        "否",
        "等",
        "删",
        "拒",
        "立即",
        "刷新",
        "重渲染",
        "消息全选",
        "匿",
        "扩列审查",
        "扩列",
        "查",
        "查成分",
        "展示",
        "评论",
        "回复",
        "合并",
        "拉黑",
    ];
    assert(list@ =~= review_command_names());
    let v = chars_of(name);
    let t = trim_vec(&v);
    in_list(&t, &list)
}

/// Whether `name`, trimmed, is one of the built-in global commands.
pub fn is_builtin_global_command_name(name: &str) -> (r: bool)
    ensures
        r == listed(global_command_names(), crate::text::trim(name@)),
{
    let list = [
        "帮助",
        "调出",
        "撤回",
        "信息",
        "手动重新登录",
        "自动重新登录",
        "待处理",
        "删除待处理",
        "删除暂存区",
        "发送暂存区",
        "清理发送中",
        "列出拉黑",
        "取消拉黑",
        "设定编号",
        "快捷回复",
        "快捷指令",
        "自检",
        "系统修复",
    ];
    assert(list@ =~= global_command_names());
    let v = chars_of(name);
    let t = trim_vec(&v);
    in_list(&t, &list)
}

// ----------------------------------------------------------------------
// Splitting a definition into steps
// ----------------------------------------------------------------------
/// `s[i..]` with each `"\r\n"` replaced by `"\n"`, scanning from the left.
pub open spec fn crlf_from(s: Seq<char>, i: int) -> Seq<char>
    decreases s.len() - i,
{
    if i < 0 || i >= s.len() {
        Seq::<char>::empty()
    } else if s[i] == '\r' && i + 1 < s.len() && s[i + 1] == '\n' {
        seq!['\n'] + crlf_from(s, i + 2)
    } else {
        seq![s[i]] + crlf_from(s, i + 1)
    }
}

/// `s.replace("\r\n", "\n")`.
pub open spec fn normalize_crlf(s: Seq<char>) -> Seq<char> {
    crlf_from(s, 0)
}

fn normalize_crlf_vec(s: &Vec<char>) -> (r: Vec<char>)
    ensures
        r@ == normalize_crlf(s@),
{
    let mut out: Vec<char> = Vec::new();
    let mut i: usize = 0;
    while i < s.len()
        invariant
            0 <= i <= s@.len(),
            out@ + crlf_from(s@, i as int) == crlf_from(s@, 0),
        decreases s@.len() - i,
    {
        if s[i] == '\r' && i + 1 < s.len() && s[i + 1] == '\n' {
            assert(out@ + crlf_from(s@, i as int) =~= out@.push('\n') + crlf_from(s@, i + 2));
            out.push('\n');
            i = i + 2;
        } else {
            assert(out@ + crlf_from(s@, i as int) =~= out@.push(s@[i as int]) + crlf_from(
                s@,
                i + 1,
            ));
            out.push(s[i]);
            i = i + 1;
        }
    }
    assert(out@ + crlf_from(s@, i as int) =~= out@);
    out
}

pub open spec fn is_step_sep(c: char) -> bool {
    c == '|' || c == '\n'
}

/// The pieces of `t` between separators, as `(finished pieces, open piece)`.
pub open spec fn piece_state(t: Seq<char>) -> (Seq<Seq<char>>, Seq<char>)
    decreases t.len(),
{
    if t.len() == 0 {
        (Seq::empty(), Seq::empty())
    } else {
        let (done, cur) = piece_state(t.drop_last());
        if is_step_sep(t.last()) {
            (done.push(cur), Seq::empty())
        } else {
            (done, cur.push(t.last()))
        }
    }
}

/// `t` split at every `'|'` and `'\n'`.
pub open spec fn pieces(t: Seq<char>) -> Seq<Seq<char>> {
    piece_state(t).0.push(piece_state(t).1)
}

/// A piece that holds only whitespace.
pub open spec fn blank_piece(p: Seq<char>) -> bool {
    p.len() > 0 && crate::text::trim(p).len() == 0
}

/// The trimmed pieces that are not empty once trimmed, in order.
pub open spec fn kept(ps: Seq<Seq<char>>) -> Seq<Seq<char>>
    decreases ps.len(),
{
    if ps.len() == 0 {
        Seq::empty()
    } else {
        let k = kept(ps.drop_last());
        let t = crate::text::trim(ps.last());
        if t.len() == 0 {
            k
        } else {
            k.push(t)
        }
    }
}

/// What `split_shortcut_definition` gives for `d`.
pub open spec fn split_steps_spec(d: Seq<char>) -> Result<Seq<Seq<char>>, Seq<char>> {
    let ps = pieces(normalize_crlf(d));
    if exists|k: int| 0 <= k < ps.len() && blank_piece(#[trigger] ps[k]) {
        Err("快捷指令包含空步骤"@)
    } else if kept(ps).len() == 0 {
        Err("快捷指令至少需要一个步骤"@)
    } else {
        Ok(kept(ps))
    }
}

pub open spec fn strings_view(v: Seq<String>) -> Seq<Seq<char>> {
    v.map_values(|s: String| s@)
}

/// The finished pieces of a prefix of `t` come first among those of `t`; a
/// separator at `i` finishes the piece that is open at `i`.
proof fn lemma_piece_prefix(t: Seq<char>, i: int)
    requires
        0 <= i <= t.len(),
    ensures
        ({
            let (d1, c1) = piece_state(t.take(i));
            let d2 = piece_state(t).0;
            &&& d1.len() <= d2.len()
            &&& forall|k: int| 0 <= k < d1.len() ==> d2[k] == d1[k]
            &&& (i < t.len() && is_step_sep(t[i])) ==> (d1.len() < d2.len() && d2[d1.len() as int]
                == c1)
        }),
    decreases t.len(),
{
    if i == t.len() {
        assert(t.take(i) =~= t);
    } else {
        let u = t.drop_last();
        assert(u.take(i) =~= t.take(i));
        lemma_piece_prefix(u, i);
        if i == t.len() - 1 {
            assert(u =~= t.take(i));
        }
    }
}

fn push_piece(out: &mut Vec<String>, cur: &Vec<char>) -> (r: bool)
    ensures
        r == !blank_piece(cur@),
        r ==> strings_view(final(out)@) == (if crate::text::trim(cur@).len() == 0 {
            strings_view(old(out)@)
        } else {
            strings_view(old(out)@).push(crate::text::trim(cur@))
        }),
{
    let t = trim_vec(cur);
    if t.len() == 0 {
        return cur.len() == 0;
    }
    let s = string_of(t.as_slice());
    out.push(s);
    assert(strings_view(out@) =~= strings_view(old(out)@).push(t@));
    true
}

/// Splits a definition into its steps at `'|'` and at line ends, trimming
/// each. Fails on a step that is only whitespace, and when no step is left.
pub fn split_shortcut_definition(definition: &str) -> (r: Result<Vec<String>, String>)
    ensures
        match r {
            Ok(v) => split_steps_spec(definition@) == Ok::<Seq<Seq<char>>, Seq<char>>(
                strings_view(v@),
            ),
            Err(e) => split_steps_spec(definition@) == Err::<Seq<Seq<char>>, Seq<char>>(e@),
        },
{
    let raw = chars_of(definition);
    let n = normalize_crlf_vec(&raw);
    let ghost nv = n@;
    let mut out: Vec<String> = Vec::new();
    let mut cur: Vec<char> = Vec::new();
    let ghost mut done: Seq<Seq<char>> = Seq::empty();
    let mut i: usize = 0;
    assert(nv.take(0) =~= Seq::<char>::empty());
    while i < n.len()
        invariant
            0 <= i <= nv.len(),
            nv == n@,
            nv == normalize_crlf(definition@),
            piece_state(nv.take(i as int)) == (done, cur@),
            forall|k: int| 0 <= k < done.len() ==> !blank_piece(#[trigger] done[k]),
            strings_view(out@) == kept(done),
        decreases nv.len() - i,
    {
        let c = n[i];
        assert(nv.take(i + 1).drop_last() =~= nv.take(i as int));
        if c == '|' || c == '\n' {
            let ok = push_piece(&mut out, &cur);
            if !ok {
                proof {
                    lemma_piece_prefix(nv, i as int);
                    let ps = pieces(nv);
                    assert(blank_piece(ps[done.len() as int]));
                }
                return Err(owned("快捷指令包含空步骤"));
            }
            proof {
                assert(done.push(cur@).drop_last() =~= done);
                done = done.push(cur@);
            }
            cur = Vec::new();
        } else {
            cur.push(c);
        }
        i = i + 1;
    }
    assert(nv.take(i as int) =~= nv);
    let ghost ps = done.push(cur@);
    assert(ps.drop_last() =~= done);
    let ok = push_piece(&mut out, &cur);
    if !ok {
        assert(blank_piece(ps[done.len() as int]));
        return Err(owned("快捷指令包含空步骤"));
    }
    assert forall|k: int| 0 <= k < ps.len() implies !blank_piece(#[trigger] ps[k]) by {
        if k < done.len() {
            assert(ps[k] == done[k]);
        }
    }
    if out.len() == 0 {
        return Err(owned("快捷指令至少需要一个步骤"));
    }
    Ok(out)
}

// ----------------------------------------------------------------------
// Placeholders
// ----------------------------------------------------------------------
/// What the placeholder `{name}` stands for in `scope` under `ctx`.
pub open spec fn placeholder_value<'a>(
    scope: ShortcutScope,
    name: Seq<char>,
    ctx: ShortcutTemplateContext<'a>,
) -> Result<Seq<char>, Seq<char>> {
    if name == "args"@ {
        Ok(ctx.args@)
    } else if name == "group_id"@ {
        Ok(ctx.group_id@)
    } else if name == "review_code"@ || name == "sender_id"@ {
        match scope {
            ShortcutScope::Review => if name == "review_code"@ {
                match ctx.review_code {
                    Some(v) => Ok(crate::text::dec(v as nat)),
                    None => Err("当前上下文不支持 {review_code}"@),
                }
            } else {
                match ctx.sender_id {
                    Some(v) => Ok(v@),
                    None => Err("当前上下文不支持 {sender_id}"@),
                }
            },
            ShortcutScope::Global => Err("全局快捷指令不支持占位符 {"@ + name + "}"@),
        }
    } else {
        Err("未知占位符 {"@ + name + "}"@)
    }
}

/// `a` followed by the text of `r`, or the error of `r`.
pub open spec fn prepend(a: Seq<char>, r: Result<Seq<char>, Seq<char>>) -> Result<
    Seq<char>,
    Seq<char>,
> {
    match r {
        Ok(x) => Ok(a + x),
        Err(e) => Err(e),
    }
}

/// `s[i..]` with each `{name}` replaced by its value.
pub open spec fn render_from<'a>(
    scope: ShortcutScope,
    s: Seq<char>,
    i: int,
    ctx: ShortcutTemplateContext<'a>,
) -> Result<Seq<char>, Seq<char>>
    decreases s.len() - i,
{
    if i < 0 || i >= s.len() {
        Ok(Seq::<char>::empty())
    } else if s[i] != '{' {
        prepend(seq![s[i]], render_from(scope, s, i + 1, ctx))
    } else {
        proof {
            crate::text::lemma_find_char(s, '}', i + 1);
        }
        match crate::text::find_char(s, '}', i + 1) {
            None => Err("快捷指令占位符缺少 '}'"@),
            Some(close) => match placeholder_value(
                scope,
                crate::text::trim(s.subrange(i + 1, close)),
                ctx,
            ) {
                Err(e) => Err(e),
                Ok(v) => prepend(v, render_from(scope, s, close + 1, ctx)),
            },
        }
    }
}

fn placeholder_value_exec(
    scope: ShortcutScope,
    name: &Vec<char>,
    ctx: &ShortcutTemplateContext<'_>,
) -> (r: Result<String, String>)
    ensures
        result_view(r) == placeholder_value(scope, name@, *ctx),
{
    if eq_str(name, "args") {
        return Ok(owned(ctx.args));
    }
    if eq_str(name, "group_id") {
        return Ok(owned(ctx.group_id));
    }
    let is_code = eq_str(name, "review_code");
    if is_code || eq_str(name, "sender_id") {
        match scope {
            ShortcutScope::Review => {
                if is_code {
                    match ctx.review_code {
                        Some(v) => Ok(u64_to_string(v)),
                        None => Err(owned("当前上下文不支持 {review_code}")),
                    }
                } else {
                    match ctx.sender_id {
                        Some(v) => Ok(owned(v)),
                        None => Err(owned("当前上下文不支持 {sender_id}")),
                    }
                }
            },
            ShortcutScope::Global => {
                let n = string_of(name.as_slice());
                Err(concat3("全局快捷指令不支持占位符 {", n.as_str(), "}"))
            },
        }
    } else {
        let n = string_of(name.as_slice());
        Err(concat3("未知占位符 {", n.as_str(), "}"))
    }
}

/// Fills in the placeholders of one step.
fn render_shortcut_step(
    scope: ShortcutScope,
    step: &str,
    ctx: &ShortcutTemplateContext<'_>,
) -> (r: Result<String, String>)
    ensures
        result_view(r) == render_from(scope, step@, 0, *ctx),
{
    let s = chars_of(step);
    let mut out = String::new();
    let mut i: usize = 0;
    while i < s.len()
        invariant
            0 <= i <= s@.len(),
            s@ == step@,
            prepend(out@, render_from(scope, s@, i as int, *ctx)) == render_from(
                scope,
                s@,
                0,
                *ctx,
            ),
        decreases s@.len() - i,
    {
        let ch = s[i];
        if ch != '{' {
            assert(out@ + (seq![ch] + Seq::<char>::empty()) =~= out@.push(ch));
            proof {
                match render_from(scope, s@, i + 1, *ctx) {
                    Ok(x) => {
                        assert(out@ + (seq![ch] + x) =~= out@.push(ch) + x);
                    },
                    Err(_) => {},
                }
            }
            out.push(ch);
            i = i + 1;
        } else {
            proof {
                crate::text::lemma_find_char(s@, '}', i + 1);
            }
            match find_char_from(&s, '}', i + 1) {
                None => {
                    return Err(owned("快捷指令占位符缺少 '}'"));
                },
                Some(close) => {
                    let raw = subvec(&s, i + 1, close);
                    let name = trim_vec(&raw);
                    match placeholder_value_exec(scope, &name, ctx) {
                        Err(e) => {
                            return Err(e);
                        },
                        Ok(v) => {
                            let ghost before = out@;
                            push_seq(&mut out, v.as_str());
                            proof {
                                match render_from(scope, s@, close + 1, *ctx) {
                                    Ok(x) => {
                                        assert(before + (v@ + x) =~= out@ + x);
                                    },
                                    Err(_) => {},
                                }
                            }
                            i = close + 1;
                        },
                    }
                },
            }
        }
    }
    assert(out@ + Seq::<char>::empty() =~= out@);
    Ok(out)
}

// ----------------------------------------------------------------------
// Actions
// ----------------------------------------------------------------------
/// A review command as the contracts see it.
pub enum ReviewActionView {
    Approve,
    Skip,
    Defer { delay_ms: i64 },
    Delete,
    Reject,
    Immediate,
    Refresh,
    Rerender,
    SelectAllMessages,
    ToggleAnonymous,
    ExpandAudit,
    Show,
    Comment { text: Seq<char> },
    Reply { text: Seq<char> },
    Merge { review_code: ReviewCode },
    Blacklist { reason: Option<Seq<char>> },
    QuickReply { key: Seq<char> },
}

impl View for ReviewAction {
    type V = ReviewActionView;

    open spec fn view(&self) -> ReviewActionView {
        match self {
            ReviewAction::Approve => ReviewActionView::Approve,
            ReviewAction::Skip => ReviewActionView::Skip,
            ReviewAction::Defer { delay_ms } => ReviewActionView::Defer { delay_ms: *delay_ms },
            ReviewAction::Delete => ReviewActionView::Delete,
            ReviewAction::Reject => ReviewActionView::Reject,
            ReviewAction::Immediate => ReviewActionView::Immediate,
            ReviewAction::Refresh => ReviewActionView::Refresh,
            ReviewAction::Rerender => ReviewActionView::Rerender,
            ReviewAction::SelectAllMessages => ReviewActionView::SelectAllMessages,
            ReviewAction::ToggleAnonymous => ReviewActionView::ToggleAnonymous,
            ReviewAction::ExpandAudit => ReviewActionView::ExpandAudit,
            ReviewAction::Show => ReviewActionView::Show,
            ReviewAction::Comment { text } => ReviewActionView::Comment { text: text@ },
            ReviewAction::Reply { text } => ReviewActionView::Reply { text: text@ },
            ReviewAction::Merge { review_code } => ReviewActionView::Merge {
                review_code: *review_code,
            },
            ReviewAction::Blacklist { reason } => ReviewActionView::Blacklist {
                reason: match reason {
                    Some(t) => Some(t@),
                    None => None,
                },
            },
            ReviewAction::QuickReply { key } => ReviewActionView::QuickReply { key: key@ },
        }
    }
}

/// A global command as the contracts see it.
pub enum GlobalActionView {
    Help,
    Recall { review_code: ReviewCode },
    Withdraw { review_code: ReviewCode },
    Info { review_code: ReviewCode },
    ManualRelogin,
    AutoRelogin,
    PendingList,
    PendingClear,
    SendQueueClear,
    SendQueueFlush,
    SendInFlightClear,
    BlacklistList,
    BlacklistRemove { sender_id: Seq<char> },
    SetExternalNumber { value: u64 },
    QuickReplyList,
    QuickReplyAdd { key: Seq<char>, text: Seq<char> },
    QuickReplyDelete { key: Seq<char> },
    ShortcutList,
    ShortcutAdd { scope: ShortcutScope, key: Seq<char>, definition: Seq<char> },
    ShortcutDelete { scope: ShortcutScope, key: Seq<char> },
    SelfCheck,
    SystemRepair,
}

impl View for GlobalAction {
    type V = GlobalActionView;

    open spec fn view(&self) -> GlobalActionView {
        match self {
            GlobalAction::Help => GlobalActionView::Help,
            GlobalAction::Recall { review_code } => GlobalActionView::Recall {
                review_code: *review_code,
            },
            GlobalAction::Withdraw { review_code } => GlobalActionView::Withdraw {
                review_code: *review_code,
            },
            GlobalAction::Info { review_code } => GlobalActionView::Info {
                review_code: *review_code,
            },
            GlobalAction::ManualRelogin => GlobalActionView::ManualRelogin,
            GlobalAction::AutoRelogin => GlobalActionView::AutoRelogin,
            GlobalAction::PendingList => GlobalActionView::PendingList,
            GlobalAction::PendingClear => GlobalActionView::PendingClear,
            GlobalAction::SendQueueClear => GlobalActionView::SendQueueClear,
            GlobalAction::SendQueueFlush => GlobalActionView::SendQueueFlush,
            GlobalAction::SendInFlightClear => GlobalActionView::SendInFlightClear,
            GlobalAction::BlacklistList => GlobalActionView::BlacklistList,
            GlobalAction::BlacklistRemove { sender_id } => GlobalActionView::BlacklistRemove {
                sender_id: sender_id@,
            },
            GlobalAction::SetExternalNumber { value } => GlobalActionView::SetExternalNumber {
                value: *value,
            },
            GlobalAction::QuickReplyList => GlobalActionView::QuickReplyList,
            GlobalAction::QuickReplyAdd { key, text } => GlobalActionView::QuickReplyAdd {
                key: key@,
                text: text@,
            },
            GlobalAction::QuickReplyDelete { key } => GlobalActionView::QuickReplyDelete {
                key: key@,
            },
            GlobalAction::ShortcutList => GlobalActionView::ShortcutList,
            GlobalAction::ShortcutAdd { scope, key, definition } => GlobalActionView::ShortcutAdd {
                scope: *scope,
                key: key@,
                definition: definition@,
            },
            GlobalAction::ShortcutDelete { scope, key } => GlobalActionView::ShortcutDelete {
                scope: *scope,
                key: key@,
            },
            GlobalAction::SelfCheck => GlobalActionView::SelfCheck,
            GlobalAction::SystemRepair => GlobalActionView::SystemRepair,
        }
    }
}

pub open spec fn review_opt_view(r: Option<ReviewAction>) -> Option<ReviewActionView> {
    match r {
        Some(a) => Some(a@),
        None => None,
    }
}

pub open spec fn global_opt_view(r: Option<GlobalAction>) -> Option<GlobalActionView> {
    match r {
        Some(a) => Some(a@),
        None => None,
    }
}

/// What `parse_builtin_review_action` gives.
pub open spec fn review_action_spec(
    command: Seq<char>,
    rest: Seq<char>,
    allow_quick_reply: bool,
) -> Option<ReviewActionView> {
    let r = trim(rest);
    if command == "是"@ {
        Some(ReviewActionView::Approve)
    } else if command == "否"@ {
        Some(ReviewActionView::Skip)
    } else if command == "等"@ {
        Some(ReviewActionView::Defer { delay_ms: REVIEW_DEFER_MS })
    } else if command == "删"@ {
        Some(ReviewActionView::Delete)
    } else if command == "拒"@ {
        Some(ReviewActionView::Reject)
    } else if command == "立即"@ {
        Some(ReviewActionView::Immediate)
    } else if command == "刷新"@ {
        Some(ReviewActionView::Refresh)
    } else if command == "重渲染"@ {
        Some(ReviewActionView::Rerender)
    } else if command == "消息全选"@ {
        Some(ReviewActionView::SelectAllMessages)
    } else if command == "匿"@ {
        Some(ReviewActionView::ToggleAnonymous)
    } else if command == "扩列审查"@ || command == "扩列"@ || command == "查"@ || command
        == "查成分"@ {
        Some(ReviewActionView::ExpandAudit)
    } else if command == "展示"@ {
        Some(ReviewActionView::Show)
    } else if command == "评论"@ {
        Some(ReviewActionView::Comment { text: r })
    } else if command == "回复"@ {
        Some(ReviewActionView::Reply { text: r })
    } else if command == "合并"@ {
        match first_token(r) {
            None => None,
            Some(t) => match parse_u64_spec(t) {
                Some(v) => Some(ReviewActionView::Merge { review_code: v }),
                None => None,
            },
        }
    } else if command == "拉黑"@ {
        Some(
            ReviewActionView::Blacklist {
                reason: if r.len() == 0 {
                    None
                } else {
                    Some(r)
                },
            },
        )
    } else if allow_quick_reply {
        Some(ReviewActionView::QuickReply { key: command })
    } else {
        None
    }
}

fn review_action_vec(command: &Vec<char>, rest: &Vec<char>, allow_quick_reply: bool) -> (r:
    Option<ReviewAction>)
    ensures
        review_opt_view(r) == review_action_spec(command@, rest@, allow_quick_reply),
{
    let r = trim_vec(rest);
    if eq_str(command, "是") {
        Some(ReviewAction::Approve)
    } else if eq_str(command, "否") {
        Some(ReviewAction::Skip)
    } else if eq_str(command, "等") {
        Some(ReviewAction::Defer { delay_ms: REVIEW_DEFER_MS })
    } else if eq_str(command, "删") {
        Some(ReviewAction::Delete)
    } else if eq_str(command, "拒") {
        Some(ReviewAction::Reject)
    } else if eq_str(command, "立即") {
        Some(ReviewAction::Immediate)
    } else if eq_str(command, "刷新") {
        Some(ReviewAction::Refresh)
    } else if eq_str(command, "重渲染") {
        Some(ReviewAction::Rerender)
    } else if eq_str(command, "消息全选") {
        Some(ReviewAction::SelectAllMessages)
    } else if eq_str(command, "匿") {
        Some(ReviewAction::ToggleAnonymous)
    } else if eq_str(command, "扩列审查") || eq_str(command, "扩列") || eq_str(command, "查")
        || eq_str(command, "查成分") {
        Some(ReviewAction::ExpandAudit)
    } else if eq_str(command, "展示") {
        Some(ReviewAction::Show)
    } else if eq_str(command, "评论") {
        Some(ReviewAction::Comment { text: string_of(r.as_slice()) })
    } else if eq_str(command, "回复") {
        Some(ReviewAction::Reply { text: string_of(r.as_slice()) })
    } else if eq_str(command, "合并") {
        match first_token_vec(&r) {
            None => None,
            Some(t) => match parse_u64_vec(&t) {
                Some(v) => Some(ReviewAction::Merge { review_code: v }),
                None => None,
            },
        }
    } else if eq_str(command, "拉黑") {
        if r.len() == 0 {
            Some(ReviewAction::Blacklist { reason: None })
        } else {
            Some(ReviewAction::Blacklist { reason: Some(string_of(r.as_slice())) })
        }
    } else if allow_quick_reply {
        Some(ReviewAction::QuickReply { key: string_of(command.as_slice()) })
    } else {
        None
    }
}

/// The review command that `command` names, with `rest` as its argument;
/// with `allow_quick_reply`, an unknown command is taken as a quick reply key.
pub fn parse_builtin_review_action(command: &str, rest: &str, allow_quick_reply: bool) -> (r:
    Option<ReviewAction>)
    ensures
        review_opt_view(r) == review_action_spec(command@, rest@, allow_quick_reply),
{
    let c = chars_of(command);
    let t = chars_of(rest);
    review_action_vec(&c, &t, allow_quick_reply)
}

/// `(first token, what follows the whitespace after it)` of `input` once
/// leading whitespace is gone.
pub open spec fn split_first_spec(input: Seq<char>) -> Option<(Seq<char>, Seq<char>)> {
    let t = trim_start(input);
    if t.len() == 0 {
        None
    } else {
        let (f, r) = split_once_ws(t);
        if f.len() == 0 {
            None
        } else {
            Some((f, r))
        }
    }
}

fn split_first_token_with_rest(input: &Vec<char>) -> (r: Option<(Vec<char>, Vec<char>)>)
    ensures
        match r {
            Some((f, rest)) => split_first_spec(input@) == Some((f@, rest@)),
            None => split_first_spec(input@) is None,
        },
{
    let t = trim_start_vec(input);
    if t.len() == 0 {
        return None;
    }
    let (f, rest) = split_once_ws_vec(&t);
    if f.len() == 0 {
        None
    } else {
        Some((f, rest))
    }
}

/// A review code, the first token with an optional leading `#`.
pub open spec fn review_code_spec(text: Seq<char>) -> Option<ReviewCode> {
    match first_token(text) {
        None => None,
        Some(t) => parse_u64_spec(
            if t.len() > 0 && t[0] == '#' {
                t.drop_first()
            } else {
                t
            },
        ),
    }
}

fn parse_review_code(text: &Vec<char>) -> (r: Option<ReviewCode>)
    ensures
        r == review_code_spec(text@),
{
    match first_token_vec(text) {
        None => None,
        Some(t) => {
            if t.len() > 0 && t[0] == '#' {
                let u = subvec(&t, 1, t.len());
                assert(u@ =~= t@.drop_first());
                parse_u64_vec(&u)
            } else {
                parse_u64_vec(&t)
            }
        },
    }
}

fn parse_first_token(text: &Vec<char>) -> (r: Option<String>)
    ensures
        match r {
            Some(s) => first_token(text@) == Some(s@),
            None => first_token(text@) is None,
        },
{
    match first_token_vec(text) {
        None => None,
        Some(t) => Some(string_of(t.as_slice())),
    }
}

fn parse_u64(text: &Vec<char>) -> (r: Option<u64>)
    ensures
        r == match first_token(text@) {
            None => None,
            Some(t) => parse_u64_spec(t),
        },
{
    match first_token_vec(text) {
        None => None,
        Some(t) => parse_u64_vec(&t),
    }
}

/// What `快捷回复 ...` asks for.
pub open spec fn quick_reply_spec(rest: Seq<char>) -> Option<GlobalActionView> {
    let ts = tokens(rest);
    if ts.len() == 0 {
        Some(GlobalActionView::QuickReplyList)
    } else if ts[0] == "添加"@ {
        let payload = join_space(ts.drop_first());
        match find_char(payload, '=', 0) {
            None => None,
            Some(k) => {
                let key = trim(payload.subrange(0, k));
                let text = trim(payload.subrange(k + 1, payload.len() as int));
                if key.len() == 0 || text.len() == 0 {
                    None
                } else {
                    Some(GlobalActionView::QuickReplyAdd { key, text })
                }
            },
        }
    } else if ts[0] == "删除"@ {
        let key = trim(join_space(ts.drop_first()));
        if key.len() == 0 {
            None
        } else {
            Some(GlobalActionView::QuickReplyDelete { key })
        }
    } else {
        None
    }
}

fn parse_quick_reply_action(rest: &Vec<char>) -> (r: Option<GlobalAction>)
    ensures
        global_opt_view(r) == quick_reply_spec(rest@),
{
    let ts = tokens_vec(rest);
    if ts.len() == 0 {
        return Some(GlobalAction::QuickReplyList);
    }
    assert(vecs_view(ts@).subrange(1, ts@.len() as int) =~= tokens(rest@).drop_first());
    assert(tokens(rest@)[0] == ts@[0]@);
    if eq_str(&ts[0], "添加") {
        let payload = join_space_from(&ts, 1);
        match find_char_from(&payload, '=', 0) {
            None => None,
            Some(k) => {
                proof {
                    crate::text::lemma_find_char(payload@, '=', 0);
                }
                let key = trim_vec(&subvec(&payload, 0, k));
                let text = trim_vec(&subvec(&payload, k + 1, payload.len()));
                if key.len() == 0 || text.len() == 0 {
                    None
                } else {
                    Some(
                        GlobalAction::QuickReplyAdd {
                            key: string_of(key.as_slice()),
                            text: string_of(text.as_slice()),
                        },
                    )
                }
            },
        }
    } else if eq_str(&ts[0], "删除") {
        let key = trim_vec(&join_space_from(&ts, 1));
        if key.len() == 0 {
            None
        } else {
            Some(GlobalAction::QuickReplyDelete { key: string_of(key.as_slice()) })
        }
    } else {
        None
    }
}

/// What `快捷指令 ...` asks for.
pub open spec fn shortcut_action_spec(rest: Seq<char>) -> Option<GlobalActionView> {
    let r = trim(rest);
    if r.len() == 0 {
        Some(GlobalActionView::ShortcutList)
    } else {
        match split_first_spec(r) {
            None => None,
            Some((sub, tail)) => if sub == "添加"@ {
                match split_first_spec(tail) {
                    None => None,
                    Some((tok, payload)) => match scope_token_spec(tok) {
                        None => None,
                        Some(scope) => match find_char(payload, '=', 0) {
                            None => None,
                            Some(k) => match validate_name_spec(payload.subrange(0, k)) {
                                Err(_) => None,
                                Ok(key) => {
                                    let def = trim(payload.subrange(k + 1, payload.len() as int));
                                    if def.len() == 0 {
                                        None
                                    } else {
                                        Some(GlobalActionView::ShortcutAdd { scope, key, definition: def })
                                    }
                                },
                            },
                        },
                    },
                }
            } else if sub == "删除"@ {
                match split_first_spec(tail) {
                    None => None,
                    Some((tok, key)) => match scope_token_spec(tok) {
                        None => None,
                        Some(scope) => match validate_name_spec(key) {
                            Err(_) => None,
                            Ok(k) => Some(GlobalActionView::ShortcutDelete { scope, key: k }),
                        },
                    },
                }
            } else {
                None
            },
        }
    }
}

fn parse_shortcut_action(rest: &Vec<char>) -> (r: Option<GlobalAction>)
    ensures
        global_opt_view(r) == shortcut_action_spec(rest@),
{
    let r = trim_vec(rest);
    if r.len() == 0 {
        return Some(GlobalAction::ShortcutList);
    }
    let (sub, tail) = match split_first_token_with_rest(&r) {
        None => {
            return None;
        },
        Some(p) => p,
    };
    if eq_str(&sub, "添加") {
        let (tok, payload) = match split_first_token_with_rest(&tail) {
            None => {
                return None;
            },
            Some(p) => p,
        };
        let scope = match scope_token_vec(&tok) {
            None => {
                return None;
            },
            Some(s) => s,
        };
        let k = match find_char_from(&payload, '=', 0) {
            None => {
                return None;
            },
            Some(k) => k,
        };
        proof {
            crate::text::lemma_find_char(payload@, '=', 0);
        }
        let key = match validate_name_vec(&subvec(&payload, 0, k)) {
            Err(_) => {
                return None;
            },
            Ok(key) => key,
        };
        let def = trim_vec(&subvec(&payload, k + 1, payload.len()));
        if def.len() == 0 {
            return None;
        }
        Some(GlobalAction::ShortcutAdd { scope, key, definition: string_of(def.as_slice()) })
    } else if eq_str(&sub, "删除") {
        let (tok, key) = match split_first_token_with_rest(&tail) {
            None => {
                return None;
            },
            Some(p) => p,
        };
        let scope = match scope_token_vec(&tok) {
            None => {
                return None;
            },
            Some(s) => s,
        };
        match validate_name_vec(&key) {
            Err(_) => None,
            Ok(k) => Some(GlobalAction::ShortcutDelete { scope, key: k }),
        }
    } else {
        None
    }
}

/// What `parse_builtin_global_action` gives.
pub open spec fn global_action_spec(command: Seq<char>, rest: Seq<char>) -> Option<
    GlobalActionView,
> {
    let r = trim(rest);
    if eq_ignore_ascii_case(command, "help"@) {
        Some(GlobalActionView::Help)
    } else if command == "帮助"@ {
        Some(GlobalActionView::Help)
    } else if command == "调出"@ {
        match review_code_spec(r) {
            Some(c) => Some(GlobalActionView::Recall { review_code: c }),
            None => None,
        }
    } else if command == "撤回"@ {
        match review_code_spec(r) {
            Some(c) => Some(GlobalActionView::Withdraw { review_code: c }),
            None => None,
        }
    } else if command == "信息"@ {
        match review_code_spec(r) {
            Some(c) => Some(GlobalActionView::Info { review_code: c }),
            None => None,
        }
    } else if command == "手动重新登录"@ {
        Some(GlobalActionView::ManualRelogin)
    } else if command == "自动重新登录"@ {
        Some(GlobalActionView::AutoRelogin)
    } else if command == "待处理"@ {
        Some(GlobalActionView::PendingList)
    } else if command == "删除待处理"@ {
        Some(GlobalActionView::PendingClear)
    } else if command == "删除暂存区"@ {
        Some(GlobalActionView::SendQueueClear)
    } else if command == "发送暂存区"@ {
        Some(GlobalActionView::SendQueueFlush)
    } else if command == "清理发送中"@ {
        Some(GlobalActionView::SendInFlightClear)
    } else if command == "列出拉黑"@ {
        Some(GlobalActionView::BlacklistList)
    } else if command == "取消拉黑"@ {
        match first_token(r) {
            Some(t) => Some(GlobalActionView::BlacklistRemove { sender_id: t }),
            None => None,
        }
    } else if command == "设定编号"@ {
        match first_token(r) {
            None => None,
            Some(t) => match parse_u64_spec(t) {
                Some(v) => Some(GlobalActionView::SetExternalNumber { value: v }),
                None => None,
            },
        }
    } else if command == "快捷回复"@ {
        quick_reply_spec(r)
    } else if command == "快捷指令"@ {
        shortcut_action_spec(r)
    } else if command == "自检"@ {
        Some(GlobalActionView::SelfCheck)
    } else if command == "系统修复"@ {
        Some(GlobalActionView::SystemRepair)
    } else {
        None
    }
}

fn global_action_vec(command: &Vec<char>, rest: &Vec<char>) -> (r: Option<GlobalAction>)
    ensures
        global_opt_view(r) == global_action_spec(command@, rest@),
{
    if eq_ignore_ascii_case_str(command, "help") {
        return Some(GlobalAction::Help);
    }
    let r = trim_vec(rest);
    if eq_str(command, "帮助") {
        Some(GlobalAction::Help)
    } else if eq_str(command, "调出") {
        match parse_review_code(&r) {
            Some(c) => Some(GlobalAction::Recall { review_code: c }),
            None => None,
        }
    } else if eq_str(command, "撤回") {
        match parse_review_code(&r) {
            Some(c) => Some(GlobalAction::Withdraw { review_code: c }),
            None => None,
        }
    } else if eq_str(command, "信息") {
        match parse_review_code(&r) {
            Some(c) => Some(GlobalAction::Info { review_code: c }),
            None => None,
        }
    } else if eq_str(command, "手动重新登录") {
        Some(GlobalAction::ManualRelogin)
    } else if eq_str(command, "自动重新登录") {
        Some(GlobalAction::AutoRelogin)
    } else if eq_str(command, "待处理") {
        Some(GlobalAction::PendingList)
    } else if eq_str(command, "删除待处理") {
        Some(GlobalAction::PendingClear)
    } else if eq_str(command, "删除暂存区") {
        Some(GlobalAction::SendQueueClear)
    } else if eq_str(command, "发送暂存区") {
        Some(GlobalAction::SendQueueFlush)
    } else if eq_str(command, "清理发送中") {
        Some(GlobalAction::SendInFlightClear)
    } else if eq_str(command, "列出拉黑") {
        Some(GlobalAction::BlacklistList)
    } else if eq_str(command, "取消拉黑") {
        match parse_first_token(&r) {
            Some(t) => Some(GlobalAction::BlacklistRemove { sender_id: t }),
            None => None,
        }
    } else if eq_str(command, "设定编号") {
        match parse_u64(&r) {
            Some(v) => Some(GlobalAction::SetExternalNumber { value: v }),
            None => None,
        }
    } else if eq_str(command, "快捷回复") {
        parse_quick_reply_action(&r)
    } else if eq_str(command, "快捷指令") {
        parse_shortcut_action(&r)
    } else if eq_str(command, "自检") {
        Some(GlobalAction::SelfCheck)
    } else if eq_str(command, "系统修复") {
        Some(GlobalAction::SystemRepair)
    } else {
        None
    }
}

/// The global command that `command` names, with `rest` as its argument.
pub fn parse_builtin_global_action(command: &str, rest: &str) -> (r: Option<GlobalAction>)
    ensures
        global_opt_view(r) == global_action_spec(command@, rest@),
{
    let c = chars_of(command);
    let t = chars_of(rest);
    global_action_vec(&c, &t)
}

// ----------------------------------------------------------------------
// Steps and whole definitions
// ----------------------------------------------------------------------
/// The review command that one rendered step names; quick replies are not steps.
pub open spec fn review_step_spec(step: Seq<char>) -> Option<ReviewActionView> {
    match split_first_spec(step) {
        None => None,
        Some((command, rest)) => review_action_spec(command, trim_start(rest), false),
    }
}

/// The global commands that a shortcut may run: those that change state
/// without asking for a listing.
pub open spec fn allowed_in_global_shortcut(a: GlobalActionView) -> bool {
    ||| a is Recall
    ||| a is Withdraw
    ||| a is PendingClear
    ||| a is SendQueueClear
    ||| a is SendQueueFlush
    ||| a is SendInFlightClear
    ||| a is BlacklistRemove
    ||| a is SetExternalNumber
}

pub open spec fn global_step_spec(step: Seq<char>) -> Option<GlobalActionView> {
    match split_first_spec(step) {
        None => None,
        Some((command, rest)) => match global_action_spec(command, rest) {
            Some(a) => if allowed_in_global_shortcut(a) {
                Some(a)
            } else {
                None
            },
            None => None,
        },
    }
}

fn parse_builtin_review_shortcut_step(step: &Vec<char>) -> (r: Option<ReviewAction>)
    ensures
        review_opt_view(r) == review_step_spec(step@),
{
    match split_first_token_with_rest(step) {
        None => None,
        Some((command, rest)) => {
            let r = trim_start_vec(&rest);
            review_action_vec(&command, &r, false)
        },
    }
}

fn parse_builtin_global_shortcut_step(step: &Vec<char>) -> (r: Option<GlobalAction>)
    ensures
        global_opt_view(r) == global_step_spec(step@),
{
    match split_first_token_with_rest(step) {
        None => None,
        Some((command, rest)) => {
            let action = global_action_vec(&command, &rest);
            match action {
                None => None,
                Some(a) => {
                    let allowed = match &a {
                        GlobalAction::Recall { .. } => true,
                        GlobalAction::Withdraw { .. } => true,
                        GlobalAction::PendingClear => true,
                        GlobalAction::SendQueueClear => true,
                        GlobalAction::SendQueueFlush => true,
                        GlobalAction::SendInFlightClear => true,
                        GlobalAction::BlacklistRemove { .. } => true,
                        GlobalAction::SetExternalNumber { .. } => true,
                        _ => false,
                    };
                    if allowed {
                        Some(a)
                    } else {
                        None
                    }
                },
            }
        },
    }
}

/// The review commands of `steps`, or the first failure among them.
pub open spec fn review_actions_spec<'a>(
    steps: Seq<Seq<char>>,
    ctx: ShortcutTemplateContext<'a>,
) -> Result<Seq<ReviewActionView>, Seq<char>>
    decreases steps.len(),
{
    if steps.len() == 0 {
        Ok(Seq::empty())
    } else {
        match review_actions_spec(steps.drop_last(), ctx) {
            Err(e) => Err(e),
            Ok(prev) => match render_from(ShortcutScope::Review, steps.last(), 0, ctx) {
                Err(e) => Err(e),
                Ok(text) => match review_step_spec(text) {
                    None => Err("无效的审核快捷指令步骤："@ + steps.last()),
                    Some(a) => Ok(prev.push(a)),
                },
            },
        }
    }
}

/// The global commands of `steps`, or the first failure among them.
pub open spec fn global_actions_spec<'a>(
    steps: Seq<Seq<char>>,
    ctx: ShortcutTemplateContext<'a>,
) -> Result<Seq<GlobalActionView>, Seq<char>>
    decreases steps.len(),
{
    if steps.len() == 0 {
        Ok(Seq::empty())
    } else {
        match global_actions_spec(steps.drop_last(), ctx) {
            Err(e) => Err(e),
            Ok(prev) => match render_from(ShortcutScope::Global, steps.last(), 0, ctx) {
                Err(e) => Err(e),
                Ok(text) => match global_step_spec(text) {
                    None => Err("无效的全局快捷指令步骤："@ + steps.last()),
                    Some(a) => Ok(prev.push(a)),
                },
            },
        }
    }
}

/// What `parse_review_shortcut_actions` gives.
pub open spec fn review_shortcut_spec<'a>(
    definition: Seq<char>,
    ctx: ShortcutTemplateContext<'a>,
) -> Result<Seq<ReviewActionView>, Seq<char>> {
    match split_steps_spec(definition) {
        Err(e) => Err(e),
        Ok(steps) => review_actions_spec(steps, ctx),
    }
}

/// What `parse_global_shortcut_actions` gives.
pub open spec fn global_shortcut_spec<'a>(
    definition: Seq<char>,
    ctx: ShortcutTemplateContext<'a>,
) -> Result<Seq<GlobalActionView>, Seq<char>> {
    match split_steps_spec(definition) {
        Err(e) => Err(e),
        Ok(steps) => global_actions_spec(steps, ctx),
    }
}

pub open spec fn review_list_view(r: Result<Vec<ReviewAction>, String>) -> Result<
    Seq<ReviewActionView>,
    Seq<char>,
> {
    match r {
        Ok(v) => Ok(v@.map_values(|a: ReviewAction| a@)),
        Err(e) => Err(e@),
    }
}

pub open spec fn global_list_view(r: Result<Vec<GlobalAction>, String>) -> Result<
    Seq<GlobalActionView>,
    Seq<char>,
> {
    match r {
        Ok(v) => Ok(v@.map_values(|a: GlobalAction| a@)),
        Err(e) => Err(e@),
    }
}

proof fn lemma_review_actions_err(steps: Seq<Seq<char>>, i: int, ctx: ShortcutTemplateContext)
    requires
        0 <= i <= steps.len(),
        review_actions_spec(steps.take(i), ctx) is Err,
    ensures
        review_actions_spec(steps, ctx) == review_actions_spec(steps.take(i), ctx),
    decreases steps.len() - i,
{
    if i < steps.len() {
        assert(steps.take(i + 1).drop_last() =~= steps.take(i));
        lemma_review_actions_err(steps, i + 1, ctx);
    } else {
        assert(steps.take(i) =~= steps);
    }
}

proof fn lemma_global_actions_err(steps: Seq<Seq<char>>, i: int, ctx: ShortcutTemplateContext)
    requires
        0 <= i <= steps.len(),
        global_actions_spec(steps.take(i), ctx) is Err,
    ensures
        global_actions_spec(steps, ctx) == global_actions_spec(steps.take(i), ctx),
    decreases steps.len() - i,
{
    if i < steps.len() {
        assert(steps.take(i + 1).drop_last() =~= steps.take(i));
        lemma_global_actions_err(steps, i + 1, ctx);
    } else {
        assert(steps.take(i) =~= steps);
    }
}

/// The review commands that a shortcut definition runs, with its
/// placeholders filled in from `ctx`.
pub fn parse_review_shortcut_actions(definition: &str, ctx: &ShortcutTemplateContext<'_>) -> (r:
    Result<Vec<ReviewAction>, String>)
    ensures
        review_list_view(r) == review_shortcut_spec(definition@, *ctx),
{
    let steps = match split_shortcut_definition(definition) {
        Err(e) => {
            return Err(e);
        },
        Ok(v) => v,
    };
    let ghost sv = strings_view(steps@);
    let mut out: Vec<ReviewAction> = Vec::new();
    let mut i: usize = 0;
    assert(sv.take(0) =~= Seq::<Seq<char>>::empty());
    assert(out@.map_values(|a: ReviewAction| a@) =~= Seq::<ReviewActionView>::empty());
    while i < steps.len()
        invariant
            0 <= i <= steps@.len(),
            sv == strings_view(steps@),
            split_steps_spec(definition@) == Ok::<Seq<Seq<char>>, Seq<char>>(sv),
            review_actions_spec(sv.take(i as int), *ctx) == Ok::<
                Seq<ReviewActionView>,
                Seq<char>,
            >(out@.map_values(|a: ReviewAction| a@)),
        decreases steps@.len() - i,
    {
        let step = &steps[i];
        assert(sv.take(i + 1).drop_last() =~= sv.take(i as int));
        assert(sv.take(i + 1).last() == step@);
        let rendered = match render_shortcut_step(ShortcutScope::Review, step.as_str(), ctx) {
            Err(e) => {
                proof {
                    lemma_review_actions_err(sv, i + 1, *ctx);
                }
                return Err(e);
            },
            Ok(t) => t,
        };
        let rv = chars_of(rendered.as_str());
        match parse_builtin_review_shortcut_step(&rv) {
            None => {
                proof {
                    lemma_review_actions_err(sv, i + 1, *ctx);
                }
                return Err(concat2("无效的审核快捷指令步骤：", step.as_str()));
            },
            Some(a) => {
                let ghost before = out@;
                out.push(a);
                assert(out@.map_values(|a: ReviewAction| a@) =~= before.map_values(
                    |a: ReviewAction| a@,
                ).push(a@));
            },
        }
        i = i + 1;
    }
    assert(sv.take(i as int) =~= sv);
    Ok(out)
}

/// The global commands that a shortcut definition runs, with its
/// placeholders filled in from `ctx`.
pub fn parse_global_shortcut_actions(definition: &str, ctx: &ShortcutTemplateContext<'_>) -> (r:
    Result<Vec<GlobalAction>, String>)
    ensures
        global_list_view(r) == global_shortcut_spec(definition@, *ctx),
{
    let steps = match split_shortcut_definition(definition) {
        Err(e) => {
            return Err(e);
        },
        Ok(v) => v,
    };
    let ghost sv = strings_view(steps@);
    let mut out: Vec<GlobalAction> = Vec::new();
    let mut i: usize = 0;
    assert(sv.take(0) =~= Seq::<Seq<char>>::empty());
    assert(out@.map_values(|a: GlobalAction| a@) =~= Seq::<GlobalActionView>::empty());
    while i < steps.len()
        invariant
            0 <= i <= steps@.len(),
            sv == strings_view(steps@),
            split_steps_spec(definition@) == Ok::<Seq<Seq<char>>, Seq<char>>(sv),
            global_actions_spec(sv.take(i as int), *ctx) == Ok::<
                Seq<GlobalActionView>,
                Seq<char>,
            >(out@.map_values(|a: GlobalAction| a@)),
        decreases steps@.len() - i,
    {
        let step = &steps[i];
        assert(sv.take(i + 1).drop_last() =~= sv.take(i as int));
        assert(sv.take(i + 1).last() == step@);
        let rendered = match render_shortcut_step(ShortcutScope::Global, step.as_str(), ctx) {
            Err(e) => {
                proof {
                    lemma_global_actions_err(sv, i + 1, *ctx);
                }
                return Err(e);
            },
            Ok(t) => t,
        };
        let rv = chars_of(rendered.as_str());
        match parse_builtin_global_shortcut_step(&rv) {
            None => {
                proof {
                    lemma_global_actions_err(sv, i + 1, *ctx);
                }
                return Err(concat2("无效的全局快捷指令步骤：", step.as_str()));
            },
            Some(a) => {
                let ghost before = out@;
                out.push(a);
                assert(out@.map_values(|a: GlobalAction| a@) =~= before.map_values(
                    |a: GlobalAction| a@,
                ).push(a@));
            },
        }
        i = i + 1;
    }
    assert(sv.take(i as int) =~= sv);
    Ok(out)
}

/// The context in which a review shortcut is checked when it is saved.
pub open spec fn review_check_context() -> ShortcutTemplateContext<'static> {
    ShortcutTemplateContext {
        args: "1",
        review_code: Some(1),
        sender_id: Some("10001"),
        group_id: "group",
    }
}

/// The context in which a global shortcut is checked when it is saved.
pub open spec fn global_check_context() -> ShortcutTemplateContext<'static> {
    ShortcutTemplateContext { args: "1", review_code: None, sender_id: None, group_id: "group" }
}

/// Checks a review shortcut definition against a sample context.
pub fn validate_review_shortcut_definition(definition: &str) -> (r: Result<(), String>)
    ensures
        match r {
            Ok(_) => review_shortcut_spec(definition@, review_check_context()) is Ok,
            Err(e) => review_shortcut_spec(definition@, review_check_context()) == Err::<
                Seq<ReviewActionView>,
                Seq<char>,
            >(e@),
        },
{
    let ctx = ShortcutTemplateContext {
        args: "1",
        review_code: Some(1),
        sender_id: Some("10001"),
        group_id: "group",
    };
    assert(ctx == review_check_context());
    match parse_review_shortcut_actions(definition, &ctx) {
        Ok(_) => Ok(()),
        Err(e) => Err(e),
    }
}

/// Checks a global shortcut definition against a sample context.
pub fn validate_global_shortcut_definition(definition: &str) -> (r: Result<(), String>)
    ensures
        match r {
            Ok(_) => global_shortcut_spec(definition@, global_check_context()) is Ok,
            Err(e) => global_shortcut_spec(definition@, global_check_context()) == Err::<
                Seq<GlobalActionView>,
                Seq<char>,
            >(e@),
        },
{
    let ctx = ShortcutTemplateContext {
        args: "1",
        review_code: None,
        sender_id: None,
        group_id: "group",
    };
    assert(ctx == global_check_context());
    match parse_global_shortcut_actions(definition, &ctx) {
        Ok(_) => Ok(()),
        Err(e) => Err(e),
    }
}

// ----------------------------------------------------------------------
// Laws
// ----------------------------------------------------------------------
/// No character of `p` separates steps.
pub open spec fn no_sep(p: Seq<char>) -> bool {
    forall|k: int| 0 <= k < p.len() ==> !is_step_sep(#[trigger] p[k])
}

proof fn lemma_piece_state_no_sep(t: Seq<char>)
    ensures
        no_sep(piece_state(t).1),
        forall|i: int| 0 <= i < piece_state(t).0.len() ==> no_sep(#[trigger] piece_state(t).0[i]),
    decreases t.len(),
{
    if t.len() > 0 {
        lemma_piece_state_no_sep(t.drop_last());
        let (done, cur) = piece_state(t.drop_last());
        if is_step_sep(t.last()) {
            assert forall|i: int| 0 <= i < done.push(cur).len() implies no_sep(
                #[trigger] done.push(cur)[i],
            ) by {
                if i < done.len() {
                    assert(done.push(cur)[i] == done[i]);
                }
            }
        } else {
            assert forall|k: int| 0 <= k < cur.push(t.last()).len() implies !is_step_sep(
                #[trigger] cur.push(t.last())[k],
            ) by {
                if k < cur.len() {
                    assert(cur.push(t.last())[k] == cur[k]);
                }
            }
        }
    }
}

proof fn lemma_kept_clean(ps: Seq<Seq<char>>)
    requires
        forall|i: int| 0 <= i < ps.len() ==> no_sep(#[trigger] ps[i]),
    ensures
        forall|i: int|
            0 <= i < kept(ps).len() ==> {
                &&& (#[trigger] kept(ps)[i]).len() > 0
                &&& trim(kept(ps)[i]) == kept(ps)[i]
                &&& no_sep(kept(ps)[i])
            },
    decreases ps.len(),
{
    if ps.len() > 0 {
        lemma_kept_clean(ps.drop_last());
        let k = kept(ps.drop_last());
        let p = ps.last();
        let t = trim(p);
        assert(no_sep(ps[ps.len() - 1]));
        if t.len() > 0 {
            crate::text::lemma_trim_idempotent(p);
            crate::text::lemma_trim_ends(p);
            let a = choose|a: int| 0 <= a <= a + t.len() <= p.len() && t =~= #[trigger] p.subrange(a, a + t.len());
            assert forall|j: int| 0 <= j < t.len() implies !is_step_sep(#[trigger] t[j]) by {
                assert(t[j] == p[a + j]);
            }
            assert forall|i: int| 0 <= i < k.push(t).len() implies {
                &&& (#[trigger] k.push(t)[i]).len() > 0
                &&& trim(k.push(t)[i]) == k.push(t)[i]
                &&& no_sep(k.push(t)[i])
            } by {
                if i < k.len() {
                    assert(k.push(t)[i] == k[i]);
                }
            }
        }
    }
}

/// Every step that a definition splits into is not empty, is trimmed, and
/// holds neither `'|'` nor a line end; a definition that splits at all gives
/// at least one step.
pub proof fn lemma_split_steps_clean(d: Seq<char>)
    ensures
        split_steps_spec(d) is Ok ==> {
            let steps = split_steps_spec(d)->Ok_0;
            &&& steps.len() >= 1
            &&& forall|i: int|
                0 <= i < steps.len() ==> {
                    &&& (#[trigger] steps[i]).len() > 0
                    &&& trim(steps[i]) == steps[i]
                    &&& no_sep(steps[i])
                }
        },
{
    let t = normalize_crlf(d);
    lemma_piece_state_no_sep(t);
    let ps = pieces(t);
    let (done, cur) = piece_state(t);
    assert forall|i: int| 0 <= i < ps.len() implies no_sep(#[trigger] ps[i]) by {
        if i < done.len() {
            assert(ps[i] == done[i]);
        } else {
            assert(ps[i] == cur);
        }
    }
    lemma_kept_clean(ps);
}

/// `s[i..]` holds no `'{'`.
pub open spec fn no_open_brace(s: Seq<char>, i: int) -> bool {
    forall|k: int| i <= k < s.len() ==> #[trigger] s[k] != '{'
}

/// A step without placeholders runs as written, in either scope and under
/// any context.
pub proof fn lemma_render_without_placeholders(
    scope: ShortcutScope,
    s: Seq<char>,
    i: int,
    ctx: ShortcutTemplateContext,
)
    requires
        0 <= i <= s.len(),
        no_open_brace(s, i),
    ensures
        render_from(scope, s, i, ctx) == Ok::<Seq<char>, Seq<char>>(s.subrange(i, s.len() as int)),
    decreases s.len() - i,
{
    if i < s.len() {
        lemma_render_without_placeholders(scope, s, i + 1, ctx);
        assert(seq![s[i]] + s.subrange(i + 1, s.len() as int) =~= s.subrange(i, s.len() as int));
    } else {
        assert(s.subrange(i, s.len() as int) =~= Seq::<char>::empty());
    }
}

/// A global shortcut renders the same under two contexts that agree on the
/// arguments and the group: it never reads a review code or a sender.
pub proof fn lemma_global_render_ignores_review_context(
    s: Seq<char>,
    i: int,
    c1: ShortcutTemplateContext,
    c2: ShortcutTemplateContext,
)
    requires
        c1.args@ == c2.args@,
        c1.group_id@ == c2.group_id@,
    ensures
        render_from(ShortcutScope::Global, s, i, c1) == render_from(ShortcutScope::Global, s, i, c2),
    decreases s.len() - i,
{
    if 0 <= i < s.len() {
        if s[i] != '{' {
            lemma_global_render_ignores_review_context(s, i + 1, c1, c2);
        } else {
            crate::text::lemma_find_char(s, '}', i + 1);
            match crate::text::find_char(s, '}', i + 1) {
                None => {},
                Some(close) => {
                    lemma_global_render_ignores_review_context(s, close + 1, c1, c2);
                },
            }
        }
    }
}

/// What a global shortcut runs does not depend on a review code or a
/// sender in its context.
pub proof fn lemma_global_actions_ignore_review_context(
    steps: Seq<Seq<char>>,
    c1: ShortcutTemplateContext,
    c2: ShortcutTemplateContext,
)
    requires
        c1.args@ == c2.args@,
        c1.group_id@ == c2.group_id@,
    ensures
        global_actions_spec(steps, c1) == global_actions_spec(steps, c2),
    decreases steps.len(),
{
    if steps.len() > 0 {
        lemma_global_actions_ignore_review_context(steps.drop_last(), c1, c2);
        lemma_global_render_ignores_review_context(steps.last(), 0, c1, c2);
    }
}


/// The word list of review commands and the review-action parser accept the
/// same words: a trimmed word is a listed review command exactly when it
/// parses as a review action without quick replies (given an argument that
/// `合并` accepts, a review code).
pub proof fn lemma_review_names_match_parser(command: Seq<char>, rest: Seq<char>)
    requires
        trim(command) == command,
        first_token(trim(rest)) matches Some(t) && parse_u64_spec(t) is Some,
    ensures
        listed(review_command_names(), trim(command)) <==> review_action_spec(
            command,
            rest,
            false,
        ) is Some,
{
    let names = review_command_names();
    if listed(names, command) {
        let i = choose|i: int| 0 <= i < names.len() && names[i]@ == command;
        assert(0 <= i < 19);
        if i == 0 {} else if i == 1 {} else if i == 2 {} else if i == 3 {} else if i == 4 {}
        else if i == 5 {} else if i == 6 {} else if i == 7 {} else if i == 8 {} else if i == 9 {}
        else if i == 10 {} else if i == 11 {} else if i == 12 {} else if i == 13 {}
        else if i == 14 {} else if i == 15 {} else if i == 16 {} else if i == 17 {} else {}
    }
    if review_action_spec(command, rest, false) is Some {
        if command == "是"@ { assert(names[0]@ == command); }
        else if command == "否"@ { assert(names[1]@ == command); }
        else if command == "等"@ { assert(names[2]@ == command); }
        else if command == "删"@ { assert(names[3]@ == command); }
        else if command == "拒"@ { assert(names[4]@ == command); }
        else if command == "立即"@ { assert(names[5]@ == command); }
        else if command == "刷新"@ { assert(names[6]@ == command); }
        else if command == "重渲染"@ { assert(names[7]@ == command); }
        else if command == "消息全选"@ { assert(names[8]@ == command); }
        else if command == "匿"@ { assert(names[9]@ == command); }
        else if command == "扩列审查"@ { assert(names[10]@ == command); }
        else if command == "扩列"@ { assert(names[11]@ == command); }
        else if command == "查"@ { assert(names[12]@ == command); }
        else if command == "查成分"@ { assert(names[13]@ == command); }
        else if command == "展示"@ { assert(names[14]@ == command); }
        else if command == "评论"@ { assert(names[15]@ == command); }
        else if command == "回复"@ { assert(names[16]@ == command); }
        else if command == "合并"@ { assert(names[17]@ == command); }
        else { assert(names[18]@ == command); }
    }
}


/// The fixed review commands each name one action, whatever follows the
/// command and whether quick replies are allowed: "是" approves, "否" skips,
/// "等" defers, "删" deletes, "拒" rejects, "立即" sends at once, "刷新"
/// refreshes, "重渲染" renders again, "消息全选" selects every message,
/// "匿" toggles anonymity, "扩列审查", "扩列", "查" and "查成分" audit,
/// "展示" shows, and "评论" and "回复" comment and reply with the trimmed rest.
pub proof fn lemma_review_command_table(rest: Seq<char>, allow_quick_reply: bool)
    ensures
        review_action_spec("是"@, rest, allow_quick_reply) == Some(ReviewActionView::Approve),
        review_action_spec("否"@, rest, allow_quick_reply) == Some(ReviewActionView::Skip),
        review_action_spec("等"@, rest, allow_quick_reply) == Some(
            ReviewActionView::Defer { delay_ms: REVIEW_DEFER_MS },
        ),
        review_action_spec("删"@, rest, allow_quick_reply) == Some(ReviewActionView::Delete),
        review_action_spec("拒"@, rest, allow_quick_reply) == Some(ReviewActionView::Reject),
        review_action_spec("立即"@, rest, allow_quick_reply) == Some(ReviewActionView::Immediate),
        review_action_spec("刷新"@, rest, allow_quick_reply) == Some(ReviewActionView::Refresh),
        review_action_spec("重渲染"@, rest, allow_quick_reply) == Some(ReviewActionView::Rerender),
        review_action_spec("消息全选"@, rest, allow_quick_reply) == Some(ReviewActionView::SelectAllMessages),
        review_action_spec("匿"@, rest, allow_quick_reply) == Some(ReviewActionView::ToggleAnonymous),
        review_action_spec("扩列审查"@, rest, allow_quick_reply) == Some(ReviewActionView::ExpandAudit),
        review_action_spec("扩列"@, rest, allow_quick_reply) == Some(ReviewActionView::ExpandAudit),
        review_action_spec("查"@, rest, allow_quick_reply) == Some(ReviewActionView::ExpandAudit),
        review_action_spec("查成分"@, rest, allow_quick_reply) == Some(ReviewActionView::ExpandAudit),
        review_action_spec("展示"@, rest, allow_quick_reply) == Some(ReviewActionView::Show),
        review_action_spec("评论"@, rest, allow_quick_reply) == Some(ReviewActionView::Comment { text: trim(rest) }),
        review_action_spec("回复"@, rest, allow_quick_reply) == Some(ReviewActionView::Reply { text: trim(rest) }),
{
    reveal_strlit("是");
    reveal_strlit("否");
    reveal_strlit("等");
    reveal_strlit("删");
    reveal_strlit("拒");
    reveal_strlit("立即");
    reveal_strlit("刷新");
    reveal_strlit("重渲染");
    reveal_strlit("消息全选");
    reveal_strlit("匿");
    reveal_strlit("扩列审查");
    reveal_strlit("扩列");
    reveal_strlit("查");
    reveal_strlit("查成分");
    reveal_strlit("展示");
    reveal_strlit("评论");
    reveal_strlit("回复");
    assert("立即"@ != "是"@) by { assert("立即"@.len() != "是"@.len()); }
    assert("立即"@ != "否"@) by { assert("立即"@.len() != "否"@.len()); }
    assert("立即"@ != "等"@) by { assert("立即"@.len() != "等"@.len()); }
    assert("立即"@ != "删"@) by { assert("立即"@.len() != "删"@.len()); }
    assert("立即"@ != "拒"@) by { assert("立即"@.len() != "拒"@.len()); }
    assert("刷新"@ != "是"@) by { assert("刷新"@.len() != "是"@.len()); }
    assert("刷新"@ != "否"@) by { assert("刷新"@.len() != "否"@.len()); }
    assert("刷新"@ != "等"@) by { assert("刷新"@.len() != "等"@.len()); }
    assert("刷新"@ != "删"@) by { assert("刷新"@.len() != "删"@.len()); }
    assert("刷新"@ != "拒"@) by { assert("刷新"@.len() != "拒"@.len()); }
    assert("重渲染"@ != "是"@) by { assert("重渲染"@.len() != "是"@.len()); }
    assert("重渲染"@ != "否"@) by { assert("重渲染"@.len() != "否"@.len()); }
    assert("重渲染"@ != "等"@) by { assert("重渲染"@.len() != "等"@.len()); }
    assert("重渲染"@ != "删"@) by { assert("重渲染"@.len() != "删"@.len()); }
    assert("重渲染"@ != "拒"@) by { assert("重渲染"@.len() != "拒"@.len()); }
    assert("重渲染"@ != "立即"@) by { assert("重渲染"@.len() != "立即"@.len()); }
    assert("重渲染"@ != "刷新"@) by { assert("重渲染"@.len() != "刷新"@.len()); }
    assert("消息全选"@ != "是"@) by { assert("消息全选"@.len() != "是"@.len()); }
    assert("消息全选"@ != "否"@) by { assert("消息全选"@.len() != "否"@.len()); }
    assert("消息全选"@ != "等"@) by { assert("消息全选"@.len() != "等"@.len()); }
    assert("消息全选"@ != "删"@) by { assert("消息全选"@.len() != "删"@.len()); }
    assert("消息全选"@ != "拒"@) by { assert("消息全选"@.len() != "拒"@.len()); }
    assert("消息全选"@ != "立即"@) by { assert("消息全选"@.len() != "立即"@.len()); }
    assert("消息全选"@ != "刷新"@) by { assert("消息全选"@.len() != "刷新"@.len()); }
    assert("消息全选"@ != "重渲染"@) by { assert("消息全选"@.len() != "重渲染"@.len()); }
    assert("匿"@ != "立即"@) by { assert("匿"@.len() != "立即"@.len()); }
    assert("匿"@ != "刷新"@) by { assert("匿"@.len() != "刷新"@.len()); }
    assert("匿"@ != "重渲染"@) by { assert("匿"@.len() != "重渲染"@.len()); }
    assert("匿"@ != "消息全选"@) by { assert("匿"@.len() != "消息全选"@.len()); }
    assert("扩列审查"@ != "是"@) by { assert("扩列审查"@.len() != "是"@.len()); }
    assert("扩列审查"@ != "否"@) by { assert("扩列审查"@.len() != "否"@.len()); }
    assert("扩列审查"@ != "等"@) by { assert("扩列审查"@.len() != "等"@.len()); }
    assert("扩列审查"@ != "删"@) by { assert("扩列审查"@.len() != "删"@.len()); }
    assert("扩列审查"@ != "拒"@) by { assert("扩列审查"@.len() != "拒"@.len()); }
    assert("扩列审查"@ != "立即"@) by { assert("扩列审查"@.len() != "立即"@.len()); }
    assert("扩列审查"@ != "刷新"@) by { assert("扩列审查"@.len() != "刷新"@.len()); }
    assert("扩列审查"@ != "重渲染"@) by { assert("扩列审查"@.len() != "重渲染"@.len()); }
    assert("扩列审查"@ != "匿"@) by { assert("扩列审查"@.len() != "匿"@.len()); }
    assert("扩列"@ != "是"@) by { assert("扩列"@.len() != "是"@.len()); }
    assert("扩列"@ != "否"@) by { assert("扩列"@.len() != "否"@.len()); }
    assert("扩列"@ != "等"@) by { assert("扩列"@.len() != "等"@.len()); }
    assert("扩列"@ != "删"@) by { assert("扩列"@.len() != "删"@.len()); }
    assert("扩列"@ != "拒"@) by { assert("扩列"@.len() != "拒"@.len()); }
    assert("扩列"@ != "重渲染"@) by { assert("扩列"@.len() != "重渲染"@.len()); }
    assert("扩列"@ != "消息全选"@) by { assert("扩列"@.len() != "消息全选"@.len()); }
    assert("扩列"@ != "匿"@) by { assert("扩列"@.len() != "匿"@.len()); }
    assert("扩列"@ != "扩列审查"@) by { assert("扩列"@.len() != "扩列审查"@.len()); }
    assert("查"@ != "立即"@) by { assert("查"@.len() != "立即"@.len()); }
    assert("查"@ != "刷新"@) by { assert("查"@.len() != "刷新"@.len()); }
    assert("查"@ != "重渲染"@) by { assert("查"@.len() != "重渲染"@.len()); }
    assert("查"@ != "消息全选"@) by { assert("查"@.len() != "消息全选"@.len()); }
    assert("查"@ != "扩列审查"@) by { assert("查"@.len() != "扩列审查"@.len()); }
    assert("查"@ != "扩列"@) by { assert("查"@.len() != "扩列"@.len()); }
    assert("查成分"@ != "是"@) by { assert("查成分"@.len() != "是"@.len()); }
    assert("查成分"@ != "否"@) by { assert("查成分"@.len() != "否"@.len()); }
    assert("查成分"@ != "等"@) by { assert("查成分"@.len() != "等"@.len()); }
    assert("查成分"@ != "删"@) by { assert("查成分"@.len() != "删"@.len()); }
    assert("查成分"@ != "拒"@) by { assert("查成分"@.len() != "拒"@.len()); }
    assert("查成分"@ != "立即"@) by { assert("查成分"@.len() != "立即"@.len()); }
    assert("查成分"@ != "刷新"@) by { assert("查成分"@.len() != "刷新"@.len()); }
    assert("查成分"@ != "消息全选"@) by { assert("查成分"@.len() != "消息全选"@.len()); }
    assert("查成分"@ != "匿"@) by { assert("查成分"@.len() != "匿"@.len()); }
    assert("查成分"@ != "扩列审查"@) by { assert("查成分"@.len() != "扩列审查"@.len()); }
    assert("查成分"@ != "扩列"@) by { assert("查成分"@.len() != "扩列"@.len()); }
    assert("查成分"@ != "查"@) by { assert("查成分"@.len() != "查"@.len()); }
    assert("展示"@ != "是"@) by { assert("展示"@.len() != "是"@.len()); }
    assert("展示"@ != "否"@) by { assert("展示"@.len() != "否"@.len()); }
    assert("展示"@ != "等"@) by { assert("展示"@.len() != "等"@.len()); }
    assert("展示"@ != "删"@) by { assert("展示"@.len() != "删"@.len()); }
    assert("展示"@ != "拒"@) by { assert("展示"@.len() != "拒"@.len()); }
    assert("展示"@ != "重渲染"@) by { assert("展示"@.len() != "重渲染"@.len()); }
    assert("展示"@ != "消息全选"@) by { assert("展示"@.len() != "消息全选"@.len()); }
    assert("展示"@ != "匿"@) by { assert("展示"@.len() != "匿"@.len()); }
    assert("展示"@ != "扩列审查"@) by { assert("展示"@.len() != "扩列审查"@.len()); }
    assert("展示"@ != "查"@) by { assert("展示"@.len() != "查"@.len()); }
    assert("展示"@ != "查成分"@) by { assert("展示"@.len() != "查成分"@.len()); }
    assert("评论"@ != "是"@) by { assert("评论"@.len() != "是"@.len()); }
    assert("评论"@ != "否"@) by { assert("评论"@.len() != "否"@.len()); }
    assert("评论"@ != "等"@) by { assert("评论"@.len() != "等"@.len()); }
    assert("评论"@ != "删"@) by { assert("评论"@.len() != "删"@.len()); }
    assert("评论"@ != "拒"@) by { assert("评论"@.len() != "拒"@.len()); }
    assert("评论"@ != "重渲染"@) by { assert("评论"@.len() != "重渲染"@.len()); }
    assert("评论"@ != "消息全选"@) by { assert("评论"@.len() != "消息全选"@.len()); }
    assert("评论"@ != "匿"@) by { assert("评论"@.len() != "匿"@.len()); }
    assert("评论"@ != "扩列审查"@) by { assert("评论"@.len() != "扩列审查"@.len()); }
    assert("评论"@ != "查"@) by { assert("评论"@.len() != "查"@.len()); }
    assert("评论"@ != "查成分"@) by { assert("评论"@.len() != "查成分"@.len()); }
    assert("回复"@ != "是"@) by { assert("回复"@.len() != "是"@.len()); }
    assert("回复"@ != "否"@) by { assert("回复"@.len() != "否"@.len()); }
    assert("回复"@ != "等"@) by { assert("回复"@.len() != "等"@.len()); }
    assert("回复"@ != "删"@) by { assert("回复"@.len() != "删"@.len()); }
    assert("回复"@ != "拒"@) by { assert("回复"@.len() != "拒"@.len()); }
    assert("回复"@ != "重渲染"@) by { assert("回复"@.len() != "重渲染"@.len()); }
    assert("回复"@ != "消息全选"@) by { assert("回复"@.len() != "消息全选"@.len()); }
    assert("回复"@ != "匿"@) by { assert("回复"@.len() != "匿"@.len()); }
    assert("回复"@ != "扩列审查"@) by { assert("回复"@.len() != "扩列审查"@.len()); }
    assert("回复"@ != "查"@) by { assert("回复"@.len() != "查"@.len()); }
    assert("回复"@ != "查成分"@) by { assert("回复"@.len() != "查成分"@.len()); }
    assert("否"@ != "是"@) by { assert("否"@[0] != "是"@[0]); }
    assert("等"@ != "是"@) by { assert("等"@[0] != "是"@[0]); }
    assert("等"@ != "否"@) by { assert("等"@[0] != "否"@[0]); }
    assert("删"@ != "是"@) by { assert("删"@[0] != "是"@[0]); }
    assert("删"@ != "否"@) by { assert("删"@[0] != "否"@[0]); }
    assert("删"@ != "等"@) by { assert("删"@[0] != "等"@[0]); }
    assert("拒"@ != "是"@) by { assert("拒"@[0] != "是"@[0]); }
    assert("拒"@ != "否"@) by { assert("拒"@[0] != "否"@[0]); }
    assert("拒"@ != "等"@) by { assert("拒"@[0] != "等"@[0]); }
    assert("拒"@ != "删"@) by { assert("拒"@[0] != "删"@[0]); }
    assert("刷新"@ != "立即"@) by { assert("刷新"@[0] != "立即"@[0]); }
    assert("匿"@ != "是"@) by { assert("匿"@[0] != "是"@[0]); }
    assert("匿"@ != "否"@) by { assert("匿"@[0] != "否"@[0]); }
    assert("匿"@ != "等"@) by { assert("匿"@[0] != "等"@[0]); }
    assert("匿"@ != "删"@) by { assert("匿"@[0] != "删"@[0]); }
    assert("匿"@ != "拒"@) by { assert("匿"@[0] != "拒"@[0]); }
    assert("扩列审查"@ != "消息全选"@) by { assert("扩列审查"@[0] != "消息全选"@[0]); }
    assert("扩列"@ != "立即"@) by { assert("扩列"@[0] != "立即"@[0]); }
    assert("扩列"@ != "刷新"@) by { assert("扩列"@[0] != "刷新"@[0]); }
    assert("查"@ != "是"@) by { assert("查"@[0] != "是"@[0]); }
    assert("查"@ != "否"@) by { assert("查"@[0] != "否"@[0]); }
    assert("查"@ != "等"@) by { assert("查"@[0] != "等"@[0]); }
    assert("查"@ != "删"@) by { assert("查"@[0] != "删"@[0]); }
    assert("查"@ != "拒"@) by { assert("查"@[0] != "拒"@[0]); }
    assert("查"@ != "匿"@) by { assert("查"@[0] != "匿"@[0]); }
    assert("查成分"@ != "重渲染"@) by { assert("查成分"@[0] != "重渲染"@[0]); }
    assert("展示"@ != "立即"@) by { assert("展示"@[0] != "立即"@[0]); }
    assert("展示"@ != "刷新"@) by { assert("展示"@[0] != "刷新"@[0]); }
    assert("展示"@ != "扩列"@) by { assert("展示"@[0] != "扩列"@[0]); }
    assert("评论"@ != "立即"@) by { assert("评论"@[0] != "立即"@[0]); }
    assert("评论"@ != "刷新"@) by { assert("评论"@[0] != "刷新"@[0]); }
    assert("评论"@ != "扩列"@) by { assert("评论"@[0] != "扩列"@[0]); }
    assert("评论"@ != "展示"@) by { assert("评论"@[0] != "展示"@[0]); }
    assert("回复"@ != "立即"@) by { assert("回复"@[0] != "立即"@[0]); }
    assert("回复"@ != "刷新"@) by { assert("回复"@[0] != "刷新"@[0]); }
    assert("回复"@ != "扩列"@) by { assert("回复"@[0] != "扩列"@[0]); }
    assert("回复"@ != "展示"@) by { assert("回复"@[0] != "展示"@[0]); }
    assert("回复"@ != "评论"@) by { assert("回复"@[0] != "评论"@[0]); }
}

} // verus!
