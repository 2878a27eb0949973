//! Lines of the debug log: a clock time, a level label and the message, with
//! terminal colours when the output is a colour terminal. Writing them out is
//! the caller's part.
use vstd::prelude::*;

use crate::text::{owned, push_seq, string_of};

verus! {

pub const RESET: &'static str = "\x1b[0m";

pub const DIM: &'static str = "\x1b[2m";

pub const CYAN: &'static str = "\x1b[36m";

pub const GREEN: &'static str = "\x1b[32m";

pub const YELLOW: &'static str = "\x1b[33m";

pub const RED: &'static str = "\x1b[31m";

pub const MAGENTA: &'static str = "\x1b[35m";

/// `n` in decimal, padded with zeros to `width` digits (`{:0width}`).
pub open spec fn pad_dec(n: nat, width: nat) -> Seq<char> {
    let d = crate::text::dec(n);
    if d.len() < width {
        Seq::new((width - d.len()) as nat, |i: int| '0') + d
    } else {
        d
    }
}

fn padded(n: u64, width: usize) -> (s: String)
    requires
        width <= 20,
    ensures
        s@ == pad_dec(n as nat, width as nat),
{
    let d = crate::text::u64_to_string(n);
    let dv = crate::text::chars_of(d.as_str());
    let mut s = String::new();
    let mut pad: usize = 0;
    if dv.len() < width {
        pad = width - dv.len();
    }
    let mut i: usize = 0;
    while i < pad
        invariant
            0 <= i <= pad,
            pad == (if dv@.len() < width {
                width - dv@.len()
            } else {
                0
            }),
            s@ == Seq::new(i as nat, |k: int| '0'),
        decreases pad - i,
    {
        s.push('0');
        assert(Seq::new(i as nat, |k: int| '0').push('0') =~= Seq::new((i + 1) as nat, |k: int| '0'));
        i = i + 1;
    }
    push_seq(&mut s, d.as_str());
    proof {
        if dv@.len() >= width {
            assert(Seq::new(0nat, |k: int| '0') =~= Seq::<char>::empty());
            assert(s@ =~= crate::text::dec(n as nat));
        }
    }
    s
}

/// The clock time `hh:mm:ss.mmm` at UTC+8 of `secs` seconds and `millis`
/// milliseconds after the Unix epoch.
pub open spec fn timestamp_text(secs: nat, millis: nat) -> Seq<char> {
    let total = secs + 8 * 3600;
    pad_dec((total / 3600) % 24, 2) + ":"@ + pad_dec((total / 60) % 60, 2) + ":"@ + pad_dec(
        total % 60,
        2,
    ) + "."@ + pad_dec(millis, 3)
}

pub fn timestamp(secs: u64, millis: u32) -> (s: String)
    requires
        secs + 8 * 3600 <= u64::MAX,
    ensures
        s@ == timestamp_text(secs as nat, millis as nat),
{
    let total = secs + 8 * 3600;
    let h = padded((total / 3600) % 24, 2);
    let m = padded((total / 60) % 60, 2);
    let sec = padded(total % 60, 2);
    let ms = padded(millis as u64, 3);
    let mut out = owned(h.as_str());
    push_seq(&mut out, ":");
    push_seq(&mut out, m.as_str());
    push_seq(&mut out, ":");
    push_seq(&mut out, sec.as_str());
    push_seq(&mut out, ".");
    push_seq(&mut out, ms.as_str());
    out
}

/// A line with a level label.
pub open spec fn format_log_text(ts: Seq<char>, color: Seq<char>, label: Seq<char>, body: Seq<char>, colored: bool) -> Seq<char> {
    if colored {
        DIM@ + ts + RESET@ + " "@ + color + label + RESET@ + " "@ + body
    } else {
        ts + " "@ + label + " "@ + body
    }
}

pub fn format_log(ts: &str, color: &str, label: &str, body: &str, colored: bool) -> (s: String)
    ensures
        s@ == format_log_text(ts@, color@, label@, body@, colored),
{
    let mut out = String::new();
    if colored {
        push_seq(&mut out, DIM);
        push_seq(&mut out, ts);
        push_seq(&mut out, RESET);
        push_seq(&mut out, " ");
        push_seq(&mut out, color);
        push_seq(&mut out, label);
        push_seq(&mut out, RESET);
        push_seq(&mut out, " ");
        push_seq(&mut out, body);
    } else {
        push_seq(&mut out, ts);
        push_seq(&mut out, " ");
        push_seq(&mut out, label);
        push_seq(&mut out, " ");
        push_seq(&mut out, body);
    }
    out
}

/// A plain line: the time and the message.
pub fn log(ts: &str, body: &str, colored: bool) -> (s: String)
    ensures
        s@ == if colored {
            DIM@ + ts@ + RESET@ + " "@ + body@
        } else {
            ts@ + " "@ + body@
        },
{
    let mut out = String::new();
    if colored {
        push_seq(&mut out, DIM);
        push_seq(&mut out, ts);
        push_seq(&mut out, RESET);
    } else {
        push_seq(&mut out, ts);
    }
    push_seq(&mut out, " ");
    push_seq(&mut out, body);
    out
}

pub fn info(ts: &str, body: &str, colored: bool) -> (s: String)
    ensures
        s@ == format_log_text(ts@, CYAN@, "INFO"@, body@, colored),
{
    format_log(ts, CYAN, "INFO", body, colored)
}

pub fn success(ts: &str, body: &str, colored: bool) -> (s: String)
    ensures
        s@ == format_log_text(ts@, GREEN@, " OK "@, body@, colored),
{
    format_log(ts, GREEN, " OK ", body, colored)
}

pub fn warn(ts: &str, body: &str, colored: bool) -> (s: String)
    ensures
        s@ == format_log_text(ts@, YELLOW@, "WARN"@, body@, colored),
{
    format_log(ts, YELLOW, "WARN", body, colored)
}

pub fn error(ts: &str, body: &str, colored: bool) -> (s: String)
    ensures
        s@ == format_log_text(ts@, RED@, "ERR "@, body@, colored),
{
    format_log(ts, RED, "ERR ", body, colored)
}

pub fn debug(ts: &str, body: &str, colored: bool) -> (s: String)
    ensures
        s@ == format_log_text(ts@, MAGENTA@, "DBG "@, body@, colored),
{
    format_log(ts, MAGENTA, "DBG ", body, colored)
}

/// A trace line: dimmed as a whole on a colour terminal.
pub fn trace(ts: &str, body: &str, colored: bool) -> (s: String)
    ensures
        s@ == if colored {
            DIM@ + ts@ + " TRC "@ + body@ + RESET@
        } else {
            ts@ + " TRC "@ + body@
        },
{
    let mut out = String::new();
    if colored {
        push_seq(&mut out, DIM);
    }
    push_seq(&mut out, ts);
    push_seq(&mut out, " TRC ");
    push_seq(&mut out, body);
    if colored {
        push_seq(&mut out, RESET);
    }
    proof {
        if colored {
            assert(out@ =~= DIM@ + ts@ + " TRC "@ + body@ + RESET@);
        } else {
            assert(out@ =~= ts@ + " TRC "@ + body@);
        }
    }
    out
}

// ----------------------------------------------------------------------
// Removing colour codes
// ----------------------------------------------------------------------
/// Index just past an escape sequence's parameters starting at `i`: the
/// first ASCII letter at or after `i`, included, or the end of the text.
pub open spec fn escape_end(s: Seq<char>, i: int) -> int
    decreases s.len() - i,
{
    if i >= s.len() {
        s.len() as int
    } else if crate::text::is_ascii_alpha(s[i]) {
        i + 1
    } else {
        escape_end(s, i + 1)
    }
}

/// The text from position `i` on, with every `ESC [ ... letter` sequence taken out.
pub open spec fn strip_from(s: Seq<char>, i: int) -> Seq<char>
    decreases s.len() - i,
{
    if i < 0 || i >= s.len() {
        Seq::empty()
    } else if s[i] == '\x1b' && i + 1 < s.len() && s[i + 1] == '[' {
        proof {
            lemma_escape_end(s, i + 2);
        }
        strip_from(s, escape_end(s, i + 2))
    } else {
        seq![s[i]] + strip_from(s, i + 1)
    }
}

pub proof fn lemma_escape_end(s: Seq<char>, i: int)
    requires
        0 <= i,
    ensures
        i <= escape_end(s, i) <= s.len() || (i > s.len() && escape_end(s, i) == s.len()),
    decreases s.len() - i,
{
    if i < s.len() && !crate::text::is_ascii_alpha(s[i]) {
        lemma_escape_end(s, i + 1);
    }
}

/// The text without terminal colour codes, as written to the log file.
pub fn strip_ansi(text: &str) -> (r: String)
    ensures
        r@ == strip_from(text@, 0),
{
    let s = crate::text::chars_of(text);
    let mut out: Vec<char> = Vec::new();
    let mut i: usize = 0;
    while i < s.len()
        invariant
            0 <= i <= s@.len(),
            out@ + strip_from(s@, i as int) == strip_from(s@, 0),
        decreases s@.len() - i,
    {
        if s[i] == '\x1b' && i + 1 < s.len() && s[i + 1] == '[' {
            let mut j = i + 2;
            proof {
                lemma_escape_end(s@, (i + 2) as int);
            }
            while j < s.len() && !(('a' <= s[j] && s[j] <= 'z') || ('A' <= s[j] && s[j] <= 'Z'))
                invariant
                    i + 2 <= j <= s@.len(),
                    escape_end(s@, j as int) == escape_end(s@, (i + 2) as int),
                decreases s@.len() - j,
            {
                j = j + 1;
            }
            if j < s.len() {
                j = j + 1;
            }
            assert(j as int == escape_end(s@, (i + 2) as int));
            i = j;
        } else {
            let ghost before = strip_from(s@, i as int);
            out.push(s[i]);
            assert(out@ + strip_from(s@, (i + 1) as int) =~= strip_from(s@, 0));
            i = i + 1;
        }
    }
    assert(out@ + Seq::<char>::empty() =~= out@);
    string_of(out.as_slice())
}

// ----------------------------------------------------------------------
// Laws
// ----------------------------------------------------------------------
/// No escape character in `a`.
pub open spec fn no_esc(a: Seq<char>) -> bool {
    forall|k: int| 0 <= k < a.len() ==> #[trigger] a[k] != '\x1b'
}

/// A colour code: `ESC [`, parameters that are not letters, then `m`.
pub open spec fn is_colour_code(c: Seq<char>) -> bool {
    &&& c.len() >= 3
    &&& c[0] == '\x1b'
    &&& c[1] == '['
    &&& c.last() == 'm'
    &&& forall|k: int| 2 <= k < c.len() - 1 ==> !crate::text::is_ascii_alpha(#[trigger] c[k])
}

proof fn lemma_escape_end_shift(a: Seq<char>, b: Seq<char>, j: int)
    requires
        0 <= j,
    ensures
        escape_end(a + b, a.len() + j) == a.len() + escape_end(b, j),
    decreases b.len() - j,
{
    if j < b.len() {
        assert((a + b)[a.len() + j] == b[j]);
        if !crate::text::is_ascii_alpha(b[j]) {
            lemma_escape_end_shift(a, b, j + 1);
        }
    }
}

/// Stripping the text after a prefix does not look at the prefix.
proof fn lemma_strip_shift(a: Seq<char>, b: Seq<char>, j: int)
    requires
        0 <= j,
    ensures
        strip_from(a + b, a.len() + j) == strip_from(b, j),
    decreases b.len() - j,
{
    if j < b.len() {
        let s = a + b;
        let i = a.len() + j;
        assert(s[i] == b[j]);
        if j + 1 < b.len() {
            assert(s[i + 1] == b[j + 1]);
        }
        if b[j] == '\x1b' && j + 1 < b.len() && b[j + 1] == '[' {
            lemma_escape_end_shift(a, b, j + 2);
            lemma_escape_end(b, j + 2);
            lemma_strip_shift(a, b, escape_end(b, j + 2));
        } else {
            lemma_strip_shift(a, b, j + 1);
        }
    }
}

proof fn lemma_strip_plain_from(a: Seq<char>, b: Seq<char>, i: int)
    requires
        no_esc(a),
        0 <= i <= a.len(),
    ensures
        strip_from(a + b, i) == a.subrange(i, a.len() as int) + strip_from(b, 0),
    decreases a.len() - i,
{
    if i < a.len() {
        assert((a + b)[i] == a[i]);
        lemma_strip_plain_from(a, b, i + 1);
        assert(seq![a[i]] + (a.subrange(i + 1, a.len() as int) + strip_from(b, 0)) =~= a.subrange(
            i,
            a.len() as int,
        ) + strip_from(b, 0));
    } else {
        lemma_strip_shift(a, b, 0);
        assert(a.subrange(i, a.len() as int) =~= Seq::<char>::empty());
        assert(Seq::<char>::empty() + strip_from(b, 0) =~= strip_from(b, 0));
    }
}

/// Text without escapes is kept as it is.
proof fn lemma_strip_plain(a: Seq<char>, b: Seq<char>)
    requires
        no_esc(a),
    ensures
        strip_from(a + b, 0) == a + strip_from(b, 0),
{
    lemma_strip_plain_from(a, b, 0);
    assert(a.subrange(0, a.len() as int) =~= a);
}

proof fn lemma_code_escape_end(c: Seq<char>, x: Seq<char>, k: int)
    requires
        is_colour_code(c),
        2 <= k <= c.len() - 1,
    ensures
        escape_end(c + x, k) == c.len(),
    decreases c.len() - k,
{
    assert((c + x)[k] == c[k]);
    if k < c.len() - 1 {
        lemma_code_escape_end(c, x, k + 1);
    }
}

/// A colour code is taken out whole.
proof fn lemma_strip_code(c: Seq<char>, x: Seq<char>)
    requires
        is_colour_code(c),
    ensures
        strip_from(c + x, 0) == strip_from(x, 0),
{
    assert((c + x)[0] == c[0]);
    assert((c + x)[1] == c[1]);
    lemma_code_escape_end(c, x, 2);
    lemma_strip_shift(c, x, 0);
}

/// The codes this log writes are colour codes.
pub proof fn lemma_log_codes()
    ensures
        is_colour_code(RESET@),
        is_colour_code(DIM@),
        is_colour_code(CYAN@),
        is_colour_code(GREEN@),
        is_colour_code(YELLOW@),
        is_colour_code(RED@),
        is_colour_code(MAGENTA@),
{
    reveal_strlit("\x1b[0m");
    reveal_strlit("\x1b[2m");
    reveal_strlit("\x1b[36m");
    reveal_strlit("\x1b[32m");
    reveal_strlit("\x1b[33m");
    reveal_strlit("\x1b[31m");
    reveal_strlit("\x1b[35m");
}

/// The log file gets the same line whether or not the terminal shows
/// colours: taking the colour codes out of a coloured line gives the plain
/// line, with the message stripped alike.
pub proof fn lemma_file_line_is_plain(ts: Seq<char>, color: Seq<char>, label: Seq<char>, body: Seq<char>)
    requires
        no_esc(ts),
        no_esc(label),
        is_colour_code(color),
    ensures
        strip_from(format_log_text(ts, color, label, body, true), 0) == strip_from(
            format_log_text(ts, color, label, body, false),
            0,
        ),
        strip_from(format_log_text(ts, color, label, body, false), 0) == ts + " "@ + label + " "@
            + strip_from(body, 0),
{
    lemma_log_codes();
    reveal_strlit(" ");
    let sp = " "@;
    assert(no_esc(sp));
    let t4 = sp + body;
    let t3 = label + t4;
    let t2 = sp + t3;
    let plain = ts + t2;
    assert(format_log_text(ts, color, label, body, false) =~= plain);
    lemma_strip_plain(sp, body);
    lemma_strip_plain(label, t4);
    lemma_strip_plain(sp, t3);
    lemma_strip_plain(ts, t2);
    let c6 = RESET@ + t4;
    let c5 = label + c6;
    let c4 = color + c5;
    let c3 = sp + c4;
    let c2 = RESET@ + c3;
    let c1 = ts + c2;
    let coloured = DIM@ + c1;
    assert(format_log_text(ts, color, label, body, true) =~= coloured);
    lemma_strip_code(RESET@, t4);
    lemma_strip_plain(label, c6);
    lemma_strip_code(color, c5);
    lemma_strip_plain(sp, c4);
    lemma_strip_code(RESET@, c3);
    lemma_strip_plain(ts, c2);
    lemma_strip_code(DIM@, c1);
    assert(strip_from(plain, 0) =~= ts + " "@ + label + " "@ + strip_from(body, 0));
}

} // verus!
