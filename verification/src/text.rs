use vstd::prelude::*;

verus! {

/// `String::push` appends one character at the end of the string.
pub assume_specification[ String::push ](s: &mut String, ch: char)
    ensures
        final(s)@ == old(s)@.push(ch),
;

/// Characters with the Unicode `White_Space` property, the set that
/// `char::is_whitespace` and `str::trim` use.
pub open spec fn is_ws(c: char) -> bool {
    let u = c as u32;
    ||| (0x09 <= u && u <= 0x0d)
    ||| u == 0x20
    ||| u == 0x85
    ||| u == 0xa0
    ||| u == 0x1680
    ||| (0x2000 <= u && u <= 0x200a)
    ||| u == 0x2028
    ||| u == 0x2029
    ||| u == 0x202f
    ||| u == 0x205f
    ||| u == 0x3000
}

pub fn is_whitespace(c: char) -> (b: bool)
    ensures
        b == is_ws(c),
{
    let u = c as u32;
    (0x09 <= u && u <= 0x0d) || u == 0x20 || u == 0x85 || u == 0xa0 || u == 0x1680 || (0x2000
        <= u && u <= 0x200a) || u == 0x2028 || u == 0x2029 || u == 0x202f || u == 0x205f || u
        == 0x3000
}

pub open spec fn is_digit(c: char) -> bool {
    '0' <= c && c <= '9'
}

pub open spec fn is_ascii_alpha(c: char) -> bool {
    ('a' <= c && c <= 'z') || ('A' <= c && c <= 'Z')
}

pub open spec fn lower_char(c: char) -> char {
    if 'A' <= c && c <= 'Z' {
        ((c as u32) + 32) as char
    } else {
        c
    }
}

pub open spec fn upper_char(c: char) -> char {
    if 'a' <= c && c <= 'z' {
        ((c as u32) - 32) as char
    } else {
        c
    }
}

pub fn to_lower_char(c: char) -> (r: char)
    ensures
        r == lower_char(c),
{
    if 'A' <= c && c <= 'Z' {
        let b = (c as u32 as u8) + 32;
        b as char
    } else {
        c
    }
}

/// The characters of `s`, one by one.
pub fn chars_of(s: &str) -> (out: Vec<char>)
    ensures
        out@ == s@,
{
    let mut out: Vec<char> = Vec::new();
    for c in it: s.chars()
        invariant
            out@ == it.seq().take(it.index() as int),
    {
        out.push(c);
    }
    out
}

/// A `String` holding the characters `v`.
pub fn string_of(v: &[char]) -> (s: String)
    ensures
        s@ == v@,
{
    let mut s = String::new();
    let mut i: usize = 0;
    while i < v.len()
        invariant
            0 <= i <= v@.len(),
            s@ == v@.take(i as int),
        decreases v@.len() - i,
    {
        s.push(v[i]);
        assert(v@.take(i as int).push(v@[i as int]) =~= v@.take(i + 1));
        i = i + 1;
    }
    assert(v@.take(v@.len() as int) =~= v@);
    s
}

/// A `String` copy of `t`.
pub fn owned(t: &str) -> (s: String)
    ensures
        s@ == t@,
{
    t.to_owned()
}

/// Appends the characters of `t` to `s`.
pub fn push_seq(s: &mut String, t: &str)
    ensures
        final(s)@ == old(s)@ + t@,
{
    let cs = chars_of(t);
    let mut i: usize = 0;
    while i < cs.len()
        invariant
            0 <= i <= cs@.len(),
            cs@ == t@,
            s@ == old(s)@ + cs@.take(i as int),
        decreases cs@.len() - i,
    {
        s.push(cs[i]);
        assert(old(s)@ + cs@.take(i as int).push(cs@[i as int]) =~= old(s)@ + cs@.take(i + 1));
        i = i + 1;
    }
    assert(cs@.take(cs@.len() as int) =~= cs@);
}

/// Concatenation of two strings.
pub fn concat2(a: &str, b: &str) -> (s: String)
    ensures
        s@ == a@ + b@,
{
    let mut s = owned(a);
    push_seq(&mut s, b);
    s
}

/// Concatenation of three strings.
pub fn concat3(a: &str, b: &str, c: &str) -> (s: String)
    ensures
        s@ == a@ + b@ + c@,
{
    let mut s = owned(a);
    push_seq(&mut s, b);
    push_seq(&mut s, c);
    s
}

// ----------------------------------------------------------------------
// Trimming
// ----------------------------------------------------------------------
/// Index of the first character of `s` at or after `i` that is not whitespace.
pub open spec fn skip_ws(s: Seq<char>, i: int) -> int
    decreases s.len() - i,
{
    if i < 0 {
        skip_ws(s, 0)
    } else if i >= s.len() {
        s.len() as int
    } else if is_ws(s[i]) {
        skip_ws(s, i + 1)
    } else {
        i
    }
}

/// One past the last character of `s[..j]` that is not whitespace.
pub open spec fn back_ws(s: Seq<char>, j: int) -> int
    decreases j,
{
    if j <= 0 {
        0
    } else if j > s.len() {
        back_ws(s, s.len() as int)
    } else if is_ws(s[j - 1]) {
        back_ws(s, j - 1)
    } else {
        j
    }
}

pub open spec fn trim_start(s: Seq<char>) -> Seq<char> {
    s.subrange(skip_ws(s, 0), s.len() as int)
}

pub open spec fn trim_end(s: Seq<char>) -> Seq<char> {
    s.subrange(0, back_ws(s, s.len() as int))
}

/// What `str::trim` gives back.
pub open spec fn trim(s: Seq<char>) -> Seq<char> {
    trim_end(trim_start(s))
}

pub proof fn lemma_skip_ws(s: Seq<char>, i: int)
    requires
        0 <= i <= s.len(),
    ensures
        i <= skip_ws(s, i) <= s.len(),
        forall|k: int| i <= k < skip_ws(s, i) ==> is_ws(#[trigger] s[k]),
        skip_ws(s, i) < s.len() ==> !is_ws(s[skip_ws(s, i)]),
    decreases s.len() - i,
{
    if i < s.len() && is_ws(s[i]) {
        lemma_skip_ws(s, i + 1);
    }
}

pub proof fn lemma_back_ws(s: Seq<char>, j: int)
    requires
        0 <= j <= s.len(),
    ensures
        0 <= back_ws(s, j) <= j,
        forall|k: int| back_ws(s, j) <= k < j ==> is_ws(#[trigger] s[k]),
        back_ws(s, j) > 0 ==> !is_ws(s[back_ws(s, j) - 1]),
    decreases j,
{
    if j > 0 && is_ws(s[j - 1]) {
        lemma_back_ws(s, j - 1);
    }
}

pub fn skip_ws_from(s: &Vec<char>, start: usize) -> (r: usize)
    requires
        start <= s@.len(),
    ensures
        r == skip_ws(s@, start as int),
{
    let mut i = start;
    proof {
        lemma_skip_ws(s@, start as int);
    }
    while i < s.len() && is_whitespace(s[i])
        invariant
            start <= i <= s@.len(),
            skip_ws(s@, i as int) == skip_ws(s@, start as int),
        decreases s@.len() - i,
    {
        i = i + 1;
    }
    i
}

pub fn back_ws_from(s: &Vec<char>, end: usize) -> (r: usize)
    requires
        end <= s@.len(),
    ensures
        r == back_ws(s@, end as int),
{
    let mut j = end;
    while j > 0 && is_whitespace(s[j - 1])
        invariant
            j <= end <= s@.len(),
            back_ws(s@, j as int) == back_ws(s@, end as int),
        decreases j,
    {
        j = j - 1;
    }
    j
}

pub fn subvec(s: &Vec<char>, from: usize, to: usize) -> (r: Vec<char>)
    requires
        from <= to <= s@.len(),
    ensures
        r@ == s@.subrange(from as int, to as int),
{
    let mut r: Vec<char> = Vec::new();
    let mut i = from;
    while i < to
        invariant
            from <= i <= to <= s@.len(),
            r@ == s@.subrange(from as int, i as int),
        decreases to - i,
    {
        r.push(s[i]);
        assert(s@.subrange(from as int, i as int).push(s@[i as int]) =~= s@.subrange(
            from as int,
            i + 1,
        ));
        i = i + 1;
    }
    r
}

pub proof fn lemma_trim_bounds(s: Seq<char>)
    ensures
        trim_start(s) =~= s.subrange(skip_ws(s, 0), s.len() as int),
        skip_ws(s, 0) <= back_ws(s, s.len() as int) || skip_ws(s, 0) == s.len(),
{
    lemma_skip_ws(s, 0);
    lemma_back_ws(s, s.len() as int);
    if skip_ws(s, 0) < s.len() && back_ws(s, s.len() as int) < skip_ws(s, 0) {
        assert(is_ws(s[skip_ws(s, 0)]));
    }
}

/// `trim(s) == s[a..b]` for the first and last non-whitespace positions.
pub proof fn lemma_trim_is_range(s: Seq<char>)
    ensures
        ({
            let a = skip_ws(s, 0);
            let b = back_ws(s, s.len() as int);
            if a == s.len() {
                trim(s) =~= Seq::<char>::empty()
            } else {
                a <= b && trim(s) =~= s.subrange(a, b)
            }
        }),
{
    let a = skip_ws(s, 0);
    let b = back_ws(s, s.len() as int);
    lemma_skip_ws(s, 0);
    lemma_back_ws(s, s.len() as int);
    let t = trim_start(s);
    assert(t =~= s.subrange(a, s.len() as int));
    lemma_back_ws(t, t.len() as int);
    if a == s.len() {
        assert(t.len() == 0);
    } else {
        assert(!is_ws(s[a]));
        if b < a + 1 {
            assert(is_ws(s[a]));
        }
        // back_ws on the suffix equals back_ws on the whole minus a
        lemma_back_ws_shift(s, a, s.len() as int);
        assert(back_ws(t, t.len() as int) == b - a);
        assert(trim_end(t) =~= s.subrange(a, b));
    }
}

proof fn lemma_back_ws_shift(s: Seq<char>, a: int, j: int)
    requires
        0 <= a < s.len(),
        a < j <= s.len(),
        !is_ws(s[a]),
    ensures
        back_ws(s.subrange(a, s.len() as int), j - a) == back_ws(s, j) - a,
    decreases j,
{
    let t = s.subrange(a, s.len() as int);
    if is_ws(s[j - 1]) {
        assert(t[j - a - 1] == s[j - 1]);
        if j - 1 > a {
            lemma_back_ws_shift(s, a, j - 1);
        } else {
            assert(j - 1 == a);
        }
    } else {
        assert(t[j - a - 1] == s[j - 1]);
    }
}

/// What `trim` keeps is a stretch of `s` that, when not empty, starts and
/// ends with a character that is not whitespace.
pub proof fn lemma_trim_ends(s: Seq<char>)
    ensures
        exists|a: int| 0 <= a <= a + trim(s).len() <= s.len() && trim(s) =~= #[trigger] s.subrange(a, a + trim(s).len()),
        trim(s).len() > 0 ==> !is_ws(trim(s)[0]) && !is_ws(trim(s).last()),
{
    lemma_trim_is_range(s);
    lemma_skip_ws(s, 0);
    lemma_back_ws(s, s.len() as int);
    let a = skip_ws(s, 0);
    let b = back_ws(s, s.len() as int);
    if a == s.len() {
        assert(trim(s) =~= s.subrange(0, 0));
    } else {
        assert(trim(s) =~= s.subrange(a, a + trim(s).len()));
        if trim(s).len() > 0 {
            assert(trim(s)[0] == s[a]);
            assert(trim(s).last() == s[b - 1]);
        }
    }
}

/// Trimming twice is trimming once.
pub proof fn lemma_trim_idempotent(s: Seq<char>)
    ensures
        trim(trim(s)) == trim(s),
{
    lemma_trim_ends(s);
    let t = trim(s);
    lemma_trim_is_range(t);
    lemma_skip_ws(t, 0);
    lemma_back_ws(t, t.len() as int);
    if t.len() > 0 {
        assert(skip_ws(t, 0) == 0);
        assert(back_ws(t, t.len() as int) == t.len());
        assert(trim(t) =~= t);
    } else {
        assert(trim(t) =~= t);
    }
}

/// `str::trim` on characters.
pub fn trim_vec(s: &Vec<char>) -> (r: Vec<char>)
    ensures
        r@ == trim(s@),
{
    proof {
        lemma_trim_is_range(s@);
        lemma_skip_ws(s@, 0);
        lemma_back_ws(s@, s@.len() as int);
    }
    let a = skip_ws_from(s, 0);
    if a == s.len() {
        return Vec::new();
    }
    let b = back_ws_from(s, s.len());
    subvec(s, a, b)
}

/// `str::trim_start` on characters.
pub fn trim_start_vec(s: &Vec<char>) -> (r: Vec<char>)
    ensures
        r@ == trim_start(s@),
{
    proof {
        lemma_skip_ws(s@, 0);
    }
    let a = skip_ws_from(s, 0);
    subvec(s, a, s.len())
}

/// `str::trim_end` on characters.
pub fn trim_end_vec(s: &Vec<char>) -> (r: Vec<char>)
    ensures
        r@ == trim_end(s@),
{
    proof {
        lemma_back_ws(s@, s@.len() as int);
    }
    let b = back_ws_from(s, s.len());
    subvec(s, 0, b)
}

/// The trimmed text of `s`.
pub fn trim_str(s: &str) -> (r: String)
    ensures
        r@ == trim(s@),
{
    let v = chars_of(s);
    let t = trim_vec(&v);
    string_of(t.as_slice())
}

// ----------------------------------------------------------------------
// Tokens
// ----------------------------------------------------------------------
/// Index of the first whitespace character of `s` at or after `i`.
pub open spec fn find_ws(s: Seq<char>, i: int) -> int
    decreases s.len() - i,
{
    if i < 0 {
        find_ws(s, 0)
    } else if i >= s.len() {
        s.len() as int
    } else if is_ws(s[i]) {
        i
    } else {
        find_ws(s, i + 1)
    }
}

pub proof fn lemma_find_ws(s: Seq<char>, i: int)
    requires
        0 <= i <= s.len(),
    ensures
        i <= find_ws(s, i) <= s.len(),
        forall|k: int| i <= k < find_ws(s, i) ==> !is_ws(#[trigger] s[k]),
        find_ws(s, i) < s.len() ==> is_ws(s[find_ws(s, i)]),
    decreases s.len() - i,
{
    if i < s.len() && !is_ws(s[i]) {
        lemma_find_ws(s, i + 1);
    }
}

pub fn find_ws_from(s: &Vec<char>, start: usize) -> (r: usize)
    requires
        start <= s@.len(),
    ensures
        r == find_ws(s@, start as int),
{
    proof {
        lemma_find_ws(s@, start as int);
    }
    let mut i = start;
    while i < s.len() && !is_whitespace(s[i])
        invariant
            start <= i <= s@.len(),
            find_ws(s@, i as int) == find_ws(s@, start as int),
        decreases s@.len() - i,
    {
        i = i + 1;
    }
    i
}

/// The first whitespace-separated token of `s`, as `s.split_whitespace().next()` gives it.
pub open spec fn first_token(s: Seq<char>) -> Option<Seq<char>> {
    let a = skip_ws(s, 0);
    if a >= s.len() {
        None
    } else {
        Some(s.subrange(a, find_ws(s, a)))
    }
}

pub fn first_token_vec(s: &Vec<char>) -> (r: Option<Vec<char>>)
    ensures
        match r {
            Some(t) => first_token(s@) == Some(t@),
            None => first_token(s@) is None,
        },
{
    proof {
        lemma_skip_ws(s@, 0);
    }
    let a = skip_ws_from(s, 0);
    if a >= s.len() {
        return None;
    }
    proof {
        lemma_find_ws(s@, a as int);
    }
    let b = find_ws_from(s, a);
    Some(subvec(s, a, b))
}

/// `(first, rest)` where `first` runs up to the first whitespace of `s` and
/// `rest` follows that one whitespace character: `s.splitn(2, char::is_whitespace)`.
pub open spec fn split_once_ws(s: Seq<char>) -> (Seq<char>, Seq<char>) {
    let e = find_ws(s, 0);
    if e >= s.len() {
        (s, Seq::<char>::empty())
    } else {
        (s.subrange(0, e), s.subrange(e + 1, s.len() as int))
    }
}

pub fn split_once_ws_vec(s: &Vec<char>) -> (r: (Vec<char>, Vec<char>))
    ensures
        (r.0@, r.1@) == split_once_ws(s@),
{
    proof {
        lemma_find_ws(s@, 0);
    }
    let e = find_ws_from(s, 0);
    if e >= s.len() {
        (subvec(s, 0, s.len()), Vec::new())
    } else {
        (subvec(s, 0, e), subvec(s, e + 1, s.len()))
    }
}

/// The whitespace-separated tokens of `s[i..]`, as `split_whitespace` gives them.
pub open spec fn tokens_from(s: Seq<char>, i: int) -> Seq<Seq<char>>
    decreases s.len() - i,
{
    if i < 0 || i > s.len() {
        Seq::empty()
    } else {
        let a = skip_ws(s, i);
        if a >= s.len() {
            Seq::empty()
        } else {
            proof {
                lemma_skip_ws(s, i);
                lemma_find_ws(s, a);
            }
            seq![s.subrange(a, find_ws(s, a))] + tokens_from(s, find_ws(s, a))
        }
    }
}

/// `s.split_whitespace()`.
pub open spec fn tokens(s: Seq<char>) -> Seq<Seq<char>> {
    tokens_from(s, 0)
}

pub open spec fn vecs_view(v: Seq<Vec<char>>) -> Seq<Seq<char>> {
    v.map_values(|x: Vec<char>| x@)
}

pub fn tokens_vec(s: &Vec<char>) -> (r: Vec<Vec<char>>)
    ensures
        vecs_view(r@) == tokens(s@),
{
    let mut out: Vec<Vec<char>> = Vec::new();
    let mut i: usize = 0;
    assert(vecs_view(out@) + tokens_from(s@, 0) =~= tokens_from(s@, 0));
    while i < s.len()
        invariant
            0 <= i <= s@.len(),
            vecs_view(out@) + tokens_from(s@, i as int) == tokens_from(s@, 0),
        decreases s@.len() - i,
    {
        proof {
            lemma_skip_ws(s@, i as int);
        }
        let a = skip_ws_from(s, i);
        if a >= s.len() {
            assert(tokens_from(s@, s@.len() as int) =~= Seq::<Seq<char>>::empty());
            i = s.len();
        } else {
            proof {
                lemma_find_ws(s@, a as int);
            }
            let b = find_ws_from(s, a);
            let t = subvec(s, a, b);
            let ghost tv = t@;
            let ghost before = out@;
            out.push(t);
            assert(vecs_view(out@) =~= vecs_view(before).push(tv));
            assert(vecs_view(out@) + tokens_from(s@, b as int) =~= vecs_view(before)
                + tokens_from(s@, i as int));
            i = b;
        }
    }
    assert(tokens_from(s@, s@.len() as int) =~= Seq::<Seq<char>>::empty());
    assert(vecs_view(out@) + Seq::<Seq<char>>::empty() =~= vecs_view(out@));
    out
}

/// The pieces of `t` split at `sep`, as `(finished pieces, open piece)`.
pub open spec fn split_state(t: Seq<char>, sep: char) -> (Seq<Seq<char>>, Seq<char>)
    decreases t.len(),
{
    if t.len() == 0 {
        (Seq::empty(), Seq::empty())
    } else {
        let (done, cur) = split_state(t.drop_last(), sep);
        if t.last() == sep {
            (done.push(cur), Seq::empty())
        } else {
            (done, cur.push(t.last()))
        }
    }
}

/// `t.split(sep)`: the pieces between occurrences of `sep`.
pub open spec fn split_char(t: Seq<char>, sep: char) -> Seq<Seq<char>> {
    split_state(t, sep).0.push(split_state(t, sep).1)
}

pub fn split_char_vec(s: &Vec<char>, sep: char) -> (r: Vec<Vec<char>>)
    ensures
        vecs_view(r@) == split_char(s@, sep),
{
    let mut out: Vec<Vec<char>> = Vec::new();
    let mut cur: Vec<char> = Vec::new();
    let mut i: usize = 0;
    assert(s@.take(0) =~= Seq::<char>::empty());
    assert(vecs_view(out@) =~= Seq::<Seq<char>>::empty());
    while i < s.len()
        invariant
            0 <= i <= s@.len(),
            split_state(s@.take(i as int), sep) == (vecs_view(out@), cur@),
        decreases s@.len() - i,
    {
        let c = s[i];
        assert(s@.take(i + 1).drop_last() =~= s@.take(i as int));
        assert(s@.take(i + 1).last() == c);
        if c == sep {
            let ghost before = vecs_view(out@);
            let ghost cv = cur@;
            out.push(cur);
            assert(vecs_view(out@) =~= before.push(cv));
            cur = Vec::new();
        } else {
            cur.push(c);
        }
        i = i + 1;
    }
    assert(s@.take(i as int) =~= s@);
    let ghost before = vecs_view(out@);
    let ghost cv = cur@;
    out.push(cur);
    assert(vecs_view(out@) =~= before.push(cv));
    out
}

/// The words `ws` joined by single spaces.
pub open spec fn join_space(ws: Seq<Seq<char>>) -> Seq<char>
    decreases ws.len(),
{
    if ws.len() == 0 {
        Seq::empty()
    } else if ws.len() == 1 {
        ws[0]
    } else {
        join_space(ws.drop_last()) + seq![' '] + ws.last()
    }
}

/// The words `ws[from..]` joined by single spaces.
pub fn join_space_from(ws: &Vec<Vec<char>>, from: usize) -> (r: Vec<char>)
    requires
        from <= ws@.len(),
    ensures
        r@ == join_space(vecs_view(ws@).subrange(from as int, ws@.len() as int)),
{
    let mut out: Vec<char> = Vec::new();
    let mut k = from;
    assert(vecs_view(ws@).subrange(from as int, from as int) =~= Seq::<Seq<char>>::empty());
    while k < ws.len()
        invariant
            from <= k <= ws@.len(),
            out@ == join_space(vecs_view(ws@).subrange(from as int, k as int)),
        decreases ws@.len() - k,
    {
        let ghost pre = vecs_view(ws@).subrange(from as int, k as int);
        let ghost next = vecs_view(ws@).subrange(from as int, k + 1);
        assert(next.drop_last() =~= pre);
        assert(next.last() == ws@[k as int]@);
        if k > from {
            out.push(' ');
        }
        let w = &ws[k];
        let mut j: usize = 0;
        let ghost base = out@;
        while j < w.len()
            invariant
                0 <= j <= w@.len(),
                out@ == base + w@.take(j as int),
            decreases w@.len() - j,
        {
            out.push(w[j]);
            assert(base + w@.take(j + 1) =~= (base + w@.take(j as int)).push(w@[j as int]));
            j = j + 1;
        }
        assert(w@.take(j as int) =~= w@);
        if k == from {
            assert(out@ =~= next[0]);
        } else {
            assert(out@ =~= join_space(pre) + seq![' '] + next.last());
        }
        k = k + 1;
    }
    out
}

// ----------------------------------------------------------------------
// Comparison and search
// ----------------------------------------------------------------------
pub fn eq_vec(a: &Vec<char>, b: &Vec<char>) -> (r: bool)
    ensures
        r == (a@ == b@),
{
    if a.len() != b.len() {
        return false;
    }
    let mut i: usize = 0;
    while i < a.len()
        invariant
            a@.len() == b@.len(),
            0 <= i <= a@.len(),
            forall|k: int| 0 <= k < i ==> a@[k] == b@[k],
        decreases a@.len() - i,
    {
        if a[i] != b[i] {
            return false;
        }
        i = i + 1;
    }
    assert(a@ =~= b@);
    true
}

/// Whether `list` holds a text equal to `t`.
pub open spec fn listed(list: Seq<&str>, t: Seq<char>) -> bool {
    exists|i: int| 0 <= i < list.len() && list[i]@ == t
}

pub fn in_list(t: &Vec<char>, list: &[&str]) -> (r: bool)
    ensures
        r == listed(list@, t@),
{
    let mut i: usize = 0;
    while i < list.len()
        invariant
            0 <= i <= list@.len(),
            forall|k: int| 0 <= k < i ==> list@[k]@ != t@,
        decreases list@.len() - i,
    {
        if eq_str(t, list[i]) {
            return true;
        }
        i = i + 1;
    }
    false
}

/// Whether two texts are the same.
pub fn same_text(a: &str, b: &str) -> (r: bool)
    ensures
        r == (a@ == b@),
{
    let av = chars_of(a);
    eq_str(&av, b)
}

/// `str::eq_ignore_ascii_case`: equal once ASCII letters are lowered.
pub open spec fn eq_ignore_ascii_case(a: Seq<char>, b: Seq<char>) -> bool {
    a.len() == b.len() && forall|i: int|
        0 <= i < a.len() ==> lower_char(#[trigger] a[i]) == lower_char(b[i])
}

pub fn eq_ignore_ascii_case_str(a: &Vec<char>, b: &str) -> (r: bool)
    ensures
        r == eq_ignore_ascii_case(a@, b@),
{
    let bv = chars_of(b);
    if a.len() != bv.len() {
        return false;
    }
    let mut i: usize = 0;
    while i < a.len()
        invariant
            a@.len() == bv@.len(),
            bv@ == b@,
            0 <= i <= a@.len(),
            forall|k: int| 0 <= k < i ==> lower_char(#[trigger] a@[k]) == lower_char(bv@[k]),
        decreases a@.len() - i,
    {
        if to_lower_char(a[i]) != to_lower_char(bv[i]) {
            return false;
        }
        i = i + 1;
    }
    true
}

/// Whether the characters `a` are exactly those of the text `b`.
pub fn eq_str(a: &Vec<char>, b: &str) -> (r: bool)
    ensures
        r == (a@ == b@),
{
    let bv = chars_of(b);
    eq_vec(a, &bv)
}

pub open spec fn starts_with(s: Seq<char>, p: Seq<char>) -> bool {
    p.len() <= s.len() && s.subrange(0, p.len() as int) == p
}

pub open spec fn ends_with(s: Seq<char>, p: Seq<char>) -> bool {
    p.len() <= s.len() && s.subrange(s.len() - p.len(), s.len() as int) == p
}

/// Whether `s` holds `p` at position `i`.
pub open spec fn occurs_at(s: Seq<char>, p: Seq<char>, i: int) -> bool {
    0 <= i && i + p.len() <= s.len() && s.subrange(i, i + p.len()) == p
}

/// Whether `p` occurs somewhere in `s` (`str::contains`).
pub open spec fn contains_seq(s: Seq<char>, p: Seq<char>) -> bool {
    exists|i: int| occurs_at(s, p, i)
}

pub fn occurs_at_exec(s: &Vec<char>, p: &Vec<char>, i: usize) -> (r: bool)
    ensures
        r == occurs_at(s@, p@, i as int),
{
    if p.len() > s.len() || i > s.len() - p.len() {
        return false;
    }
    let mut k: usize = 0;
    while k < p.len()
        invariant
            i + p@.len() <= s@.len(),
            s@.len() == s.len(),
            0 <= k <= p@.len(),
            forall|j: int| 0 <= j < k ==> s@[i + j] == p@[j],
        decreases p@.len() - k,
    {
        if s[i + k] != p[k] {
            assert(s@.subrange(i as int, i + p@.len())[k as int] != p@[k as int]);
            return false;
        }
        k = k + 1;
    }
    assert(s@.subrange(i as int, i + p@.len()) =~= p@);
    true
}

pub fn starts_with_vec(s: &Vec<char>, p: &Vec<char>) -> (r: bool)
    ensures
        r == starts_with(s@, p@),
{
    occurs_at_exec(s, p, 0)
}

pub fn starts_with_str(s: &Vec<char>, p: &str) -> (r: bool)
    ensures
        r == starts_with(s@, p@),
{
    let pv = chars_of(p);
    starts_with_vec(s, &pv)
}

pub fn ends_with_str(s: &Vec<char>, p: &str) -> (r: bool)
    ensures
        r == ends_with(s@, p@),
{
    let pv = chars_of(p);
    if pv.len() > s.len() {
        return false;
    }
    occurs_at_exec(s, &pv, s.len() - pv.len())
}

/// The first position at or after `from` where `p` occurs in `s`, if any.
pub open spec fn find_from(s: Seq<char>, p: Seq<char>, from: int) -> Option<int>
    decreases s.len() + 1 - from,
{
    if from < 0 || from + p.len() > s.len() {
        None
    } else if occurs_at(s, p, from) {
        Some(from)
    } else {
        find_from(s, p, from + 1)
    }
}

pub proof fn lemma_find_from(s: Seq<char>, p: Seq<char>, from: int)
    requires
        0 <= from,
    ensures
        match find_from(s, p, from) {
            Some(i) => from <= i && occurs_at(s, p, i) && forall|k: int|
                from <= k < i ==> !occurs_at(s, p, k),
            None => forall|k: int| from <= k ==> !occurs_at(s, p, k),
        },
    decreases s.len() + 1 - from,
{
    if from + p.len() > s.len() {
    } else if occurs_at(s, p, from) {
    } else {
        lemma_find_from(s, p, from + 1);
    }
}

pub fn find_from_exec(s: &Vec<char>, p: &Vec<char>, from: usize) -> (r: Option<usize>)
    ensures
        match r {
            Some(i) => find_from(s@, p@, from as int) == Some(i as int),
            None => find_from(s@, p@, from as int) is None,
        },
{
    if p.len() > s.len() || from > s.len() - p.len() {
        assert(from + p@.len() > s@.len());
        assert(find_from(s@, p@, from as int) is None);
        return None;
    }
    let last = s.len() - p.len();
    let mut i = from;
    while i <= last
        invariant
            from <= i,
            last == s@.len() - p@.len(),
            i <= last + 1,
            find_from(s@, p@, i as int) == find_from(s@, p@, from as int),
        decreases last + 1 - i,
    {
        if occurs_at_exec(s, p, i) {
            return Some(i);
        }
        if i == last {
            assert(find_from(s@, p@, i + 1) is None);
            return None;
        }
        i = i + 1;
    }
    None
}

pub fn contains_vec(s: &Vec<char>, p: &Vec<char>) -> (r: bool)
    ensures
        r == contains_seq(s@, p@),
{
    proof {
        lemma_find_from(s@, p@, 0);
    }
    let f = find_from_exec(s, p, 0);
    match f {
        Some(i) => {
            assert(occurs_at(s@, p@, i as int));
            true
        },
        None => false,
    }
}

pub fn contains_str(s: &Vec<char>, p: &str) -> (r: bool)
    ensures
        r == contains_seq(s@, p@),
{
    let pv = chars_of(p);
    contains_vec(s, &pv)
}

pub fn contains_char(s: &Vec<char>, c: char) -> (r: bool)
    ensures
        r == s@.contains(c),
{
    let mut i: usize = 0;
    while i < s.len()
        invariant
            0 <= i <= s@.len(),
            forall|k: int| 0 <= k < i ==> s@[k] != c,
        decreases s@.len() - i,
    {
        if s[i] == c {
            return true;
        }
        i = i + 1;
    }
    false
}

/// The first position at or after `from` where `s` holds `c`.
pub open spec fn find_char(s: Seq<char>, c: char, from: int) -> Option<int>
    decreases s.len() - from,
{
    if from < 0 || from >= s.len() {
        None
    } else if s[from] == c {
        Some(from)
    } else {
        find_char(s, c, from + 1)
    }
}

pub proof fn lemma_find_char(s: Seq<char>, c: char, from: int)
    requires
        0 <= from,
    ensures
        match find_char(s, c, from) {
            Some(i) => from <= i < s.len() && s[i] == c && forall|k: int|
                from <= k < i ==> s[k] != c,
            None => forall|k: int| from <= k < s.len() ==> s[k] != c,
        },
    decreases s.len() - from,
{
    if from < s.len() && s[from] != c {
        lemma_find_char(s, c, from + 1);
    }
}

pub fn find_char_from(s: &Vec<char>, c: char, from: usize) -> (r: Option<usize>)
    ensures
        match r {
            Some(i) => find_char(s@, c, from as int) == Some(i as int) && from <= i < s@.len()
                && s@[i as int] == c && i < usize::MAX,
            None => find_char(s@, c, from as int) is None,
        },
{
    proof {
        lemma_find_char(s@, c, from as int);
    }
    let mut i = from;
    while i < s.len()
        invariant
            from <= i,
            find_char(s@, c, i as int) == find_char(s@, c, from as int),
        decreases s@.len() - i,
    {
        if s[i] == c {
            return Some(i);
        }
        i = i + 1;
    }
    None
}

// ----------------------------------------------------------------------
// Numbers
// ----------------------------------------------------------------------
pub open spec fn digit_char(d: int) -> char {
    (('0' as int) + d) as char
}

/// Decimal digits of `n` without leading zeros (`"0"` for zero).
pub open spec fn dec(n: nat) -> Seq<char>
    decreases n,
{
    if n < 10 {
        seq![digit_char(n as int)]
    } else {
        dec(n / 10).push(digit_char((n % 10) as int))
    }
}

/// Decimal text of a signed integer, with a leading `-` when it is negative.
pub open spec fn dec_int(n: int) -> Seq<char> {
    if n < 0 {
        seq!['-'] + dec((-n) as nat)
    } else {
        dec(n as nat)
    }
}

pub fn u64_to_string(n: u64) -> (s: String)
    ensures
        s@ == dec(n as nat),
    decreases n,
{
    if n < 10 {
        let mut s = String::new();
        let c = ((n as u8) + 48u8) as char;
        assert(c == digit_char(n as int));
        s.push(c);
        assert(s@ =~= seq![digit_char(n as int)]);
        s
    } else {
        let mut s = u64_to_string(n / 10);
        let c = (((n % 10) as u8) + 48u8) as char;
        s.push(c);
        s
    }
}

pub fn i64_to_string(n: i64) -> (s: String)
    ensures
        s@ == dec_int(n as int),
{
    if n < 0 {
        let m: u64 = if n == i64::MIN {
            9223372036854775808u64
        } else {
            (-n) as u64
        };
        let mut s = String::new();
        s.push('-');
        let t = u64_to_string(m);
        push_seq(&mut s, t.as_str());
        assert(s@ =~= seq!['-'] + dec((-n) as nat));
        s
    } else {
        u64_to_string(n as u64)
    }
}

/// Value of a run of decimal digits.
pub open spec fn digits_value(s: Seq<char>) -> nat
    decreases s.len(),
{
    if s.len() == 0 {
        0
    } else {
        digits_value(s.drop_last()) * 10 + ((s.last() as int) - ('0' as int)) as nat
    }
}

pub open spec fn all_digits(s: Seq<char>) -> bool {
    forall|i: int| 0 <= i < s.len() ==> is_digit(#[trigger] s[i])
}

/// `str::parse::<u64>`: an optional `+`, at least one decimal digit, and a value that fits.
pub open spec fn parse_u64_spec(s: Seq<char>) -> Option<u64> {
    let d = if s.len() > 0 && s[0] == '+' {
        s.drop_first()
    } else {
        s
    };
    if d.len() > 0 && all_digits(d) && digits_value(d) <= u64::MAX {
        Some(digits_value(d) as u64)
    } else {
        None
    }
}

proof fn lemma_digits_value_push(s: Seq<char>, c: char)
    requires
        is_digit(c),
    ensures
        digits_value(s.push(c)) == digits_value(s) * 10 + ((c as int) - ('0' as int)),
{
    assert(s.push(c).drop_last() =~= s);
    assert(s.push(c).last() == c);
    assert(s.push(c).len() > 0);
}

proof fn lemma_digits_value_grows(s: Seq<char>, k: int)
    requires
        all_digits(s),
        0 <= k <= s.len(),
    ensures
        digits_value(s.take(k)) <= digits_value(s),
    decreases s.len() - k,
{
    if k < s.len() {
        lemma_digits_value_grows(s, k + 1);
        assert(s.take(k + 1).drop_last() =~= s.take(k));
        assert(is_digit(s[k]));
    } else {
        assert(s.take(k) =~= s);
    }
}

pub fn parse_u64_vec(s: &Vec<char>) -> (r: Option<u64>)
    ensures
        r == parse_u64_spec(s@),
{
    let start: usize = if s.len() > 0 && s[0] == '+' {
        1
    } else {
        0
    };
    let ghost d = if s@.len() > 0 && s@[0] == '+' {
        s@.drop_first()
    } else {
        s@
    };
    assert(d =~= s@.subrange(start as int, s@.len() as int));
    if start >= s.len() {
        return None;
    }
    let mut acc: u64 = 0;
    let mut i = start;
    while i < s.len()
        invariant
            start <= i <= s@.len(),
            d =~= s@.subrange(start as int, s@.len() as int),
            d.len() > 0,
            parse_u64_spec(s@) == (if d.len() > 0 && all_digits(d) && digits_value(d) <= u64::MAX {
                Some(digits_value(d) as u64)
            } else {
                None
            }),
            all_digits(d.take(i - start)),
            acc as nat == digits_value(d.take(i - start)),
        decreases s@.len() - i,
    {
        let c = s[i];
        if !('0' <= c && c <= '9') {
            assert(d[i - start] == c);
            assert(!is_digit(d[i - start]));
            assert(!all_digits(d));
            return None;
        }
        let v = (c as u32 - '0' as u32) as u64;
        assert(d.take(i - start).push(c) =~= d.take(i + 1 - start));
        proof {
            lemma_digits_value_push(d.take(i - start), c);
        }
        if acc > (u64::MAX - v) / 10 {
            proof {
                assert(digits_value(d.take(i + 1 - start)) > u64::MAX) by (nonlinear_arith)
                    requires
                        acc > (u64::MAX - v) / 10,
                        digits_value(d.take(i + 1 - start)) == acc * 10 + v,
                        v <= 9,
                ;
                if all_digits(d) {
                    lemma_digits_value_grows(d, i + 1 - start);
                }
            }
            return None;
        }
        acc = acc * 10 + v;
        i = i + 1;
    }
    assert(d.take(i - start) =~= d);
    Some(acc)
}

pub fn parse_u64_str(s: &str) -> (r: Option<u64>)
    ensures
        r == parse_u64_spec(s@),
{
    let v = chars_of(s);
    parse_u64_vec(&v)
}

} // verus!
