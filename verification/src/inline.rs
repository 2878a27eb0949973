//! Inline text as it is drawn: QQ faces, emoji glyphs (single characters,
//! longer sequences and keycaps) and plain characters.
use vstd::prelude::*;

use crate::render::{keycap_sequence_base, keycap_spec, should_skip_emoji_char, skip_emoji_spec, InlineAtom};
use crate::text::{chars_of, string_of, subvec};

verus! {

// ----------------------------------------------------------------------
// The emoji table
// ----------------------------------------------------------------------
/// The glyph of the last entry for `c` among `m[..n]`.
pub open spec fn char_lookup(m: Seq<(char, u16)>, c: char, n: int) -> Option<u16>
    decreases n,
{
    if n <= 0 || n > m.len() {
        None
    } else if m[n - 1].0 == c {
        Some(m[n - 1].1)
    } else {
        char_lookup(m, c, n - 1)
    }
}

/// The index of the keycap entry for `c` among `k[..n]`.
pub open spec fn keycap_index(k: Seq<(char, u16, bool)>, c: char, n: int) -> Option<int>
    decreases n,
{
    if n <= 0 || n > k.len() {
        None
    } else if k[n - 1].0 == c {
        Some(n - 1)
    } else {
        keycap_index(k, c, n - 1)
    }
}

/// The keycaps of the sequences `s[..n]`, by base: a later sequence takes a
/// base over only when it has the variation selector and the earlier does not.
pub open spec fn keycaps_from(s: Seq<(Seq<char>, u16)>, n: int) -> Seq<(char, u16, bool)>
    decreases n,
{
    if n <= 0 || n > s.len() {
        Seq::empty()
    } else {
        let prev = keycaps_from(s, n - 1);
        match keycap_spec(s[n - 1].0) {
            None => prev,
            Some((base, vs)) => match keycap_index(prev, base, prev.len() as int) {
                None => prev.push((base, s[n - 1].1, vs)),
                Some(k) => if !prev[k].2 && vs {
                    prev.update(k, (base, s[n - 1].1, vs))
                } else {
                    prev
                },
            },
        }
    }
}

proof fn lemma_keycaps_push(s: Seq<(Seq<char>, u16)>, x: (Seq<char>, u16), n: int)
    requires
        0 <= n <= s.len(),
    ensures
        keycaps_from(s.push(x), n) == keycaps_from(s, n),
    decreases n,
{
    if n > 0 {
        lemma_keycaps_push(s, x, n - 1);
        assert(s.push(x)[n - 1] == s[n - 1]);
    }
}

/// Single-character entries of the metadata, as characters.
pub open spec fn single_chars(m: Seq<(Seq<char>, u16)>) -> Seq<(char, u16)>
    decreases m.len(),
{
    if m.len() == 0 {
        Seq::empty()
    } else {
        let prev = single_chars(m.drop_last());
        if m.last().0.len() == 1 {
            prev.push((m.last().0[0], m.last().1))
        } else {
            prev
        }
    }
}

/// Entries of the metadata with at least two characters.
pub open spec fn long_sequences(m: Seq<(Seq<char>, u16)>) -> Seq<(Seq<char>, u16)>
    decreases m.len(),
{
    if m.len() == 0 {
        Seq::empty()
    } else {
        let prev = long_sequences(m.drop_last());
        if m.last().0.len() >= 2 {
            prev.push(m.last())
        } else {
            prev
        }
    }
}

pub open spec fn meta_view(v: Seq<(String, u16)>) -> Seq<(Seq<char>, u16)> {
    v.map_values(|p: (String, u16)| (p.0@, p.1))
}

pub open spec fn seqs_view(v: Seq<(Vec<char>, u16)>) -> Seq<(Seq<char>, u16)> {
    v.map_values(|p: (Vec<char>, u16)| (p.0@, p.1))
}

/// The emoji that can be drawn, read from the glyph metadata: each
/// character and sequence with its glyph.
pub struct EmojiTable {
    codepoints: Vec<(char, u16)>,
    sequences: Vec<(Vec<char>, u16)>,
    keycaps: Vec<(char, u16, bool)>,
}

impl EmojiTable {
    pub closed spec fn codepoints_view(&self) -> Seq<(char, u16)> {
        self.codepoints@
    }

    pub closed spec fn sequences_view(&self) -> Seq<(Seq<char>, u16)> {
        seqs_view(self.sequences@)
    }

    pub closed spec fn keycaps_view(&self) -> Seq<(char, u16, bool)> {
        self.keycaps@
    }

    pub open spec fn wf(&self) -> bool {
        &&& forall|i: int|
            0 <= i < self.sequences_view().len() ==> (#[trigger] self.sequences_view()[i]).0.len()
                >= 2
        &&& self.keycaps_view() == keycaps_from(
            self.sequences_view(),
            self.sequences_view().len() as int,
        )
    }

    /// The glyph of a single character.
    pub open spec fn glyph_spec(&self, c: char) -> Option<u16> {
        char_lookup(self.codepoints_view(), c, self.codepoints_view().len() as int)
    }

    /// Whether a character that is not ASCII has a glyph of its own.
    pub open spec fn is_emoji_spec(&self, c: char) -> bool {
        (c as u32) >= 128 && self.glyph_spec(c) is Some
    }

    /// The table of the metadata's single characters and its sequences of
    /// two or more characters; nothing when no single character has a glyph.
    pub fn from_metadata(codepoints: Vec<(String, u16)>, sequences: Vec<(String, u16)>) -> (r: Option<
        EmojiTable,
    >)
        ensures
            match r {
                Some(t) => {
                    &&& t.wf()
                    &&& t.codepoints_view() == single_chars(meta_view(codepoints@))
                    &&& t.sequences_view() == long_sequences(meta_view(sequences@))
                    &&& t.codepoints_view().len() > 0
                },
                None => single_chars(meta_view(codepoints@)).len() == 0,
            },
    {
        let ghost cm = meta_view(codepoints@);
        let mut cps: Vec<(char, u16)> = Vec::new();
        let mut i: usize = 0;
        while i < codepoints.len()
            invariant
                0 <= i <= codepoints@.len(),
                cm == meta_view(codepoints@),
                cps@ == single_chars(cm.take(i as int)),
            decreases codepoints@.len() - i,
        {
            assert(cm.take(i + 1).drop_last() =~= cm.take(i as int));
            assert(cm.take(i + 1).last() == (codepoints@[i as int].0@, codepoints@[i as int].1));
            let cs = chars_of(codepoints[i].0.as_str());
            if cs.len() == 1 {
                cps.push((cs[0], codepoints[i].1));
            }
            i = i + 1;
        }
        assert(cm.take(i as int) =~= cm);
        if cps.len() == 0 {
            return None;
        }
        let ghost sm = meta_view(sequences@);
        let mut seqs: Vec<(Vec<char>, u16)> = Vec::new();
        let mut keycaps: Vec<(char, u16, bool)> = Vec::new();
        let mut j: usize = 0;
        while j < sequences.len()
            invariant
                0 <= j <= sequences@.len(),
                sm == meta_view(sequences@),
                seqs_view(seqs@) == long_sequences(sm.take(j as int)),
                keycaps@ == keycaps_from(seqs_view(seqs@), seqs@.len() as int),
                forall|k: int| 0 <= k < seqs@.len() ==> (#[trigger] seqs_view(seqs@)[k]).0.len() >= 2,
            decreases sequences@.len() - j,
        {
            assert(sm.take(j + 1).drop_last() =~= sm.take(j as int));
            assert(sm.take(j + 1).last() == (sequences@[j as int].0@, sequences@[j as int].1));
            let cs = chars_of(sequences[j].0.as_str());
            if cs.len() >= 2 {
                let g = sequences[j].1;
                let kc = keycap_sequence_base(sequences[j].0.as_str());
                let ghost before = seqs_view(seqs@);
                seqs.push((cs, g));
                assert(seqs_view(seqs@) =~= before.push((sequences@[j as int].0@, g)));
                proof {
                    lemma_keycaps_push(before, (sequences@[j as int].0@, g), before.len() as int);
                }
                match kc {
                    None => {},
                    Some((base, vs)) => {
                        let found = find_keycap(&keycaps, base);
                        match found {
                            None => {
                                keycaps.push((base, g, vs));
                            },
                            Some(k) => {
                                if !keycaps[k].2 && vs {
                                    keycaps.set(k, (base, g, vs));
                                }
                            },
                        }
                    },
                }
            }
            j = j + 1;
        }
        assert(sm.take(j as int) =~= sm);
        Some(EmojiTable { codepoints: cps, sequences: seqs, keycaps })
    }

    /// Whether a character that is not ASCII has a glyph of its own.
    pub fn is_emoji_char(&self, ch: char) -> (r: bool)
        ensures
            r == self.is_emoji_spec(ch),
    {
        if (ch as u32) < 128 {
            return false;
        }
        self.glyph_id_for_char(ch).is_some()
    }

    /// The glyph of a single character.
    pub fn glyph_id_for_char(&self, ch: char) -> (r: Option<u16>)
        ensures
            r == self.glyph_spec(ch),
    {
        let mut n = self.codepoints.len();
        while n > 0
            invariant
                n <= self.codepoints@.len(),
                char_lookup(self.codepoints@, ch, n as int) == char_lookup(
                    self.codepoints@,
                    ch,
                    self.codepoints@.len() as int,
                ),
            decreases n,
        {
            if self.codepoints[n - 1].0 == ch {
                return Some(self.codepoints[n - 1].1);
            }
            n = n - 1;
        }
        None
    }
}

fn find_keycap(k: &Vec<(char, u16, bool)>, c: char) -> (r: Option<usize>)
    ensures
        match r {
            Some(i) => i < k@.len() && keycap_index(k@, c, k@.len() as int) == Some(i as int),
            None => keycap_index(k@, c, k@.len() as int) is None,
        },
{
    let mut n = k.len();
    while n > 0
        invariant
            n <= k@.len(),
            keycap_index(k@, c, n as int) == keycap_index(k@, c, k@.len() as int),
        decreases n,
    {
        if k[n - 1].0 == c {
            return Some(n - 1);
        }
        n = n - 1;
    }
    None
}

// ----------------------------------------------------------------------
// Matching emoji
// ----------------------------------------------------------------------
pub open spec fn is_vs(c: char) -> bool {
    c == '\u{FE0F}' || c == '\u{FE0E}'
}

/// A keycap at the start of `rest`: its base, then the keycap mark, with or
/// without a variation selector between; the glyph and the characters taken.
pub open spec fn keycap_match(k: Seq<(char, u16, bool)>, rest: Seq<char>) -> Option<(u16, nat)> {
    if rest.len() == 0 {
        None
    } else {
        match keycap_index(k, rest[0], k.len() as int) {
            None => None,
            Some(i) => if rest.len() >= 2 && is_vs(rest[1]) {
                if rest.len() >= 3 && rest[2] == '\u{20E3}' {
                    Some((k[i].1, 3nat))
                } else {
                    None
                }
            } else if rest.len() >= 2 && rest[1] == '\u{20E3}' {
                Some((k[i].1, 2nat))
            } else {
                None
            },
        }
    }
}

/// The longest of `s[..n]` that `rest` starts with (the later one of equal
/// length): its glyph and length.
pub open spec fn longest_match(s: Seq<(Seq<char>, u16)>, rest: Seq<char>, n: int) -> Option<(u16, nat)>
    decreases n,
{
    if n <= 0 || n > s.len() {
        None
    } else {
        let prev = longest_match(s, rest, n - 1);
        let e = s[n - 1];
        if e.0.len() > 0 && crate::text::starts_with(rest, e.0) && (match prev {
            None => true,
            Some(p) => e.0.len() >= p.1,
        }) {
            Some((e.1, e.0.len()))
        } else {
            prev
        }
    }
}

/// The emoji glyph that `rest` starts with, as a keycap or a sequence, and
/// how many characters it takes.
pub open spec fn match_spec(t: EmojiTable, rest: Seq<char>) -> Option<(u16, nat)> {
    match keycap_match(t.keycaps_view(), rest) {
        Some(m) => Some(m),
        None => longest_match(t.sequences_view(), rest, t.sequences_view().len() as int),
    }
}

proof fn lemma_longest_match_len(s: Seq<(Seq<char>, u16)>, rest: Seq<char>, n: int)
    ensures
        match longest_match(s, rest, n) {
            Some(m) => 1 <= m.1 <= rest.len(),
            None => true,
        },
    decreases n,
{
    if 0 < n <= s.len() {
        lemma_longest_match_len(s, rest, n - 1);
    }
}

impl EmojiTable {
    /// The emoji glyph that `text[idx..]` starts with, as a keycap or a
    /// sequence, and how many characters it takes.
    pub fn match_sequence(&self, text: &Vec<char>, idx: usize) -> (r: Option<(u16, usize)>)
        requires
            self.wf(),
        ensures
            match r {
                Some((g, n)) => idx <= text@.len() && match_spec(
                    *self,
                    text@.subrange(idx as int, text@.len() as int),
                ) == Some((g, n as nat)) && 1 <= n <= text@.len() - idx,
                None => idx > text@.len() || match_spec(
                    *self,
                    text@.subrange(idx as int, text@.len() as int),
                ) is None,
            },
    {
        if idx >= text.len() {
            proof {
                if idx == text@.len() {
                    let rest = text@.subrange(idx as int, text@.len() as int);
                    lemma_longest_match_len(self.sequences_view(), rest, self.sequences_view().len() as int);
                }
            }
            return None;
        }
        let ghost rest = text@.subrange(idx as int, text@.len() as int);
        let first = text[idx];
        assert(rest[0] == first);
        let left = text.len() - idx;
        match find_keycap(&self.keycaps, first) {
            Some(k) => {
                let g = self.keycaps[k].1;
                if left >= 2 && (text[idx + 1] == '\u{FE0F}' || text[idx + 1] == '\u{FE0E}') {
                    assert(rest[1] == text@[idx + 1]);
                    if left >= 3 && text[idx + 2] == '\u{20E3}' {
                        assert(rest[2] == text@[idx + 2]);
                        return Some((g, 3));
                    }
                    if left >= 3 {
                        assert(rest[2] == text@[idx + 2]);
                    }
                } else if left >= 2 && text[idx + 1] == '\u{20E3}' {
                    assert(rest[1] == text@[idx + 1]);
                    return Some((g, 2));
                } else if left >= 2 {
                    assert(rest[1] == text@[idx + 1]);
                }
            },
            None => {},
        }
        assert(keycap_match(self.keycaps_view(), rest) is None);
        let mut best: Option<(u16, usize)> = None;
        let mut j: usize = 0;
        while j < self.sequences.len()
            invariant
                0 <= j <= self.sequences@.len(),
                idx < text@.len(),
                rest == text@.subrange(idx as int, text@.len() as int),
                left == rest.len(),
                match best {
                    Some((g, n)) => longest_match(self.sequences_view(), rest, j as int) == Some(
                        (g, n as nat),
                    ),
                    None => longest_match(self.sequences_view(), rest, j as int) is None,
                },
            decreases self.sequences@.len() - j,
        {
            let e = &self.sequences[j];
            assert(self.sequences_view()[j as int] == (e.0@, e.1));
            let len = e.0.len();
            if len > 0 && len <= left && starts_at(text, idx, &e.0) {
                let longer = match best {
                    None => true,
                    Some((_, n)) => len >= n,
                };
                if longer {
                    best = Some((e.1, len));
                }
            } else {
                proof {
                    if len > 0 && len > left {
                        assert(!crate::text::starts_with(rest, e.0@));
                    }
                }
            }
            j = j + 1;
        }
        proof {
            lemma_longest_match_len(self.sequences_view(), rest, self.sequences_view().len() as int);
        }
        best
    }
}

/// Whether `text[idx..]` starts with `p`.
fn starts_at(text: &Vec<char>, idx: usize, p: &Vec<char>) -> (r: bool)
    requires
        idx <= text@.len(),
    ensures
        r == crate::text::starts_with(text@.subrange(idx as int, text@.len() as int), p@),
{
    let ghost rest = text@.subrange(idx as int, text@.len() as int);
    if p.len() > text.len() - idx {
        return false;
    }
    let tl = text.len();
    let mut k: usize = 0;
    while k < p.len()
        invariant
            0 <= k <= p@.len(),
            tl == text@.len(),
            idx + p@.len() <= text@.len(),
            rest == text@.subrange(idx as int, text@.len() as int),
            forall|m: int| 0 <= m < k ==> rest[m] == p@[m],
        decreases p@.len() - k,
    {
        assert(idx + k < text@.len());
        assert(rest[k as int] == text@[idx + k]);
        if text[idx + k] != p[k] {
            assert(rest.subrange(0, p@.len() as int)[k as int] != p@[k as int]);
            return false;
        }
        k = k + 1;
    }
    assert(rest.subrange(0, p@.len() as int) =~= p@);
    true
}

// ----------------------------------------------------------------------
// Inline atoms
// ----------------------------------------------------------------------
/// An inline atom, with a face's id as text.
pub enum AtomView {
    Letter(char),
    Face(Seq<char>),
    Emoji(u16),
}

pub open spec fn atom_view(a: InlineAtom) -> AtomView {
    match a {
        InlineAtom::Char(c) => AtomView::Letter(c),
        InlineAtom::Face(id) => AtomView::Face(id@),
        InlineAtom::Emoji(g) => AtomView::Emoji(g),
    }
}

pub open spec fn atoms_view(v: Seq<InlineAtom>) -> Seq<AtomView> {
    v.map_values(|x: InlineAtom| atom_view(x))
}

/// A face id: one or more ASCII digits.
pub open spec fn face_id_ok(id: Seq<char>) -> bool {
    id.len() > 0 && crate::text::all_digits(id)
}

/// A QQ face written at `i`, as `[[face:ID]]` or `[face:ID]`: its id and
/// where the text goes on.
pub open spec fn face_at(line: Seq<char>, i: int) -> Option<(Seq<char>, int)> {
    if crate::text::occurs_at(line, "[[face:"@, i) {
        match crate::text::find_from(line, "]]"@, i + 7) {
            Some(c) => if face_id_ok(line.subrange(i + 7, c)) {
                Some((line.subrange(i + 7, c), c + 2))
            } else {
                None
            },
            None => None,
        }
    } else if crate::text::occurs_at(line, "[face:"@, i) {
        match crate::text::find_char(line, ']', i + 6) {
            Some(c) => if face_id_ok(line.subrange(i + 6, c)) {
                Some((line.subrange(i + 6, c), c + 1))
            } else {
                None
            },
            None => None,
        }
    } else {
        None
    }
}

/// The atom of a character that starts no face and no emoji sequence:
/// nothing for a selector, joiner or tag; its glyph when it has one; else
/// the character.
pub open spec fn plain_atom(t: EmojiTable, ch: char) -> Option<AtomView> {
    if skip_emoji_spec(ch) {
        None
    } else if t.is_emoji_spec(ch) {
        Some(AtomView::Emoji(t.glyph_spec(ch)->0))
    } else {
        Some(AtomView::Letter(ch))
    }
}

fn plain_atom_exec(table: &EmojiTable, ch: char) -> (r: Option<InlineAtom>)
    ensures
        match r {
            Some(a) => plain_atom(*table, ch) == Some(atom_view(a)),
            None => plain_atom(*table, ch) is None,
        },
{
    if should_skip_emoji_char(ch) {
        None
    } else if table.is_emoji_char(ch) {
        match table.glyph_id_for_char(ch) {
            Some(g) => Some(InlineAtom::Emoji(g)),
            None => None,
        }
    } else {
        Some(InlineAtom::Char(ch))
    }
}

/// The atoms of `line[i..]`: faces (when `faces` is set), emoji glyphs
/// (sequences first, then single characters), and characters; selectors,
/// joiners and tags on their own are dropped.
pub open spec fn atoms_from(t: EmojiTable, line: Seq<char>, i: int, faces: bool) -> Seq<AtomView>
    decreases line.len() - i,
{
    if i < 0 || i >= line.len() {
        Seq::empty()
    } else {
        let face = if faces && line[i] == '[' {
            face_at(line, i)
        } else {
            None
        };
        match face {
            Some((id, next)) => if i < next <= line.len() {
                seq![AtomView::Face(id)] + atoms_from(t, line, next, faces)
            } else {
                Seq::empty()
            },
            None => match match_spec(t, line.subrange(i, line.len() as int)) {
                Some((g, n)) => if n >= 1 && i + n <= line.len() {
                    seq![AtomView::Emoji(g)] + atoms_from(t, line, i + n, faces)
                } else {
                    Seq::empty()
                },
                None => match plain_atom(t, line[i]) {
                    Some(a) => seq![a] + atoms_from(t, line, i + 1, faces),
                    None => atoms_from(t, line, i + 1, faces),
                },
            },
        }
    }
}

fn all_ascii_digits(s: &Vec<char>, from: usize, to: usize) -> (r: bool)
    requires
        from <= to <= s@.len(),
    ensures
        r == crate::text::all_digits(s@.subrange(from as int, to as int)),
{
    let mut k = from;
    while k < to
        invariant
            from <= k <= to <= s@.len(),
            forall|m: int| from <= m < k ==> crate::text::is_digit(#[trigger] s@[m]),
        decreases to - k,
    {
        if !('0' <= s[k] && s[k] <= '9') {
            assert(s@.subrange(from as int, to as int)[k - from] == s@[k as int]);
            return false;
        }
        k = k + 1;
    }
    assert forall|m: int| 0 <= m < to - from implies crate::text::is_digit(
        #[trigger] s@.subrange(from as int, to as int)[m],
    ) by {
        assert(s@.subrange(from as int, to as int)[m] == s@[from + m]);
    }
    true
}

fn face_at_exec(line: &Vec<char>, i: usize) -> (r: Option<(Vec<char>, usize)>)
    requires
        i < line@.len(),
    ensures
        match r {
            Some((id, next)) => face_at(line@, i as int) == Some((id@, next as int)) && i < next
                <= line@.len(),
            None => face_at(line@, i as int) is None,
        },
{
    let long = chars_of("[[face:");
    let short = chars_of("[face:");
    proof {
        reveal_strlit("[[face:");
        reveal_strlit("[face:");
        reveal_strlit("]]");
        assert("[[face:"@.len() == 7);
        assert("[face:"@.len() == 6);
        assert("]]"@.len() == 2);
    }
    let len = line.len();
    if crate::text::occurs_at_exec(line, &long, i) {
        let close = chars_of("]]");
        assert(i + 7 <= len);
        let a = i + 7;
        match crate::text::find_from_exec(line, &close, a) {
            Some(c) => {
                proof {
                    crate::text::lemma_find_from(line@, close@, a as int);
                }
                assert(c + 2 <= len);
                if c > a && all_ascii_digits(line, a, c) {
                    return Some((subvec(line, a, c), c + 2));
                }
                None
            },
            None => None,
        }
    } else if crate::text::occurs_at_exec(line, &short, i) {
        assert(i + 6 <= len);
        let a = i + 6;
        match crate::text::find_char_from(line, ']', a) {
            Some(c) => {
                proof {
                    crate::text::lemma_find_char(line@, ']', a as int);
                }
                if c > a && all_ascii_digits(line, a, c) {
                    return Some((subvec(line, a, c), c + 1));
                }
                None
            },
            None => None,
        }
    } else {
        None
    }
}

fn push_atom(atoms: &mut Vec<InlineAtom>, a: InlineAtom)
    ensures
        atoms_view(final(atoms)@) == atoms_view(old(atoms)@).push(atom_view(a)),
{
    atoms.push(a);
    assert(atoms_view(atoms@) =~= atoms_view(old(atoms)@).push(atom_view(a)));
}

/// The atoms of one line of text: `[[face:ID]]` and `[face:ID]` as QQ
/// faces (when `parse_faces` is set), emoji as glyphs (the longest sequence
/// or keycap first, then single characters), and other characters as they
/// are; selectors, joiners and tags on their own are dropped.
pub fn parse_inline_atoms(line: &str, table: &EmojiTable, parse_faces: bool) -> (r: Vec<InlineAtom>)
    requires
        table.wf(),
    ensures
        atoms_view(r@) == atoms_from(*table, line@, 0, parse_faces),
{
    let chars = chars_of(line);
    let ghost l = chars@;
    let mut atoms: Vec<InlineAtom> = Vec::new();
    let mut idx: usize = 0;
    while idx < chars.len()
        invariant
            0 <= idx <= l.len(),
            l == chars@,
            l == line@,
            table.wf(),
            atoms_view(atoms@) + atoms_from(*table, l, idx as int, parse_faces) == atoms_from(
                *table,
                l,
                0,
                parse_faces,
            ),
        decreases l.len() - idx,
    {
        let ghost before = atoms_view(atoms@);
        if parse_faces && chars[idx] == '[' {
            match face_at_exec(&chars, idx) {
                Some((id, next)) => {
                    let ids = string_of(id.as_slice());
                    push_atom(&mut atoms, InlineAtom::Face(ids));
                    assert(atoms_view(atoms@) + atoms_from(*table, l, next as int, parse_faces)
                        =~= before + atoms_from(*table, l, idx as int, parse_faces));
                    idx = next;
                    continue;
                },
                None => {},
            }
        }
        match table.match_sequence(&chars, idx) {
            Some((g, n)) => {
                push_atom(&mut atoms, InlineAtom::Emoji(g));
                assert(atoms_view(atoms@) + atoms_from(*table, l, idx + n, parse_faces) =~= before
                    + atoms_from(*table, l, idx as int, parse_faces));
                idx = idx + n;
            },
            None => {
                let ch = chars[idx];
                assert(ch == l[idx as int]);
                match plain_atom_exec(table, ch) {
                    Some(a) => {
                        push_atom(&mut atoms, a);
                    },
                    None => {},
                }
                assert(atoms_view(atoms@) + atoms_from(*table, l, idx + 1, parse_faces) =~= before
                    + atoms_from(*table, l, idx as int, parse_faces));
                idx = idx + 1;
            },
        }
    }
    assert(atoms_view(atoms@) + Seq::<AtomView>::empty() =~= atoms_view(atoms@));
    atoms
}

// ----------------------------------------------------------------------
// Laws
// ----------------------------------------------------------------------
/// Without face parsing no atom is a face; and a line yields no more atoms
/// than it has characters.
pub proof fn lemma_atoms_bounds(t: EmojiTable, line: Seq<char>, i: int, faces: bool)
    requires
        0 <= i <= line.len(),
    ensures
        atoms_from(t, line, i, faces).len() <= line.len() - i,
        !faces ==> forall|k: int|
            0 <= k < atoms_from(t, line, i, faces).len() ==> !(#[trigger] atoms_from(
                t,
                line,
                i,
                faces,
            )[k] is Face),
    decreases line.len() - i,
{
    if i < line.len() {
        let face = if faces && line[i] == '[' {
            face_at(line, i)
        } else {
            None
        };
        match face {
            Some((id, next)) => {
                if i < next <= line.len() {
                    lemma_atoms_bounds(t, line, next, faces);
                }
            },
            None => match match_spec(t, line.subrange(i, line.len() as int)) {
                Some((g, n)) => {
                    if n >= 1 && i + n <= line.len() {
                        lemma_atoms_bounds(t, line, i + n, faces);
                        let rest = atoms_from(t, line, i + n, faces);
                        assert forall|k: int|
                            0 <= k < atoms_from(t, line, i, faces).len() && !faces implies !(
                            #[trigger] atoms_from(t, line, i, faces)[k] is Face) by {
                            if k > 0 {
                                assert(atoms_from(t, line, i, faces)[k] == rest[k - 1]);
                            }
                        }
                    }
                },
                None => {
                    lemma_atoms_bounds(t, line, i + 1, faces);
                    let rest = atoms_from(t, line, i + 1, faces);
                    match plain_atom(t, line[i]) {
                        Some(a) => {
                            assert forall|k: int|
                                0 <= k < atoms_from(t, line, i, faces).len() && !faces implies !(
                                #[trigger] atoms_from(t, line, i, faces)[k] is Face) by {
                                if k > 0 {
                                    assert(atoms_from(t, line, i, faces)[k] == rest[k - 1]);
                                }
                            }
                        },
                        None => {},
                    }
                },
            },
        }
    }
}

} // verus!
