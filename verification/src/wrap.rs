//! Breaking the text of a post into lines of inline runs (text, QQ faces and
//! emoji glyphs) that fit a width. How wide a piece of text is comes from a
//! measuring function that the caller supplies.
use vstd::prelude::*;

use crate::inline::{atom_view, atoms_from, atoms_view, parse_inline_atoms, AtomView, EmojiTable};
use crate::measure::{measure_fn, measure_text, width_of};
use crate::render::{inline_atom_is_break, inline_atom_is_whitespace, is_break_spec, InlineAtom};
use crate::text::{chars_of, find_char, find_char_from, is_ws, lemma_find_char, string_of};

verus! {

/// A run of a line: text in one font, a QQ face, or an emoji glyph.
#[derive(Debug, Clone)]
pub enum InlineRun {
    Text(String),
    Face { id: String },
    Emoji { glyph_id: u16 },
}

/// A line of runs and its width.
#[derive(Debug, Clone)]
pub struct InlineLine {
    pub runs: Vec<InlineRun>,
    pub width: u32,
}

pub open spec fn letter_atoms(s: Seq<char>) -> Seq<AtomView>
    decreases s.len(),
{
    if s.len() == 0 {
        Seq::empty()
    } else {
        letter_atoms(s.drop_last()).push(AtomView::Letter(s.last()))
    }
}

/// The atoms that a run draws.
pub open spec fn run_atoms(r: InlineRun) -> Seq<AtomView> {
    match r {
        InlineRun::Text(s) => letter_atoms(s@),
        InlineRun::Face { id } => seq![AtomView::Face(id@)],
        InlineRun::Emoji { glyph_id } => seq![AtomView::Emoji(glyph_id)],
    }
}

/// The atoms that a line's runs draw, in order.
pub open spec fn runs_atoms(rs: Seq<InlineRun>) -> Seq<AtomView>
    decreases rs.len(),
{
    if rs.len() == 0 {
        Seq::empty()
    } else {
        runs_atoms(rs.drop_last()) + run_atoms(rs.last())
    }
}

/// The atoms of each line.
pub open spec fn lines_atoms(ls: Seq<InlineLine>) -> Seq<Seq<AtomView>> {
    ls.map_values(|l: InlineLine| runs_atoms(l.runs@))
}

proof fn lemma_letters_push(s: Seq<char>, c: char)
    ensures
        letter_atoms(s.push(c)) == letter_atoms(s).push(AtomView::Letter(c)),
        letter_atoms(Seq::<char>::empty()) == Seq::<AtomView>::empty(),
{
    assert(s.push(c).drop_last() =~= s);
}

proof fn lemma_runs_atoms_push(rs: Seq<InlineRun>, r: InlineRun)
    ensures
        runs_atoms(rs.push(r)) == runs_atoms(rs) + run_atoms(r),
{
    assert(rs.push(r).drop_last() =~= rs);
}

// ----------------------------------------------------------------------
// Lines of a text
// ----------------------------------------------------------------------
/// A line without the carriage return that ended it.
pub open spec fn strip_cr(l: Seq<char>) -> Seq<char> {
    if l.len() > 0 && l.last() == '\r' {
        l.drop_last()
    } else {
        l
    }
}

/// The lines of `s` from `from` on, as `str::lines` gives them: split at
/// `'\n'`, a `'\r'` before the `'\n'` dropped, and no empty line after a
/// final line end.
pub open spec fn lines_from(s: Seq<char>, from: int) -> Seq<Seq<char>>
    decreases s.len() - from,
{
    if from < 0 || from >= s.len() {
        Seq::empty()
    } else {
        proof {
            lemma_find_char(s, '\n', from);
        }
        match find_char(s, '\n', from) {
            Some(i) => seq![strip_cr(s.subrange(from, i))] + lines_from(s, i + 1),
            None => seq![s.subrange(from, s.len() as int)],
        }
    }
}

pub open spec fn text_lines(s: Seq<char>) -> Seq<Seq<char>> {
    lines_from(s, 0)
}

fn split_text_lines(text: &str) -> (r: Vec<Vec<char>>)
    ensures
        r@.map_values(|l: Vec<char>| l@) == text_lines(text@),
{
    let chars = chars_of(text);
    let ghost s = chars@;
    let mut out: Vec<Vec<char>> = Vec::new();
    let mut from: usize = 0;
    while from < chars.len()
        invariant
            s == chars@,
            s == text@,
            from <= s.len(),
            out@.map_values(|l: Vec<char>| l@) + lines_from(s, from as int) == text_lines(s),
        decreases s.len() - from,
    {
        proof {
            lemma_find_char(s, '\n', from as int);
        }
        let ghost before = out@.map_values(|l: Vec<char>| l@);
        match find_char_from(&chars, '\n', from) {
            Some(i) => {
                let mut end = i;
                if end > from && chars[end - 1] == '\r' {
                    end = end - 1;
                }
                let line = crate::text::subvec(&chars, from, end);
                proof {
                    assert(line@ == strip_cr(s.subrange(from as int, i as int))) by {
                        let l = s.subrange(from as int, i as int);
                        if l.len() > 0 && l.last() == '\r' {
                            assert(l.drop_last() =~= s.subrange(from as int, end as int));
                        } else {
                            assert(l =~= s.subrange(from as int, end as int));
                        }
                    }
                }
                out.push(line);
                proof {
                    assert(out@.map_values(|l: Vec<char>| l@) =~= before.push(line@));
                    assert(lines_from(s, from as int) == seq![line@] + lines_from(s, i + 1));
                    assert(before.push(line@) + lines_from(s, i + 1) =~= before + (seq![line@]
                        + lines_from(s, i + 1)));
                }
                from = i + 1;
            },
            None => {
                let line = crate::text::subvec(&chars, from, chars.len());
                out.push(line);
                proof {
                    assert(line@ =~= s.subrange(from as int, s.len() as int));
                    assert(out@.map_values(|l: Vec<char>| l@) =~= before.push(line@));
                    assert(lines_from(s, chars.len() as int) =~= Seq::<Seq<char>>::empty());
                    assert(before.push(line@) =~= before + lines_from(s, from as int));
                }
                from = chars.len();
            },
        }
    }
    proof {
        assert(out@.map_values(|l: Vec<char>| l@) =~= out@.map_values(|l: Vec<char>| l@) + lines_from(
            s,
            from as int,
        ));
    }
    out
}

// ----------------------------------------------------------------------
// Building a line
// ----------------------------------------------------------------------
/// `a + b`, or `u32::MAX` when that is larger.
pub open spec fn sat_add(a: u32, b: u32) -> u32 {
    if a + b > u32::MAX {
        u32::MAX
    } else {
        (a + b) as u32
    }
}

/// A width with the pending letters `cur` measured and added, when there are any.
pub open spec fn flush_width<M: Fn(&str) -> u32>(measure: &M, cur: Seq<char>, w: u32) -> u32 {
    if cur.len() > 0 {
        sat_add(w, width_of(measure, cur))
    } else {
        w
    }
}

/// Measuring the atoms `av[from..to]` from the left: the letters since the
/// last face or emoji, and the width of everything before them (each face
/// `face_size` wide, each emoji `emoji_size` wide, each run of letters as
/// `measure` gives it, added up saturating).
pub open spec fn line_fold<M: Fn(&str) -> u32>(
    measure: &M,
    face_size: u32,
    emoji_size: u32,
    av: Seq<AtomView>,
    from: int,
    to: int,
) -> (Seq<char>, u32)
    decreases to - from,
{
    if to <= from {
        (Seq::empty(), 0u32)
    } else {
        let (cur, w) = line_fold(measure, face_size, emoji_size, av, from, to - 1);
        match av[to - 1] {
            AtomView::Letter(c) => (cur.push(c), w),
            AtomView::Face(_) => (Seq::empty(), sat_add(flush_width(measure, cur, w), face_size)),
            AtomView::Emoji(_) => (Seq::empty(), sat_add(flush_width(measure, cur, w), emoji_size)),
        }
    }
}

/// The width of the line of the atoms `av[from..to]`.
pub open spec fn line_width<M: Fn(&str) -> u32>(
    measure: &M,
    face_size: u32,
    emoji_size: u32,
    av: Seq<AtomView>,
    from: int,
    to: int,
) -> u32 {
    let (cur, w) = line_fold(measure, face_size, emoji_size, av, from, to);
    flush_width(measure, cur, w)
}

/// No text run is empty, and no two text runs are next to each other.
pub open spec fn runs_merged(rs: Seq<InlineRun>) -> bool {
    &&& forall|i: int| 0 <= i < rs.len() ==> (#[trigger] rs[i] matches InlineRun::Text(t) ==> t@.len() > 0)
    &&& forall|i: int| 0 <= i < rs.len() - 1 ==> !(#[trigger] rs[i] is Text && rs[i + 1] is Text)
}

/// The runs of the atoms `atoms[from..to]`, letters gathered into text runs,
/// and their width: each text run as `measure` gives it, each face
/// `face_size` wide and each emoji `emoji_size` wide, added up saturating.
pub fn build_inline_line<M: Fn(&str) -> u32>(
    atoms: &Vec<InlineAtom>,
    from: usize,
    to: usize,
    face_size: u32,
    emoji_size: u32,
    measure: &M,
) -> (line: InlineLine)
    requires
        from <= to <= atoms@.len(),
        measure_fn(measure),
    ensures
        runs_atoms(line.runs@) == atoms_view(atoms@.subrange(from as int, to as int)),
        runs_merged(line.runs@),
        line.width == line_width(measure, face_size, emoji_size, atoms_view(atoms@), from as int, to as int),
{
    let ghost av = atoms_view(atoms@);
    let mut runs: Vec<InlineRun> = Vec::new();
    let mut current = String::new();
    let mut cur_n: usize = 0;
    let mut width: u32 = 0;
    let mut k = from;
    proof {
        lemma_letters_push(current@, ' ');
        assert(atoms_view(atoms@.subrange(from as int, from as int)) =~= Seq::<AtomView>::empty());
        assert(runs_atoms(runs@) =~= Seq::<AtomView>::empty());
    }
    while k < to
        invariant
            from <= k <= to <= atoms@.len(),
            av == atoms_view(atoms@),
            measure_fn(measure),
            runs_atoms(runs@) + letter_atoms(current@) == atoms_view(atoms@.subrange(from as int, k as int)),
            cur_n == current@.len(),
            cur_n <= k - from,
            (current@, width) == line_fold(measure, face_size, emoji_size, av, from as int, k as int),
            runs_merged(runs@),
            runs@.len() == 0 || !(runs@.last() is Text),
        decreases to - k,
    {
        let ghost before = atoms_view(atoms@.subrange(from as int, k as int));
        proof {
            assert(atoms@.subrange(from as int, k + 1) =~= atoms@.subrange(from as int, k as int).push(atoms@[k as int]));
            assert(atoms_view(atoms@.subrange(from as int, k + 1)) =~= before.push(atom_view(atoms@[k as int])));
            assert(av[k as int] == atom_view(atoms@[k as int]));
        }
        match &atoms[k] {
            InlineAtom::Char(ch) => {
                let ghost c0 = current@;
                current.push(*ch);
                cur_n = cur_n + 1;
                proof {
                    lemma_letters_push(c0, *ch);
                }
            },
            InlineAtom::Face(id) => {
                if cur_n > 0 {
                    width = width.saturating_add(measure_text(measure, current.as_str()));
                    let ghost r0 = runs@;
                    runs.push(InlineRun::Text(current));
                    proof {
                        lemma_runs_atoms_push(r0, InlineRun::Text(current));
                    }
                    current = String::new();
                    cur_n = 0;
                }
                let ghost r1 = runs@;
                proof { lemma_letters_push(current@, ' '); }
                let idc = id.clone();
                assert(idc@ == id@);
                let run = InlineRun::Face { id: idc };
                let ghost gr = run;
                runs.push(run);
                proof {
                    lemma_runs_atoms_push(r1, gr);
                }
                width = width.saturating_add(face_size);
            },
            InlineAtom::Emoji(g) => {
                if cur_n > 0 {
                    width = width.saturating_add(measure_text(measure, current.as_str()));
                    let ghost r0 = runs@;
                    runs.push(InlineRun::Text(current));
                    proof {
                        lemma_runs_atoms_push(r0, InlineRun::Text(current));
                    }
                    current = String::new();
                    cur_n = 0;
                }
                let ghost r1 = runs@;
                proof { lemma_letters_push(current@, ' '); }
                runs.push(InlineRun::Emoji { glyph_id: *g });
                proof {
                    lemma_runs_atoms_push(r1, InlineRun::Emoji { glyph_id: *g });
                }
                width = width.saturating_add(emoji_size);
            },
        }
        k = k + 1;
    }
    if cur_n > 0 {
        width = width.saturating_add(measure_text(measure, current.as_str()));
        let ghost r0 = runs@;
        runs.push(InlineRun::Text(current));
        proof {
            lemma_runs_atoms_push(r0, InlineRun::Text(current));
        }
    } else {
        proof { lemma_letters_push(current@, ' '); }
        assert(current@ =~= Seq::<char>::empty());
        assert(runs_atoms(runs@) + letter_atoms(current@) =~= runs_atoms(runs@));
    }
    InlineLine { runs, width }
}

/// The letters since the last face or emoji among `atoms[from..to]`, and
/// the width of what comes before them, as `wrap_inline_text` measures a
/// line while it fills it.
fn measure_state<M: Fn(&str) -> u32>(
    atoms: &Vec<InlineAtom>,
    from: usize,
    to: usize,
    face_size: u32,
    measure: &M,
) -> (r: (String, u32, bool))
    requires
        from <= to <= atoms@.len(),
        measure_fn(measure),
    ensures
        (r.0@, r.1) == line_fold(measure, face_size, face_size, atoms_view(atoms@), from as int, to as int),
        r.2 == (r.0@.len() > 0),
{
    let ghost av = atoms_view(atoms@);
    let mut segment = String::new();
    let mut seg_n: usize = 0;
    let mut base: u32 = 0;
    let mut k = from;
    while k < to
        invariant
            from <= k <= to <= atoms@.len(),
            av == atoms_view(atoms@),
            measure_fn(measure),
            seg_n <= k - from,
            seg_n == segment@.len(),
            (segment@, base) == line_fold(measure, face_size, face_size, av, from as int, k as int),
        decreases to - k,
    {
        assert(av[k as int] == atom_view(atoms@[k as int]));
        match &atoms[k] {
            InlineAtom::Char(ch) => {
                segment.push(*ch);
                seg_n = seg_n + 1;
            },
            _ => {
                if seg_n > 0 {
                    base = base.saturating_add(measure_text(measure, segment.as_str()));
                    segment = String::new();
                    seg_n = 0;
                }
                base = base.saturating_add(face_size);
            },
        }
        k = k + 1;
    }
    (segment, base, seg_n > 0)
}

/// Whether an atom is whitespace.
pub open spec fn atom_ws(a: AtomView) -> bool {
    a matches AtomView::Letter(c) && is_ws(c)
}

/// Whether a line may break after an atom.
pub open spec fn atom_break(a: AtomView) -> bool {
    a matches AtomView::Letter(c) && is_break_spec(c)
}

/// How many whitespace atoms end `av[cs..b]`.
pub open spec fn trail_ws_atoms(av: Seq<AtomView>, cs: int, b: int) -> int
    decreases b - cs,
{
    if b > cs && atom_ws(av[b - 1]) {
        1 + trail_ws_atoms(av, cs, b - 1)
    } else {
        0
    }
}

/// How many whitespace atoms start `av[b..e]`.
pub open spec fn lead_ws_atoms(av: Seq<AtomView>, b: int, e: int) -> int
    decreases e - b,
{
    if b < e && atom_ws(av[b]) {
        1 + lead_ws_atoms(av, b + 1, e)
    } else {
        0
    }
}

/// Where filling lines with atoms has got to: the first atom of the line
/// being filled, the place just after its last break opportunity, and the
/// lines so far.
pub struct AtomWrap {
    pub cs: int,
    pub lb: Option<int>,
    pub lines: Seq<(int, int)>,
}

/// One atom more: when the line being filled, with the atom, is wider than
/// `max_width` (faces and emoji `face_size` wide) and holds more than one
/// atom, the line ends at its last break opportunity (whitespace around it
/// dropped) or else before the atom.
pub open spec fn atom_step<M: Fn(&str) -> u32>(
    measure: &M,
    max_width: u32,
    face_size: u32,
    av: Seq<AtomView>,
    st: AtomWrap,
    i: int,
) -> AtomWrap {
    let e = i + 1;
    let lf = line_fold(measure, face_size, face_size, av, st.cs, e);
    let st1 = if sat_add(lf.1, width_of(measure, lf.0)) > max_width && e - st.cs > 1 {
        let (le, ns) = match st.lb {
            Some(b) => (b - trail_ws_atoms(av, st.cs, b), b + lead_ws_atoms(av, b, e)),
            None => (e - 1, e - 1),
        };
        AtomWrap {
            cs: ns,
            lb: if ns < e && atom_break(av[e - 1]) {
                Some(e)
            } else {
                None
            },
            lines: st.lines.push((st.cs, le)),
        }
    } else {
        st
    };
    if atom_break(av[i]) {
        AtomWrap { lb: Some(e), ..st1 }
    } else {
        st1
    }
}

pub open spec fn atom_run<M: Fn(&str) -> u32>(measure: &M, max_width: u32, face_size: u32, av: Seq<AtomView>, i: int) -> AtomWrap
    decreases i,
{
    if i <= 0 {
        AtomWrap { cs: 0, lb: None, lines: Seq::empty() }
    } else {
        atom_step(measure, max_width, face_size, av, atom_run(measure, max_width, face_size, av, i - 1), i - 1)
    }
}

/// The ranges of the lines that the atoms of one line of text wrap into.
pub open spec fn atom_line_ranges<M: Fn(&str) -> u32>(measure: &M, max_width: u32, face_size: u32, av: Seq<AtomView>) -> Seq<(int, int)> {
    let st = atom_run(measure, max_width, face_size, av, av.len() as int);
    if st.cs < av.len() {
        st.lines.push((st.cs, av.len() as int))
    } else {
        st.lines
    }
}

/// What a line shows: its atoms and its width.
pub open spec fn line_view(l: InlineLine) -> (Seq<AtomView>, u32) {
    (runs_atoms(l.runs@), l.width)
}

pub open spec fn lines_view(ls: Seq<InlineLine>) -> Seq<(Seq<AtomView>, u32)> {
    Seq::new(ls.len(), |i: int| line_view(ls[i]))
}

/// The lines of the ranges `rs` of `av`, with their widths.
pub open spec fn ranges_lines<M: Fn(&str) -> u32>(measure: &M, face_size: u32, av: Seq<AtomView>, rs: Seq<(int, int)>) -> Seq<(Seq<AtomView>, u32)> {
    Seq::new(rs.len(), |i: int| (av.subrange(rs[i].0, rs[i].1), line_width(measure, face_size, face_size, av, rs[i].0, rs[i].1)))
}

proof fn lemma_trail_atoms_bound(av: Seq<AtomView>, cs: int, b: int)
    requires
        cs <= b,
    ensures
        0 <= trail_ws_atoms(av, cs, b) <= b - cs,
    decreases b - cs,
{
    if b > cs && atom_ws(av[b - 1]) {
        lemma_trail_atoms_bound(av, cs, b - 1);
    }
}

proof fn lemma_lead_atoms_bound(av: Seq<AtomView>, b: int, e: int)
    requires
        b <= e,
    ensures
        0 <= lead_ws_atoms(av, b, e) <= e - b,
    decreases e - b,
{
    if b < e && atom_ws(av[b]) {
        lemma_lead_atoms_bound(av, b + 1, e);
    }
}

proof fn lemma_atom_run_bounds<M: Fn(&str) -> u32>(measure: &M, max_width: u32, face_size: u32, av: Seq<AtomView>, i: int)
    requires
        0 <= i <= av.len(),
    ensures
        0 <= atom_run(measure, max_width, face_size, av, i).cs <= i,
        atom_run(measure, max_width, face_size, av, i).lb matches Some(b) ==> atom_run(measure, max_width, face_size, av, i).cs <= b <= i,
    decreases i,
{
    if i > 0 {
        lemma_atom_run_bounds(measure, max_width, face_size, av, i - 1);
        let st = atom_run(measure, max_width, face_size, av, i - 1);
        if let Some(b) = st.lb {
            lemma_trail_atoms_bound(av, st.cs, b);
            lemma_lead_atoms_bound(av, b, i);
        }
    }
}

fn trailing_ws_count(atoms: &Vec<InlineAtom>, cs: usize, b: usize) -> (n: usize)
    requires
        cs <= b <= atoms@.len(),
    ensures
        n == trail_ws_atoms(atoms_view(atoms@), cs as int, b as int),
        n <= b - cs,
    decreases b - cs,
{
    if b > cs && inline_atom_is_whitespace(&atoms[b - 1]) {
        assert(atoms_view(atoms@)[b - 1] == atom_view(atoms@[b - 1]));
        1 + trailing_ws_count(atoms, cs, b - 1)
    } else {
        assert(b > cs ==> atoms_view(atoms@)[b - 1] == atom_view(atoms@[b - 1]));
        0
    }
}

fn leading_ws_count(atoms: &Vec<InlineAtom>, b: usize, e: usize) -> (n: usize)
    requires
        b <= e <= atoms@.len(),
    ensures
        n == lead_ws_atoms(atoms_view(atoms@), b as int, e as int),
        b + n <= e,
    decreases e - b,
{
    if b < e && inline_atom_is_whitespace(&atoms[b]) {
        assert(atoms_view(atoms@)[b as int] == atom_view(atoms@[b as int]));
        1 + leading_ws_count(atoms, b + 1, e)
    } else {
        assert(b < e ==> atoms_view(atoms@)[b as int] == atom_view(atoms@[b as int]));
        0
    }
}

/// Breaks the atoms of one line of text into lines, as `atom_line_ranges`
/// says, and adds them to `out`.
#[verifier::rlimit(100)]
fn wrap_atoms<M: Fn(&str) -> u32>(
    atoms: &Vec<InlineAtom>,
    max_width: u32,
    face_size: u32,
    measure: &M,
    out: &mut Vec<InlineLine>,
)
    requires
        measure_fn(measure),
    ensures
        lines_view(final(out)@) == lines_view(old(out)@) + ranges_lines(
            measure,
            face_size,
            atoms_view(atoms@),
            atom_line_ranges(measure, max_width, face_size, atoms_view(atoms@)),
        ),
        final(out)@.len() >= old(out)@.len(),
        final(out)@.take(old(out)@.len() as int) == old(out)@,
        forall|j: int| old(out)@.len() <= j < final(out)@.len() ==> runs_merged(#[trigger] final(out)@[j].runs@),
{
    let ghost av = atoms_view(atoms@);
    let ghost o0 = lines_view(out@);
    let n = atoms.len();
    let mut cs: usize = 0;
    let mut last_break: Option<usize> = None;
    let mut segment = String::new();
    let mut seg_n = false;
    let mut base: u32 = 0;
    let mut i: usize = 0;
    proof {
        assert(lines_view(out@) =~= o0 + ranges_lines(measure, face_size, av, Seq::empty()));
        assert(out@.take(out@.len() as int) =~= out@);
    }
    while i < n
        invariant
            n == atoms@.len(),
            av == atoms_view(atoms@),
            measure_fn(measure),
            i <= n,
            cs as int == atom_run(measure, max_width, face_size, av, i as int).cs,
            (match last_break { Some(b) => Some(b as int), None => None }) == atom_run(measure, max_width, face_size, av, i as int).lb,
            lines_view(out@) == o0 + ranges_lines(measure, face_size, av, atom_run(measure, max_width, face_size, av, i as int).lines),
            (segment@, base) == line_fold(measure, face_size, face_size, av, cs as int, i as int),
            seg_n == (segment@.len() > 0),
            out@.len() >= o0.len(),
            out@.len() >= old(out)@.len(),
            out@.take(old(out)@.len() as int) == old(out)@,
            forall|j: int| old(out)@.len() <= j < out@.len() ==> runs_merged(#[trigger] out@[j].runs@),
        decreases n - i,
    {
        proof {
            lemma_atom_run_bounds(measure, max_width, face_size, av, i as int);
        }
        let ghost st = atom_run(measure, max_width, face_size, av, i as int);
        let is_break = inline_atom_is_break(&atoms[i]);
        assert(av[i as int] == atom_view(atoms@[i as int]));
        match &atoms[i] {
            InlineAtom::Char(ch) => {
                segment.push(*ch);
                seg_n = true;
            },
            _ => {
                if seg_n {
                    base = base.saturating_add(measure_text(measure, segment.as_str()));
                    segment = String::new();
                    seg_n = false;
                }
                base = base.saturating_add(face_size);
            },
        }
        let e = i + 1;
        let seg_w = measure_text(measure, segment.as_str());
        let current_width = base.saturating_add(seg_w);
        if current_width > max_width && e - cs > 1 {
            let (line_end, next_start) = match last_break {
                Some(b) => {
                    let tr = trailing_ws_count(atoms, cs, b);
                    let ld = leading_ws_count(atoms, b, e);
                    (b - tr, b + ld)
                },
                None => (e - 1, e - 1),
            };
            let line = build_inline_line(atoms, cs, line_end, face_size, face_size, measure);
            let ghost prev = out@;
            out.push(line);
            proof {
                assert(atoms_view(atoms@.subrange(cs as int, line_end as int)) =~= av.subrange(cs as int, line_end as int));
                assert(lines_view(out@) =~= lines_view(prev).push(line_view(line)));
                assert(ranges_lines(measure, face_size, av, st.lines.push((cs as int, line_end as int))) =~= ranges_lines(measure, face_size, av, st.lines).push(line_view(line)));
                assert(out@.take(old(out)@.len() as int) =~= prev.take(old(out)@.len() as int));
            }
            cs = next_start;
            let ms = measure_state(atoms, cs, e, face_size, measure);
            segment = ms.0;
            base = ms.1;
            seg_n = ms.2;
            last_break = None;
            if cs < e && inline_atom_is_break(&atoms[e - 1]) {
                last_break = Some(e);
            }
            proof {
                assert(e - 1 >= 0 ==> av[e - 1] == atom_view(atoms@[e - 1]));
            }
        }
        if is_break {
            last_break = Some(e);
        }
        i = e;
    }
    if cs < n {
        let line = build_inline_line(atoms, cs, n, face_size, face_size, measure);
        let ghost prev = out@;
        out.push(line);
        proof {
            let st = atom_run(measure, max_width, face_size, av, n as int);
            assert(atoms_view(atoms@.subrange(cs as int, n as int)) =~= av.subrange(cs as int, n as int));
            assert(lines_view(out@) =~= lines_view(prev).push(line_view(line)));
            assert(ranges_lines(measure, face_size, av, st.lines.push((cs as int, n as int))) =~= ranges_lines(measure, face_size, av, st.lines).push(line_view(line)));
            assert(out@.take(old(out)@.len() as int) =~= prev.take(old(out)@.len() as int));
        }
    }
}

/// The lines one line of text wraps into, with their widths; an empty line
/// stays one empty line.
pub open spec fn wrap_inline_line_spec<M: Fn(&str) -> u32>(
    measure: &M,
    max_width: u32,
    face_size: u32,
    table: EmojiTable,
    raw: Seq<char>,
) -> Seq<(Seq<AtomView>, u32)> {
    if raw.len() == 0 {
        seq![(Seq::<AtomView>::empty(), 0u32)]
    } else {
        let av = atoms_from(table, raw, 0, true);
        ranges_lines(measure, face_size, av, atom_line_ranges(measure, max_width, face_size, av))
    }
}

pub open spec fn wrap_inline_lines_spec<M: Fn(&str) -> u32>(
    measure: &M,
    max_width: u32,
    face_size: u32,
    table: EmojiTable,
    raws: Seq<Seq<char>>,
) -> Seq<(Seq<AtomView>, u32)>
    decreases raws.len(),
{
    if raws.len() == 0 {
        Seq::empty()
    } else {
        wrap_inline_lines_spec(measure, max_width, face_size, table, raws.drop_last()) + wrap_inline_line_spec(
            measure,
            max_width,
            face_size,
            table,
            raws.last(),
        )
    }
}

/// What `wrap_inline_text` gives: the wrapped lines of each line of `text`,
/// or one empty line when there are none.
pub open spec fn wrap_inline_spec<M: Fn(&str) -> u32>(
    measure: &M,
    max_width: u32,
    face_size: u32,
    table: EmojiTable,
    text: Seq<char>,
) -> Seq<(Seq<AtomView>, u32)> {
    let ls = wrap_inline_lines_spec(measure, max_width, face_size, table, text_lines(text));
    if ls.len() == 0 {
        seq![(Seq::<AtomView>::empty(), 0u32)]
    } else {
        ls
    }
}

/// Breaks `text` into lines of runs no wider than `max_width` where it can:
/// each line of the text on its own, its QQ faces and emoji parsed with
/// `table`, faces and emoji `face_size` wide and text as wide as `measure`
/// says. A line is broken at the last break opportunity, dropping the
/// whitespace around the break, or else before the atom that does not fit;
/// a line keeps at least one atom.
pub fn wrap_inline_text<M: Fn(&str) -> u32>(
    text: &str,
    max_width: u32,
    face_size: u32,
    table: &EmojiTable,
    measure: &M,
) -> (lines: Vec<InlineLine>)
    requires
        table.wf(),
        measure_fn(measure),
    ensures
        lines_view(lines@) == wrap_inline_spec(measure, max_width, face_size, *table, text@),
        forall|i: int| 0 <= i < lines@.len() ==> runs_merged(#[trigger] lines@[i].runs@),
{
    let raws = split_text_lines(text);
    let ghost rv = raws@.map_values(|l: Vec<char>| l@);
    let mut lines: Vec<InlineLine> = Vec::new();
    let mut r: usize = 0;
    proof {
        assert(lines_view(lines@) =~= wrap_inline_lines_spec(measure, max_width, face_size, *table, rv.take(0)));
    }
    while r < raws.len()
        invariant
            rv == raws@.map_values(|l: Vec<char>| l@),
            rv == text_lines(text@),
            table.wf(),
            measure_fn(measure),
            r <= raws@.len(),
            lines_view(lines@) == wrap_inline_lines_spec(measure, max_width, face_size, *table, rv.take(r as int)),
            forall|i: int| 0 <= i < lines@.len() ==> runs_merged(#[trigger] lines@[i].runs@),
        decreases raws@.len() - r,
    {
        let raw = &raws[r];
        assert(raw@ == rv[r as int]);
        proof {
            assert(rv.take(r + 1).drop_last() =~= rv.take(r as int));
            assert(rv.take(r + 1).last() == raw@);
        }
        let ghost prev = lines@;
        if raw.len() == 0 {
            let l = InlineLine { runs: Vec::new(), width: 0 };
            let ghost gl = l;
            lines.push(l);
            proof {
                assert(runs_atoms(gl.runs@) =~= Seq::<AtomView>::empty());
                assert(lines_view(lines@) =~= lines_view(prev).push(line_view(gl)));
                assert(lines_view(lines@) =~= wrap_inline_lines_spec(measure, max_width, face_size, *table, rv.take(r as int)) + seq![(Seq::<AtomView>::empty(), 0u32)]);
            }
        } else {
            let raw_text = string_of(raw.as_slice());
            let atoms = parse_inline_atoms(raw_text.as_str(), table, true);
            wrap_atoms(&atoms, max_width, face_size, measure, &mut lines);
        }
        proof {
            assert forall|i: int| 0 <= i < lines@.len() implies runs_merged(#[trigger] lines@[i].runs@) by {
                if i < prev.len() {
                    assert(lines@.take(prev.len() as int)[i] == lines@[i]);
                }
            }
        }
        r = r + 1;
    }
    proof {
        assert(rv.take(rv.len() as int) =~= rv);
    }
    if lines.len() == 0 {
        let l = InlineLine { runs: Vec::new(), width: 0 };
        let ghost gl = l;
        lines.push(l);
        proof {
            assert(runs_atoms(gl.runs@) =~= Seq::<AtomView>::empty());
            assert(lines_view(lines@) =~= seq![(Seq::<AtomView>::empty(), 0u32)]);
        }
    } else {
        assert(lines_view(lines@).len() == lines@.len());
    }
    lines
}

// ----------------------------------------------------------------------
// Plain text
// ----------------------------------------------------------------------
/// How many whitespace characters end `s[cs..b]`.
pub open spec fn trail_ws(s: Seq<char>, cs: int, b: int) -> int
    decreases b - cs,
{
    if b > cs && is_ws(s[b - 1]) {
        1 + trail_ws(s, cs, b - 1)
    } else {
        0
    }
}

/// How many whitespace characters start `s[b..e]`.
pub open spec fn lead_ws(s: Seq<char>, b: int, e: int) -> int
    decreases e - b,
{
    if b < e && is_ws(s[b]) {
        1 + lead_ws(s, b + 1, e)
    } else {
        0
    }
}

/// Where wrapping a line has got to: the start of the line being filled,
/// the place just after its last break opportunity, and the lines so far.
pub struct TextWrap {
    pub cs: int,
    pub lb: Option<int>,
    pub lines: Seq<(int, int)>,
}

/// One character more: when the line being filled, with the character,
/// is wider than `max_width` and holds more than one character, the line
/// ends at its last break opportunity (whitespace around it dropped) or
/// else before the character.
pub open spec fn text_step<M: Fn(&str) -> u32>(
    measure: &M,
    max_width: u32,
    s: Seq<char>,
    st: TextWrap,
    i: int,
) -> TextWrap {
    let e = i + 1;
    let st1 = if width_of(measure, s.subrange(st.cs, e)) > max_width && e - st.cs > 1 {
        let (le, ns) = match st.lb {
            Some(b) => (b - trail_ws(s, st.cs, b), b + lead_ws(s, b, e)),
            None => (e - 1, e - 1),
        };
        TextWrap {
            cs: ns,
            lb: if ns < e && is_break_spec(s[e - 1]) {
                Some(e)
            } else {
                None
            },
            lines: st.lines.push((st.cs, le)),
        }
    } else {
        st
    };
    if is_break_spec(s[i]) {
        TextWrap { lb: Some(e), ..st1 }
    } else {
        st1
    }
}

/// The state after the first `i` characters of `s`.
pub open spec fn text_run<M: Fn(&str) -> u32>(measure: &M, max_width: u32, s: Seq<char>, i: int) -> TextWrap
    decreases i,
{
    if i <= 0 {
        TextWrap { cs: 0, lb: None, lines: Seq::empty() }
    } else {
        text_step(measure, max_width, s, text_run(measure, max_width, s, i - 1), i - 1)
    }
}

/// The ranges of the lines a non-empty line of text wraps into.
pub open spec fn text_line_ranges<M: Fn(&str) -> u32>(measure: &M, max_width: u32, s: Seq<char>) -> Seq<(int, int)> {
    let st = text_run(measure, max_width, s, s.len() as int);
    if st.cs < s.len() {
        st.lines.push((st.cs, s.len() as int))
    } else {
        st.lines
    }
}

pub open spec fn ranges_text(s: Seq<char>, rs: Seq<(int, int)>) -> Seq<Seq<char>> {
    Seq::new(rs.len(), |i: int| s.subrange(rs[i].0, rs[i].1))
}

/// The lines one line of text wraps into; an empty line stays one.
pub open spec fn wrap_line_spec<M: Fn(&str) -> u32>(measure: &M, max_width: u32, raw: Seq<char>) -> Seq<Seq<char>> {
    if raw.len() == 0 {
        seq![Seq::<char>::empty()]
    } else {
        ranges_text(raw, text_line_ranges(measure, max_width, raw))
    }
}

/// The lines of `raws`, each wrapped, in order.
pub open spec fn wrap_lines_spec<M: Fn(&str) -> u32>(measure: &M, max_width: u32, raws: Seq<Seq<char>>) -> Seq<Seq<char>>
    decreases raws.len(),
{
    if raws.len() == 0 {
        Seq::empty()
    } else {
        wrap_lines_spec(measure, max_width, raws.drop_last()) + wrap_line_spec(measure, max_width, raws.last())
    }
}

/// What `wrap_text` gives: the wrapped lines of each line of `text`, or one
/// empty line when there are none.
pub open spec fn wrap_text_spec<M: Fn(&str) -> u32>(measure: &M, max_width: u32, text: Seq<char>) -> Seq<Seq<char>> {
    let ls = wrap_lines_spec(measure, max_width, text_lines(text));
    if ls.len() == 0 {
        seq![Seq::<char>::empty()]
    } else {
        ls
    }
}

pub open spec fn strings_view(v: Seq<String>) -> Seq<Seq<char>> {
    Seq::new(v.len(), |i: int| v[i]@)
}

proof fn lemma_strings_view_push(v: Seq<String>, x: String)
    ensures
        strings_view(v.push(x)) == strings_view(v).push(x@),
{
    assert(strings_view(v.push(x)) =~= strings_view(v).push(x@));
}

fn trailing_ws_chars(chars: &Vec<char>, cs: usize, b: usize) -> (n: usize)
    requires
        cs <= b <= chars@.len(),
    ensures
        n == trail_ws(chars@, cs as int, b as int),
        n <= b - cs,
    decreases b - cs,
{
    if b > cs && crate::text::is_whitespace(chars[b - 1]) {
        1 + trailing_ws_chars(chars, cs, b - 1)
    } else {
        0
    }
}

fn leading_ws_chars(chars: &Vec<char>, b: usize, e: usize) -> (n: usize)
    requires
        b <= e <= chars@.len(),
    ensures
        n == lead_ws(chars@, b as int, e as int),
        b + n <= e,
    decreases e - b,
{
    if b < e && crate::text::is_whitespace(chars[b]) {
        1 + leading_ws_chars(chars, b + 1, e)
    } else {
        0
    }
}

proof fn lemma_trail_bound(s: Seq<char>, cs: int, b: int)
    requires
        cs <= b,
    ensures
        0 <= trail_ws(s, cs, b) <= b - cs,
    decreases b - cs,
{
    if b > cs && is_ws(s[b - 1]) {
        lemma_trail_bound(s, cs, b - 1);
    }
}

/// The state of wrapping is always well placed.
proof fn lemma_text_run_bounds<M: Fn(&str) -> u32>(measure: &M, max_width: u32, s: Seq<char>, i: int)
    requires
        0 <= i <= s.len(),
    ensures
        0 <= text_run(measure, max_width, s, i).cs <= i,
        text_run(measure, max_width, s, i).lb matches Some(b) ==> text_run(measure, max_width, s, i).cs <= b <= i,
    decreases i,
{
    if i > 0 {
        lemma_text_run_bounds(measure, max_width, s, i - 1);
        let st = text_run(measure, max_width, s, i - 1);
        if let Some(b) = st.lb {
            lemma_trail_bound(s, st.cs, b);
            lemma_lead_bound(s, b, i);
        }
    }
}

proof fn lemma_lead_bound(s: Seq<char>, b: int, e: int)
    requires
        b <= e,
    ensures
        0 <= lead_ws(s, b, e) <= e - b,
    decreases e - b,
{
    if b < e && is_ws(s[b]) {
        lemma_lead_bound(s, b + 1, e);
    }
}

fn wrap_chars<M: Fn(&str) -> u32>(chars: &Vec<char>, max_width: u32, measure: &M, out: &mut Vec<String>)
    requires
        measure_fn(measure),
        chars@.len() > 0,
    ensures
        strings_view(final(out)@) == strings_view(old(out)@) + wrap_line_spec(measure, max_width, chars@),
{
    let ghost s = chars@;
    let ghost o0 = strings_view(out@);
    let n = chars.len();
    let mut cs: usize = 0;
    let mut last_break: Option<usize> = None;
    let mut i: usize = 0;
    while i < n
        invariant
            n == s.len(),
            s == chars@,
            measure_fn(measure),
            i <= n,
            cs as int == text_run(measure, max_width, s, i as int).cs,
            (match last_break { Some(b) => Some(b as int), None => None }) == text_run(measure, max_width, s, i as int).lb,
            strings_view(out@) == o0 + ranges_text(s, text_run(measure, max_width, s, i as int).lines),
        decreases n - i,
    {
        proof {
            lemma_text_run_bounds(measure, max_width, s, i as int);
        }
        let ghost st = text_run(measure, max_width, s, i as int);
        let ch = chars[i];
        let e = i + 1;
        let current_text = string_of(&chars.as_slice()[cs..e]);
        assert(current_text@ == s.subrange(cs as int, e as int));
        let current_width = measure_text(measure, current_text.as_str());
        if current_width > max_width && e - cs > 1 {
            let (line_end, next_start) = match last_break {
                Some(b) => {
                    let tr = trailing_ws_chars(chars, cs, b);
                    let ld = leading_ws_chars(chars, b, e);
                    proof {
                        lemma_trail_bound(s, cs as int, b as int);
                    }
                    (b - tr, b + ld)
                },
                None => (e - 1, e - 1),
            };
            let line = string_of(&chars.as_slice()[cs..line_end]);
            let ghost prev = out@;
            out.push(line);
            proof {
                lemma_strings_view_push(prev, line);
                assert(line@ == s.subrange(cs as int, line_end as int));
                assert(ranges_text(s, st.lines.push((cs as int, line_end as int))) =~= ranges_text(s, st.lines).push(line@));
            }
            cs = next_start;
            last_break = None;
            if cs < e && crate::render::is_break_char(chars[e - 1]) {
                last_break = Some(e);
            }
        }
        if crate::render::is_break_char(ch) {
            last_break = Some(e);
        }
        i = e;
    }
    if cs < n {
        let line = string_of(&chars.as_slice()[cs..n]);
        let ghost prev = out@;
        out.push(line);
        proof {
            lemma_strings_view_push(prev, line);
            let st = text_run(measure, max_width, s, n as int);
            assert(ranges_text(s, st.lines.push((cs as int, n as int))) =~= ranges_text(s, st.lines).push(line@));
        }
    }
}

/// Breaks plain `text` into lines no wider than `max_width`, as `measure`
/// gives the width of a piece of text: each line of the text on its own,
/// broken at the last break opportunity with the whitespace around the
/// break dropped, or else before the character that does not fit; a line
/// keeps at least one character. An empty text gives one empty line.
pub fn wrap_text<M: Fn(&str) -> u32>(text: &str, max_width: u32, measure: &M) -> (lines: Vec<String>)
    requires
        measure_fn(measure),
    ensures
        strings_view(lines@) == wrap_text_spec(measure, max_width, text@),
{
    let raws = split_text_lines(text);
    let ghost rv = raws@.map_values(|l: Vec<char>| l@);
    let mut lines: Vec<String> = Vec::new();
    let mut r: usize = 0;
    proof {
        assert(strings_view(lines@) =~= wrap_lines_spec(measure, max_width, rv.take(0)));
    }
    while r < raws.len()
        invariant
            rv == raws@.map_values(|l: Vec<char>| l@),
            rv == text_lines(text@),
            measure_fn(measure),
            r <= raws@.len(),
            strings_view(lines@) == wrap_lines_spec(measure, max_width, rv.take(r as int)),
        decreases raws@.len() - r,
    {
        let raw = &raws[r];
        assert(raw@ == rv[r as int]);
        proof {
            assert(rv.take(r + 1).drop_last() =~= rv.take(r as int));
            assert(rv.take(r + 1).last() == raw@);
        }
        if raw.len() == 0 {
            let ghost prev = lines@;
            let empty = String::new();
            let ghost ge = empty;
            lines.push(empty);
            proof {
                lemma_strings_view_push(prev, ge);
                assert(seq![Seq::<char>::empty()] =~= seq![ge@]);
                assert(strings_view(lines@) =~= wrap_lines_spec(measure, max_width, rv.take(r as int)) + seq![Seq::<char>::empty()]);
            }
        } else {
            wrap_chars(raw, max_width, measure, &mut lines);
        }
        r = r + 1;
    }
    proof {
        assert(rv.take(rv.len() as int) =~= rv);
    }
    if lines.len() == 0 {
        let ghost prev = lines@;
        let empty = String::new();
        let ghost ge = empty;
        lines.push(empty);
        proof {
            lemma_strings_view_push(prev, ge);
            assert(strings_view(lines@) =~= seq![Seq::<char>::empty()]);
        }
    } else {
        assert(strings_view(lines@).len() == lines@.len());
    }
    lines
}

/// What `truncate_text` gives from the `k`-th character on.
pub open spec fn trunc_from<M: Fn(&str) -> u32>(measure: &M, max_width: u32, t: Seq<char>, k: int) -> Seq<char>
    decreases t.len() - k,
{
    if k < 0 || k >= t.len() {
        t
    } else if width_of(measure, t.take(k + 1)) > max_width {
        let kept = t.take(k);
        if width_of(measure, kept) as int + width_of(measure, "..."@) as int <= max_width && k > 0 {
            kept + "..."@
        } else {
            kept
        }
    } else {
        trunc_from(measure, max_width, t, k + 1)
    }
}

/// `text` cut to fit: what `truncate_text` gives.
pub open spec fn truncate_spec<M: Fn(&str) -> u32>(measure: &M, max_width: u32, t: Seq<char>) -> Seq<char> {
    trunc_from(measure, max_width, t, 0)
}

/// `text` cut to fit `max_width`, as `measure` gives widths: characters are
/// kept while the text so far fits; at the first that does not, the text
/// stops before it and gets `"..."` when that still fits and something is
/// left.
pub fn truncate_text<M: Fn(&str) -> u32>(text: &str, max_width: u32, measure: &M) -> (r: String)
    requires
        measure_fn(measure),
    ensures
        r@ == truncate_spec(measure, max_width, text@),
{
    let chars = chars_of(text);
    let n = chars.len();
    let mut k: usize = 0;
    while k < n
        invariant
            chars@ == text@,
            n == chars@.len(),
            k <= n,
            measure_fn(measure),
            trunc_from(measure, max_width, text@, 0) == trunc_from(measure, max_width, text@, k as int),
        decreases n - k,
    {
        let out = string_of(&chars.as_slice()[0..k + 1]);
        assert(out@ =~= text@.take(k + 1));
        let width = measure_text(measure, out.as_str());
        if width > max_width {
            let kept = string_of(&chars.as_slice()[0..k]);
            assert(kept@ =~= text@.take(k as int));
            let ellipsis = measure_text(measure, "...");
            let base = measure_text(measure, kept.as_str());
            if (base as u64) + (ellipsis as u64) <= (max_width as u64) && k > 0 {
                let mut with_dots = kept;
                crate::text::push_seq(&mut with_dots, "...");
                return with_dots;
            }
            return kept;
        }
        k = k + 1;
    }
    let all = string_of(chars.as_slice());
    all
}

/// At most `max_lines` of `lines`: when there are more, the last one kept
/// gets `"..."` and is cut to fit.
pub open spec fn limit_spec<M: Fn(&str) -> u32>(measure: &M, max_width: u32, lines: Seq<Seq<char>>, max_lines: int) -> Seq<Seq<char>> {
    if lines.len() <= max_lines {
        lines
    } else if max_lines <= 0 {
        Seq::empty()
    } else {
        lines.take(max_lines - 1).push(truncate_spec(measure, max_width, lines[max_lines - 1] + "..."@))
    }
}

/// At most `max_lines` of `lines`: when there are more, the last one kept
/// gets `"..."` and is cut to fit as `truncate_text` cuts it.
pub fn limit_lines<M: Fn(&str) -> u32>(lines: Vec<String>, max_lines: usize, max_width: u32, measure: &M) -> (r: Vec<String>)
    requires
        measure_fn(measure),
    ensures
        strings_view(r@) == limit_spec(measure, max_width, strings_view(lines@), max_lines as int),
{
    if lines.len() <= max_lines {
        return lines;
    }
    let mut out: Vec<String> = Vec::new();
    let mut i: usize = 0;
    while i + 1 < max_lines
        invariant
            lines@.len() > max_lines,
            i <= max_lines,
            i + 1 <= max_lines || max_lines == 0,
            strings_view(out@) == strings_view(lines@).take(i as int),
        decreases max_lines - i,
    {
        let ghost prev = out@;
        let c = crate::text::owned(lines[i].as_str());
        out.push(c);
        proof {
            lemma_strings_view_push(prev, c);
            assert(strings_view(lines@).take(i + 1) =~= strings_view(lines@).take(i as int).push(lines@[i as int]@));
        }
        i = i + 1;
    }
    if max_lines > 0 {
        let mut padded = crate::text::owned(lines[max_lines - 1].as_str());
        crate::text::push_seq(&mut padded, "...");
        let last = truncate_text(padded.as_str(), max_width, measure);
        let ghost prev = out@;
        out.push(last);
        proof {
            lemma_strings_view_push(prev, last);
        }
    } else {
        assert(strings_view(out@) =~= Seq::<Seq<char>>::empty());
    }
    out
}

} // verus!
