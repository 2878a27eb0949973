use oqqwall::inline::EmojiTable;
use oqqwall::wrap::{wrap_inline_text, InlineLine, InlineRun};

fn table() -> EmojiTable {
    EmojiTable::from_metadata(vec![("😀".to_string(), 10)], vec![]).unwrap()
}

/// Ten units per character.
fn measure(s: &str) -> u32 {
    10 * s.chars().count() as u32
}

fn texts(lines: &[InlineLine]) -> Vec<String> {
    lines
        .iter()
        .map(|l| {
            l.runs
                .iter()
                .map(|r| match r {
                    InlineRun::Text(t) => t.clone(),
                    InlineRun::Face { id } => format!("<face {id}>"),
                    InlineRun::Emoji { glyph_id } => format!("<emoji {glyph_id}>"),
                })
                .collect::<String>()
        })
        .collect()
}

#[test]
fn empty_text_is_one_empty_line() {
    let lines = wrap_inline_text("", 100, 20, &table(), &measure);
    assert_eq!(lines.len(), 1);
    assert!(lines[0].runs.is_empty());
    assert_eq!(lines[0].width, 0);
}

#[test]
fn short_lines_stay_whole_and_empty_lines_stay() {
    let lines = wrap_inline_text("ab\n\ncd\r\n", 100, 20, &table(), &measure);
    assert_eq!(texts(&lines), vec!["ab", "", "cd"]);
    assert_eq!(lines[0].width, 20);
}

#[test]
fn long_line_breaks_at_spaces_dropping_them() {
    let lines = wrap_inline_text("hello big world", 60, 20, &table(), &measure);
    assert_eq!(texts(&lines), vec!["hello", "big", "world"]);
    assert_eq!(lines[0].width, 50);
}

#[test]
fn unbreakable_run_is_cut_before_the_atom_that_does_not_fit() {
    let lines = wrap_inline_text("abcdefg", 30, 20, &table(), &measure);
    assert_eq!(texts(&lines), vec!["abc", "def", "g"]);
}

#[test]
fn faces_and_emoji_take_their_size() {
    let lines = wrap_inline_text("a[face:12]😀b", 1000, 20, &table(), &measure);
    assert_eq!(texts(&lines), vec!["a<face 12><emoji 10>b"]);
    assert_eq!(lines[0].width, 10 + 20 + 20 + 10);
    let narrow = wrap_inline_text("a[face:12]😀b", 30, 20, &table(), &measure);
    assert_eq!(texts(&narrow), vec!["a<face 12>", "<emoji 10>b"]);
}

#[test]
fn plain_text_wraps_at_spaces() {
    let lines = oqqwall::wrap::wrap_text("aa bb cc", 50, &measure);
    assert_eq!(lines, vec!["aa", "bb cc"]);
    let lines = oqqwall::wrap::wrap_text("aa bb cc", 60, &measure);
    assert_eq!(lines, vec!["aa bb", "cc"]);
    let lines = oqqwall::wrap::wrap_text("", 50, &measure);
    assert_eq!(lines, vec![""]);
    let lines = oqqwall::wrap::wrap_text("abcdef", 30, &measure);
    assert_eq!(lines, vec!["abc", "def"]);
}

/// Ten units per letter, two per dot.
fn narrow_dots(s: &str) -> u32 {
    s.chars().map(|c| if c == '.' { 2 } else { 10 }).sum()
}

#[test]
fn truncation_adds_dots_when_they_fit() {
    assert_eq!(oqqwall::wrap::truncate_text("abcdefgh", 69, &narrow_dots), "abcdef...");
    assert_eq!(oqqwall::wrap::truncate_text("abcdefgh", 65, &narrow_dots), "abcdef");
    assert_eq!(oqqwall::wrap::truncate_text("abc", 60, &narrow_dots), "abc");
    assert_eq!(oqqwall::wrap::truncate_text("abcdefgh", 20, &measure), "ab");
    assert_eq!(oqqwall::wrap::truncate_text("", 20, &measure), "");
}

#[test]
fn limiting_lines_marks_the_cut() {
    let lines = vec!["one".to_string(), "two".to_string(), "three".to_string()];
    assert_eq!(oqqwall::wrap::limit_lines(lines.clone(), 3, 100, &narrow_dots), lines);
    assert_eq!(oqqwall::wrap::limit_lines(lines.clone(), 2, 100, &narrow_dots), vec!["one", "two..."]);
    assert_eq!(oqqwall::wrap::limit_lines(lines.clone(), 2, 26, &narrow_dots), vec!["one", "tw..."]);
    assert_eq!(oqqwall::wrap::limit_lines(lines.clone(), 2, 25, &narrow_dots), vec!["one", "tw"]);
    assert!(oqqwall::wrap::limit_lines(lines, 0, 50, &narrow_dots).is_empty());
}
