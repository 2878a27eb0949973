use oqqwall::inline::{parse_inline_atoms, EmojiTable};
use oqqwall::render::InlineAtom;

fn table() -> EmojiTable {
    EmojiTable::from_metadata(
        vec![("😀".to_string(), 10), ("ab".to_string(), 99), ("👍".to_string(), 11)],
        vec![
            ("👍🏻".to_string(), 20),
            ("1\u{FE0F}\u{20E3}".to_string(), 30),
            ("1\u{20E3}".to_string(), 31),
            ("x".to_string(), 40),
        ],
    )
    .unwrap()
}

#[test]
fn the_emoji_table_reads_its_metadata() {
    let t = table();
    assert!(t.is_emoji_char('😀'));
    assert!(!t.is_emoji_char('a'));
    assert_eq!(t.glyph_id_for_char('👍'), Some(11));
    assert_eq!(t.glyph_id_for_char('x'), None);
    let text: Vec<char> = "👍🏻!".chars().collect();
    assert_eq!(t.match_sequence(&text, 0), Some((20, 2)));
    assert_eq!(t.match_sequence(&text, 2), None);
    assert_eq!(t.match_sequence(&text, 9), None);
    let keycap: Vec<char> = "1\u{20E3}".chars().collect();
    assert_eq!(t.match_sequence(&keycap, 0), Some((30, 2)));
    assert!(EmojiTable::from_metadata(vec![("ab".to_string(), 1)], vec![]).is_none());
}

#[test]
fn lines_split_into_faces_emoji_and_characters() {
    let t = table();
    let atoms = parse_inline_atoms("a[face:12]b😀👍🏻1\u{20E3}\u{200D}", &t, true);
    assert_eq!(
        atoms,
        vec![
            InlineAtom::Char('a'),
            InlineAtom::Face("12".to_string()),
            InlineAtom::Char('b'),
            InlineAtom::Emoji(10),
            InlineAtom::Emoji(20),
            InlineAtom::Emoji(30),
        ]
    );
    assert_eq!(
        parse_inline_atoms("[[face:5]]x", &t, true),
        vec![InlineAtom::Face("5".to_string()), InlineAtom::Char('x')]
    );
    let plain = parse_inline_atoms("[face:1]", &t, false);
    assert_eq!(plain.len(), 8);
    assert_eq!(plain[0], InlineAtom::Char('['));
    let bad = parse_inline_atoms("[face:a]", &t, true);
    assert_eq!(bad[0], InlineAtom::Char('['));
    assert_eq!(bad.len(), 8);
    assert_eq!(parse_inline_atoms("👍", &t, true), vec![InlineAtom::Emoji(11)]);
}
