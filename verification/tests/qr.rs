use oqqwall::qr::{legacy_qr_colors, qr_mask_from_name};
use oqqwall::render::libqrencode_qr_demerit;

#[test]
fn mask_names_and_numbers() {
    assert_eq!(qr_mask_from_name("0"), Some(0));
    assert_eq!(qr_mask_from_name("checkerboard"), Some(0));
    assert_eq!(qr_mask_from_name("horizontal"), Some(1));
    assert_eq!(qr_mask_from_name("large_checkerboard"), Some(4));
    assert_eq!(qr_mask_from_name("7"), Some(7));
    assert_eq!(qr_mask_from_name("meadow"), Some(7));
    assert_eq!(qr_mask_from_name("8"), None);
    assert_eq!(qr_mask_from_name("Meadow"), None);
    assert_eq!(qr_mask_from_name(""), None);
}

#[test]
fn short_link_gives_a_version_one_symbol() {
    let (cells, width) = legacy_qr_colors("https://a.b", None).expect("fits");
    assert_eq!(width, 21);
    assert_eq!(cells.len(), 21 * 21);
    // The three finder patterns have dark corners.
    assert!(cells[0] && cells[20] && cells[20 * 21]);
}

#[test]
fn picked_mask_has_the_least_penalty() {
    let text = "https://qm.qq.com/q/abcdefghij";
    let (picked, width) = legacy_qr_colors(text, None).expect("fits");
    let scores: Vec<i32> = (0u8..8)
        .map(|m| {
            let (cells, w) = legacy_qr_colors(text, Some(m)).expect("fits");
            assert_eq!(w, width);
            libqrencode_qr_demerit(&cells, w)
        })
        .collect();
    let best = *scores.iter().min().unwrap();
    let first = scores.iter().position(|s| *s == best).unwrap();
    let (expected, _) = legacy_qr_colors(text, Some(first as u8)).unwrap();
    assert_eq!(picked, expected);
}

#[test]
fn masks_give_different_symbols() {
    let (a, _) = legacy_qr_colors("hello", Some(0)).unwrap();
    let (b, _) = legacy_qr_colors("hello", Some(1)).unwrap();
    assert_ne!(a, b);
}

#[test]
fn text_too_long_for_qr_gives_nothing() {
    let text = "x".repeat(5000);
    assert_eq!(legacy_qr_colors(&text, None), None);
    assert_eq!(legacy_qr_colors(&text, Some(3)), None);
}
