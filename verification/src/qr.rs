//! The QR codes drawn on cards: the symbol of a link at level L under each
//! of the eight masks, and the mask picked as libqrencode would pick it.
use vstd::prelude::*;

use qrcode::canvas::MaskPattern;
use qrcode::{Color, EcLevel};

use crate::text::same_text;
use crate::render::{best_mask_spec, libqrencode_best_qr_mask, vecs_bool_view};

verus! {

/// The cells (row by row, `true` for dark) and width of the QR symbol that
/// the `qrcode` crate draws for the bytes of `text` at error-correction level
/// L under mask `mask` (the QR numbering, 0 to 7); nothing when the text is
/// too long for a QR code.
pub uninterp spec fn qr_masked_symbol(text: Seq<char>, mask: u8) -> Option<(Seq<bool>, usize)>;

/// `qrcode::bits::encode_auto` at level L, `ec::construct_codewords`, a
/// `Canvas` with all functional patterns and the data drawn, `apply_mask`
/// with the mask of that number, and `into_colors`. The cells are named, not
/// stated. Whether the text fits, and the width (`4 * version + 17` for the
/// least version 1 to 40 that holds it), come before the mask is applied, so
/// they are the same under every mask; the canvas holds `width * width` cells.
#[verifier::external_body]
fn qr_symbol(text: &str, mask: u8) -> (r: Option<(Vec<bool>, usize)>)
    requires
        mask < 8,
    ensures
        match r {
            Some((cells, w)) => {
                &&& qr_masked_symbol(text@, mask) == Some((cells@, w))
                &&& 21 <= w <= 177
                &&& forall|m: u8|
                    m < 8 ==> (#[trigger] qr_masked_symbol(text@, m) matches Some((c, w2)) && w2 == w
                        && c.len() == w * w)
            },
            None => forall|m: u8| m < 8 ==> (#[trigger] qr_masked_symbol(text@, m)) is None,
        },
{
    let patterns = [MaskPattern::Checkerboard, MaskPattern::HorizontalLines, MaskPattern::VerticalLines, MaskPattern::DiagonalLines, MaskPattern::LargeCheckerboard, MaskPattern::Fields, MaskPattern::Diamonds, MaskPattern::Meadow];
    let bits = qrcode::bits::encode_auto(text.as_bytes(), EcLevel::L).ok()?;
    let version = bits.version();
    let (data, ec) = qrcode::ec::construct_codewords(&bits.into_bytes(), version, EcLevel::L).ok()?;
    let mut canvas = qrcode::canvas::Canvas::new(version, EcLevel::L);
    canvas.draw_all_functional_patterns();
    canvas.draw_data(&data, &ec);
    canvas.apply_mask(patterns[mask as usize]);
    let cells = canvas.into_colors().into_iter().map(|c| c == Color::Dark).collect();
    Some((cells, version.width() as usize))
}

/// The eight masked symbols of `text`, in mask order.
pub open spec fn qr_symbols_spec(text: Seq<char>) -> Seq<Seq<bool>> {
    Seq::new(8, |m: int| qr_masked_symbol(text, m as u8).unwrap().0)
}

/// The cells and width of the QR code of `text`: under the given mask, or
/// else under the mask with the least libqrencode penalty (the first of them
/// on a tie).
pub open spec fn legacy_qr_spec(text: Seq<char>, mask_override: Option<u8>) -> Option<(Seq<bool>, usize)> {
    match mask_override {
        Some(m) => qr_masked_symbol(text, m),
        None => match qr_masked_symbol(text, 0) {
            None => None,
            Some((_, w)) => Some((qr_symbols_spec(text)[choose|b: int| best_mask_spec(qr_symbols_spec(text), w as int, b)], w)),
        },
    }
}

/// A picked mask is the only one that `best_mask_spec` allows.
proof fn lemma_best_mask_unique(s: Seq<Seq<bool>>, w: int, a: int, b: int)
    requires
        best_mask_spec(s, w, a),
        best_mask_spec(s, w, b),
    ensures
        a == b,
{
    if a < b {
        assert(crate::render::qr_demerit_spec(s[b], w) < crate::render::qr_demerit_spec(s[a], w));
    } else if b < a {
        assert(crate::render::qr_demerit_spec(s[a], w) < crate::render::qr_demerit_spec(s[b], w));
    }
}

/// The dark cells and width of the QR code that a card shows for `text`:
/// under `mask_override` when one is given, else under the mask that
/// libqrencode's penalty prefers. Nothing when the text is too long for a QR
/// code.
pub fn legacy_qr_colors(text: &str, mask_override: Option<u8>) -> (r: Option<(Vec<bool>, usize)>)
    requires
        mask_override matches Some(m) ==> m < 8,
    ensures
        match r {
            Some((cells, w)) => legacy_qr_spec(text@, mask_override) == Some((cells@, w)),
            None => legacy_qr_spec(text@, mask_override) is None,
        },
{
    if let Some(m) = mask_override {
        return qr_symbol(text, m);
    }
    let first = qr_symbol(text, 0);
    let width = match first {
        None => return None,
        Some((_, w)) => w,
    };
    let mut masked: Vec<Vec<bool>> = Vec::new();
    let mut m: u8 = 0;
    while m < 8
        invariant
            m <= 8,
            21 <= width <= 177,
            masked@.len() == m,
            forall|k: u8| k < 8 ==> (#[trigger] qr_masked_symbol(text@, k) matches Some((c, w2)) && w2
                == width && c.len() == width * width),
            forall|j: int| 0 <= j < m ==> (#[trigger] masked@[j])@ == qr_symbols_spec(text@)[j],
        decreases 8 - m,
    {
        let sym = qr_symbol(text, m);
        match sym {
            Some((cells, _)) => {
                masked.push(cells);
            },
            None => {
                assert(qr_masked_symbol(text@, 0) is None);
                return None;
            },
        }
        m = m + 1;
    }
    let ghost syms = qr_symbols_spec(text@);
    proof {
        assert(vecs_bool_view(masked@) =~= syms) by {
            assert forall|j: int| 0 <= j < 8 implies vecs_bool_view(masked@)[j] == syms[j] by {
                assert(qr_masked_symbol(text@, j as u8) is Some);
            }
        }
        assert forall|j: int| 0 <= j < masked@.len() implies (#[trigger] masked@[j])@.len() == width * width by {
            assert(qr_masked_symbol(text@, j as u8) is Some);
        }
        assert(201 * width * width <= 2147483647) by (nonlinear_arith)
            requires
                width <= 177,
        ;
    }
    let best = libqrencode_best_qr_mask(&masked, width);
    proof {
        let c = choose|b: int| best_mask_spec(syms, width as int, b);
        assert(best_mask_spec(syms, width as int, best as int));
        lemma_best_mask_unique(syms, width as int, c, best as int);
    }
    Some((masked[best].clone(), width))
}

/// The mask that a name gives: its QR number or the name of its shape.
pub open spec fn qr_mask_name_spec(name: Seq<char>) -> Option<u8> {
    if name == "0"@ || name == "checkerboard"@ {
        Some(0u8)
    } else if name == "1"@ || name == "horizontal"@ {
        Some(1u8)
    } else if name == "2"@ || name == "vertical"@ {
        Some(2u8)
    } else if name == "3"@ || name == "diagonal"@ {
        Some(3u8)
    } else if name == "4"@ || name == "large_checkerboard"@ {
        Some(4u8)
    } else if name == "5"@ || name == "fields"@ {
        Some(5u8)
    } else if name == "6"@ || name == "diamonds"@ {
        Some(6u8)
    } else if name == "7"@ || name == "meadow"@ {
        Some(7u8)
    } else {
        None
    }
}

/// The mask that the setting which overrides the QR mask names, if any.
pub fn qr_mask_from_name(name: &str) -> (r: Option<u8>)
    ensures
        r == qr_mask_name_spec(name@),
        r matches Some(m) ==> m < 8,
{
    if same_text(name, "0") || same_text(name, "checkerboard") {
        return Some(0u8);
    }
    if same_text(name, "1") || same_text(name, "horizontal") {
        return Some(1u8);
    }
    if same_text(name, "2") || same_text(name, "vertical") {
        return Some(2u8);
    }
    if same_text(name, "3") || same_text(name, "diagonal") {
        return Some(3u8);
    }
    if same_text(name, "4") || same_text(name, "large_checkerboard") {
        return Some(4u8);
    }
    if same_text(name, "5") || same_text(name, "fields") {
        return Some(5u8);
    }
    if same_text(name, "6") || same_text(name, "diamonds") {
        return Some(6u8);
    }
    if same_text(name, "7") || same_text(name, "meadow") {
        return Some(7u8);
    }
    None
}

} // verus!
