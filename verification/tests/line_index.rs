use texlab::line_index::{char_utf16_width, LineIndex};
use texlab::syntax::offset::TextRange;
use texlab::syntax::text::{Position, Range};

#[test]
fn offsets_of_an_ascii_text() {
    let index = LineIndex::new("abc\ndef\n").unwrap();
    assert_eq!(index.position_to_offset(Position::new(0, 0)), Some(0));
    assert_eq!(index.position_to_offset(Position::new(0, 3)), Some(3));
    assert_eq!(index.position_to_offset(Position::new(1, 0)), Some(4));
    assert_eq!(index.position_to_offset(Position::new(1, 2)), Some(6));
    assert_eq!(index.position_to_offset(Position::new(2, 0)), Some(8));
    // past the end of a line, past the last line
    assert_eq!(index.position_to_offset(Position::new(0, 4)), None);
    assert_eq!(index.position_to_offset(Position::new(2, 1)), None);
    assert_eq!(index.position_to_offset(Position::new(3, 0)), None);
}

#[test]
fn positions_of_an_ascii_text() {
    let index = LineIndex::new("abc\ndef\n").unwrap();
    assert_eq!(index.offset_to_position(0), Some(Position::new(0, 0)));
    assert_eq!(index.offset_to_position(3), Some(Position::new(0, 3)));
    assert_eq!(index.offset_to_position(4), Some(Position::new(1, 0)));
    assert_eq!(index.offset_to_position(7), Some(Position::new(1, 3)));
    assert_eq!(index.offset_to_position(8), Some(Position::new(2, 0)));
    assert_eq!(index.offset_to_position(9), None);
}

#[test]
fn columns_count_utf16_units_and_offsets_count_bytes() {
    // a: 1 byte, 1 unit; é: 2 bytes, 1 unit; €: 3 bytes, 1 unit; 😀: 4 bytes, 2 units
    let index = LineIndex::new("aé€😀b\n😀").unwrap();
    assert_eq!(index.position_to_offset(Position::new(0, 1)), Some(1));
    assert_eq!(index.position_to_offset(Position::new(0, 2)), Some(3));
    assert_eq!(index.position_to_offset(Position::new(0, 3)), Some(6));
    assert_eq!(index.position_to_offset(Position::new(0, 5)), Some(10));
    assert_eq!(index.position_to_offset(Position::new(0, 6)), Some(11));
    assert_eq!(index.position_to_offset(Position::new(1, 0)), Some(12));
    assert_eq!(index.position_to_offset(Position::new(1, 2)), Some(16));
    // inside the surrogate pair
    assert_eq!(index.position_to_offset(Position::new(0, 4)), None);
    assert_eq!(index.position_to_offset(Position::new(1, 1)), None);
    assert_eq!(index.offset_to_position(10), Some(Position::new(0, 5)));
    assert_eq!(index.offset_to_position(16), Some(Position::new(1, 2)));
    // inside a character
    assert_eq!(index.offset_to_position(2), None);
    assert_eq!(index.offset_to_position(8), None);
    assert_eq!(index.offset_to_position(14), None);
}

#[test]
fn round_trip_over_every_boundary() {
    let text = "\\caf\u{e9} \u{1F600}\u{1F603}\n\n\u{20ac}x\r\n\u{10000}";
    let index = LineIndex::new(text).unwrap();
    let mut boundaries = 0;
    for offset in 0..=text.len() as u32 {
        match index.offset_to_position(offset) {
            Some(position) => {
                assert!(text.is_char_boundary(offset as usize));
                assert_eq!(index.position_to_offset(position), Some(offset));
                boundaries += 1;
            }
            None => assert!(!text.is_char_boundary(offset as usize)),
        }
    }
    assert_eq!(boundaries, text.chars().count() + 1);
    for line in 0..6 {
        for character in 0..12 {
            let position = Position::new(line, character);
            if let Some(offset) = index.position_to_offset(position) {
                assert_eq!(index.offset_to_position(offset), Some(position));
            }
        }
    }
}

#[test]
fn empty_text_has_one_boundary() {
    let index = LineIndex::new("").unwrap();
    assert_eq!(index.position_to_offset(Position::new(0, 0)), Some(0));
    assert_eq!(index.offset_to_position(0), Some(Position::new(0, 0)));
    assert_eq!(index.position_to_offset(Position::new(0, 1)), None);
    assert_eq!(index.offset_to_position(1), None);
}

#[test]
fn ranges_need_both_ends() {
    let index = LineIndex::new("ab\ncé").unwrap();
    assert_eq!(
        index.range_to_positions(TextRange::new(1, 4)),
        Some(Range::new(Position::new(0, 1), Position::new(1, 1)))
    );
    assert_eq!(index.range_to_positions(TextRange::new(1, 5)), None);
    assert_eq!(index.range_to_positions(TextRange::new(5, 6)), None);
    assert_eq!(index.range_to_positions(TextRange::new(6, 7)), None);
}

#[test]
fn utf16_widths() {
    assert_eq!(char_utf16_width('a'), 1);
    assert_eq!(char_utf16_width('\u{ffff}'), 1);
    assert_eq!(char_utf16_width('\u{10000}'), 2);
}

#[test]
fn positions_agree_with_a_count_of_lines_and_utf16_units() {
    let text = "a\u{e9}\n\u{1F600}b\n\n\u{20ac}\u{10000}c\nlast";
    let index = LineIndex::new(text).unwrap();
    for (offset, _) in text.char_indices().chain(std::iter::once((text.len(), ' '))) {
        let before = &text[..offset];
        let line = before.matches('\n').count() as u32;
        let start = before.rfind('\n').map_or(0, |at| at + 1);
        let character = before[start..].encode_utf16().count() as u32;
        assert_eq!(index.offset_to_position(offset as u32), Some(Position::new(line, character)));
        assert_eq!(index.position_to_offset(Position::new(line, character)), Some(offset as u32));
    }
}
