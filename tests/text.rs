use remacs_buffers::text::BufferText;

fn text(content: &[u8], gap_at: usize, gap_size: usize, multibyte: bool) -> BufferText {
    BufferText::new(&content.to_vec(), gap_at, gap_size, multibyte)
}

#[test]
fn gap_offset_is_gap_size_from_the_gap_on() {
    let t = text(b"hello", 2, 3, false);
    assert_eq!(t.gpt_byte, 3);
    assert_eq!(t.pos_within_range(1), 0);
    assert_eq!(t.pos_within_range(2), 0);
    assert_eq!(t.pos_within_range(3), 3);
    assert_eq!(t.pos_within_range(6), 3);
}

#[test]
fn fetch_byte_skips_the_gap() {
    let t = text(b"hello", 2, 3, false);
    let got: Vec<u8> = (1..6).map(|p| t.fetch_byte(p)).collect();
    assert_eq!(got, b"hello".to_vec());
    assert_eq!(t.fetch_byte(6), 0);
    assert_eq!(t.beg.len(), 5 + 3 + 1);
}

#[test]
fn gap_addresses() {
    let t = text(b"hello", 2, 3, false);
    assert_eq!(t.gap_start_addr(), 2);
    assert_eq!(t.gap_end_addr(), 5);
    assert_eq!(t.z_addr(), 8);
    assert_eq!(t.byte_pos_addr(4), 3);
}

#[test]
fn char_counts_of_new_text() {
    let t = text("aé€b".as_bytes(), 3, 4, true);
    assert_eq!(t.z_byte, 8);
    assert_eq!(t.z, 5);
    assert_eq!(t.gpt_byte, 4);
    assert_eq!(t.gpt, 3);
    let u = text("aé€b".as_bytes(), 3, 4, false);
    assert_eq!(u.z, 8);
    assert_eq!(u.gpt, 4);
}

#[test]
fn single_byte_boundaries() {
    let t = text(b"abc", 0, 2, false);
    assert_eq!(t.inc_pos(1), 2);
    assert_eq!(t.dec_pos(2), 1);
    assert_eq!(t.inc_pos(3), 4);
    assert_eq!(t.dec_pos(4), 3);
}

#[test]
fn three_byte_character_at_five() {
    let mut content = b"abcd".to_vec();
    content.extend_from_slice(&[0xE2, 0x82, 0xAC]);
    content.push(b'z');
    for gap_at in [0usize, 4, 8] {
        let t = BufferText::new(&content, gap_at, 5, true);
        assert_eq!(t.fetch_multibyte_char(5), 0x20AC);
        assert_eq!(t.inc_pos(5), 8);
        assert_eq!(t.dec_pos(8), 5);
        assert_eq!(t.fetch_multibyte_char(8), u32::from(b'z'));
    }
}

#[test]
fn decoding_each_width() {
    let s = "aé€😀";
    let t = text(s.as_bytes(), 1, 2, true);
    assert_eq!(t.fetch_multibyte_char(1), 'a' as u32);
    assert_eq!(t.fetch_multibyte_char(2), 'é' as u32);
    assert_eq!(t.fetch_multibyte_char(4), '€' as u32);
    assert_eq!(t.fetch_multibyte_char(7), '😀' as u32);
}

#[test]
fn broken_form_reads_one_byte() {
    let t = text(&[0xE2, b'a', b'b'], 0, 1, true);
    assert_eq!(t.fetch_multibyte_char(1), 0xE2);
    let short = text(&[b'a', 0xE2, 0x82], 0, 1, true);
    assert_eq!(short.fetch_multibyte_char(2), 0xE2);
}

#[test]
fn prev_then_next_returns_to_each_boundary() {
    let s = "aé€😀b";
    let bytes = s.as_bytes();
    let boundaries: Vec<isize> = s.char_indices().map(|(i, _)| i as isize + 1).chain([bytes.len() as isize + 1]).collect();
    for gap_at in [0usize, 1, 3, 6, 10] {
        let t = text(bytes, gap_at, 3, true);
        for &b in boundaries.iter().filter(|&&b| b > 1) {
            assert_eq!(t.inc_pos(t.dec_pos(b)), b);
        }
    }
}

#[test]
fn backward_scan_stays_within_a_character() {
    let s = "😀😀";
    let t = text(s.as_bytes(), 4, 2, true);
    for b in 2..=9isize {
        let p = t.dec_pos(b);
        assert!((b - 1) - p <= 3);
    }
    assert_eq!(t.dec_pos(9), 5);
    assert_eq!(t.dec_pos(5), 1);
    assert_eq!(t.dec_pos(8), 5);
}

#[test]
fn backward_scan_stops_at_the_beginning() {
    let t = text(&[0x80, 0x80, 0x80], 0, 1, true);
    assert_eq!(t.dec_pos(4), 1);
}

#[test]
fn empty_text_reads_the_guard_byte() {
    let t = text(b"", 0, 0, true);
    assert_eq!(t.z_byte, 1);
    assert_eq!(t.z, 1);
    assert_eq!(t.fetch_byte(1), 0);
    assert_eq!(t.inc_pos(1), 2);
    assert_eq!(t.beg.len(), 1);
}

#[test]
fn scanning_across_the_gap() {
    let s = "é€";
    let t = text(s.as_bytes(), 2, 6, true);
    assert_eq!(t.dec_pos(3), 1);
    assert_eq!(t.inc_pos(1), 3);
    assert_eq!(t.dec_pos(6), 3);
    assert_eq!(t.fetch_multibyte_char(3), '€' as u32);
}

#[test]
fn continuation_byte_start_reads_one_byte() {
    let t = text(&[0x80, 0x80], 0, 1, true);
    assert_eq!(t.fetch_multibyte_char(1), 0x80);
    let u = text(&[b'a', 0xA9, 0x82, 0x82], 2, 3, true);
    assert_eq!(u.fetch_multibyte_char(2), 0xA9);
    assert_eq!(u.fetch_multibyte_char(3), 0x82);
}
