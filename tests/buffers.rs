use remacs_buffers::buffer_ref::{point_byte, point_min_byte};
use remacs_buffers::buffers::{Heap, LispBufferRef, LispCharTableRef, LispObject};
use remacs_buffers::text::BufferText;
use remacs_buffers::{BEG, BEG_BYTE};

fn heap_with(content: &[u8], multibyte: bool) -> Heap {
    let t = BufferText::new(&content.to_vec(), 0, 4, multibyte);
    Heap::new(LispObject::Str(1), t, multibyte)
}

#[test]
fn new_heap_has_one_current_buffer() {
    let h = heap_with(b"abc", false);
    let b = h.current;
    assert_eq!(b, LispBufferRef { id: 0 });
    assert!(b.is_live(&h));
    assert_eq!(b.name(&h), LispObject::Str(1));
    assert_eq!(b.as_lisp_obj(), LispObject::Buffer(b));
    assert_eq!(b.z(&h), 4);
    assert_eq!(b.z_byte(&h), 4);
    assert_eq!(b.beg(), BEG);
    assert_eq!(b.beg_byte(), BEG_BYTE);
    assert_eq!(point_byte(&h), 1);
    assert_eq!(point_min_byte(&h), 1);
    assert!(!b.is_read_only(&h));
    assert_eq!(b.overlays_before(&h), None);
    assert_eq!(b.overlays_after(&h), None);
}

#[test]
fn setting_positions() {
    let mut h = heap_with(b"abcdef", false);
    let b = h.current;
    b.set_zv_both(&mut h, 5, 5);
    b.set_pt_both(&mut h, 3, 3);
    b.set_begv_both(&mut h, 2, 2);
    assert_eq!(point_byte(&h), 3);
    assert_eq!(point_min_byte(&h), 2);
    assert_eq!(h.buffers[0].zv, 5);
    b.set_syntax_table(&mut h, LispCharTableRef { id: 9 });
    assert_eq!(h.buffers[0].syntax_table_, LispObject::CharTable(LispCharTableRef { id: 9 }));
}

#[test]
fn fetch_char_depends_on_multibyte() {
    let s = "é";
    let h = heap_with(s.as_bytes(), true);
    let b = h.current;
    assert!(b.multibyte_characters_enabled(&h));
    assert_eq!(b.fetch_char(&h, 1), 'é' as u32);
    let u = heap_with(s.as_bytes(), false);
    let c = u.current;
    assert!(!c.multibyte_characters_enabled(&u));
    assert_eq!(c.fetch_char(&u, 1), 0xC3);
    assert_eq!(c.fetch_byte(&u, 2), 0xA9);
    assert_eq!(c.buf_byte_address(&u, 2), 0xA9);
}

#[test]
fn handle_reads_gap_fields() {
    let t = BufferText::new(&b"hello".to_vec(), 2, 3, false);
    let h = Heap::new(LispObject::Str(1), t, false);
    let b = h.current;
    assert_eq!(b.gpt(&h), 3);
    assert_eq!(b.gpt_byte(&h), 3);
    assert_eq!(b.gap_position(&h), 3);
    assert_eq!(b.gap_size(&h), 3);
    assert_eq!(b.pos_within_range(&h, 2), 0);
    assert_eq!(b.pos_within_range(&h, 3), 3);
    assert_eq!(b.gap_start_addr(&h), 2);
    assert_eq!(b.gap_end_addr(&h), 5);
    assert_eq!(b.z_addr(&h), 8);
    assert_eq!(b.beg_addr(), 0);
    assert_eq!(b.byte_pos_addr(&h, 3), 2);
    assert_eq!(b.inc_pos(&h, 2), 3);
    assert_eq!(b.dec_pos(&h, 4), 3);
    assert_eq!(b.modifications(&h), 1);
    assert_eq!(b.modifications_since_save(&h), 1);
    assert_eq!(b.char_modifications(&h), 1);
}

#[test]
fn registered_slots_hold_local_flags() {
    let mut h = heap_with(b"x", false);
    let b = h.current;
    assert_eq!(h.register_per_buffer_slot(), Some(0));
    assert_eq!(h.register_per_buffer_slot(), Some(1));
    assert_eq!(h.last_per_buffer_idx, 2);
    assert!(!b.value_p(&h, 1));
    b.set_per_buffer_value_p(&mut h, 1, 1);
    assert!(b.value_p(&h, 1));
    assert!(!b.value_p(&h, 0));
    b.set_per_buffer_value_p(&mut h, 1, 0);
    assert!(!b.value_p(&h, 1));
}

#[test]
fn new_slot_starts_without_local_value() {
    let mut h = heap_with(b"x", false);
    let b = h.current;
    let t = BufferText::new(&b"y".to_vec(), 0, 1, false);
    let c = h.make_buffer(LispObject::Str(2), t, false);
    let s = h.register_per_buffer_slot().unwrap();
    assert!(!b.value_p(&h, s as isize));
    assert!(!c.value_p(&h, s as isize));
}

#[test]
fn slots_run_out() {
    let mut h = heap_with(b"x", false);
    let mut n = 0;
    while h.register_per_buffer_slot().is_some() {
        n += 1;
    }
    assert_eq!(n, remacs_buffers::buffers::MAX_PER_BUFFER_VARS);
    assert_eq!(h.register_per_buffer_slot(), None);
}

#[test]
fn as_live_and_getters() {
    let mut h = heap_with(b"x", false);
    let b = h.current;
    assert_eq!(b.as_live(&h), Some(b));
    h.buffers[0].name_ = LispObject::Nil;
    assert_eq!(b.as_live(&h), None);
    h.buffers[0].filename_ = LispObject::Str(4);
    h.buffers[0].file_truename_ = LispObject::Str(5);
    h.buffers[0].mark_ = LispObject::Marker(1);
    h.buffers[0].mark_active_ = LispObject::T;
    h.buffers[0].pt_marker_ = LispObject::Marker(2);
    h.buffers[0].begv_marker_ = LispObject::Marker(3);
    h.buffers[0].zv_marker_ = LispObject::Marker(4);
    assert_eq!(b.filename(&h), LispObject::Str(4));
    assert_eq!(b.truename(&h), LispObject::Str(5));
    assert_eq!(b.mark(&h), LispObject::Marker(1));
    assert_eq!(b.mark_active(&h), LispObject::T);
    assert_eq!(b.pt_marker(&h), LispObject::Marker(2));
    assert_eq!(b.begv_marker(&h), LispObject::Marker(3));
    assert_eq!(b.zv_marker(&h), LispObject::Marker(4));
    assert_eq!(b.case_fold_search(&h), LispObject::T);
    assert_eq!(b.base_buffer(&h), None);
}
