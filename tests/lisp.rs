use remacs_buffers::buffer_ref::{fetch_buffer_markers, record_buffer_markers, MarkerUpdate};
use remacs_buffers::lisp::{buffer_local_value_lisp, QUNBOUND};
use remacs_buffers::lisp::{buffer_list, FrameBufferLists};
use remacs_buffers::buffers::{Marker, Heap, LispBufferRef, LispError, LispObject, LispOverlayRef, QBUFFERP, QOVERLAYP};
use remacs_buffers::lisp::{
    barf_if_buffer_read_only, buffer_base_buffer, buffer_chars_modified_tick, buffer_file_name,
    buffer_live_p, buffer_modified_p, buffer_modified_tick, buffer_name, current_buffer,
    delete_all_overlays_lisp, get_buffer, get_file_buffer, get_truename_buffer, nsberror,
    set_buffer, validate_region, LispBufferLocalValueRef, LispBufferOrCurrent, LispBufferOrName,
    QINTEGER_OR_MARKER_P, QSTRINGP,
};
use remacs_buffers::overlays::{add_overlay, build_overlay, overlay_lists};
use remacs_buffers::text::BufferText;

fn two_buffers() -> (Heap, LispBufferRef, LispBufferRef) {
    let t = BufferText::new(&b"abcdefgh".to_vec(), 3, 2, false);
    let mut h = Heap::new(LispObject::Str(1), t, false);
    let first = h.current;
    let u = BufferText::new(&b"xy".to_vec(), 0, 2, false);
    let second = h.make_buffer(LispObject::Str(2), u, false);
    (h, first, second)
}

#[test]
fn object_conversions() {
    let b = LispBufferRef { id: 0 };
    let o = LispOverlayRef { id: 3 };
    assert!(LispObject::Buffer(b).is_buffer());
    assert!(!LispObject::Nil.is_buffer());
    assert_eq!(LispObject::Buffer(b).as_buffer(), Some(b));
    assert_eq!(LispObject::Fixnum(1).as_buffer(), None);
    assert_eq!(LispObject::Buffer(b).as_buffer_or_error(), Ok(b));
    assert_eq!(LispObject::T.as_buffer_or_error(), Err(LispError::WrongType(QBUFFERP, LispObject::T)));
    assert!(LispObject::Overlay(o).is_overlay());
    assert!(!LispObject::Buffer(b).is_overlay());
    assert_eq!(LispObject::Overlay(o).as_overlay(), Some(o));
    assert_eq!(LispObject::Overlay(o).as_overlay_or_error(), Ok(o));
    assert_eq!(LispObject::Nil.as_overlay_or_error(), Err(LispError::WrongType(QOVERLAYP, LispObject::Nil)));
}

#[test]
fn nil_means_current_buffer() {
    let (mut h, first, second) = two_buffers();
    assert_eq!(LispObject::Nil.as_buffer_or_current_buffer(&h), Ok(first));
    assert_eq!(LispObject::Buffer(second).as_buffer_or_current_buffer(&h), Ok(second));
    assert_eq!(LispObject::Fixnum(2).as_buffer_or_current_buffer(&h), Err(LispError::WrongType(QBUFFERP, LispObject::Fixnum(2))));
    let cur = LispBufferOrCurrent::from_lisp(&h, LispObject::Nil).unwrap();
    assert_eq!(cur.unwrap(), first);
    assert_eq!(set_buffer(&mut h, LispBufferOrName::Buffer(LispObject::Buffer(second))), Ok(second));
    assert_eq!(current_buffer(&h), LispObject::Buffer(second));
    assert_eq!(LispBufferOrCurrent::from_lisp(&h, LispObject::Nil).unwrap().unwrap(), second);
}

#[test]
fn live_buffers() {
    let (mut h, first, second) = two_buffers();
    assert_eq!(LispObject::Buffer(first).as_live_buffer(&h), Some(first));
    h.buffers[1].name_ = LispObject::Nil;
    assert_eq!(LispObject::Buffer(second).as_live_buffer(&h), None);
    assert_eq!(LispObject::Nil.as_live_buffer(&h), None);
    assert!(buffer_live_p(&h, Some(first)));
    assert!(!buffer_live_p(&h, Some(second)));
    assert!(!buffer_live_p(&h, None));
}

#[test]
fn buffers_by_name() {
    let (h, first, second) = two_buffers();
    assert_eq!(get_buffer(&h, LispBufferOrName::Name(LispObject::Str(2))), Some(second));
    assert_eq!(get_buffer(&h, LispBufferOrName::Name(LispObject::Str(1))), Some(first));
    assert_eq!(get_buffer(&h, LispBufferOrName::Name(LispObject::Str(9))), None);
    assert_eq!(get_buffer(&h, LispBufferOrName::Buffer(LispObject::Buffer(second))), Some(second));
    assert_eq!(LispBufferOrName::Name(LispObject::Str(2)).as_buffer(&h), Some(second));
    assert_eq!(LispBufferOrName::Name(LispObject::Str(2)).as_buffer_or_current_buffer(&h), None);
    assert_eq!(LispBufferOrName::Buffer(LispObject::Nil).as_buffer_or_current_buffer(&h), Some(first));
    assert_eq!(LispBufferOrName::Buffer(LispObject::Buffer(second)).as_buffer_or_current_buffer(&h), Some(second));
}

#[test]
fn buffer_or_name_from_objects() {
    let b = LispObject::Buffer(LispBufferRef { id: 0 });
    assert_eq!(LispBufferOrName::from_lisp(LispObject::Str(4)), Ok(LispBufferOrName::Name(LispObject::Str(4))));
    assert_eq!(LispBufferOrName::from_lisp(b), Ok(LispBufferOrName::Buffer(b)));
    assert_eq!(LispBufferOrName::from_lisp(LispObject::T), Err(LispError::WrongType(QBUFFERP, LispObject::T)));
    assert_eq!(LispBufferOrName::from_optional(LispObject::Nil), None);
    assert_eq!(LispBufferOrName::from_optional(LispObject::Fixnum(1)), None);
    assert_eq!(LispBufferOrName::from_optional(b), Some(LispBufferOrName::Buffer(b)));
    assert_eq!(LispBufferOrName::Name(LispObject::Str(4)).to_lisp(), LispObject::Str(4));
}

#[test]
fn no_such_buffer_errors() {
    let (mut h, first, _) = two_buffers();
    assert_eq!(nsberror(LispObject::Str(7)), LispError::NoBufferNamed(LispObject::Str(7)));
    assert_eq!(nsberror(LispObject::Fixnum(7)), LispError::InvalidBufferArgument);
    assert_eq!(set_buffer(&mut h, LispBufferOrName::Name(LispObject::Str(7))), Err(LispError::NoBufferNamed(LispObject::Str(7))));
    assert_eq!(LispBufferOrName::Buffer(LispObject::T).to_buffer(&h), Err(LispError::InvalidBufferArgument));
    assert_eq!(h.current, first);
}

#[test]
fn selecting_killed_buffer_fails() {
    let (mut h, first, second) = two_buffers();
    h.buffers[1].name_ = LispObject::Nil;
    assert_eq!(set_buffer(&mut h, LispBufferOrName::Buffer(LispObject::Buffer(second))), Err(LispError::SelectingDeletedBuffer));
    assert_eq!(h.current, first);
    assert_eq!(set_buffer(&mut h, LispBufferOrName::Name(LispObject::Str(1))), Ok(first));
}

#[test]
fn buffer_primitives() {
    let (mut h, first, second) = two_buffers();
    let cur = LispBufferOrCurrent(first);
    assert_eq!(buffer_name(&h, cur), LispObject::Str(1));
    assert_eq!(buffer_name(&h, LispBufferOrCurrent(second)), LispObject::Str(2));
    assert_eq!(buffer_file_name(&h, cur), LispObject::Nil);
    assert!(!buffer_modified_p(&h, cur));
    h.buffers[0].text.modiff = 5;
    h.buffers[0].text.chars_modiff = 4;
    assert!(buffer_modified_p(&h, cur));
    assert_eq!(buffer_modified_tick(&h, cur), 5);
    assert_eq!(buffer_chars_modified_tick(&h, cur), 4);
    h.buffers[1].base_buffer = Some(first);
    assert_eq!(buffer_base_buffer(&h, LispBufferOrCurrent(second)), Some(first));
    assert_eq!(buffer_base_buffer(&h, cur), None);
}

#[test]
fn read_only_signal() {
    let (mut h, first, _) = two_buffers();
    assert_eq!(barf_if_buffer_read_only(&h, false, LispObject::Nil), Ok(()));
    h.buffers[0].read_only_ = LispObject::T;
    assert_eq!(barf_if_buffer_read_only(&h, false, LispObject::Nil), Err(LispError::BufferReadOnly(first)));
    assert_eq!(barf_if_buffer_read_only(&h, true, LispObject::Nil), Ok(()));
    assert_eq!(barf_if_buffer_read_only(&h, false, LispObject::T), Ok(()));
}

#[test]
fn region_is_ordered_and_checked() {
    let (h, _, _) = two_buffers();
    let mut b = LispObject::Fixnum(7);
    let mut e = LispObject::Fixnum(2);
    assert_eq!(validate_region(&h, &mut b, &mut e), Ok(()));
    assert_eq!((b, e), (LispObject::Fixnum(2), LispObject::Fixnum(7)));
    let mut b = LispObject::Fixnum(0);
    let mut e = LispObject::Fixnum(3);
    assert_eq!(validate_region(&h, &mut b, &mut e), Err(LispError::ArgsOutOfRange(LispObject::Fixnum(0), LispObject::Fixnum(3))));
    let mut b = LispObject::Fixnum(1);
    let mut e = LispObject::Fixnum(10);
    assert_eq!(validate_region(&h, &mut b, &mut e), Err(LispError::ArgsOutOfRange(LispObject::Fixnum(1), LispObject::Fixnum(10))));
    let mut b = LispObject::Fixnum(1);
    let mut e = LispObject::Fixnum(9);
    assert_eq!(validate_region(&h, &mut b, &mut e), Ok(()));
    let mut b = LispObject::Str(1);
    let mut e = LispObject::Fixnum(9);
    assert_eq!(validate_region(&h, &mut b, &mut e), Err(LispError::WrongType(QINTEGER_OR_MARKER_P, LispObject::Str(1))));
    assert_eq!(b, LispObject::Str(1));
}

#[test]
fn buffers_by_file() {
    let (mut h, first, second) = two_buffers();
    h.buffers[0].filename_ = LispObject::Str(20);
    h.buffers[1].filename_ = LispObject::Str(20);
    h.buffers[1].file_truename_ = LispObject::Str(21);
    assert_eq!(get_file_buffer(&h, LispObject::Str(20)), Ok(Some(first)));
    assert_eq!(get_file_buffer(&h, LispObject::Str(22)), Ok(None));
    assert_eq!(get_file_buffer(&h, LispObject::Fixnum(20)), Err(LispError::WrongType(QSTRINGP, LispObject::Fixnum(20))));
    assert_eq!(get_truename_buffer(&h, LispObject::Str(21)), LispObject::Buffer(second));
    assert_eq!(get_truename_buffer(&h, LispObject::Str(20)), LispObject::Nil);
    h.buffers[0].name_ = LispObject::Nil;
    assert_eq!(get_file_buffer(&h, LispObject::Str(20)), Ok(Some(second)));
}

#[test]
fn local_value_record() {
    let r = LispBufferLocalValueRef { fwd: 12, valcell: (LispObject::Symbol(1), LispObject::Fixnum(5)) };
    assert_eq!(r.get_fwd(), 12);
    assert_eq!(r.get_value(), LispObject::Fixnum(5));
}

#[test]
fn delete_all_through_buffer_argument() {
    let (mut h, first, _) = two_buffers();
    let o = build_overlay(&mut h, Marker { buffer: None, charpos: 1, bytepos: 1 }, Marker { buffer: None, charpos: 2, bytepos: 2 }, Vec::new());
    add_overlay(&mut h, first, o);
    assert_eq!(overlay_lists(&h), (vec![], vec![o]));
    delete_all_overlays_lisp(&mut h, LispBufferOrCurrent(first));
    assert_eq!(overlay_lists(&h), (vec![], vec![]));
}

#[test]
fn buffer_list_orders_frame_buffers() {
    let (mut h, first, second) = two_buffers();
    let t = BufferText::new(&b"z".to_vec(), 0, 1, false);
    let third = h.make_buffer(LispObject::Str(3), t, false);
    let (b1, b2, b3) = (LispObject::Buffer(first), LispObject::Buffer(second), LispObject::Buffer(third));
    assert_eq!(buffer_list(&h, None), vec![b1, b2, b3]);
    let f = FrameBufferLists { buffer_list: vec![b3], buried_buffer_list: vec![b1] };
    assert_eq!(buffer_list(&h, Some(&f)), vec![b3, b2, b1]);
    let g = FrameBufferLists { buffer_list: vec![], buried_buffer_list: vec![b2, b1] };
    assert_eq!(buffer_list(&h, Some(&g)), vec![b3, b1, b2]);
}

#[test]
fn unbound_variable_is_void() {
    let v = LispObject::Symbol(30);
    assert_eq!(buffer_local_value_lisp(v, LispObject::Fixnum(4)), Ok(LispObject::Fixnum(4)));
    assert_eq!(buffer_local_value_lisp(v, LispObject::Symbol(QUNBOUND)), Err(LispError::VoidVariable(v)));
}

#[test]
fn markers_record_and_fetch_point_and_region() {
    let (mut h, first, second) = two_buffers();
    assert_eq!(record_buffer_markers(&h, first), vec![]);
    fetch_buffer_markers(&mut h, first, (5, 5), (2, 2), (6, 6));
    assert_eq!(h.buffers[0].pt, 1);
    h.buffers[0].pt_marker_ = LispObject::Marker(1);
    h.buffers[0].begv_marker_ = LispObject::Marker(2);
    h.buffers[0].zv_marker_ = LispObject::Marker(3);
    first.set_zv_both(&mut h, 8, 8);
    first.set_pt_both(&mut h, 4, 4);
    let ups = record_buffer_markers(&h, first);
    assert_eq!(ups, vec![
        MarkerUpdate { marker: LispObject::Marker(1), buffer: first, charpos: 4, bytepos: 4 },
        MarkerUpdate { marker: LispObject::Marker(2), buffer: first, charpos: 1, bytepos: 1 },
        MarkerUpdate { marker: LispObject::Marker(3), buffer: first, charpos: 8, bytepos: 8 },
    ]);
    fetch_buffer_markers(&mut h, first, (5, 5), (2, 2), (6, 6));
    assert_eq!((h.buffers[0].pt, h.buffers[0].begv, h.buffers[0].zv), (5, 2, 6));
    assert_eq!((h.buffers[0].pt_byte, h.buffers[0].begv_byte, h.buffers[0].zv_byte), (5, 2, 6));
    assert_eq!(h.buffers[1].pt, second.beg());
}

#[test]
fn region_bounds_may_be_markers() {
    let (mut h, first, _) = two_buffers();
    let m7 = h.make_marker(Marker { buffer: Some(first), charpos: 7, bytepos: 7 });
    let m3 = h.make_marker(Marker { buffer: Some(first), charpos: 3, bytepos: 3 });
    let nowhere = h.make_marker(Marker { buffer: None, charpos: 2, bytepos: 2 });
    let mut b = m7;
    let mut e = m3;
    assert_eq!(validate_region(&h, &mut b, &mut e), Ok(()));
    assert_eq!((b, e), (LispObject::Fixnum(3), LispObject::Fixnum(7)));
    let mut b = LispObject::Fixnum(12);
    let mut e = m3;
    assert_eq!(validate_region(&h, &mut b, &mut e), Err(LispError::ArgsOutOfRange(LispObject::Fixnum(12), m3)));
    assert_eq!((b, e), (LispObject::Fixnum(3), LispObject::Fixnum(12)));
    let mut b = m7;
    let mut e = nowhere;
    assert_eq!(validate_region(&h, &mut b, &mut e), Err(LispError::MarkerDoesNotPointAnywhere(nowhere)));
    assert_eq!((b, e), (m7, nowhere));
}
