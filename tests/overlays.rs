use remacs_buffers::buffers::{
    Heap, LispError, LispObject, LispOverlayRef, Marker, QAFTER_STRING, QBEFORE_STRING, QOVERLAYP,
};
use remacs_buffers::overlays::{
    add_overlay, build_overlay, delete_all_overlays, delete_overlay, overlay_buffer, overlay_end,
    overlay_get, overlay_lists, overlay_properties, overlay_start, overlayp,
};
use remacs_buffers::text::BufferText;

fn heap() -> Heap {
    let t = BufferText::new(&b"abcdef".to_vec(), 0, 4, false);
    Heap::new(LispObject::Str(1), t, false)
}

fn marker(pos: isize) -> Marker {
    Marker { buffer: None, charpos: pos, bytepos: pos }
}

fn insert(h: &mut Heap, start: isize, end: isize, plist: Vec<(LispObject, LispObject)>) -> LispOverlayRef {
    let o = build_overlay(h, marker(start), marker(end), plist);
    let b = h.current;
    add_overlay(h, b, o);
    o
}

#[test]
fn remove_first_of_two_overlays() {
    let mut h = heap();
    let a = insert(&mut h, 1, 3, Vec::new());
    let b = insert(&mut h, 2, 4, Vec::new());
    assert_eq!(overlay_lists(&h), (vec![], vec![a, b]));
    assert_eq!(delete_overlay(&mut h, a.as_lisp_obj()), Ok(()));
    assert_eq!(overlay_lists(&h), (vec![], vec![b]));
}

#[test]
fn deleted_overlay_is_gone_and_second_delete_is_noop() {
    let mut h = heap();
    let a = insert(&mut h, 1, 3, Vec::new());
    let b = insert(&mut h, 2, 4, Vec::new());
    let c = insert(&mut h, 3, 5, Vec::new());
    let moved = h.buffers[0].overlays_after.remove(0);
    h.buffers[0].overlays_before.push(moved);
    assert_eq!(overlay_lists(&h), (vec![a], vec![b, c]));
    assert_eq!(delete_overlay(&mut h, b.as_lisp_obj()), Ok(()));
    assert_eq!(overlay_lists(&h), (vec![a], vec![c]));
    assert_eq!(overlay_buffer(&h, b), None);
    assert_eq!(overlay_start(&h, b), None);
    assert_eq!(overlay_end(&h, b), None);
    assert_eq!(delete_overlay(&mut h, b.as_lisp_obj()), Ok(()));
    assert_eq!(overlay_lists(&h), (vec![a], vec![c]));
    assert_eq!(delete_overlay(&mut h, a.as_lisp_obj()), Ok(()));
    assert_eq!(overlay_lists(&h), (vec![], vec![c]));
}

#[test]
fn delete_overlay_rejects_other_objects() {
    let mut h = heap();
    let v = LispObject::Fixnum(3);
    assert_eq!(delete_overlay(&mut h, v), Err(LispError::WrongType(QOVERLAYP, v)));
}

#[test]
fn display_strings_turn_off_redisplay_shortcuts() {
    let mut h = heap();
    let plain = insert(&mut h, 1, 2, vec![(LispObject::Symbol(40), LispObject::T)]);
    let shown = insert(&mut h, 2, 3, vec![(LispObject::Symbol(QAFTER_STRING), LispObject::Str(8))]);
    assert_eq!(delete_overlay(&mut h, plain.as_lisp_obj()), Ok(()));
    assert!(!h.buffers[0].prevent_redisplay_optimizations_p);
    assert_eq!(delete_overlay(&mut h, shown.as_lisp_obj()), Ok(()));
    assert!(h.buffers[0].prevent_redisplay_optimizations_p);
}

#[test]
fn before_string_also_counts() {
    let mut h = heap();
    let o = insert(&mut h, 1, 2, vec![(LispObject::Symbol(QBEFORE_STRING), LispObject::Str(3))]);
    assert_eq!(delete_overlay(&mut h, o.as_lisp_obj()), Ok(()));
    assert!(h.buffers[0].prevent_redisplay_optimizations_p);
}

#[test]
fn delete_all_empties_both_lists() {
    let mut h = heap();
    let a = insert(&mut h, 1, 3, Vec::new());
    let b = insert(&mut h, 2, 4, Vec::new());
    let moved = h.buffers[0].overlays_after.remove(0);
    h.buffers[0].overlays_before.push(moved);
    let cur = h.current;
    delete_all_overlays(&mut h, cur);
    assert_eq!(overlay_lists(&h), (vec![], vec![]));
    assert_eq!(overlay_buffer(&h, a), None);
    assert_eq!(overlay_buffer(&h, b), None);
    delete_all_overlays(&mut h, cur);
    assert_eq!(overlay_lists(&h), (vec![], vec![]));
}

#[test]
fn delete_all_leaves_other_buffers_alone() {
    let mut h = heap();
    let t = BufferText::new(&b"xyz".to_vec(), 1, 2, false);
    let other = h.make_buffer(LispObject::Str(2), t, false);
    let o = build_overlay(&mut h, marker(1), marker(2), Vec::new());
    add_overlay(&mut h, other, o);
    let cur = h.current;
    delete_all_overlays(&mut h, cur);
    assert_eq!(overlay_buffer(&h, o), Some(other));
    assert_eq!(other.overlays_after(&h), Some(o));
}

#[test]
fn iteration_follows_the_list_from_an_overlay() {
    let mut h = heap();
    let a = insert(&mut h, 1, 2, Vec::new());
    let b = insert(&mut h, 2, 3, Vec::new());
    let c = insert(&mut h, 3, 4, Vec::new());
    let mut it = b.iter(&h);
    assert_eq!(it.next(), Some(b));
    assert_eq!(it.next(), Some(c));
    assert_eq!(it.next(), None);
    assert_eq!(it.next(), None);
    let mut all = a.iter(&h);
    assert_eq!(all.next(), Some(a));
    let lone = build_overlay(&mut h, marker(1), marker(1), Vec::new());
    let mut one = lone.iter(&h);
    assert_eq!(one.next(), Some(lone));
    assert_eq!(one.next(), None);
}

#[test]
fn overlay_accessors() {
    let mut h = heap();
    let plist = vec![(LispObject::Symbol(7), LispObject::Fixnum(1)), (LispObject::Symbol(7), LispObject::Fixnum(2))];
    let o = insert(&mut h, 2, 5, plist.clone());
    assert!(overlayp(o.as_lisp_obj()));
    assert!(!overlayp(LispObject::Nil));
    assert_eq!(overlay_start(&h, o), Some(2));
    assert_eq!(overlay_end(&h, o), Some(5));
    assert_eq!(overlay_buffer(&h, o), Some(h.current));
    assert_eq!(overlay_properties(&h, o), plist);
    assert_eq!(overlay_get(&h, o, LispObject::Symbol(7)), LispObject::Fixnum(1));
    assert_eq!(overlay_get(&h, o, LispObject::Symbol(8)), LispObject::Nil);
}

#[test]
fn list_heads_and_walk_in_before_list() {
    let mut h = heap();
    let a = insert(&mut h, 1, 2, Vec::new());
    let b = insert(&mut h, 2, 3, Vec::new());
    let cur = h.current;
    assert_eq!(cur.overlays_after(&h), Some(a));
    let first = h.buffers[0].overlays_after.remove(0);
    h.buffers[0].overlays_before.push(first);
    let second = h.buffers[0].overlays_after.remove(0);
    h.buffers[0].overlays_before.push(second);
    assert_eq!(cur.overlays_before(&h), Some(a));
    assert_eq!(cur.overlays_after(&h), None);
    let mut it = a.iter(&h);
    assert_eq!(it.next(), Some(a));
    assert_eq!(it.next(), Some(b));
    assert_eq!(it.next(), None);
}

#[test]
fn overlay_built_on_markers_into_a_buffer() {
    let mut h = heap();
    let cur = h.current;
    let start = Marker { buffer: Some(cur), charpos: 2, bytepos: 2 };
    let end = Marker { buffer: Some(cur), charpos: 4, bytepos: 4 };
    let o = build_overlay(&mut h, start, end, Vec::new());
    assert_eq!(overlay_buffer(&h, o), Some(cur));
    assert_eq!(overlay_start(&h, o), Some(2));
    assert_eq!(overlay_lists(&h), (vec![], vec![]));
    let mut it = o.iter(&h);
    assert_eq!(it.next(), Some(o));
    assert_eq!(it.next(), None);
    add_overlay(&mut h, cur, o);
    assert_eq!(overlay_lists(&h), (vec![], vec![o]));
    assert_eq!(delete_overlay(&mut h, o.as_lisp_obj()), Ok(()));
    assert_eq!(overlay_lists(&h), (vec![], vec![]));
    assert_eq!(overlay_buffer(&h, o), None);
}
