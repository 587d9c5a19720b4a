//! The overlay index: each buffer's before-center and after-center lists,
//! walking them, and taking overlays out of them.
use vstd::prelude::*;
use vstd::seq_lib::lemma_no_dup_in_concat;

use crate::buffers::{
    Buffer, Heap, LispBufferRef, LispError, LispObject, LispOverlayRef, Marker, Overlay,
    QAFTER_STRING, QBEFORE_STRING, QOVERLAYP,
};

verus! {

/// `s` with every occurrence of `o` taken out, the rest in order.
pub open spec fn without(s: Seq<LispOverlayRef>, o: LispOverlayRef) -> Seq<LispOverlayRef>
    decreases s.len(),
{
    if s.len() == 0 {
        s
    } else if s.last() == o {
        without(s.drop_last(), o)
    } else {
        without(s.drop_last(), o).push(s.last())
    }
}

proof fn lemma_without_contains(s: Seq<LispOverlayRef>, o: LispOverlayRef, x: LispOverlayRef)
    ensures
        without(s, o).contains(x) <==> (s.contains(x) && x != o),
    decreases s.len(),
{
    if s.len() > 0 {
        lemma_without_contains(s.drop_last(), o, x);
        assert(s == s.drop_last().push(s.last()));
        if s.contains(x) && x != o && x != s.last() {
            let i = choose|i: int| 0 <= i < s.len() && s[i] == x;
            assert(s.drop_last()[i] == x);
        }
        if without(s.drop_last(), o).contains(x) {
            let i = choose|i: int| 0 <= i < without(s.drop_last(), o).len() && without(s.drop_last(), o)[i] == x;
            if s.last() != o {
                assert(without(s, o)[i] == x);
            }
        }
        if s.drop_last().contains(x) {
            let i = choose|i: int| 0 <= i < s.drop_last().len() && s.drop_last()[i] == x;
            assert(s[i] == x);
        }
        if s.last() != o && x == s.last() {
            assert(without(s, o)[without(s, o).len() - 1] == x);
        }
    }
}

proof fn lemma_without_no_duplicates(s: Seq<LispOverlayRef>, o: LispOverlayRef)
    requires
        s.no_duplicates(),
    ensures
        without(s, o).no_duplicates(),
    decreases s.len(),
{
    if s.len() > 0 {
        let t = s.drop_last();
        assert(t.no_duplicates()) by {
            assert forall|i: int, j: int| 0 <= i < t.len() && 0 <= j < t.len() && i != j implies t[i] != t[j] by {
                assert(s[i] == t[i] && s[j] == t[j]);
            }
        }
        lemma_without_no_duplicates(t, o);
        if s.last() != o {
            lemma_without_contains(t, o, s.last());
            assert(!t.contains(s.last())) by {
                if t.contains(s.last()) {
                    let i = choose|i: int| 0 <= i < t.len() && t[i] == s.last();
                    assert(s[i] == s[s.len() - 1]);
                }
            }
            let w = without(t, o);
            assert forall|i: int, j: int|
                0 <= i < w.push(s.last()).len() && 0 <= j < w.push(s.last()).len() && i != j
                implies w.push(s.last())[i] != w.push(s.last())[j] by {
                if i == w.len() {
                    assert(w.contains(w[j]));
                } else if j == w.len() {
                    assert(w.contains(w[i]));
                }
            }
        }
    }
}

/// A copy of `v` without `o`.
fn copy_without(v: &Vec<LispOverlayRef>, o: LispOverlayRef) -> (r: Vec<LispOverlayRef>)
    ensures
        r@ == without(v@, o),
{
    let mut r: Vec<LispOverlayRef> = Vec::new();
    let mut i: usize = 0;
    while i < v.len()
        invariant
            i <= v@.len(),
            r@ == without(v@.subrange(0, i as int), o),
        decreases v@.len() - i,
    {
        proof {
            assert(v@.subrange(0, i + 1).drop_last() == v@.subrange(0, i as int));
        }
        if v[i] != o {
            r.push(v[i]);
        }
        i = i + 1;
    }
    proof {
        assert(v@.subrange(0, v@.len() as int) == v@);
    }
    r
}

/// The index of the first occurrence of `o` in `v`, if any.
fn position_of(v: &Vec<LispOverlayRef>, o: LispOverlayRef) -> (r: Option<usize>)
    ensures
        r.is_none() <==> !v@.contains(o),
        r.is_some() ==> r.unwrap() < v@.len() && v@[r.unwrap() as int] == o,
        r.is_some() ==> forall|j: int| 0 <= j < r.unwrap() ==> v@[j] != o,
{
    let mut i: usize = 0;
    while i < v.len()
        invariant
            i <= v@.len(),
            forall|j: int| 0 <= j < i ==> v@[j] != o,
        decreases v@.len() - i,
    {
        if v[i] == o {
            return Some(i);
        }
        i = i + 1;
    }
    None
}

proof fn lemma_concat_contains(a: Seq<LispOverlayRef>, b: Seq<LispOverlayRef>, x: LispOverlayRef)
    ensures
        (a + b).contains(x) <==> (a.contains(x) || b.contains(x)),
{
    if (a + b).contains(x) {
        let i = choose|i: int| 0 <= i < (a + b).len() && (a + b)[i] == x;
        if i < a.len() {
            assert(a[i] == x);
        } else {
            assert(b[i - a.len()] == x);
        }
    }
    if a.contains(x) {
        let i = choose|i: int| 0 <= i < a.len() && a[i] == x;
        assert((a + b)[i] == x);
    }
    if b.contains(x) {
        let i = choose|i: int| 0 <= i < b.len() && b[i] == x;
        assert((a + b)[a.len() + i] == x);
    }
}

/// Taking `o` out of both lists of a duplicate-free pair leaves a
/// duplicate-free pair without `o`, holding the rest.
proof fn lemma_without_pair(a: Seq<LispOverlayRef>, b: Seq<LispOverlayRef>, o: LispOverlayRef)
    requires
        (a + b).no_duplicates(),
    ensures
        (without(a, o) + without(b, o)).no_duplicates(),
        forall|x: LispOverlayRef|
            (#[trigger] (without(a, o) + without(b, o)).contains(x)) <==> ((a + b).contains(x)
                && x != o),
{
    assert(a.no_duplicates()) by {
        assert forall|i: int, j: int| 0 <= i < a.len() && 0 <= j < a.len() && i != j implies a[i]
            != a[j] by {
            assert((a + b)[i] == a[i] && (a + b)[j] == a[j]);
        }
    }
    assert(b.no_duplicates()) by {
        assert forall|i: int, j: int| 0 <= i < b.len() && 0 <= j < b.len() && i != j implies b[i]
            != b[j] by {
            assert((a + b)[a.len() + i] == b[i] && (a + b)[a.len() + j] == b[j]);
        }
    }
    lemma_without_no_duplicates(a, o);
    lemma_without_no_duplicates(b, o);
    let wa = without(a, o);
    let wb = without(b, o);
    assert forall|i: int, j: int| 0 <= i < wa.len() && 0 <= j < wb.len() implies wa[i] != wb[j] by {
        assert(wa.contains(wa[i]));
        assert(wb.contains(wb[j]));
        lemma_without_contains(a, o, wa[i]);
        lemma_without_contains(b, o, wb[j]);
        if wa[i] == wb[j] {
            let k = choose|k: int| 0 <= k < a.len() && a[k] == wa[i];
            let l = choose|l: int| 0 <= l < b.len() && b[l] == wb[j];
            assert((a + b)[k] == (a + b)[a.len() + l]);
        }
    }
    lemma_no_dup_in_concat(wa, wb);
    assert forall|x: LispOverlayRef|
        (#[trigger] (wa + wb).contains(x)) <==> ((a + b).contains(x) && x != o) by {
        lemma_concat_contains(wa, wb, x);
        lemma_concat_contains(a, b, x);
        lemma_without_contains(a, o, x);
        lemma_without_contains(b, o, x);
    }
}

/// The value of property `prop` in `plist`: that of its first entry with
/// that key, nil if there is none.
pub open spec fn plist_get(plist: Seq<(LispObject, LispObject)>, prop: LispObject) -> LispObject
    decreases plist.len(),
{
    if plist.len() == 0 {
        LispObject::Nil
    } else if plist[0].0 == prop {
        plist[0].1
    } else {
        plist_get(plist.drop_first(), prop)
    }
}

/// Whether an overlay carries a before-string or an after-string.
pub open spec fn has_display_strings(ov: Overlay) -> bool {
    plist_get(ov.plist@, LispObject::Symbol(QBEFORE_STRING)) != LispObject::Nil || plist_get(
        ov.plist@,
        LispObject::Symbol(QAFTER_STRING),
    ) != LispObject::Nil
}

/// An overlay whose markers point nowhere.
pub open spec fn detached(ov: Overlay) -> Overlay {
    Overlay {
        start: Marker { buffer: None, ..ov.start },
        end: Marker { buffer: None, ..ov.end },
        ..ov
    }
}

impl Heap {
    /// `h1` is `h0` after deleting overlay `o`: where `o` belonged to no
    /// buffer nothing changed; else `o` is out of both lists of its buffer,
    /// the rest in order, its markers point nowhere, and the buffer gives up
    /// redisplay shortcuts where `o` had display strings.
    pub open spec fn overlay_deleted(h0: &Heap, h1: &Heap, o: LispOverlayRef) -> bool {
        match h0.ovl(o).start.buffer {
            None => *h1 == *h0,
            Some(b) => {
                &&& h1.same_but_buffers_and_overlays(h0)
                &&& h1.buffers@ == h0.buffers@.update(
                    b.id as int,
                    Buffer {
                        overlays_before: h1.buf(b).overlays_before,
                        overlays_after: h1.buf(b).overlays_after,
                        prevent_redisplay_optimizations_p: h0.buf(
                            b,
                        ).prevent_redisplay_optimizations_p || has_display_strings(h0.ovl(o)),
                        ..h0.buf(b)
                    },
                )
                &&& h1.before(b) == without(h0.before(b), o)
                &&& h1.after(b) == without(h0.after(b), o)
                &&& h1.overlays@ == h0.overlays@.update(o.id as int, detached(h0.ovl(o)))
            },
        }
    }

    /// Everything but the buffers and the overlay records is as in `h`.
    pub open spec fn same_but_buffers_and_overlays(&self, h: &Heap) -> bool {
        &&& self.current == h.current
        &&& self.buffer_alist@ == h.buffer_alist@
        &&& self.last_per_buffer_idx == h.last_per_buffer_idx
        &&& self.windows_or_buffers_changed == h.windows_or_buffers_changed
        &&& self.markers@ == h.markers@
    }
}

/// The value of property `prop` of overlay `o`.
pub fn overlay_get(h: &Heap, o: LispOverlayRef, prop: LispObject) -> (r: LispObject)
    requires
        h.has_overlay(o),
    ensures
        r == plist_get(h.ovl(o).plist@, prop),
{
    let plist = &h.overlays[o.id].plist;
    let mut i: usize = 0;
    assert(plist@.skip(0) == plist@);
    while i < plist.len()
        invariant
            i <= plist@.len(),
            plist@ == h.ovl(o).plist@,
            plist_get(plist@, prop) == plist_get(plist@.skip(i as int), prop),
        decreases plist@.len() - i,
    {
        assert(plist@.skip(i as int).drop_first() == plist@.skip(i + 1));
        if plist[i].0 == prop {
            return plist[i].1;
        }
        i = i + 1;
    }
    LispObject::Nil
}

/// Deletes the overlay `overlay` from its buffer; nothing to do where it
/// belongs to none. An error where `overlay` is not an overlay.
pub fn delete_overlay(h: &mut Heap, overlay: LispObject) -> (r: Result<(), LispError>)
    requires
        old(h).wf(),
        overlay matches LispObject::Overlay(o) ==> old(h).has_overlay(o),
    ensures
        final(h).wf(),
        match overlay {
            LispObject::Overlay(o) => {
                &&& r is Ok
                &&& Heap::overlay_deleted(old(h), final(h), o)
                &&& forall|b: LispBufferRef|
                    final(h).has_buffer(b) ==> !final(h).before(b).contains(o)
                        && !final(h).after(b).contains(o)
            },
            _ => r == Err::<(), LispError>(LispError::WrongType(QOVERLAYP, overlay)) && *final(h)
                == *old(h),
        },
{
    let o = match overlay {
        LispObject::Overlay(o) => o,
        _ => {
            return Err(LispError::WrongType(QOVERLAYP, overlay));
        },
    };
    let b = match h.overlays[o.id].start.buffer {
        None => {
            proof {
                lemma_detached_is_unlisted(h, o);
            }
            return Ok(());
        },
        Some(b) => b,
    };
    let ghost h0 = *old(h);
    proof {
        assert(h0.ovl(o).start.buffer == Some(b));
        assert(h0.has_buffer(b));
        assert(h0.buffers@[b.id as int].wf());
    }
    let strings = overlay_get(h, o, LispObject::Symbol(QBEFORE_STRING)) != LispObject::Nil
        || overlay_get(h, o, LispObject::Symbol(QAFTER_STRING)) != LispObject::Nil;
    let nb = copy_without(&h.buffers[b.id].overlays_before, o);
    let na = copy_without(&h.buffers[b.id].overlays_after, o);
    h.buffers[b.id].overlays_before = nb;
    h.buffers[b.id].overlays_after = na;
    h.overlays[o.id].start.buffer = None;
    h.overlays[o.id].end.buffer = None;
    if strings {
        h.buffers[b.id].prevent_redisplay_optimizations_p = true;
    }
    proof {
        assert(h.overlays@ == h0.overlays@.update(o.id as int, detached(h0.ovl(o))));
        assert(h.before(b) == without(h0.before(b), o));
        assert(h.same_but_buffers_and_overlays(&h0));
        assert(h.buffers@ == h0.buffers@.update(
                    b.id as int,
                    Buffer {
                        overlays_before: h.buf(b).overlays_before,
                        overlays_after: h.buf(b).overlays_after,
                        prevent_redisplay_optimizations_p: h0.buf(
                            b,
                        ).prevent_redisplay_optimizations_p || has_display_strings(h0.ovl(o)),
                        ..h0.buf(b)
                    },
                ));
        lemma_deletion_keeps_wf(&h0, h, o, b);
        lemma_detached_is_unlisted(h, o);
    }
    Ok(())
}

proof fn lemma_deletion_keeps_wf(h0: &Heap, h1: &Heap, o: LispOverlayRef, b: LispBufferRef)
    requires
        h0.wf(),
        h0.has_overlay(o),
        h0.ovl(o).start.buffer == Some(b),
        Heap::overlay_deleted(h0, h1, o),
    ensures
        h1.wf(),
{
    assert(h0.has_buffer(b));
    assert(h0.listed(b).no_duplicates());
    lemma_without_pair(h0.before(b), h0.after(b), o);
    assert(h1.listed(b) == without(h0.before(b), o) + without(h0.after(b), o));
    assert forall|c: LispBufferRef| h0.has_buffer(c) && c != b implies #[trigger] h1.buf(c) == h0.buf(c) by {
        assert(h1.buffers@[c.id as int] == h0.buffers@[c.id as int]);
    }
    assert forall|i: int| 0 <= i < h1.buffers@.len() implies #[trigger] h1.buffers@[i].wf() by {
        assert(h0.buffers@[i].wf());
    }
    assert forall|i: int, k: int|
        0 <= i < h1.buffers@.len() && h1.last_per_buffer_idx <= k
            < crate::buffers::MAX_PER_BUFFER_VARS implies #[trigger] h1.buffers@[i].local_flags@[k]
        == 0 by {
        assert(h0.buffers@[i].local_flags@[k] == 0);
    }
    assert forall|i: int| 0 <= i < h1.buffer_alist@.len() implies h1.has_buffer(
        #[trigger] h1.buffer_alist@[i].1,
    ) by {
        assert(h0.has_buffer(h0.buffer_alist@[i].1));
    }
    assert(h1.buffers_wf());
    assert forall|c: LispBufferRef| #![trigger h1.listed(c)]
        h1.has_buffer(c) implies h1.listed(c).no_duplicates() by {
        if c != b {
            assert(h1.buf(c) == h0.buf(c));
            assert(h0.listed(c).no_duplicates());
        }
    }
    assert forall|c: LispBufferRef, i: int| #![trigger h1.before(c)[i]]
        h1.has_buffer(c) && 0 <= i < h1.before(c).len() implies h1.has_overlay(h1.before(c)[i])
        && h1.ovl(h1.before(c)[i]).start.buffer == Some(c) by {
        let x = h1.before(c)[i];
        if c != b {
            assert(h1.buf(c) == h0.buf(c));
            assert(h0.before(c)[i] == x);
        } else {
            assert(h1.listed(b)[i] == x);
            assert(h1.listed(b).contains(x));
            let k = choose|k: int| 0 <= k < h0.listed(b).len() && h0.listed(b)[k] == x;
            if k < h0.before(b).len() {
                assert(h0.before(b)[k] == x);
            } else {
                assert(h0.after(b)[k - h0.before(b).len()] == x);
            }
        }
        if x == o {
            assert(h0.before(c)[i] == o || h0.listed(b).contains(o));
        }
    }
    assert forall|c: LispBufferRef, i: int| #![trigger h1.after(c)[i]]
        h1.has_buffer(c) && 0 <= i < h1.after(c).len() implies h1.has_overlay(h1.after(c)[i])
        && h1.ovl(h1.after(c)[i]).start.buffer == Some(c) by {
        let x = h1.after(c)[i];
        if c != b {
            assert(h1.buf(c) == h0.buf(c));
            assert(h0.after(c)[i] == x);
        } else {
            assert(h1.listed(b)[h1.before(b).len() + i] == x);
            assert(h1.listed(b).contains(x));
            let k = choose|k: int| 0 <= k < h0.listed(b).len() && h0.listed(b)[k] == x;
            if k < h0.before(b).len() {
                assert(h0.before(b)[k] == x);
            } else {
                assert(h0.after(b)[k - h0.before(b).len()] == x);
            }
        }
    }
    assert forall|x: LispOverlayRef| #![trigger h1.ovl(x)]
        h1.has_overlay(x) && h1.ovl(x).start.buffer.is_some() implies {
            let c = h1.ovl(x).start.buffer.unwrap();
            h1.has_buffer(c)
        } by {
        assert(x != o);
        assert(h1.ovl(x) == h0.ovl(x));
    }
}

/// Once deleted, an overlay is in no list of any buffer, and deleting it
/// again changes nothing.
pub proof fn lemma_delete_overlay_detaches(h0: &Heap, h1: &Heap, h2: &Heap, o: LispOverlayRef)
    requires
        h0.wf(),
        h0.has_overlay(o),
        Heap::overlay_deleted(h0, h1, o),
        Heap::overlay_deleted(h1, h2, o),
    ensures
        h1.wf(),
        forall|b: LispBufferRef|
            h1.has_buffer(b) ==> !h1.before(b).contains(o) && !h1.after(b).contains(o),
        *h2 == *h1,
{
    match h0.ovl(o).start.buffer {
        None => {},
        Some(b) => {
            lemma_deletion_keeps_wf(h0, h1, o, b);
        },
    }
    lemma_detached_is_unlisted(h1, o);
}

/// An overlay whose start marker points nowhere is in no list.
proof fn lemma_detached_is_unlisted(h: &Heap, o: LispOverlayRef)
    requires
        h.wf(),
        h.has_overlay(o),
        h.ovl(o).start.buffer.is_none(),
    ensures
        forall|b: LispBufferRef|
            h.has_buffer(b) ==> !h.before(b).contains(o) && !h.after(b).contains(o),
{
    assert forall|b: LispBufferRef| h.has_buffer(b) implies !h.before(b).contains(o)
        && !h.after(b).contains(o) by {
        if h.before(b).contains(o) {
            let i = choose|i: int| 0 <= i < h.before(b).len() && h.before(b)[i] == o;
            assert(h.ovl(h.before(b)[i]).start.buffer == Some(b));
        }
        if h.after(b).contains(o) {
            let i = choose|i: int| 0 <= i < h.after(b).len() && h.after(b)[i] == o;
            assert(h.ovl(h.after(b)[i]).start.buffer == Some(b));
        }
    }
}

/// Points the markers of every overlay listed in `list` nowhere.
fn detach_listed(overlays: &mut Vec<Overlay>, list: &Vec<LispOverlayRef>)
    requires
        forall|i: int| 0 <= i < list@.len() ==> (#[trigger] list@[i]).id < old(overlays)@.len(),
    ensures
        final(overlays)@.len() == old(overlays)@.len(),
        forall|j: int|
            0 <= j < old(overlays)@.len() ==> #[trigger] final(overlays)@[j] == if list@.contains(
                LispOverlayRef { id: j as usize },
            ) {
                detached(old(overlays)@[j])
            } else {
                old(overlays)@[j]
            },
{
    let ghost start = overlays@;
    let mut i: usize = 0;
    assert(overlays@.len() == overlays.len());
    while i < list.len()
        invariant
            i <= list@.len(),
            overlays@.len() == start.len(),
            start.len() <= usize::MAX,
            forall|k: int| 0 <= k < list@.len() ==> (#[trigger] list@[k]).id < start.len(),
            forall|j: int|
                0 <= j < start.len() ==> #[trigger] overlays@[j] == if list@.subrange(
                    0,
                    i as int,
                ).contains(LispOverlayRef { id: j as usize }) {
                    detached(start[j])
                } else {
                    start[j]
                },
        decreases list@.len() - i,
    {
        let id = list[i].id;
        let ghost before_step = overlays@;
        overlays[id].start.buffer = None;
        overlays[id].end.buffer = None;
        proof {
            assert(overlays@ =~= before_step.update(id as int, detached(before_step[id as int])));
            assert forall|j: int| 0 <= j < start.len() implies #[trigger] overlays@[j] == if list@.subrange(
                0,
                i + 1,
            ).contains(LispOverlayRef { id: j as usize }) {
                detached(start[j])
            } else {
                start[j]
            } by {
                let x = LispOverlayRef { id: j as usize };
                let s0 = list@.subrange(0, i as int);
                let s1 = list@.subrange(0, i + 1);
                assert(s1 == s0.push(list@[i as int]));
                assert(before_step[j] == if s0.contains(x) {
                    detached(start[j])
                } else {
                    start[j]
                });
                if s0.contains(x) {
                    let k = choose|k: int| 0 <= k < s0.len() && s0[k] == x;
                    assert(s1[k] == x);
                }
                if s1.contains(x) && x != list@[i as int] {
                    let k = choose|k: int| 0 <= k < s1.len() && s1[k] == x;
                    assert(s0[k] == x);
                }
                if j == id {
                    assert(s1[i as int] == x);
                    assert(overlays@[j] == detached(before_step[j]));
                    assert(detached(detached(start[j])) == detached(start[j]));
                } else {
                    assert(overlays@[j] == before_step[j]);
                    assert(x != list@[i as int]);
                }
            }
        }
        i = i + 1;
    }
    proof {
        assert(list@.subrange(0, list@.len() as int) == list@);
    }
}

impl Heap {
    /// `h1` is `h0` after deleting every overlay of buffer `b`: both its
    /// lists are empty and the markers of the overlays they held point
    /// nowhere; all else is unchanged.
    pub open spec fn overlays_cleared(h0: &Heap, h1: &Heap, b: LispBufferRef) -> bool {
        &&& h1.same_but_buffers_and_overlays(h0)
        &&& h1.buffers@.len() == h0.buffers@.len()
        &&& forall|i: int|
            0 <= i < h0.buffers@.len() && i != b.id ==> #[trigger] h1.buffers@[i]
                == h0.buffers@[i]
        &&& h1.buf(b) == (Buffer {
            overlays_before: h1.buf(b).overlays_before,
            overlays_after: h1.buf(b).overlays_after,
            ..h0.buf(b)
        })
        &&& h1.before(b).len() == 0
        &&& h1.after(b).len() == 0
        &&& h1.overlays@.len() == h0.overlays@.len()
        &&& forall|j: int|
            0 <= j < h0.overlays@.len() ==> #[trigger] h1.overlays@[j] == if h0.listed(b).contains(
                LispOverlayRef { id: j as usize },
            ) {
                detached(h0.overlays@[j])
            } else {
                h0.overlays@[j]
            }
    }
}

/// Deletes every overlay of buffer `b`.
pub fn delete_all_overlays(h: &mut Heap, b: LispBufferRef)
    requires
        old(h).wf(),
        old(h).has_buffer(b),
    ensures
        final(h).wf(),
        Heap::overlays_cleared(old(h), final(h), b),
{
    let ghost h0 = *old(h);
    proof {
        assert(h0.buffers@[b.id as int].wf());
        assert forall|i: int| 0 <= i < h0.before(b).len() implies (#[trigger] h0.before(b)[i]).id
            < h0.overlays@.len() by {}
        assert forall|i: int| 0 <= i < h0.after(b).len() implies (#[trigger] h0.after(b)[i]).id
            < h0.overlays@.len() by {}
    }
    detach_listed(&mut h.overlays, &h.buffers[b.id].overlays_before);
    let ghost h_mid = h.overlays@;
    detach_listed(&mut h.overlays, &h.buffers[b.id].overlays_after);
    h.buffers[b.id].overlays_before = Vec::new();
    h.buffers[b.id].overlays_after = Vec::new();
    proof {
        assert forall|j: int| 0 <= j < h0.overlays@.len() implies #[trigger] h.overlays@[j]
            == if h0.listed(b).contains(LispOverlayRef { id: j as usize }) {
            detached(h0.overlays@[j])
        } else {
            h0.overlays@[j]
        } by {
            lemma_concat_contains(h0.before(b), h0.after(b), LispOverlayRef { id: j as usize });
            assert(h_mid[j] == h.overlays@[j] || h.overlays@[j] == detached(h_mid[j]));
        }
        assert forall|i: int|
            0 <= i < h0.buffers@.len() && i != b.id implies #[trigger] h.buffers@[i]
                == h0.buffers@[i] by {}
        lemma_clear_keeps_wf(&h0, h, b);
    }
}

proof fn lemma_clear_keeps_wf(h0: &Heap, h1: &Heap, b: LispBufferRef)
    requires
        h0.wf(),
        h0.has_buffer(b),
        Heap::overlays_cleared(h0, h1, b),
    ensures
        h1.wf(),
{
    assert(h1.listed(b) == Seq::<LispOverlayRef>::empty());
    assert forall|i: int| 0 <= i < h1.buffers@.len() implies #[trigger] h1.buffers@[i].wf() by {
        assert(h0.buffers@[i].wf());
    }
    assert forall|i: int, k: int|
        0 <= i < h1.buffers@.len() && h1.last_per_buffer_idx <= k
            < crate::buffers::MAX_PER_BUFFER_VARS implies #[trigger] h1.buffers@[i].local_flags@[k]
        == 0 by {
        assert(h0.buffers@[i].local_flags@[k] == 0);
    }
    assert forall|i: int| 0 <= i < h1.buffer_alist@.len() implies h1.has_buffer(
        #[trigger] h1.buffer_alist@[i].1,
    ) by {
        assert(h0.has_buffer(h0.buffer_alist@[i].1));
    }
    assert forall|c: LispBufferRef| h0.has_buffer(c) && c != b implies #[trigger] h1.buf(c)
        == h0.buf(c) by {
        assert(h1.buffers@[c.id as int] == h0.buffers@[c.id as int]);
    }
    assert forall|c: LispBufferRef| #![trigger h1.listed(c)]
        h1.has_buffer(c) implies h1.listed(c).no_duplicates() by {
        if c != b {
            assert(h1.buf(c) == h0.buf(c));
            assert(h0.listed(c).no_duplicates());
        }
    }
    assert forall|c: LispBufferRef, i: int| #![trigger h1.before(c)[i]]
        h1.has_buffer(c) && 0 <= i < h1.before(c).len() implies h1.has_overlay(h1.before(c)[i])
        && h1.ovl(h1.before(c)[i]).start.buffer == Some(c) by {
        let x = h1.before(c)[i];
        assert(h1.buf(c) == h0.buf(c));
        assert(h0.before(c)[i] == x);
        assert(h0.ovl(x).start.buffer == Some(c));
        if h0.listed(b).contains(x) {
            let k = choose|k: int| 0 <= k < h0.listed(b).len() && h0.listed(b)[k] == x;
            if k < h0.before(b).len() {
                assert(h0.before(b)[k] == x);
            } else {
                assert(h0.after(b)[k - h0.before(b).len()] == x);
            }
        }
        assert(h1.overlays@[x.id as int] == h0.overlays@[x.id as int]);
    }
    assert forall|c: LispBufferRef, i: int| #![trigger h1.after(c)[i]]
        h1.has_buffer(c) && 0 <= i < h1.after(c).len() implies h1.has_overlay(h1.after(c)[i])
        && h1.ovl(h1.after(c)[i]).start.buffer == Some(c) by {
        let x = h1.after(c)[i];
        assert(h1.buf(c) == h0.buf(c));
        assert(h0.after(c)[i] == x);
        assert(h0.ovl(x).start.buffer == Some(c));
        if h0.listed(b).contains(x) {
            let k = choose|k: int| 0 <= k < h0.listed(b).len() && h0.listed(b)[k] == x;
            if k < h0.before(b).len() {
                assert(h0.before(b)[k] == x);
            } else {
                assert(h0.after(b)[k - h0.before(b).len()] == x);
            }
        }
        assert(h1.overlays@[x.id as int] == h0.overlays@[x.id as int]);
    }
    assert forall|x: LispOverlayRef| #![trigger h1.ovl(x)]
        h1.has_overlay(x) && h1.ovl(x).start.buffer.is_some() implies {
            let c = h1.ovl(x).start.buffer.unwrap();
            h1.has_buffer(c)
        } by {
        assert(h1.overlays@[x.id as int] == h1.ovl(x));
        assert(h0.ovl(x).start.buffer == h1.ovl(x).start.buffer);
    }
}

/// Deleting every overlay of a buffer leaves both its lists empty, and
/// deleting them all again changes no overlay record and no list.
pub proof fn lemma_delete_all_overlays_empties(
    h0: &Heap,
    h1: &Heap,
    h2: &Heap,
    b: LispBufferRef,
)
    requires
        h0.wf(),
        h0.has_buffer(b),
        Heap::overlays_cleared(h0, h1, b),
        Heap::overlays_cleared(h1, h2, b),
    ensures
        h1.before(b) == Seq::<LispOverlayRef>::empty(),
        h1.after(b) == Seq::<LispOverlayRef>::empty(),
        h2.before(b) == Seq::<LispOverlayRef>::empty(),
        h2.after(b) == Seq::<LispOverlayRef>::empty(),
        h2.overlays@ == h1.overlays@,
        forall|c: LispBufferRef| #[trigger] h1.has_buffer(c) ==> h2.listed(c) == h1.listed(c),
{
    assert(h1.listed(b) =~= Seq::<LispOverlayRef>::empty());
    assert(h2.overlays@ =~= h1.overlays@);
    assert forall|c: LispBufferRef| #[trigger] h1.has_buffer(c) implies h2.listed(c) == h1.listed(c) by {
        if c != b {
            assert(h2.buffers@[c.id as int] == h1.buffers@[c.id as int]);
        }
    }
}

proof fn lemma_no_duplicates_parts(a: Seq<LispOverlayRef>, b: Seq<LispOverlayRef>)
    requires
        (a + b).no_duplicates(),
    ensures
        a.no_duplicates(),
        b.no_duplicates(),
{
    assert forall|i: int, j: int| 0 <= i < a.len() && 0 <= j < a.len() && i != j implies a[i]
        != a[j] by {
        assert((a + b)[i] == a[i] && (a + b)[j] == a[j]);
    }
    assert forall|i: int, j: int| 0 <= i < b.len() && 0 <= j < b.len() && i != j implies b[i]
        != b[j] by {
        assert((a + b)[a.len() + i] == b[i] && (a + b)[a.len() + j] == b[j]);
    }
}

proof fn lemma_index_of_unique(s: Seq<LispOverlayRef>, i: int, o: LispOverlayRef)
    requires
        s.no_duplicates(),
        0 <= i < s.len(),
        s[i] == o,
    ensures
        s.contains(o),
        s.index_of(o) == i,
{
    assert(s.contains(o));
    let k = s.index_of(o);
    assert(0 <= k < s.len() && s[k] == o);
}

impl Heap {
    /// The overlays met by following the list links from `o`: the rest of
    /// the list that holds `o`, from `o` on; `o` alone where no list does.
    pub open spec fn chain_from(&self, o: LispOverlayRef) -> Seq<LispOverlayRef> {
        match self.ovl(o).start.buffer {
            Some(b) => if self.before(b).contains(o) {
                self.before(b).skip(self.before(b).index_of(o))
            } else if self.after(b).contains(o) {
                self.after(b).skip(self.after(b).index_of(o))
            } else {
                seq![o]
            },
            None => seq![o],
        }
    }
}

/// A walk along a list of overlays.
pub struct LispOverlayIter {
    pub items: Vec<LispOverlayRef>,
    pub pos: usize,
}

impl LispOverlayIter {
    /// The overlays that the walk has still to yield.
    pub open spec fn remaining(&self) -> Seq<LispOverlayRef> {
        self.items@.skip(self.pos as int)
    }

    pub open spec fn wf(&self) -> bool {
        self.pos <= self.items@.len()
    }

    /// The next overlay, if any.
    pub fn next(&mut self) -> (r: Option<LispOverlayRef>)
        requires
            old(self).wf(),
        ensures
            final(self).wf(),
            old(self).remaining().len() == 0 ==> r.is_none() && final(self).remaining()
                == old(self).remaining(),
            old(self).remaining().len() > 0 ==> r == Some(old(self).remaining()[0]),
            old(self).remaining().len() > 0 ==> final(self).remaining() == old(
                self,
            ).remaining().drop_first(),
    {
        if self.pos >= self.items.len() {
            return None;
        }
        let o = self.items[self.pos];
        self.pos = self.pos + 1;
        assert(self.remaining() =~= old(self).remaining().drop_first());
        Some(o)
    }
}

/// A copy of `v` from index `i` on, as a walk.
fn walk_from(v: &Vec<LispOverlayRef>, i: usize) -> (r: LispOverlayIter)
    requires
        i <= v@.len(),
    ensures
        r.wf(),
        r.remaining() == v@.skip(i as int),
{
    let mut items: Vec<LispOverlayRef> = Vec::new();
    let mut k: usize = i;
    while k < v.len()
        invariant
            i <= k <= v@.len(),
            items@ == v@.subrange(i as int, k as int),
        decreases v@.len() - k,
    {
        items.push(v[k]);
        k = k + 1;
        assert(items@ =~= v@.subrange(i as int, k as int));
    }
    assert(items@ =~= v@.skip(i as int));
    let r = LispOverlayIter { items, pos: 0 };
    assert(r.remaining() =~= items@);
    r
}

impl LispOverlayRef {
    pub fn as_lisp_obj(self) -> (r: LispObject)
        ensures
            r == LispObject::Overlay(self),
    {
        LispObject::Overlay(self)
    }

    /// A walk from this overlay along the list that holds it.
    pub fn iter(self, h: &Heap) -> (r: LispOverlayIter)
        requires
            h.wf(),
            h.has_overlay(self),
        ensures
            r.wf(),
            r.remaining() == h.chain_from(self),
    {
        if let Some(b) = h.overlays[self.id].start.buffer {
            proof {
                assert(h.ovl(self).start.buffer == Some(b));
                assert(h.has_buffer(b));
                assert(h.listed(b).no_duplicates());
                lemma_no_duplicates_parts(h.before(b), h.after(b));
            }
            if let Some(i) = position_of(&h.buffers[b.id].overlays_before, self) {
                proof {
                    lemma_index_of_unique(h.before(b), i as int, self);
                }
                return walk_from(&h.buffers[b.id].overlays_before, i);
            }
            if let Some(i) = position_of(&h.buffers[b.id].overlays_after, self) {
                proof {
                    lemma_index_of_unique(h.after(b), i as int, self);
                }
                return walk_from(&h.buffers[b.id].overlays_after, i);
            }
        }
        let mut items: Vec<LispOverlayRef> = Vec::new();
        items.push(self);
        let r = LispOverlayIter { items, pos: 0 };
        assert(r.remaining() =~= seq![self]);
        r
    }
}

/// Everything that `it` has still to yield, in order.
fn collect(it: &mut LispOverlayIter) -> (r: Vec<LispOverlayRef>)
    requires
        old(it).wf(),
    ensures
        r@ == old(it).remaining(),
{
    let ghost all = it.remaining();
    let mut out: Vec<LispOverlayRef> = Vec::new();
    loop
        invariant
            it.wf(),
            out@ + it.remaining() == all,
            all == old(it).remaining(),
        decreases it.remaining().len(),
    {
        match it.next() {
            None => {
                assert(out@ + it.remaining() =~= out@);
                return out;
            },
            Some(x) => {
                out.push(x);
            },
        }
    }
}

/// Copies of the two overlay lists of the current buffer, before-center
/// first; the overlays in them are the buffer's own.
pub fn overlay_lists(h: &Heap) -> (r: (Vec<LispOverlayRef>, Vec<LispOverlayRef>))
    requires
        h.wf(),
    ensures
        r.0@ == h.before(h.current),
        r.1@ == h.after(h.current),
{
    let cur = h.current;
    let before = match cur.overlays_before(h) {
        None => Vec::new(),
        Some(o) => {
            proof {
                lemma_overlay_heads(h, cur);
            }
            let mut it = o.iter(h);
            collect(&mut it)
        },
    };
    let after = match cur.overlays_after(h) {
        None => Vec::new(),
        Some(o) => {
            proof {
                lemma_overlay_heads(h, cur);
            }
            let mut it = o.iter(h);
            collect(&mut it)
        },
    };
    proof {
        if h.before(cur).len() == 0 {
            assert(before@ =~= h.before(cur));
        }
        if h.after(cur).len() == 0 {
            assert(after@ =~= h.after(cur));
        }
    }
    (before, after)
}

/// A walk from the head of either list of `b` goes through that whole list.
proof fn lemma_overlay_heads(h: &Heap, b: LispBufferRef)
    requires
        h.wf(),
        h.has_buffer(b),
    ensures
        h.before(b).len() > 0 ==> h.has_overlay(h.before(b)[0]) && h.chain_from(h.before(b)[0])
            == h.before(b),
        h.after(b).len() > 0 ==> h.has_overlay(h.after(b)[0]) && h.chain_from(h.after(b)[0])
            == h.after(b),
{
    assert(h.listed(b).no_duplicates());
    lemma_no_duplicates_parts(h.before(b), h.after(b));
    if h.before(b).len() > 0 {
        let o = h.before(b)[0];
        assert(h.ovl(o).start.buffer == Some(b));
        lemma_index_of_unique(h.before(b), 0, o);
        assert(h.before(b).skip(0) == h.before(b));
    }
    if h.after(b).len() > 0 {
        let o = h.after(b)[0];
        assert(h.ovl(o).start.buffer == Some(b));
        lemma_index_of_unique(h.after(b), 0, o);
        assert(h.after(b).skip(0) == h.after(b));
        if h.before(b).contains(o) {
            let i = choose|i: int| 0 <= i < h.before(b).len() && h.before(b)[i] == o;
            assert(h.listed(b)[i] == h.listed(b)[h.before(b).len() as int]);
        }
    }
}

/// A new overlay record between `start` and `end` with properties `plist`,
/// in no overlay list yet.
pub fn build_overlay(
    h: &mut Heap,
    start: Marker,
    end: Marker,
    plist: Vec<(LispObject, LispObject)>,
) -> (r: LispOverlayRef)
    requires
        old(h).wf(),
        start.buffer matches Some(b) ==> old(h).has_buffer(b),
    ensures
        final(h).wf(),
        r.id == old(h).overlays@.len(),
        forall|c: LispBufferRef|
            final(h).has_buffer(c) ==> !(#[trigger] final(h).listed(c)).contains(r),
        final(h).overlays@ == old(h).overlays@.push(Overlay { start, end, plist }),
        final(h).buffers@ == old(h).buffers@,
        final(h).same_but_buffers_and_overlays(old(h)),
{
    let r = LispOverlayRef { id: h.overlays.len() };
    h.overlays.push(Overlay { start, end, plist });
    proof {
        let h0 = old(h);
        assert forall|c: LispBufferRef, i: int| #![trigger h.before(c)[i]]
            h.has_buffer(c) && 0 <= i < h.before(c).len() implies h.has_overlay(h.before(c)[i])
            && h.ovl(h.before(c)[i]).start.buffer == Some(c) by {
            assert(h0.has_overlay(h0.before(c)[i]));
            assert(h.ovl(h.before(c)[i]) == h0.ovl(h0.before(c)[i]));
        }
        assert forall|c: LispBufferRef, i: int| #![trigger h.after(c)[i]]
            h.has_buffer(c) && 0 <= i < h.after(c).len() implies h.has_overlay(h.after(c)[i])
            && h.ovl(h.after(c)[i]).start.buffer == Some(c) by {
            assert(h0.has_overlay(h0.after(c)[i]));
            assert(h.ovl(h.after(c)[i]) == h0.ovl(h0.after(c)[i]));
        }
        assert forall|x: LispOverlayRef| #![trigger h.ovl(x)]
            h.has_overlay(x) && h.ovl(x).start.buffer.is_some() implies {
                let c = h.ovl(x).start.buffer.unwrap();
                h.has_buffer(c)
            } by {
            if x != r {
                assert(h.ovl(x) == h0.ovl(x));
            }
        }
        assert forall|c: LispBufferRef| #![trigger h.listed(c)]
            h.has_buffer(c) implies h.listed(c).no_duplicates() && !h.listed(c).contains(r) by {
            assert(h0.listed(c).no_duplicates());
            assert(h.listed(c) == h0.listed(c));
            if h.listed(c).contains(r) {
                let k = choose|k: int| 0 <= k < h.listed(c).len() && h.listed(c)[k] == r;
                if k < h.before(c).len() {
                    assert(h.listed(c)[k] == h0.before(c)[k]);
                    assert(h0.has_overlay(h0.before(c)[k]));
                } else {
                    assert(h.listed(c)[k] == h0.after(c)[k - h0.before(c).len()]);
                    assert(h0.has_overlay(h0.after(c)[k - h0.before(c).len()]));
                }
            }
        }
        assert(h.buffers_wf());
    }
    r
}

/// Puts the overlay `o`, which is in no list, into buffer `b`: its markers
/// point into `b`, and it goes at the end of the after-center list.
pub fn add_overlay(h: &mut Heap, b: LispBufferRef, o: LispOverlayRef)
    requires
        old(h).wf(),
        old(h).has_buffer(b),
        old(h).has_overlay(o),
        forall|c: LispBufferRef|
            old(h).has_buffer(c) ==> !(#[trigger] old(h).listed(c)).contains(o),
    ensures
        final(h).wf(),
        final(h).same_but_buffers_and_overlays(old(h)),
        final(h).buffers@ == old(h).buffers@.update(
            b.id as int,
            (Buffer { overlays_after: final(h).buf(b).overlays_after, ..old(h).buf(b) }),
        ),
        final(h).after(b) == old(h).after(b).push(o),
        final(h).overlays@ == old(h).overlays@.update(
            o.id as int,
            (Overlay {
                start: Marker { buffer: Some(b), ..old(h).ovl(o).start },
                end: Marker { buffer: Some(b), ..old(h).ovl(o).end },
                ..old(h).ovl(o)
            }),
        ),
{
    h.overlays[o.id].start.buffer = Some(b);
    h.overlays[o.id].end.buffer = Some(b);
    h.buffers[b.id].overlays_after.push(o);
    proof {
        let h0 = old(h);
        assert(h.after(b) == h0.after(b).push(o));
        assert(h.listed(b) =~= h0.listed(b).push(o));
        assert(!h0.listed(b).contains(o)) by {
            if h0.listed(b).contains(o) {
                let k = choose|k: int| 0 <= k < h0.listed(b).len() && h0.listed(b)[k] == o;
                if k < h0.before(b).len() {
                    assert(h0.before(b)[k] == o);
                } else {
                    assert(h0.after(b)[k - h0.before(b).len()] == o);
                }
            }
        }
        assert forall|c: LispBufferRef| h0.has_buffer(c) && c != b implies #[trigger] h.buf(c)
            == h0.buf(c) by {
            assert(h.buffers@[c.id as int] == h0.buffers@[c.id as int]);
        }
        assert forall|i: int| 0 <= i < h.buffers@.len() implies #[trigger] h.buffers@[i].wf() by {
            assert(h0.buffers@[i].wf());
        }
        assert forall|i: int, k: int|
            0 <= i < h.buffers@.len() && h.last_per_buffer_idx <= k
                < crate::buffers::MAX_PER_BUFFER_VARS implies #[trigger] h.buffers@[i].local_flags@[k]
            == 0 by {
            assert(h0.buffers@[i].local_flags@[k] == 0);
        }
        assert forall|i: int| 0 <= i < h.buffer_alist@.len() implies h.has_buffer(
            #[trigger] h.buffer_alist@[i].1,
        ) by {
            assert(h0.has_buffer(h0.buffer_alist@[i].1));
        }
        assert forall|c: LispBufferRef| #![trigger h.listed(c)]
            h.has_buffer(c) implies h.listed(c).no_duplicates() by {
            if c != b {
                assert(h.buf(c) == h0.buf(c));
                assert(h0.listed(c).no_duplicates());
            } else {
                assert(h0.listed(b).no_duplicates());
            }
        }
        assert forall|c: LispBufferRef, i: int| #![trigger h.before(c)[i]]
            h.has_buffer(c) && 0 <= i < h.before(c).len() implies h.has_overlay(h.before(c)[i])
            && h.ovl(h.before(c)[i]).start.buffer == Some(c) by {
            let x = h.before(c)[i];
            assert(h.before(c) == h0.before(c));
            assert(h0.ovl(x).start.buffer == Some(c));
            assert(h0.listed(c)[i] == x);
            assert(!h0.listed(c).contains(o));
        }
        assert forall|c: LispBufferRef, i: int| #![trigger h.after(c)[i]]
            h.has_buffer(c) && 0 <= i < h.after(c).len() implies h.has_overlay(h.after(c)[i])
            && h.ovl(h.after(c)[i]).start.buffer == Some(c) by {
            let x = h.after(c)[i];
            if c != b {
                assert(h.buf(c) == h0.buf(c));
                assert(h0.after(c)[i] == x);
                assert(h0.ovl(x).start.buffer == Some(c));
                assert(h0.listed(c)[h0.before(c).len() + i] == x);
                assert(!h0.listed(c).contains(o));
            } else if i < h0.after(b).len() {
                assert(h0.after(b)[i] == x);
                assert(h0.ovl(x).start.buffer == Some(c));
                assert(h0.listed(c)[h0.before(c).len() + i] == x);
                assert(!h0.listed(c).contains(o));
            }
        }
        assert forall|x: LispOverlayRef| #![trigger h.ovl(x)]
            h.has_overlay(x) && h.ovl(x).start.buffer.is_some() implies {
                let c = h.ovl(x).start.buffer.unwrap();
                h.has_buffer(c)
            } by {
            if x != o {
                assert(h.ovl(x) == h0.ovl(x));
            }
        }
    }
}

/// Whether `object` is an overlay.
pub fn overlayp(object: LispObject) -> (r: bool)
    ensures
        r == object is Overlay,
{
    matches!(object, LispObject::Overlay(_))
}

/// The position where `overlay` starts; `None` once it is deleted.
pub fn overlay_start(h: &Heap, overlay: LispOverlayRef) -> (r: Option<isize>)
    requires
        h.has_overlay(overlay),
    ensures
        r == if h.ovl(overlay).start.buffer.is_some() {
            Some(h.ovl(overlay).start.charpos)
        } else {
            None
        },
{
    let m = h.overlays[overlay.id].start;
    if m.buffer.is_some() {
        Some(m.charpos)
    } else {
        None
    }
}

/// The position where `overlay` ends; `None` once it is deleted.
pub fn overlay_end(h: &Heap, overlay: LispOverlayRef) -> (r: Option<isize>)
    requires
        h.has_overlay(overlay),
    ensures
        r == if h.ovl(overlay).end.buffer.is_some() {
            Some(h.ovl(overlay).end.charpos)
        } else {
            None
        },
{
    let m = h.overlays[overlay.id].end;
    if m.buffer.is_some() {
        Some(m.charpos)
    } else {
        None
    }
}

/// The buffer `overlay` belongs to; `None` once it is deleted.
pub fn overlay_buffer(h: &Heap, overlay: LispOverlayRef) -> (r: Option<LispBufferRef>)
    requires
        h.has_overlay(overlay),
    ensures
        r == h.ovl(overlay).start.buffer,
{
    h.overlays[overlay.id].start.buffer
}

/// A copy of the property list of `overlay`.
pub fn overlay_properties(h: &Heap, overlay: LispOverlayRef) -> (r: Vec<(LispObject, LispObject)>)
    requires
        h.has_overlay(overlay),
    ensures
        r@ == h.ovl(overlay).plist@,
{
    let plist = &h.overlays[overlay.id].plist;
    let mut r: Vec<(LispObject, LispObject)> = Vec::new();
    let mut i: usize = 0;
    while i < plist.len()
        invariant
            i <= plist@.len(),
            r@ == plist@.subrange(0, i as int),
        decreases plist@.len() - i,
    {
        r.push(plist[i]);
        i = i + 1;
        assert(r@ =~= plist@.subrange(0, i as int));
    }
    assert(r@ =~= plist@);
    r
}

} // verus!
