//! Buffers, the objects that refer to them, and the store that holds every
//! buffer and overlay record.
use vstd::prelude::*;

use crate::text::BufferText;

verus! {

/// Capacity of every buffer's local-flags vector.
pub const MAX_PER_BUFFER_VARS: usize = 50;

/// Symbol id of `before-string`.
pub const QBEFORE_STRING: usize = 1;

/// Symbol id of `after-string`.
pub const QAFTER_STRING: usize = 2;

/// Symbol id of `bufferp`.
pub const QBUFFERP: usize = 3;

/// Symbol id of `overlayp`.
pub const QOVERLAYP: usize = 4;

/// A handle on a buffer of a `Heap`.
#[derive(Clone, Copy, PartialEq, Eq, Structural, Debug)]
pub struct LispBufferRef {
    pub id: usize,
}

/// A handle on an overlay record of a `Heap`.
#[derive(Clone, Copy, PartialEq, Eq, Structural, Debug)]
pub struct LispOverlayRef {
    pub id: usize,
}

/// A handle on a char table.
#[derive(Clone, Copy, PartialEq, Eq, Structural, Debug)]
pub struct LispCharTableRef {
    pub id: usize,
}

/// A Lisp value. Strings and symbols are interned and stand by their id,
/// so that two strings are equal exactly when their ids are; a marker is
/// the index of its record in the heap's marker table.
#[derive(Clone, Copy, PartialEq, Eq, Structural, Debug)]
pub enum LispObject {
    Nil,
    T,
    Fixnum(i64),
    Symbol(usize),
    Str(usize),
    Marker(usize),
    Buffer(LispBufferRef),
    Overlay(LispOverlayRef),
    CharTable(LispCharTableRef),
}

/// Errors signalled to Lisp.
#[derive(Clone, Copy, PartialEq, Eq, Structural, Debug)]
pub enum LispError {
    /// The value does not satisfy the predicate (a symbol id).
    WrongType(usize, LispObject),
    /// No buffer has this name.
    NoBufferNamed(LispObject),
    /// Neither a buffer nor a buffer name.
    InvalidBufferArgument,
    /// The region does not lie in the accessible part of the buffer.
    ArgsOutOfRange(LispObject, LispObject),
    /// The buffer has been killed.
    SelectingDeletedBuffer,
    /// The buffer may not be modified.
    BufferReadOnly(LispBufferRef),
    /// The variable has no value.
    VoidVariable(LispObject),
    /// The marker points into no buffer.
    MarkerDoesNotPointAnywhere(LispObject),
}

/// A text anchor: the buffer it points into, if any, and its position.
#[derive(Clone, Copy, PartialEq, Eq, Structural, Debug)]
pub struct Marker {
    pub buffer: Option<LispBufferRef>,
    pub charpos: isize,
    pub bytepos: isize,
}

/// An overlay: a range between two markers, with properties.
pub struct Overlay {
    pub start: Marker,
    pub end: Marker,
    pub plist: Vec<(LispObject, LispObject)>,
}

/// The state of one buffer.
pub struct Buffer {
    pub name_: LispObject,
    pub filename_: LispObject,
    pub file_truename_: LispObject,
    pub mark_: LispObject,
    pub mark_active_: LispObject,
    pub pt_marker_: LispObject,
    pub begv_marker_: LispObject,
    pub zv_marker_: LispObject,
    pub case_fold_search_: LispObject,
    pub syntax_table_: LispObject,
    pub enable_multibyte_characters_: LispObject,
    pub read_only_: LispObject,
    pub pt: isize,
    pub pt_byte: isize,
    pub begv: isize,
    pub begv_byte: isize,
    pub zv: isize,
    pub zv_byte: isize,
    pub text: BufferText,
    pub base_buffer: Option<LispBufferRef>,
    pub local_flags: Vec<u8>,
    pub overlays_before: Vec<LispOverlayRef>,
    pub overlays_after: Vec<LispOverlayRef>,
    pub prevent_redisplay_optimizations_p: bool,
    pub last_window_start: isize,
}

/// Every buffer and overlay record, the current buffer, the list of
/// buffers by name, the number of registered per-buffer slots, and the
/// markers that `LispObject::Marker` values refer to.
pub struct Heap {
    pub buffers: Vec<Buffer>,
    pub overlays: Vec<Overlay>,
    pub current: LispBufferRef,
    pub buffer_alist: Vec<(LispObject, LispBufferRef)>,
    pub last_per_buffer_idx: usize,
    pub windows_or_buffers_changed: i64,
    pub markers: Vec<Marker>,
}

impl Buffer {
    /// Text well formed, positions ordered within it, a full flags vector.
    pub open spec fn wf(&self) -> bool {
        &&& self.text.wf()
        &&& 1 <= self.begv <= self.pt <= self.zv <= self.text.z
        &&& 1 <= self.begv_byte <= self.pt_byte <= self.zv_byte <= self.text.z_byte
        &&& self.local_flags@.len() == MAX_PER_BUFFER_VARS
    }

    /// A live, unnarrowed buffer named `name` with text `text`, point at
    /// the beginning, no overlays and no local flags set.
    pub fn new(name: LispObject, text: BufferText, multibyte: bool) -> (r: Buffer)
        requires
            text.wf(),
            name != LispObject::Nil,
        ensures
            r.wf(),
            r.name_ == name,
            r.text == text,
            r.pt == 1 && r.pt_byte == 1,
            r.begv == 1 && r.begv_byte == 1,
            r.zv == text.z && r.zv_byte == text.z_byte,
            r.enable_multibyte_characters_ == (if multibyte {
                LispObject::T
            } else {
                LispObject::Nil
            }),
            r.read_only_ == LispObject::Nil,
            r.base_buffer.is_none(),
            forall|i: int| 0 <= i < r.local_flags@.len() ==> r.local_flags@[i] == 0,
            r.overlays_before@.len() == 0,
            r.overlays_after@.len() == 0,
            !r.prevent_redisplay_optimizations_p,
    {
        let z = text.z;
        let z_byte = text.z_byte;
        let mut local_flags: Vec<u8> = Vec::new();
        let mut i: usize = 0;
        while i < MAX_PER_BUFFER_VARS
            invariant
                i <= MAX_PER_BUFFER_VARS,
                local_flags@.len() == i,
                forall|k: int| 0 <= k < i ==> local_flags@[k] == 0,
            decreases MAX_PER_BUFFER_VARS - i,
        {
            local_flags.push(0);
            i = i + 1;
        }
        Buffer {
            name_: name,
            filename_: LispObject::Nil,
            file_truename_: LispObject::Nil,
            mark_: LispObject::Nil,
            mark_active_: LispObject::Nil,
            pt_marker_: LispObject::Nil,
            begv_marker_: LispObject::Nil,
            zv_marker_: LispObject::Nil,
            case_fold_search_: LispObject::T,
            syntax_table_: LispObject::Nil,
            enable_multibyte_characters_: if multibyte {
                LispObject::T
            } else {
                LispObject::Nil
            },
            read_only_: LispObject::Nil,
            pt: 1,
            pt_byte: 1,
            begv: 1,
            begv_byte: 1,
            zv: z,
            zv_byte: z_byte,
            text,
            base_buffer: None,
            local_flags,
            overlays_before: Vec::new(),
            overlays_after: Vec::new(),
            prevent_redisplay_optimizations_p: false,
            last_window_start: 1,
        }
    }
}

impl Heap {
    /// Whether `b` refers to a buffer of this heap.
    pub open spec fn has_buffer(&self, b: LispBufferRef) -> bool {
        b.id < self.buffers@.len()
    }

    /// Whether `o` refers to an overlay record of this heap.
    pub open spec fn has_overlay(&self, o: LispOverlayRef) -> bool {
        o.id < self.overlays@.len()
    }

    /// The buffer that `b` refers to.
    pub open spec fn buf(&self, b: LispBufferRef) -> Buffer {
        self.buffers@[b.id as int]
    }

    /// The overlay record that `o` refers to.
    pub open spec fn ovl(&self, o: LispOverlayRef) -> Overlay {
        self.overlays@[o.id as int]
    }

    /// The before-center overlay list of buffer `b`.
    pub open spec fn before(&self, b: LispBufferRef) -> Seq<LispOverlayRef> {
        self.buf(b).overlays_before@
    }

    /// The after-center overlay list of buffer `b`.
    pub open spec fn after(&self, b: LispBufferRef) -> Seq<LispOverlayRef> {
        self.buf(b).overlays_after@
    }

    /// Both overlay lists of `b`, before-center first.
    pub open spec fn listed(&self, b: LispBufferRef) -> Seq<LispOverlayRef> {
        self.before(b) + self.after(b)
    }

    /// Every buffer is well formed, the current buffer and the name list
    /// refer to buffers, and flags of unregistered slots are clear.
    pub open spec fn buffers_wf(&self) -> bool {
        &&& self.has_buffer(self.current)
        &&& self.last_per_buffer_idx <= MAX_PER_BUFFER_VARS
        &&& forall|i: int|
            0 <= i < self.buffers@.len() ==> #[trigger] self.buffers@[i].wf()
        &&& forall|i: int, k: int|
            0 <= i < self.buffers@.len() && self.last_per_buffer_idx <= k
                < MAX_PER_BUFFER_VARS ==> #[trigger] self.buffers@[i].local_flags@[k] == 0
        &&& forall|i: int|
            0 <= i < self.buffer_alist@.len() ==> self.has_buffer(
                #[trigger] self.buffer_alist@[i].1,
            )
    }

    /// The two lists of a buffer together hold each overlay at most once,
    /// and only overlays whose start marker points into that buffer; every
    /// overlay's start marker points into a buffer of the heap, or nowhere.
    pub open spec fn overlays_wf(&self) -> bool {
        &&& forall|b: LispBufferRef|
            #![trigger self.listed(b)]
            self.has_buffer(b) ==> self.listed(b).no_duplicates()
        &&& forall|b: LispBufferRef, i: int|
            #![trigger self.before(b)[i]]
            self.has_buffer(b) && 0 <= i < self.before(b).len() ==> self.has_overlay(
                self.before(b)[i],
            ) && self.ovl(self.before(b)[i]).start.buffer == Some(b)
        &&& forall|b: LispBufferRef, i: int|
            #![trigger self.after(b)[i]]
            self.has_buffer(b) && 0 <= i < self.after(b).len() ==> self.has_overlay(
                self.after(b)[i],
            ) && self.ovl(self.after(b)[i]).start.buffer == Some(b)
        &&& forall|o: LispOverlayRef|
            #![trigger self.ovl(o)]
            self.has_overlay(o) && self.ovl(o).start.buffer.is_some() ==> self.has_buffer(
                self.ovl(o).start.buffer.unwrap(),
            )
    }

    pub open spec fn wf(&self) -> bool {
        self.buffers_wf() && self.overlays_wf()
    }
}

impl Heap {
    /// A heap holding one buffer, which is current.
    pub fn new(name: LispObject, text: BufferText, multibyte: bool) -> (r: Heap)
        requires
            text.wf(),
            name != LispObject::Nil,
        ensures
            r.wf(),
            r.buffers@.len() == 1,
            r.current == (LispBufferRef { id: 0 }),
            r.buf(r.current).name_ == name,
            r.buf(r.current).text == text,
            r.overlays@.len() == 0,
            r.last_per_buffer_idx == 0,
    {
        let buffer = Buffer::new(name, text, multibyte);
        let mut buffers: Vec<Buffer> = Vec::new();
        buffers.push(buffer);
        let mut buffer_alist: Vec<(LispObject, LispBufferRef)> = Vec::new();
        buffer_alist.push((name, LispBufferRef { id: 0 }));
        let r = Heap {
            buffers,
            overlays: Vec::new(),
            current: LispBufferRef { id: 0 },
            buffer_alist,
            last_per_buffer_idx: 0,
            windows_or_buffers_changed: 0,
            markers: Vec::new(),
        };
        assert forall|b: LispBufferRef| r.has_buffer(b) implies r.listed(b).no_duplicates() by {
            assert(r.listed(b) =~= Seq::<LispOverlayRef>::empty());
        }
        r
    }

    /// Adds a buffer named `name` holding `text`, and lists it by name.
    pub fn make_buffer(&mut self, name: LispObject, text: BufferText, multibyte: bool) -> (r:
        LispBufferRef)
        requires
            old(self).wf(),
            text.wf(),
            name != LispObject::Nil,
        ensures
            final(self).wf(),
            r.id == old(self).buffers@.len(),
            final(self).buffers@.len() == old(self).buffers@.len() + 1,
            final(self).buf(r).name_ == name,
            final(self).buf(r).text == text,
            forall|b: LispBufferRef| #[trigger]
                old(self).has_buffer(b) ==> final(self).buf(b) == old(self).buf(b),
            final(self).overlays@ == old(self).overlays@,
            final(self).buffer_alist@ == old(self).buffer_alist@.push((name, r)),
            final(self).current == old(self).current,
            final(self).last_per_buffer_idx == old(self).last_per_buffer_idx,
    {
        let r = LispBufferRef { id: self.buffers.len() };
        let buffer = Buffer::new(name, text, multibyte);
        self.buffers.push(buffer);
        self.buffer_alist.push((name, r));
        assert forall|b: LispBufferRef| #[trigger]
            old(self).has_buffer(b) implies self.buf(b) == old(self).buf(b) by {
            assert(self.buffers@[b.id as int] == old(self).buffers@[b.id as int]);
        }
        assert(self.listed(r) =~= Seq::<LispOverlayRef>::empty());
        assert forall|o: LispOverlayRef| #![trigger self.ovl(o)]
            self.has_overlay(o) && self.ovl(o).start.buffer.is_some() implies {
                let b = self.ovl(o).start.buffer.unwrap();
                self.has_buffer(b)
            } by {
            let b = self.ovl(o).start.buffer.unwrap();
            assert(old(self).ovl(o) == self.ovl(o));
            assert(old(self).listed(b) == self.listed(b));
        }
        assert forall|i: int, k: int|
            0 <= i < self.buffers@.len() && self.last_per_buffer_idx <= k
                < MAX_PER_BUFFER_VARS implies #[trigger] self.buffers@[i].local_flags@[k] == 0 by {
            if i < old(self).buffers@.len() {
                assert(self.buffers@[i] == old(self).buffers@[i]);
            }
        }
        assert forall|b: LispBufferRef, i: int| #![trigger self.before(b)[i]]
            self.has_buffer(b) && 0 <= i < self.before(b).len() implies self.has_overlay(
                self.before(b)[i],
            ) && self.ovl(self.before(b)[i]).start.buffer == Some(b) by {
            assert(old(self).has_buffer(b));
            assert(old(self).before(b)[i] == self.before(b)[i]);
        }
        assert forall|b: LispBufferRef, i: int| #![trigger self.after(b)[i]]
            self.has_buffer(b) && 0 <= i < self.after(b).len() implies self.has_overlay(
                self.after(b)[i],
            ) && self.ovl(self.after(b)[i]).start.buffer == Some(b) by {
            assert(old(self).has_buffer(b));
            assert(old(self).after(b)[i] == self.after(b)[i]);
        }
        assert forall|b: LispBufferRef| #![trigger self.listed(b)]
            self.has_buffer(b) implies self.listed(b).no_duplicates() by {
            if b != r {
                assert(old(self).listed(b) == self.listed(b));
            }
        }
        assert(self.buffers_wf());
        r
    }
}

impl Heap {
    /// Everything but the buffers is as in `h`.
    pub open spec fn same_but_buffers(&self, h: &Heap) -> bool {
        &&& self.overlays@ == h.overlays@
        &&& self.current == h.current
        &&& self.buffer_alist@ == h.buffer_alist@
        &&& self.last_per_buffer_idx == h.last_per_buffer_idx
        &&& self.windows_or_buffers_changed == h.windows_or_buffers_changed
        &&& self.markers@ == h.markers@
    }
}

/// Replacing one buffer by a well-formed one with the same overlay lists
/// and flags keeps the heap well formed.
pub proof fn lemma_replace_buffer_keeps_wf(h0: &Heap, h1: &Heap, b: LispBufferRef)
    requires
        h0.wf(),
        h0.has_buffer(b),
        h1.same_but_buffers(h0),
        h1.buffers@ == h0.buffers@.update(b.id as int, h1.buf(b)),
        h1.buf(b).wf(),
        h1.buf(b).overlays_before@ == h0.buf(b).overlays_before@,
        h1.buf(b).overlays_after@ == h0.buf(b).overlays_after@,
        h1.buf(b).local_flags@ == h0.buf(b).local_flags@,
    ensures
        h1.wf(),
        forall|c: LispBufferRef| h0.has_buffer(c) ==> #[trigger] h1.listed(c) == h0.listed(c),
{
    assert forall|c: LispBufferRef| h0.has_buffer(c) implies #[trigger] h1.listed(c) == h0.listed(c) by {
        if c != b {
            assert(h1.buffers@[c.id as int] == h0.buffers@[c.id as int]);
        }
    }
    assert forall|c: LispBufferRef| h0.has_buffer(c) implies #[trigger] h1.before(c) == h0.before(c) by {
        if c != b {
            assert(h1.buffers@[c.id as int] == h0.buffers@[c.id as int]);
        }
    }
    assert forall|c: LispBufferRef| h0.has_buffer(c) implies #[trigger] h1.after(c) == h0.after(c) by {
        if c != b {
            assert(h1.buffers@[c.id as int] == h0.buffers@[c.id as int]);
        }
    }
    assert forall|i: int| 0 <= i < h1.buffers@.len() implies #[trigger] h1.buffers@[i].wf() by {
        if i != b.id {
            assert(h1.buffers@[i] == h0.buffers@[i]);
        }
    }
    assert forall|i: int, k: int|
        0 <= i < h1.buffers@.len() && h1.last_per_buffer_idx <= k
            < MAX_PER_BUFFER_VARS implies #[trigger] h1.buffers@[i].local_flags@[k] == 0 by {
        if i != b.id {
            assert(h1.buffers@[i] == h0.buffers@[i]);
        } else {
            assert(h0.buffers@[i].local_flags@[k] == 0);
        }
    }
    assert forall|o: LispOverlayRef| #![trigger h1.ovl(o)]
        h1.has_overlay(o) && h1.ovl(o).start.buffer.is_some() implies {
            let c = h1.ovl(o).start.buffer.unwrap();
            h1.has_buffer(c)
        } by {
        assert(h0.ovl(o) == h1.ovl(o));
        let c = h1.ovl(o).start.buffer.unwrap();
        assert(h1.listed(c) == h0.listed(c));
    }
}

/// The overlay index is well formed in a heap with the same overlay
/// records and the same lists as a heap where it is.
pub proof fn lemma_same_index_keeps_overlays_wf(h0: &Heap, h1: &Heap)
    requires
        h0.overlays_wf(),
        h1.overlays@ == h0.overlays@,
        h1.buffers@.len() == h0.buffers@.len(),
        forall|i: int|
            0 <= i < h0.buffers@.len() ==> (#[trigger] h1.buffers@[i]).overlays_before@
                == h0.buffers@[i].overlays_before@ && h1.buffers@[i].overlays_after@
                == h0.buffers@[i].overlays_after@,
    ensures
        h1.overlays_wf(),
{
    assert forall|c: LispBufferRef| h0.has_buffer(c) implies #[trigger] h1.listed(c) == h0.listed(c)
        && h1.before(c) == h0.before(c) && h1.after(c) == h0.after(c) by {
        assert(h1.buffers@[c.id as int].overlays_before@ == h0.buffers@[c.id as int].overlays_before@);
    }
    assert forall|c: LispBufferRef, i: int| #![trigger h1.before(c)[i]]
        h1.has_buffer(c) && 0 <= i < h1.before(c).len() implies h1.has_overlay(h1.before(c)[i])
        && h1.ovl(h1.before(c)[i]).start.buffer == Some(c) by {
        assert(h1.listed(c) == h0.listed(c));
        assert(h0.before(c)[i] == h1.before(c)[i]);
    }
    assert forall|c: LispBufferRef, i: int| #![trigger h1.after(c)[i]]
        h1.has_buffer(c) && 0 <= i < h1.after(c).len() implies h1.has_overlay(h1.after(c)[i])
        && h1.ovl(h1.after(c)[i]).start.buffer == Some(c) by {
        assert(h1.listed(c) == h0.listed(c));
        assert(h0.after(c)[i] == h1.after(c)[i]);
    }
    assert forall|o: LispOverlayRef| #![trigger h1.ovl(o)]
        h1.has_overlay(o) && h1.ovl(o).start.buffer.is_some() implies {
            let c = h1.ovl(o).start.buffer.unwrap();
            h1.has_buffer(c)
        } by {
        assert(h0.ovl(o) == h1.ovl(o));
        let c = h1.ovl(o).start.buffer.unwrap();
        assert(h1.listed(c) == h0.listed(c));
    }
    assert forall|c: LispBufferRef| #![trigger h1.listed(c)]
        h1.has_buffer(c) implies h1.listed(c).no_duplicates() by {
        assert(h1.listed(c) == h0.listed(c));
    }
}

impl Heap {
    /// Adds marker `m` to the marker table and returns it as an object.
    pub fn make_marker(&mut self, m: Marker) -> (r: LispObject)
        requires
            old(self).wf(),
            m.buffer matches Some(b) ==> old(self).has_buffer(b),
        ensures
            final(self).wf(),
            r == LispObject::Marker(old(self).markers@.len() as usize),
            final(self).markers@ == old(self).markers@.push(m),
            final(self).buffers@ == old(self).buffers@,
            final(self).overlays@ == old(self).overlays@,
            final(self).current == old(self).current,
            final(self).buffer_alist@ == old(self).buffer_alist@,
            final(self).last_per_buffer_idx == old(self).last_per_buffer_idx,
            final(self).windows_or_buffers_changed == old(self).windows_or_buffers_changed,
    {
        let r = LispObject::Marker(self.markers.len());
        self.markers.push(m);
        proof {
            lemma_same_index_keeps_overlays_wf(old(self), self);
        }
        r
    }
}

} // verus!
