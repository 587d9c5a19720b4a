//! Lisp-level views of buffers: turning objects into buffer handles,
//! finding buffers by name or file, and the buffer primitives.
use vstd::prelude::*;

use crate::buffers::{
    Heap, LispBufferRef, LispError, LispObject, LispOverlayRef, QBUFFERP, QOVERLAYP,
};
use crate::overlays::delete_all_overlays;

verus! {

/// Symbol id of `stringp`.
pub const QSTRINGP: usize = 5;

/// Symbol id of `integer-or-marker-p`.
pub const QINTEGER_OR_MARKER_P: usize = 6;

/// Symbol id of the marker of an unbound variable.
pub const QUNBOUND: usize = 7;

/// The buffer that the first entry of `alist` keyed `name` maps to.
pub open spec fn alist_lookup(alist: Seq<(LispObject, LispBufferRef)>, name: LispObject) -> Option<
    LispBufferRef,
>
    decreases alist.len(),
{
    if alist.len() == 0 {
        None
    } else if alist[0].0 == name {
        Some(alist[0].1)
    } else {
        alist_lookup(alist.drop_first(), name)
    }
}

impl Heap {
    /// The file name of buffer `b`: its true name or its visited name.
    pub open spec fn file_of(&self, b: LispBufferRef, truename: bool) -> LispObject {
        if truename {
            self.buf(b).file_truename_
        } else {
            self.buf(b).filename_
        }
    }

    /// The first live buffer of `alist` whose file name (see `file_of`) is
    /// the string `file`.
    pub open spec fn visiting(
        &self,
        alist: Seq<(LispObject, LispBufferRef)>,
        file: LispObject,
        truename: bool,
    ) -> Option<LispBufferRef>
        decreases alist.len(),
    {
        if alist.len() == 0 {
            None
        } else if self.buf(alist[0].1).name_ != LispObject::Nil && self.file_of(
            alist[0].1,
            truename,
        ) is Str && self.file_of(alist[0].1, truename) == file {
            Some(alist[0].1)
        } else {
            self.visiting(alist.drop_first(), file, truename)
        }
    }
}

impl LispObject {
    /// The buffer this object is, if it is one.
    pub open spec fn buffer_of(self) -> Option<LispBufferRef> {
        match self {
            LispObject::Buffer(b) => Some(b),
            _ => None,
        }
    }

    pub fn is_nil(self) -> (r: bool)
        ensures
            r == (self == LispObject::Nil),
    {
        matches!(self, LispObject::Nil)
    }

    pub fn is_string(self) -> (r: bool)
        ensures
            r == self is Str,
    {
        matches!(self, LispObject::Str(_))
    }

    pub fn is_buffer(self) -> (r: bool)
        ensures
            r == self is Buffer,
    {
        matches!(self, LispObject::Buffer(_))
    }

    pub fn as_buffer(self) -> (r: Option<LispBufferRef>)
        ensures
            r == self.buffer_of(),
    {
        match self {
            LispObject::Buffer(b) => Some(b),
            _ => None,
        }
    }

    /// The buffer this object is, if it is a live one.
    pub fn as_live_buffer(self, h: &Heap) -> (r: Option<LispBufferRef>)
        requires
            self matches LispObject::Buffer(b) ==> h.has_buffer(b),
        ensures
            r == match self {
                LispObject::Buffer(b) => if h.buf(b).name_ != LispObject::Nil {
                    Some(b)
                } else {
                    None
                },
                _ => None,
            },
    {
        match self.as_buffer() {
            Some(b) => b.as_live(h),
            None => None,
        }
    }

    /// The buffer this object is; a wrong-type error otherwise.
    pub fn as_buffer_or_error(self) -> (r: Result<LispBufferRef, LispError>)
        ensures
            r == match self {
                LispObject::Buffer(b) => Ok(b),
                _ => Err(LispError::WrongType(QBUFFERP, self)),
            },
    {
        match self.as_buffer() {
            Some(b) => Ok(b),
            None => Err(LispError::WrongType(QBUFFERP, self)),
        }
    }

    pub fn is_overlay(self) -> (r: bool)
        ensures
            r == self is Overlay,
    {
        matches!(self, LispObject::Overlay(_))
    }

    pub fn as_overlay(self) -> (r: Option<LispOverlayRef>)
        ensures
            r == match self {
                LispObject::Overlay(o) => Some(o),
                _ => None,
            },
    {
        match self {
            LispObject::Overlay(o) => Some(o),
            _ => None,
        }
    }

    /// The overlay this object is; a wrong-type error otherwise.
    pub fn as_overlay_or_error(self) -> (r: Result<LispOverlayRef, LispError>)
        ensures
            r == match self {
                LispObject::Overlay(o) => Ok(o),
                _ => Err(LispError::WrongType(QOVERLAYP, self)),
            },
    {
        match self.as_overlay() {
            Some(o) => Ok(o),
            None => Err(LispError::WrongType(QOVERLAYP, self)),
        }
    }

    /// The buffer this object is, the current buffer for nil; a wrong-type
    /// error otherwise.
    pub fn as_buffer_or_current_buffer(self, h: &Heap) -> (r: Result<LispBufferRef, LispError>)
        ensures
            r == match self {
                LispObject::Nil => Ok(h.current),
                LispObject::Buffer(b) => Ok(b),
                _ => Err(LispError::WrongType(QBUFFERP, self)),
            },
    {
        if self.is_nil() {
            Ok(h.current)
        } else {
            self.as_buffer_or_error()
        }
    }
}

/// The error for a buffer argument `spec` that names no buffer.
pub open spec fn no_such_buffer(spec: LispObject) -> LispError {
    if spec is Str {
        LispError::NoBufferNamed(spec)
    } else {
        LispError::InvalidBufferArgument
    }
}

/// The error for a buffer argument that names no buffer.
pub fn nsberror(spec: LispObject) -> (r: LispError)
    ensures
        r == no_such_buffer(spec),
{
    if spec.is_string() {
        LispError::NoBufferNamed(spec)
    } else {
        LispError::InvalidBufferArgument
    }
}

/// The buffer listed under `name` (compared as strings), if any.
fn assoc_ignore_text_properties(h: &Heap, name: LispObject) -> (r: Option<LispBufferRef>)
    ensures
        r == alist_lookup(h.buffer_alist@, name),
{
    let mut i: usize = 0;
    assert(h.buffer_alist@.skip(0) == h.buffer_alist@);
    while i < h.buffer_alist.len()
        invariant
            i <= h.buffer_alist@.len(),
            alist_lookup(h.buffer_alist@, name) == alist_lookup(
                h.buffer_alist@.skip(i as int),
                name,
            ),
        decreases h.buffer_alist@.len() - i,
    {
        assert(h.buffer_alist@.skip(i as int).drop_first() == h.buffer_alist@.skip(i + 1));
        if h.buffer_alist[i].0 == name {
            return Some(h.buffer_alist[i].1);
        }
        i = i + 1;
    }
    None
}

/// A buffer, or the name of one.
#[derive(Clone, Copy, PartialEq, Eq, Structural, Debug)]
pub enum LispBufferOrName {
    Buffer(LispObject),
    Name(LispObject),
}

impl LispBufferOrName {
    /// A string names a buffer, a buffer stands for itself; any other
    /// object is a wrong-type error.
    pub fn from_lisp(v: LispObject) -> (r: Result<LispBufferOrName, LispError>)
        ensures
            r == if v is Str {
                Ok(LispBufferOrName::Name(v))
            } else if v is Buffer {
                Ok(LispBufferOrName::Buffer(v))
            } else {
                Err(LispError::WrongType(QBUFFERP, v))
            },
    {
        if v.is_string() {
            Ok(LispBufferOrName::Name(v))
        } else {
            match v.as_buffer_or_error() {
                Ok(_) => Ok(LispBufferOrName::Buffer(v)),
                Err(e) => Err(e),
            }
        }
    }

    /// Like `from_lisp`, where nil and other objects give `None`.
    pub fn from_optional(v: LispObject) -> (r: Option<LispBufferOrName>)
        ensures
            r == if v is Str {
                Some(LispBufferOrName::Name(v))
            } else if v is Buffer {
                Some(LispBufferOrName::Buffer(v))
            } else {
                None
            },
    {
        if v.is_nil() {
            None
        } else if v.is_string() {
            Some(LispBufferOrName::Name(v))
        } else if v.is_buffer() {
            Some(LispBufferOrName::Buffer(v))
        } else {
            None
        }
    }

    /// The object this was made from.
    pub open spec fn object(self) -> LispObject {
        match self {
            LispBufferOrName::Buffer(b) => b,
            LispBufferOrName::Name(n) => n,
        }
    }

    /// The buffer this stands for in `h`, if any.
    pub open spec fn buffer_in(self, h: &Heap) -> Option<LispBufferRef> {
        match self {
            LispBufferOrName::Buffer(b) => b.buffer_of(),
            LispBufferOrName::Name(n) => alist_lookup(h.buffer_alist@, n),
        }
    }

    /// The object this was made from.
    pub fn to_lisp(self) -> (r: LispObject)
        ensures
            r == self.object(),
    {
        match self {
            LispBufferOrName::Buffer(b) => b,
            LispBufferOrName::Name(n) => n,
        }
    }

    /// The buffer: the object itself, or the one listed under the name.
    pub fn as_buffer(self, h: &Heap) -> (r: Option<LispBufferRef>)
        ensures
            r == self.buffer_in(h),
    {
        match self {
            LispBufferOrName::Buffer(b) => b.as_buffer(),
            LispBufferOrName::Name(n) => assoc_ignore_text_properties(h, n),
        }
    }

    /// The current buffer where the object is nil, else the buffer the
    /// object is (`None` for a name).
    pub fn as_buffer_or_current_buffer(self, h: &Heap) -> (r: Option<LispBufferRef>)
        ensures
            r == if self.object() == LispObject::Nil {
                Some(h.current)
            } else {
                self.object().buffer_of()
            },
    {
        let obj = self.to_lisp();
        if obj.is_nil() {
            Some(h.current)
        } else {
            obj.as_buffer()
        }
    }

    /// The buffer, or the error for an argument that names none.
    pub fn to_buffer(self, h: &Heap) -> (r: Result<LispBufferRef, LispError>)
        ensures
            r == match self.buffer_in(h) {
                Some(b) => Ok(b),
                None => Err(no_such_buffer(self.object())),
            },
    {
        match self.as_buffer(h) {
            Some(b) => Ok(b),
            None => Err(nsberror(self.to_lisp())),
        }
    }
}

/// A buffer argument where nil stands for the current buffer.
#[derive(Clone, Copy, PartialEq, Eq, Structural, Debug)]
pub struct LispBufferOrCurrent(pub LispBufferRef);

impl LispBufferOrCurrent {
    pub fn from_lisp(h: &Heap, obj: LispObject) -> (r: Result<LispBufferOrCurrent, LispError>)
        ensures
            r == match obj {
                LispObject::Nil => Ok(LispBufferOrCurrent(h.current)),
                LispObject::Buffer(b) => Ok(LispBufferOrCurrent(b)),
                _ => Err(LispError::WrongType(QBUFFERP, obj)),
            },
    {
        match obj.as_buffer_or_current_buffer(h) {
            Ok(b) => Ok(LispBufferOrCurrent(b)),
            Err(e) => Err(e),
        }
    }

    pub fn unwrap(self) -> (r: LispBufferRef)
        ensures
            r == self.0,
    {
        self.0
    }
}

/// The binding record of a buffer-local variable: where its value lives,
/// and the cell that holds the binding currently loaded.
#[derive(Clone, Copy, Debug)]
pub struct LispBufferLocalValueRef {
    pub fwd: usize,
    pub valcell: (LispObject, LispObject),
}

impl LispBufferLocalValueRef {
    pub fn get_fwd(self) -> (r: usize)
        ensures
            r == self.fwd,
    {
        self.fwd
    }

    /// The value in the loaded binding.
    pub fn get_value(self) -> (r: LispObject)
        ensures
            r == self.valcell.1,
    {
        self.valcell.1
    }
}

/// Whether `object` is a buffer that has not been killed.
pub fn buffer_live_p(h: &Heap, object: Option<LispBufferRef>) -> (r: bool)
    requires
        object matches Some(b) ==> h.has_buffer(b),
    ensures
        r == match object {
            Some(b) => h.buf(b).name_ != LispObject::Nil,
            None => false,
        },
{
    match object {
        Some(b) => b.is_live(h),
        None => false,
    }
}

/// The buffer named by `buffer_or_name`; a buffer is returned as given.
pub fn get_buffer(h: &Heap, buffer_or_name: LispBufferOrName) -> (r: Option<LispBufferRef>)
    ensures
        r == buffer_or_name.buffer_in(h),
{
    buffer_or_name.as_buffer(h)
}

/// The current buffer, as an object.
pub fn current_buffer(h: &Heap) -> (r: LispObject)
    ensures
        r == LispObject::Buffer(h.current),
{
    h.current.as_lisp_obj()
}

/// The name of the file `buffer` visits, nil if none.
pub fn buffer_file_name(h: &Heap, buffer: LispBufferOrCurrent) -> (r: LispObject)
    requires
        h.has_buffer(buffer.0),
    ensures
        r == h.buf(buffer.0).filename_,
{
    buffer.unwrap().filename(h)
}

/// Whether `buffer` was modified since its file was last read or saved.
pub fn buffer_modified_p(h: &Heap, buffer: LispBufferOrCurrent) -> (r: bool)
    requires
        h.has_buffer(buffer.0),
    ensures
        r == (h.buf(buffer.0).text.save_modiff < h.buf(buffer.0).text.modiff),
{
    let buf = buffer.unwrap();
    buf.modifications_since_save(h) < buf.modifications(h)
}

/// The name of `buffer`; nil once it is killed.
pub fn buffer_name(h: &Heap, buffer: LispBufferOrCurrent) -> (r: LispObject)
    requires
        h.has_buffer(buffer.0),
    ensures
        r == h.buf(buffer.0).name_,
{
    buffer.unwrap().name(h)
}

/// The tick counter of `buffer`, which counts changes to its text.
pub fn buffer_modified_tick(h: &Heap, buffer: LispBufferOrCurrent) -> (r: i64)
    requires
        h.has_buffer(buffer.0),
    ensures
        r == h.buf(buffer.0).text.modiff,
{
    buffer.unwrap().modifications(h)
}

/// The character-change tick counter of `buffer`.
pub fn buffer_chars_modified_tick(h: &Heap, buffer: LispBufferOrCurrent) -> (r: i64)
    requires
        h.has_buffer(buffer.0),
    ensures
        r == h.buf(buffer.0).text.chars_modiff,
{
    buffer.unwrap().char_modifications(h)
}

/// The base buffer of the indirect buffer `buffer`; `None` if it is not
/// indirect.
pub fn buffer_base_buffer(h: &Heap, buffer: LispBufferOrCurrent) -> (r: Option<LispBufferRef>)
    requires
        h.has_buffer(buffer.0),
    ensures
        r == h.buf(buffer.0).base_buffer,
{
    buffer.unwrap().base_buffer(h)
}

/// Deletes every overlay of `buffer`.
pub fn delete_all_overlays_lisp(h: &mut Heap, buffer: LispBufferOrCurrent)
    requires
        old(h).wf(),
        old(h).has_buffer(buffer.0),
    ensures
        final(h).wf(),
        Heap::overlays_cleared(old(h), final(h), buffer.0),
{
    delete_all_overlays(h, buffer.unwrap())
}

/// Makes the buffer `buffer_or_name` current and returns it. An error,
/// and no change, where it names no buffer or the buffer is killed.
pub fn set_buffer(h: &mut Heap, buffer_or_name: LispBufferOrName) -> (r: Result<
    LispBufferRef,
    LispError,
>)
    requires
        old(h).wf(),
        buffer_or_name.buffer_in(old(h)) matches Some(b) ==> old(h).has_buffer(b),
    ensures
        final(h).wf(),
        match buffer_or_name.buffer_in(old(h)) {
            None => r == Err::<LispBufferRef, LispError>(no_such_buffer(buffer_or_name.object()))
                && *final(h) == *old(h),
            Some(b) => if old(h).buf(b).name_ == LispObject::Nil {
                r == Err::<LispBufferRef, LispError>(LispError::SelectingDeletedBuffer)
                    && *final(h) == *old(h)
            } else {
                r == Ok::<LispBufferRef, LispError>(b) && *final(h) == (Heap {
                    current: b,
                    ..*old(h)
                })
            },
        },
{
    let buffer = match buffer_or_name.to_buffer(h) {
        Ok(b) => b,
        Err(e) => {
            return Err(e);
        },
    };
    if !buffer.is_live(h) {
        return Err(LispError::SelectingDeletedBuffer);
    }
    h.current = buffer;
    proof {
        crate::buffers::lemma_same_index_keeps_overlays_wf(old(h), h);
    }
    Ok(buffer)
}

/// Signals that the current buffer is read-only, unless read-only is
/// inhibited everywhere (`inhibit_read_only`) or at the position in
/// question (`inhibit_at_pos`, the text property there).
pub fn barf_if_buffer_read_only(h: &Heap, inhibit_read_only: bool, inhibit_at_pos: LispObject) -> (r:
    Result<(), LispError>)
    requires
        h.wf(),
    ensures
        r == if h.buf(h.current).read_only_ != LispObject::Nil && !inhibit_read_only
            && inhibit_at_pos == LispObject::Nil {
            Err::<(), LispError>(LispError::BufferReadOnly(h.current))
        } else {
            Ok::<(), LispError>(())
        },
{
    if h.current.is_read_only(h) && !inhibit_read_only && inhibit_at_pos.is_nil() {
        return Err(LispError::BufferReadOnly(h.current));
    }
    Ok(())
}

/// The position that a region bound stands for: an integer itself, a
/// marker its character position; an error for a marker that points
/// nowhere or for any other object.
pub open spec fn bound_position(h: &Heap, x: LispObject) -> Result<i64, LispError> {
    match x {
        LispObject::Fixnum(n) => Ok(n),
        LispObject::Marker(id) => if h.markers@[id as int].buffer.is_some() {
            Ok(h.markers@[id as int].charpos as i64)
        } else {
            Err(LispError::MarkerDoesNotPointAnywhere(x))
        },
        _ => Err(LispError::WrongType(QINTEGER_OR_MARKER_P, x)),
    }
}

/// Whether every marker among `x` is in the marker table.
pub open spec fn marker_known(h: &Heap, x: LispObject) -> bool {
    x matches LispObject::Marker(id) ==> id < h.markers@.len()
}

/// The position that the region bound `x` stands for.
fn fixnum_coerce_marker(h: &Heap, x: LispObject) -> (r: Result<i64, LispError>)
    requires
        marker_known(h, x),
    ensures
        r == bound_position(h, x),
{
    match x {
        LispObject::Fixnum(n) => Ok(n),
        LispObject::Marker(id) => {
            let m = h.markers[id];
            if m.buffer.is_some() {
                Ok(m.charpos as i64)
            } else {
                Err(LispError::MarkerDoesNotPointAnywhere(x))
            }
        },
        _ => Err(LispError::WrongType(QINTEGER_OR_MARKER_P, x)),
    }
}

/// Orders the region bounds `b` and `e` (integers or markers) and checks
/// that they lie in the accessible part of the current buffer. Both are
/// replaced by their ordered positions before the check; a bound that
/// stands for no position leaves both as they were.
pub fn validate_region(h: &Heap, b: &mut LispObject, e: &mut LispObject) -> (r: Result<
    (),
    LispError,
>)
    requires
        h.wf(),
        marker_known(h, *old(b)),
        marker_known(h, *old(e)),
    ensures
        match (bound_position(h, *old(b)), bound_position(h, *old(e))) {
            (Ok(x), Ok(y)) => {
                let lo = if x <= y {
                    x
                } else {
                    y
                };
                let hi = if x <= y {
                    y
                } else {
                    x
                };
                &&& *final(b) == LispObject::Fixnum(lo)
                &&& *final(e) == LispObject::Fixnum(hi)
                &&& r == if h.buf(h.current).begv <= lo && hi <= h.buf(h.current).zv {
                    Ok::<(), LispError>(())
                } else {
                    Err(LispError::ArgsOutOfRange(*old(b), *old(e)))
                }
            },
            (Err(err), _) => r == Err::<(), LispError>(err) && *final(b) == *old(b) && *final(e)
                == *old(e),
            (Ok(_), Err(err)) => r == Err::<(), LispError>(err) && *final(b) == *old(b)
                && *final(e) == *old(e),
        },
{
    let start = *b;
    let stop = *e;
    let mut lo = match fixnum_coerce_marker(h, start) {
        Ok(x) => x,
        Err(err) => {
            return Err(err);
        },
    };
    let mut hi = match fixnum_coerce_marker(h, stop) {
        Ok(y) => y,
        Err(err) => {
            return Err(err);
        },
    };
    if lo > hi {
        let t = lo;
        lo = hi;
        hi = t;
    }
    *b = LispObject::Fixnum(lo);
    *e = LispObject::Fixnum(hi);
    let buf = &h.buffers[h.current.id];
    let begv = buf.begv as i64;
    let zv = buf.zv as i64;
    if !(begv <= lo && hi <= zv) {
        return Err(LispError::ArgsOutOfRange(start, stop));
    }
    Ok(())
}

/// The first live buffer, in the order of the buffer list, whose file
/// name (`truename`: its true name) is the string `file`.
fn find_visiting(h: &Heap, file: LispObject, truename: bool) -> (r: Option<LispBufferRef>)
    requires
        h.wf(),
    ensures
        r == h.visiting(h.buffer_alist@, file, truename),
{
    let mut i: usize = 0;
    assert(h.buffer_alist@.skip(0) == h.buffer_alist@);
    while i < h.buffer_alist.len()
        invariant
            h.wf(),
            i <= h.buffer_alist@.len(),
            h.visiting(h.buffer_alist@, file, truename) == h.visiting(
                h.buffer_alist@.skip(i as int),
                file,
                truename,
            ),
        decreases h.buffer_alist@.len() - i,
    {
        assert(h.buffer_alist@.skip(i as int).drop_first() == h.buffer_alist@.skip(i + 1));
        let b = h.buffer_alist[i].1;
        assert(h.has_buffer(h.buffer_alist@[i as int].1));
        let name = if truename {
            b.truename(h)
        } else {
            b.filename(h)
        };
        if b.is_live(h) && name.is_string() && name == file {
            return Some(b);
        }
        i = i + 1;
    }
    None
}

/// The live buffer whose true file name is `filename`, as an object; nil
/// if there is none.
pub fn get_truename_buffer(h: &Heap, filename: LispObject) -> (r: LispObject)
    requires
        h.wf(),
    ensures
        r == match h.visiting(h.buffer_alist@, filename, true) {
            Some(b) => LispObject::Buffer(b),
            None => LispObject::Nil,
        },
{
    match find_visiting(h, filename, true) {
        Some(b) => b.as_lisp_obj(),
        None => LispObject::Nil,
    }
}

/// The live buffer visiting the file `filename` (already expanded); a
/// wrong-type error where `filename` is not a string.
pub fn get_file_buffer(h: &Heap, filename: LispObject) -> (r: Result<
    Option<LispBufferRef>,
    LispError,
>)
    requires
        h.wf(),
    ensures
        r == if filename is Str {
            Ok::<Option<LispBufferRef>, LispError>(h.visiting(h.buffer_alist@, filename, false))
        } else {
            Err(LispError::WrongType(QSTRINGP, filename))
        },
{
    if !filename.is_string() {
        return Err(LispError::WrongType(QSTRINGP, filename));
    }
    Ok(find_visiting(h, filename, false))
}

/// The buffer lists of a frame: the buffers shown in it, most recent
/// first, and those buried in it.
pub struct FrameBufferLists {
    pub buffer_list: Vec<LispObject>,
    pub buried_buffer_list: Vec<LispObject>,
}

/// The buffers of `alist`, in order, but for those in `a` or in `b`.
pub open spec fn unlisted(
    alist: Seq<(LispObject, LispBufferRef)>,
    a: Seq<LispObject>,
    b: Seq<LispObject>,
) -> Seq<LispObject>
    decreases alist.len(),
{
    if alist.len() == 0 {
        Seq::empty()
    } else {
        let rest = unlisted(alist.drop_last(), a, b);
        let x = LispObject::Buffer(alist.last().1);
        if a.contains(x) || b.contains(x) {
            rest
        } else {
            rest.push(x)
        }
    }
}

/// Whether `x` is an element of `v`.
fn member(x: LispObject, v: &Vec<LispObject>) -> (r: bool)
    ensures
        r == v@.contains(x),
{
    let mut i: usize = 0;
    while i < v.len()
        invariant
            i <= v@.len(),
            forall|j: int| 0 <= j < i ==> v@[j] != x,
        decreases v@.len() - i,
    {
        if v[i] == x {
            return true;
        }
        i = i + 1;
    }
    false
}

/// All buffers, in the order of the buffer list. For a frame: first the
/// buffers shown in it, then the other buffers, then those buried in it,
/// last buried first.
pub fn buffer_list(h: &Heap, frame: Option<&FrameBufferLists>) -> (r: Vec<LispObject>)
    ensures
        r@ == match frame {
            None => unlisted(h.buffer_alist@, Seq::empty(), Seq::empty()),
            Some(f) => f.buffer_list@ + unlisted(h.buffer_alist@, f.buffer_list@, f.buried_buffer_list@)
                + f.buried_buffer_list@.reverse(),
        },
{
    let empty: Vec<LispObject> = Vec::new();
    let (framelist, prevlist) = match frame {
        None => (&empty, &empty),
        Some(f) => (&f.buffer_list, &f.buried_buffer_list),
    };
    let mut out: Vec<LispObject> = Vec::new();
    let mut i: usize = 0;
    if frame.is_some() {
        while i < framelist.len()
            invariant
                i <= framelist@.len(),
                out@ == framelist@.subrange(0, i as int),
            decreases framelist@.len() - i,
        {
            out.push(framelist[i]);
            i = i + 1;
            assert(out@ =~= framelist@.subrange(0, i as int));
        }
        assert(out@ =~= framelist@);
    }
    let ghost head = out@;
    let mut k: usize = 0;
    while k < h.buffer_alist.len()
        invariant
            k <= h.buffer_alist@.len(),
            out@ == head + unlisted(h.buffer_alist@.subrange(0, k as int), framelist@, prevlist@),
        decreases h.buffer_alist@.len() - k,
    {
        proof {
            assert(h.buffer_alist@.subrange(0, k + 1).drop_last() =~= h.buffer_alist@.subrange(
                0,
                k as int,
            ));
        }
        let x = LispObject::Buffer(h.buffer_alist[k].1);
        if !member(x, framelist) && !member(x, prevlist) {
            out.push(x);
        }
        k = k + 1;
        assert(out@ =~= head + unlisted(
            h.buffer_alist@.subrange(0, k as int),
            framelist@,
            prevlist@,
        ));
    }
    assert(h.buffer_alist@.subrange(0, h.buffer_alist@.len() as int) =~= h.buffer_alist@);
    let ghost middle = out@;
    if frame.is_some() {
        let mut j: usize = prevlist.len();
        while j > 0
            invariant
                j <= prevlist@.len(),
                out@ == middle + prevlist@.subrange(j as int, prevlist@.len() as int).reverse(),
            decreases j,
        {
            j = j - 1;
            out.push(prevlist[j]);
            assert(out@ =~= middle + prevlist@.subrange(j as int, prevlist@.len() as int).reverse());
        }
        assert(prevlist@.subrange(0, prevlist@.len() as int) =~= prevlist@);
    } else {
        assert(out@ =~= head + unlisted(h.buffer_alist@, Seq::empty(), Seq::empty()));
    }
    out
}

/// The value of `variable` in a buffer, given what looking up its binding
/// there found (`binding`: the buffer-local value, or the default one); a
/// void-variable error where it is unbound.
pub fn buffer_local_value_lisp(variable: LispObject, binding: LispObject) -> (r: Result<
    LispObject,
    LispError,
>)
    ensures
        r == if binding == LispObject::Symbol(QUNBOUND) {
            Err::<LispObject, LispError>(LispError::VoidVariable(variable))
        } else {
            Ok(binding)
        },
{
    if binding == LispObject::Symbol(QUNBOUND) {
        return Err(LispError::VoidVariable(variable));
    }
    Ok(binding)
}

} // verus!
