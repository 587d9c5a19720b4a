//! Reading and setting the fields of a buffer through its handle.
use vstd::prelude::*;

use crate::buffers::{
    lemma_replace_buffer_keeps_wf, lemma_same_index_keeps_overlays_wf, Buffer, Heap, LispBufferRef,
    LispCharTableRef, LispObject, LispOverlayRef, MAX_PER_BUFFER_VARS,
};
use crate::text::BufferText;
use crate::{BEG, BEG_BYTE};

verus! {

/// Value of point of the current buffer, in bytes.
pub fn point_byte(h: &Heap) -> (r: i64)
    requires
        h.wf(),
    ensures
        r == h.buf(h.current).pt_byte,
{
    h.buffers[h.current.id].pt_byte as i64
}

/// The smallest accessible byte position of the current buffer: 1 unless
/// the buffer is narrowed.
pub fn point_min_byte(h: &Heap) -> (r: i64)
    requires
        h.wf(),
    ensures
        r == h.buf(h.current).begv_byte,
{
    h.buffers[h.current.id].begv_byte as i64
}

impl LispBufferRef {
    /// The text of this buffer.
    pub open spec fn txt(self, h: &Heap) -> BufferText {
        h.buf(self).text
    }

    pub fn as_lisp_obj(self) -> (r: LispObject)
        ensures
            r == LispObject::Buffer(self),
    {
        LispObject::Buffer(self)
    }

    pub fn is_read_only(self, h: &Heap) -> (r: bool)
        requires
            h.wf(),
            h.has_buffer(self),
        ensures
            r == (h.buf(self).read_only_ != LispObject::Nil),
    {
        h.buffers[self.id].read_only_ != LispObject::Nil
    }

    pub fn beg(self) -> (r: isize)
        ensures
            r == BEG,
    {
        BEG
    }

    pub fn beg_byte(self) -> (r: isize)
        ensures
            r == BEG_BYTE,
    {
        BEG_BYTE
    }

    /// Storage index of the start of the gap.
    pub fn gap_start_addr(self, h: &Heap) -> (r: usize)
        requires
            h.wf(),
            h.has_buffer(self),
        ensures
            r == self.txt(h).gpt_byte - BEG_BYTE,
    {
        proof {
            assert(h.buffers@[self.id as int].wf());
        }
        h.buffers[self.id].text.gap_start_addr()
    }

    /// Storage index of the first byte after the gap.
    pub fn gap_end_addr(self, h: &Heap) -> (r: usize)
        requires
            h.wf(),
            h.has_buffer(self),
        ensures
            r == self.txt(h).gpt_byte + self.txt(h).gap_size - BEG_BYTE,
    {
        proof {
            assert(h.buffers@[self.id as int].wf());
        }
        h.buffers[self.id].text.gap_end_addr()
    }

    /// Storage index of the end of the text.
    pub fn z_addr(self, h: &Heap) -> (r: usize)
        requires
            h.wf(),
            h.has_buffer(self),
        ensures
            r == self.txt(h).gap_size + self.txt(h).z_byte - BEG_BYTE,
    {
        proof {
            assert(h.buffers@[self.id as int].wf());
        }
        h.buffers[self.id].text.z_addr()
    }

    pub fn mark_active(self, h: &Heap) -> (r: LispObject)
        requires
            h.has_buffer(self),
        ensures
            r == h.buf(self).mark_active_,
    {
        h.buffers[self.id].mark_active_
    }

    pub fn pt_marker(self, h: &Heap) -> (r: LispObject)
        requires
            h.has_buffer(self),
        ensures
            r == h.buf(self).pt_marker_,
    {
        h.buffers[self.id].pt_marker_
    }

    pub fn begv_marker(self, h: &Heap) -> (r: LispObject)
        requires
            h.has_buffer(self),
        ensures
            r == h.buf(self).begv_marker_,
    {
        h.buffers[self.id].begv_marker_
    }

    pub fn zv_marker(self, h: &Heap) -> (r: LispObject)
        requires
            h.has_buffer(self),
        ensures
            r == h.buf(self).zv_marker_,
    {
        h.buffers[self.id].zv_marker_
    }

    pub fn mark(self, h: &Heap) -> (r: LispObject)
        requires
            h.has_buffer(self),
        ensures
            r == h.buf(self).mark_,
    {
        h.buffers[self.id].mark_
    }

    pub fn name(self, h: &Heap) -> (r: LispObject)
        requires
            h.has_buffer(self),
        ensures
            r == h.buf(self).name_,
    {
        h.buffers[self.id].name_
    }

    pub fn filename(self, h: &Heap) -> (r: LispObject)
        requires
            h.has_buffer(self),
        ensures
            r == h.buf(self).filename_,
    {
        h.buffers[self.id].filename_
    }

    pub fn base_buffer(self, h: &Heap) -> (r: Option<LispBufferRef>)
        requires
            h.has_buffer(self),
        ensures
            r == h.buf(self).base_buffer,
    {
        h.buffers[self.id].base_buffer
    }

    pub fn truename(self, h: &Heap) -> (r: LispObject)
        requires
            h.has_buffer(self),
        ensures
            r == h.buf(self).file_truename_,
    {
        h.buffers[self.id].file_truename_
    }

    pub fn case_fold_search(self, h: &Heap) -> (r: LispObject)
        requires
            h.has_buffer(self),
        ensures
            r == h.buf(self).case_fold_search_,
    {
        h.buffers[self.id].case_fold_search_
    }

    /// A buffer is live until it is killed, which clears its name.
    pub fn is_live(self, h: &Heap) -> (r: bool)
        requires
            h.has_buffer(self),
        ensures
            r == (h.buf(self).name_ != LispObject::Nil),
    {
        h.buffers[self.id].name_ != LispObject::Nil
    }

    /// This buffer if it is live.
    pub fn as_live(self, h: &Heap) -> (r: Option<LispBufferRef>)
        requires
            h.has_buffer(self),
        ensures
            r == (if h.buf(self).name_ != LispObject::Nil {
                Some(self)
            } else {
                None
            }),
    {
        if self.is_live(h) {
            Some(self)
        } else {
            None
        }
    }

    /// Sets point, as a character and a byte position.
    pub fn set_pt_both(self, h: &mut Heap, charpos: isize, byte: isize)
        requires
            old(h).wf(),
            old(h).has_buffer(self),
            old(h).buf(self).begv <= charpos <= old(h).buf(self).zv,
            old(h).buf(self).begv_byte <= byte <= old(h).buf(self).zv_byte,
        ensures
            final(h).wf(),
            final(h).same_but_buffers(old(h)),
            final(h).buffers@ == old(h).buffers@.update(
                self.id as int,
                (Buffer { pt: charpos, pt_byte: byte, ..old(h).buf(self) }),
            ),
    {
        proof {
            assert(h.buffers@[self.id as int].wf());
        }
        h.buffers[self.id].pt = charpos;
        h.buffers[self.id].pt_byte = byte;
        proof {
            assert(h.buffers@ =~= old(h).buffers@.update(
                self.id as int,
                (Buffer { pt: charpos, pt_byte: byte, ..old(h).buf(self) }),
            ));
            lemma_replace_buffer_keeps_wf(old(h), h, self);
        }
    }

    /// Sets the start of the accessible region.
    pub fn set_begv_both(self, h: &mut Heap, charpos: isize, byte: isize)
        requires
            old(h).wf(),
            old(h).has_buffer(self),
            1 <= charpos <= old(h).buf(self).pt,
            1 <= byte <= old(h).buf(self).pt_byte,
        ensures
            final(h).wf(),
            final(h).same_but_buffers(old(h)),
            final(h).buffers@ == old(h).buffers@.update(
                self.id as int,
                (Buffer { begv: charpos, begv_byte: byte, ..old(h).buf(self) }),
            ),
    {
        proof {
            assert(h.buffers@[self.id as int].wf());
        }
        h.buffers[self.id].begv = charpos;
        h.buffers[self.id].begv_byte = byte;
        proof {
            assert(h.buffers@ =~= old(h).buffers@.update(
                self.id as int,
                (Buffer { begv: charpos, begv_byte: byte, ..old(h).buf(self) }),
            ));
            lemma_replace_buffer_keeps_wf(old(h), h, self);
        }
    }

    /// Sets the end of the accessible region.
    pub fn set_zv_both(self, h: &mut Heap, charpos: isize, byte: isize)
        requires
            old(h).wf(),
            old(h).has_buffer(self),
            old(h).buf(self).pt <= charpos <= old(h).buf(self).text.z,
            old(h).buf(self).pt_byte <= byte <= old(h).buf(self).text.z_byte,
        ensures
            final(h).wf(),
            final(h).same_but_buffers(old(h)),
            final(h).buffers@ == old(h).buffers@.update(
                self.id as int,
                (Buffer { zv: charpos, zv_byte: byte, ..old(h).buf(self) }),
            ),
    {
        proof {
            assert(h.buffers@[self.id as int].wf());
        }
        h.buffers[self.id].zv = charpos;
        h.buffers[self.id].zv_byte = byte;
        proof {
            assert(h.buffers@ =~= old(h).buffers@.update(
                self.id as int,
                (Buffer { zv: charpos, zv_byte: byte, ..old(h).buf(self) }),
            ));
            lemma_replace_buffer_keeps_wf(old(h), h, self);
        }
    }

    pub fn set_syntax_table(self, h: &mut Heap, table: LispCharTableRef)
        requires
            old(h).wf(),
            old(h).has_buffer(self),
        ensures
            final(h).wf(),
            final(h).same_but_buffers(old(h)),
            final(h).buffers@ == old(h).buffers@.update(
                self.id as int,
                (Buffer { syntax_table_: LispObject::CharTable(table), ..old(h).buf(self) }),
            ),
    {
        proof {
            assert(h.buffers@[self.id as int].wf());
        }
        h.buffers[self.id].syntax_table_ = LispObject::CharTable(table);
        proof {
            assert(h.buffers@ =~= old(h).buffers@.update(
                self.id as int,
                (Buffer { syntax_table_: LispObject::CharTable(table), ..old(h).buf(self) }),
            ));
            lemma_replace_buffer_keeps_wf(old(h), h, self);
        }
    }
}

impl LispBufferRef {
    pub fn multibyte_characters_enabled(self, h: &Heap) -> (r: bool)
        requires
            h.has_buffer(self),
        ensures
            r == (h.buf(self).enable_multibyte_characters_ != LispObject::Nil),
    {
        h.buffers[self.id].enable_multibyte_characters_ != LispObject::Nil
    }

    /// The offset that skips the gap for byte position `pos`.
    pub fn pos_within_range(self, h: &Heap, pos: isize) -> (r: isize)
        requires
            h.has_buffer(self),
        ensures
            r == self.txt(h).gap_offset(pos as int),
            pos >= self.txt(h).gpt_byte ==> r == self.txt(h).gap_size,
            pos < self.txt(h).gpt_byte ==> r == 0,
    {
        h.buffers[self.id].text.pos_within_range(pos)
    }

    /// Storage index of byte position `n`, without regard to the gap.
    pub fn byte_pos_addr(self, h: &Heap, n: isize) -> (r: usize)
        requires
            h.wf(),
            h.has_buffer(self),
            1 <= n <= self.txt(h).beg@.len() + 1,
        ensures
            r == n - BEG_BYTE,
    {
        proof {
            assert(h.buffers@[self.id as int].wf());
        }
        h.buffers[self.id].text.byte_pos_addr(n)
    }

    /// The byte at byte position `byte_pos`, skipping the gap.
    pub fn buf_byte_address(self, h: &Heap, byte_pos: isize) -> (r: u8)
        requires
            h.wf(),
            h.has_buffer(self),
            1 <= byte_pos <= self.txt(h).z_byte,
        ensures
            r == self.txt(h).byte_at(byte_pos as int),
    {
        proof {
            assert(h.buffers@[self.id as int].wf());
        }
        h.buffers[self.id].text.fetch_byte(byte_pos)
    }

    /// The byte at byte position `n`.
    pub fn fetch_byte(self, h: &Heap, n: isize) -> (r: u8)
        requires
            h.wf(),
            h.has_buffer(self),
            1 <= n <= self.txt(h).z_byte,
        ensures
            r == self.txt(h).byte_at(n as int),
    {
        proof {
            assert(h.buffers@[self.id as int].wf());
        }
        h.buffers[self.id].text.fetch_byte(n)
    }

    /// The character code of the multibyte form at byte position `n`, or
    /// the byte there where no valid form starts at `n`.
    pub fn fetch_multibyte_char(self, h: &Heap, n: isize) -> (r: u32)
        requires
            h.wf(),
            h.has_buffer(self),
            1 <= n <= self.txt(h).z_byte,
        ensures
            r == self.txt(h).char_at(n as int),
    {
        proof {
            assert(h.buffers@[self.id as int].wf());
        }
        h.buffers[self.id].text.fetch_multibyte_char(n)
    }

    /// The character at byte position `n`: decoded in a multibyte buffer,
    /// the byte itself otherwise.
    pub fn fetch_char(self, h: &Heap, n: isize) -> (r: u32)
        requires
            h.wf(),
            h.has_buffer(self),
            1 <= n <= self.txt(h).z_byte,
        ensures
            r == if h.buf(self).enable_multibyte_characters_ != LispObject::Nil {
                self.txt(h).char_at(n as int)
            } else {
                self.txt(h).byte_at(n as int) as int
            },
    {
        if self.multibyte_characters_enabled(h) {
            self.fetch_multibyte_char(h, n)
        } else {
            self.fetch_byte(h, n) as u32
        }
    }

    /// The position after the character at `pos_byte`.
    pub fn inc_pos(self, h: &Heap, pos_byte: isize) -> (r: isize)
        requires
            h.wf(),
            h.has_buffer(self),
            1 <= pos_byte <= self.txt(h).z_byte,
        ensures
            r == self.txt(h).next_boundary(pos_byte as int),
    {
        proof {
            assert(h.buffers@[self.id as int].wf());
        }
        h.buffers[self.id].text.inc_pos(pos_byte)
    }

    /// The position of the character before `pos_byte`.
    pub fn dec_pos(self, h: &Heap, pos_byte: isize) -> (r: isize)
        requires
            h.wf(),
            h.has_buffer(self),
            1 < pos_byte <= self.txt(h).z_byte,
        ensures
            r == self.txt(h).prev_boundary(pos_byte as int),
    {
        proof {
            assert(h.buffers@[self.id as int].wf());
        }
        h.buffers[self.id].text.dec_pos(pos_byte)
    }

    /// Storage index of the beginning of the text.
    pub fn beg_addr(self) -> (r: usize)
        ensures
            r == 0,
    {
        0
    }

    pub fn gpt(self, h: &Heap) -> (r: isize)
        requires
            h.has_buffer(self),
        ensures
            r == self.txt(h).gpt,
    {
        h.buffers[self.id].text.gpt
    }

    pub fn gpt_byte(self, h: &Heap) -> (r: isize)
        requires
            h.has_buffer(self),
        ensures
            r == self.txt(h).gpt_byte,
    {
        h.buffers[self.id].text.gpt_byte
    }

    pub fn gap_size(self, h: &Heap) -> (r: isize)
        requires
            h.has_buffer(self),
        ensures
            r == self.txt(h).gap_size,
    {
        h.buffers[self.id].text.gap_size
    }

    pub fn gap_position(self, h: &Heap) -> (r: isize)
        requires
            h.has_buffer(self),
        ensures
            r == self.txt(h).gpt,
    {
        h.buffers[self.id].text.gpt
    }

    /// Number of modifications made to the buffer.
    pub fn modifications(self, h: &Heap) -> (r: i64)
        requires
            h.has_buffer(self),
        ensures
            r == self.txt(h).modiff,
    {
        h.buffers[self.id].text.modiff
    }

    /// Value of `modifications` when the buffer was last saved.
    pub fn modifications_since_save(self, h: &Heap) -> (r: i64)
        requires
            h.has_buffer(self),
        ensures
            r == self.txt(h).save_modiff,
    {
        h.buffers[self.id].text.save_modiff
    }

    /// Number of modifications to the buffer's characters.
    pub fn char_modifications(self, h: &Heap) -> (r: i64)
        requires
            h.has_buffer(self),
        ensures
            r == self.txt(h).chars_modiff,
    {
        h.buffers[self.id].text.chars_modiff
    }

    pub fn z_byte(self, h: &Heap) -> (r: isize)
        requires
            h.has_buffer(self),
        ensures
            r == self.txt(h).z_byte,
    {
        h.buffers[self.id].text.z_byte
    }

    pub fn z(self, h: &Heap) -> (r: isize)
        requires
            h.has_buffer(self),
        ensures
            r == self.txt(h).z,
    {
        h.buffers[self.id].text.z
    }

    /// The first overlay before the center, if any.
    pub fn overlays_before(self, h: &Heap) -> (r: Option<LispOverlayRef>)
        requires
            h.has_buffer(self),
        ensures
            r == if h.before(self).len() == 0 {
                None
            } else {
                Some(h.before(self)[0])
            },
    {
        if h.buffers[self.id].overlays_before.len() == 0 {
            None
        } else {
            Some(h.buffers[self.id].overlays_before[0])
        }
    }

    /// The first overlay after the center, if any.
    pub fn overlays_after(self, h: &Heap) -> (r: Option<LispOverlayRef>)
        requires
            h.has_buffer(self),
        ensures
            r == if h.after(self).len() == 0 {
                None
            } else {
                Some(h.after(self)[0])
            },
    {
        if h.buffers[self.id].overlays_after.len() == 0 {
            None
        } else {
            Some(h.buffers[self.id].overlays_after[0])
        }
    }

    /// Whether the per-buffer variable of slot `idx` has a local value in
    /// this buffer. Only slots that a variable was registered with may be
    /// asked about.
    pub fn value_p(self, h: &Heap, idx: isize) -> (r: bool)
        requires
            h.wf(),
            h.has_buffer(self),
            0 <= idx < h.last_per_buffer_idx,
        ensures
            r == (h.buf(self).local_flags@[idx as int] != 0),
    {
        proof {
            assert(h.buffers@[self.id as int].wf());
        }
        h.buffers[self.id].local_flags[idx as usize] != 0
    }

    /// Records whether the per-buffer variable of slot `idx` has a local
    /// value in this buffer (`val` zero: it has none). Only slots that a
    /// variable was registered with may be set.
    pub fn set_per_buffer_value_p(self, h: &mut Heap, idx: usize, val: u8)
        requires
            old(h).wf(),
            old(h).has_buffer(self),
            idx < old(h).last_per_buffer_idx,
        ensures
            final(h).wf(),
            final(h).same_but_buffers(old(h)),
            final(h).buffers@ == old(h).buffers@.update(
                self.id as int,
                (Buffer { local_flags: final(h).buf(self).local_flags, ..old(h).buf(self) }),
            ),
            final(h).buf(self).local_flags@ == old(h).buf(self).local_flags@.update(
                idx as int,
                val,
            ),
    {

        proof {
            assert(h.buffers@[self.id as int].wf());
        }
        h.buffers[self.id].local_flags.set(idx, val);
        proof {
            let h0 = old(h);
            assert(h.buffers@ =~= h0.buffers@.update(
                self.id as int,
                (Buffer { local_flags: h.buf(self).local_flags, ..h0.buf(self) }),
            ));
            assert forall|c: LispBufferRef| h0.has_buffer(c) implies #[trigger] h.listed(c)
                == h0.listed(c) && h.before(c) == h0.before(c) && h.after(c) == h0.after(c) by {
                if c != self {
                    assert(h.buffers@[c.id as int] == h0.buffers@[c.id as int]);
                }
            }
            assert forall|i: int| 0 <= i < h.buffers@.len() implies #[trigger] h.buffers@[i].wf() by {
                if i != self.id {
                    assert(h.buffers@[i] == h0.buffers@[i]);
                }
            }
            assert forall|i: int, k: int|
                0 <= i < h.buffers@.len() && h.last_per_buffer_idx <= k
                    < MAX_PER_BUFFER_VARS implies #[trigger] h.buffers@[i].local_flags@[k] == 0 by {
                assert(h0.buffers@[i].local_flags@[k] == 0);
            }
            assert forall|c: LispBufferRef, i: int| #![trigger h.before(c)[i]]
                h.has_buffer(c) && 0 <= i < h.before(c).len() implies h.has_overlay(
                    h.before(c)[i],
                ) && h.ovl(h.before(c)[i]).start.buffer == Some(c) by {
                assert(h.before(c) == h0.before(c));
            }
            assert forall|c: LispBufferRef, i: int| #![trigger h.after(c)[i]]
                h.has_buffer(c) && 0 <= i < h.after(c).len() implies h.has_overlay(
                    h.after(c)[i],
                ) && h.ovl(h.after(c)[i]).start.buffer == Some(c) by {
                assert(h.after(c) == h0.after(c));
            }
            assert forall|o: LispOverlayRef| #![trigger h.ovl(o)]
                h.has_overlay(o) && h.ovl(o).start.buffer.is_some() implies {
                    let c = h.ovl(o).start.buffer.unwrap();
                    h.has_buffer(c)
                } by {
                assert(h0.ovl(o) == h.ovl(o));
            }
        }
    }
}

impl Heap {
    /// Registers one more per-buffer variable slot and returns its index;
    /// no buffer has a local value for it yet. `None`, and no change, when
    /// every slot is taken.
    pub fn register_per_buffer_slot(&mut self) -> (r: Option<usize>)
        requires
            old(self).wf(),
        ensures
            final(self).wf(),
            old(self).last_per_buffer_idx == MAX_PER_BUFFER_VARS <==> r.is_none(),
            r.is_none() ==> *final(self) == *old(self),
            r.is_some() ==> r == Some(old(self).last_per_buffer_idx),
            r.is_some() ==> final(self).last_per_buffer_idx == old(self).last_per_buffer_idx + 1,
            r.is_some() ==> final(self).buffers@ == old(self).buffers@,
            r.is_some() ==> final(self).overlays@ == old(self).overlays@,
            r.is_some() ==> forall|b: LispBufferRef| #[trigger]
                final(self).has_buffer(b) ==> final(self).buf(b).local_flags@[r.unwrap() as int]
                    == 0,
    {
        if self.last_per_buffer_idx >= MAX_PER_BUFFER_VARS {
            return None;
        }
        let idx = self.last_per_buffer_idx;
        self.last_per_buffer_idx = idx + 1;
        proof {
            assert forall|b: LispBufferRef| #[trigger]
                self.has_buffer(b) implies self.buf(b).local_flags@[idx as int] == 0 by {
                assert(old(self).buffers@[b.id as int].local_flags@[idx as int] == 0);
            }
            assert(self.buffers_wf());
            lemma_same_index_keeps_overlays_wf(old(self), self);
        }
        Some(idx)
    }
}

/// An update for the marker system: point `marker` at the given position
/// of `buffer`.
#[derive(Clone, Copy, PartialEq, Eq, Structural, Debug)]
pub struct MarkerUpdate {
    pub marker: LispObject,
    pub buffer: LispBufferRef,
    pub charpos: isize,
    pub bytepos: isize,
}

/// Where buffer `b` keeps its point and region in markers while it is not
/// current, the updates that record point, the region start and the region
/// end in those markers, in that order; none where it keeps no markers.
pub fn record_buffer_markers(h: &Heap, b: LispBufferRef) -> (r: Vec<MarkerUpdate>)
    requires
        h.has_buffer(b),
        h.buf(b).pt_marker_ != LispObject::Nil ==> h.buf(b).begv_marker_ != LispObject::Nil
            && h.buf(b).zv_marker_ != LispObject::Nil,
    ensures
        r@ == if h.buf(b).pt_marker_ == LispObject::Nil {
            Seq::<MarkerUpdate>::empty()
        } else {
            seq![
                MarkerUpdate { marker: h.buf(b).pt_marker_, buffer: b, charpos: h.buf(b).pt, bytepos: h.buf(b).pt_byte },
                MarkerUpdate { marker: h.buf(b).begv_marker_, buffer: b, charpos: h.buf(b).begv, bytepos: h.buf(b).begv_byte },
                MarkerUpdate { marker: h.buf(b).zv_marker_, buffer: b, charpos: h.buf(b).zv, bytepos: h.buf(b).zv_byte },
            ]
        },
{
    let buf = &h.buffers[b.id];
    let mut r: Vec<MarkerUpdate> = Vec::new();
    if buf.pt_marker_ != LispObject::Nil {
        r.push(MarkerUpdate { marker: buf.pt_marker_, buffer: b, charpos: buf.pt, bytepos: buf.pt_byte });
        r.push(
            MarkerUpdate {
                marker: buf.begv_marker_,
                buffer: b,
                charpos: buf.begv,
                bytepos: buf.begv_byte,
            },
        );
        r.push(MarkerUpdate { marker: buf.zv_marker_, buffer: b, charpos: buf.zv, bytepos: buf.zv_byte });
    }
    proof {
        if h.buf(b).pt_marker_ == LispObject::Nil {
            assert(r@ =~= Seq::<MarkerUpdate>::empty());
        }
    }
    r
}

/// Where buffer `b` keeps its point and region in markers, takes them back
/// from the markers' positions `pt`, `begv` and `zv` (each a character and
/// a byte position); else changes nothing.
pub fn fetch_buffer_markers(
    h: &mut Heap,
    b: LispBufferRef,
    pt: (isize, isize),
    begv: (isize, isize),
    zv: (isize, isize),
)
    requires
        old(h).wf(),
        old(h).has_buffer(b),
        old(h).buf(b).pt_marker_ != LispObject::Nil ==> {
            &&& old(h).buf(b).begv_marker_ != LispObject::Nil
            &&& old(h).buf(b).zv_marker_ != LispObject::Nil
            &&& 1 <= begv.0 <= pt.0 <= zv.0 <= old(h).buf(b).text.z
            &&& 1 <= begv.1 <= pt.1 <= zv.1 <= old(h).buf(b).text.z_byte
        },
    ensures
        final(h).wf(),
        old(h).buf(b).pt_marker_ == LispObject::Nil ==> *final(h) == *old(h),
        old(h).buf(b).pt_marker_ != LispObject::Nil ==> final(h).same_but_buffers(old(h))
            && final(h).buffers@ == old(h).buffers@.update(
            b.id as int,
            (Buffer {
                pt: pt.0,
                pt_byte: pt.1,
                begv: begv.0,
                begv_byte: begv.1,
                zv: zv.0,
                zv_byte: zv.1,
                ..old(h).buf(b)
            }),
        ),
{
    if h.buffers[b.id].pt_marker_ == LispObject::Nil {
        return;
    }
    proof {
        assert(h.buffers@[b.id as int].wf());
    }
    h.buffers[b.id].pt = pt.0;
    h.buffers[b.id].pt_byte = pt.1;
    h.buffers[b.id].begv = begv.0;
    h.buffers[b.id].begv_byte = begv.1;
    h.buffers[b.id].zv = zv.0;
    h.buffers[b.id].zv_byte = zv.1;
    proof {
        assert(h.buffers@ =~= old(h).buffers@.update(
            b.id as int,
            (Buffer {
                pt: pt.0,
                pt_byte: pt.1,
                begv: begv.0,
                begv_byte: begv.1,
                zv: zv.0,
                zv_byte: zv.1,
                ..old(h).buf(b)
            }),
        ));
        lemma_replace_buffer_keeps_wf(old(h), h, b);
    }
}

} // verus!
