//! Text storage of an editor buffer: gap-buffer addressing, character
//! boundary scanning over a variable-width encoding, the per-buffer overlay
//! index and the per-buffer local-variable flags.
use vstd::prelude::*;

pub mod multibyte;
pub mod text;
pub mod buffers;
pub mod buffer_ref;
pub mod overlays;
pub mod lisp;

verus! {

/// Character position of the beginning of every buffer.
pub const BEG: isize = 1;

/// Byte position of the beginning of every buffer.
pub const BEG_BYTE: isize = 1;

/// The most bytes a buffer can hold: one less than the largest fixnum.
pub const BUF_BYTES_MAX: i64 = 2305843009213693950;

} // verus!
