//! The gap buffer: byte storage with a movable empty region, and the
//! addressing and boundary scanning that read it.
use vstd::prelude::*;

use crate::multibyte::{
    char_head_p, decode, head_len, is_head, multibyte_length_by_head, MAX_MULTIBYTE_LENGTH,
};

verus! {

/// The text of a buffer. `beg` holds the bytes before the gap, then
/// `gap_size` unused bytes, then the bytes after the gap, then one guard
/// byte. Byte position `p` (1-origin) is stored at index `p - 1` before the
/// gap and at `p - 1 + gap_size` from the gap on.
pub struct BufferText {
    pub beg: Vec<u8>,
    pub gpt: isize,
    pub gpt_byte: isize,
    pub gap_size: isize,
    pub z: isize,
    pub z_byte: isize,
    pub modiff: i64,
    pub save_modiff: i64,
    pub chars_modiff: i64,
}

impl BufferText {
    /// Positions are ordered, the storage is exactly the content, the gap
    /// and the guard byte, and both guard bytes read as zero.
    pub open spec fn wf(&self) -> bool {
        &&& 1 <= self.gpt <= self.z
        &&& 1 <= self.gpt_byte <= self.z_byte
        &&& self.gpt <= self.gpt_byte
        &&& self.z <= self.z_byte
        &&& self.z - self.gpt <= self.z_byte - self.gpt_byte
        &&& self.gap_size >= 0
        &&& self.beg@.len() == self.z_byte + self.gap_size
        &&& self.beg@.len() + MAX_MULTIBYTE_LENGTH <= isize::MAX
        &&& self.beg@[self.beg@.len() - 1] == 0
        &&& (self.gap_size > 0 ==> self.beg@[self.gpt_byte - 1] == 0)
    }

    /// What must be added to a position's offset to skip the gap.
    pub open spec fn gap_offset(&self, pos: int) -> int {
        if pos >= self.gpt_byte {
            self.gap_size as int
        } else {
            0
        }
    }

    /// The storage index of byte position `pos`.
    pub open spec fn index_of(&self, pos: int) -> int {
        pos - 1 + self.gap_offset(pos)
    }

    /// The byte at byte position `pos` (`z_byte` reads the guard byte).
    pub open spec fn byte_at(&self, pos: int) -> u8 {
        self.beg@[self.index_of(pos)]
    }

    /// The live content, without the gap.
    pub open spec fn content(&self) -> Seq<u8> {
        Seq::new((self.z_byte - 1) as nat, |i: int| self.byte_at(i + 1))
    }

    /// The content is a sequence of whole encoded characters: it starts
    /// with a head byte, each character is followed by continuation bytes
    /// only up to its length, ends within the content, and is followed by a
    /// head byte or by the end.
    #[verifier::opaque]
    pub open spec fn well_formed(&self) -> bool {
        &&& (self.z_byte > 1 ==> is_head(self.byte_at(1)))
        &&& forall|p: int|
            #![trigger self.byte_at(p)]
            1 <= p < self.z_byte && is_head(self.byte_at(p)) ==> {
                &&& p + head_len(self.byte_at(p)) <= self.z_byte
                &&& forall|q: int|
                    p < q < p + head_len(self.byte_at(p)) ==> !is_head(
                        #[trigger] self.byte_at(q),
                    )
                &&& (p + head_len(self.byte_at(p)) < self.z_byte ==> is_head(
                    self.byte_at(p + head_len(self.byte_at(p))),
                ))
            }
    }

    /// Whether `b` is a character boundary: the end of the content, or a
    /// position in it that holds a head byte.
    pub open spec fn is_boundary(&self, b: int) -> bool {
        b == self.z_byte || (1 <= b < self.z_byte && is_head(self.byte_at(b)))
    }

    /// The boundary after the character that starts at `pos`.
    pub open spec fn next_boundary(&self, pos: int) -> int {
        pos + head_len(self.byte_at(pos))
    }

    /// The nearest head byte before `pos`, or the beginning if there is none.
    pub open spec fn prev_boundary(&self, pos: int) -> int
        decreases pos,
    {
        if pos - 1 <= 1 {
            1
        } else if is_head(self.byte_at(pos - 1)) {
            pos - 1
        } else {
            self.prev_boundary(pos - 1)
        }
    }

    /// The `n - 1` bytes after `pos` are all continuation bytes.
    pub open spec fn continued(&self, pos: int, n: int) -> bool {
        forall|q: int| pos < q < pos + n ==> !is_head(#[trigger] self.byte_at(q))
    }

    /// The character at `pos`: where `pos` holds a head byte, the decoded
    /// bytes of the character that it announces, where they all lie in the
    /// content and continue it; else the byte at `pos` alone.
    pub open spec fn char_at(&self, pos: int) -> int {
        let n = head_len(self.byte_at(pos));
        if is_head(self.byte_at(pos)) && n > 1 && pos + n <= self.z_byte && self.continued(pos, n) {
            decode(Seq::new(n as nat, |i: int| self.byte_at(pos + i)))
        } else {
            self.byte_at(pos) as int
        }
    }

    /// Text holding `content`, with a gap of `gap_size` bytes before the
    /// byte at index `gap_at`, unmodified. In multibyte text each head byte
    /// starts a character; otherwise each byte is one.
    pub fn new(content: &Vec<u8>, gap_at: usize, gap_size: usize, multibyte: bool) -> (r:
        BufferText)
        requires
            gap_at <= content@.len(),
            content@.len() + gap_size + 1 + MAX_MULTIBYTE_LENGTH <= isize::MAX,
        ensures
            r.wf(),
            r.content() == content@,
            r.gpt_byte == gap_at + 1,
            r.gap_size == gap_size,
            r.z_byte == content@.len() + 1,
            r.gpt == 1 + char_count(content@.subrange(0, gap_at as int), multibyte),
            r.z == 1 + char_count(content@, multibyte),
            r.modiff == 1 && r.save_modiff == 1 && r.chars_modiff == 1,
    {
        let mut beg: Vec<u8> = Vec::new();
        let mut chars: isize = 0;
        let mut gpt: isize = 0;
        let mut i: usize = 0;
        while i < content.len()
            invariant
                i <= content@.len(),
                gap_at <= content@.len(),
                content@.len() + gap_size + 1 + MAX_MULTIBYTE_LENGTH <= isize::MAX,
                0 <= chars <= i,
                chars == char_count(content@.subrange(0, i as int), multibyte),
                i > gap_at ==> gpt == char_count(content@.subrange(0, gap_at as int), multibyte),
                beg@.len() == if i > gap_at { i + gap_size } else { i as int },
                forall|k: int| 0 <= k < i && k < gap_at ==> beg@[k] == content@[k],
                forall|k: int| gap_at <= k < i ==> beg@[k + gap_size] == content@[k],
                i > gap_at && gap_size > 0 ==> beg@[gap_at as int] == 0,
            decreases content@.len() - i,
        {
            if i == gap_at {
                gpt = chars;
                let mut g: usize = 0;
                while g < gap_size
                    invariant
                        g <= gap_size,
                        i == gap_at,
                        beg@.len() == i + g,
                        forall|k: int| 0 <= k < i ==> beg@[k] == content@[k],
                        g > 0 ==> beg@[gap_at as int] == 0,
                    decreases gap_size - g,
                {
                    beg.push(0);
                    g = g + 1;
                }
            }
            let b = content[i];
            proof {
                lemma_char_count_push(content@.subrange(0, i as int), b, multibyte);
                assert(content@.subrange(0, i as int).push(b) =~= content@.subrange(0, i + 1));
            }
            if !multibyte || char_head_p(b) {
                chars = chars + 1;
            }
            beg.push(b);
            i = i + 1;
        }
        if i == gap_at {
            gpt = chars;
            let mut g: usize = 0;
            while g < gap_size
                invariant
                    g <= gap_size,
                    i == gap_at,
                    beg@.len() == i + g,
                    forall|k: int| 0 <= k < i ==> beg@[k] == content@[k],
                    g > 0 ==> beg@[gap_at as int] == 0,
                decreases gap_size - g,
            {
                beg.push(0);
                g = g + 1;
            }
        }
        beg.push(0);
        assert(content@.subrange(0, content@.len() as int) =~= content@);
        proof {
            lemma_char_count_bounds(content@.subrange(0, gap_at as int), multibyte);
            lemma_char_count_split(content@, gap_at as int, multibyte);
        }
        let r = BufferText {
            beg,
            gpt: gpt + 1,
            gpt_byte: gap_at as isize + 1,
            gap_size: gap_size as isize,
            z: chars + 1,
            z_byte: content.len() as isize + 1,
            modiff: 1,
            save_modiff: 1,
            chars_modiff: 1,
        };
        assert(r.content() =~= content@);
        r
    }

    /// The offset that skips the gap for byte position `pos`: the gap size
    /// from the gap on, zero before it.
    pub fn pos_within_range(&self, pos: isize) -> (r: isize)
        ensures
            r as int == self.gap_offset(pos as int),
            pos >= self.gpt_byte ==> r == self.gap_size,
            pos < self.gpt_byte ==> r == 0,
    {
        if pos >= self.gpt_byte {
            self.gap_size
        } else {
            0
        }
    }

    /// The byte at byte position `n`.
    pub fn fetch_byte(&self, n: isize) -> (r: u8)
        requires
            self.wf(),
            1 <= n <= self.z_byte,
        ensures
            r == self.byte_at(n as int),
    {
        let offset = self.pos_within_range(n);
        self.beg[(offset + n - 1) as usize]
    }

    /// Storage index of the first byte of the gap.
    pub fn gap_start_addr(&self) -> (r: usize)
        requires
            self.wf(),
        ensures
            r as int == self.gpt_byte - 1,
    {
        (self.gpt_byte - 1) as usize
    }

    /// Storage index of the first byte after the gap.
    pub fn gap_end_addr(&self) -> (r: usize)
        requires
            self.wf(),
        ensures
            r as int == self.gpt_byte + self.gap_size - 1,
    {
        (self.gpt_byte + self.gap_size - 1) as usize
    }

    /// Storage index of the end of the content (the guard byte).
    pub fn z_addr(&self) -> (r: usize)
        requires
            self.wf(),
        ensures
            r as int == self.gap_size + self.z_byte - 1,
            r as int == self.index_of(self.z_byte as int),
    {
        (self.gap_size + self.z_byte - 1) as usize
    }

    /// Storage index of byte position `n`, without regard to the gap.
    pub fn byte_pos_addr(&self, n: isize) -> (r: usize)
        requires
            self.wf(),
            1 <= n <= self.beg@.len() + 1,
        ensures
            r as int == n - 1,
    {
        (n - 1) as usize
    }

    /// The position after the character that starts at `pos_byte`.
    pub fn inc_pos(&self, pos_byte: isize) -> (r: isize)
        requires
            self.wf(),
            1 <= pos_byte <= self.z_byte,
        ensures
            r as int == self.next_boundary(pos_byte as int),
    {
        let chp = self.fetch_byte(pos_byte);
        pos_byte + multibyte_length_by_head(chp) as isize
    }

    /// The position of the nearest head byte before `pos_byte`, scanning
    /// backward one byte at a time; the beginning if there is none.
    pub fn dec_pos(&self, pos_byte: isize) -> (r: isize)
        requires
            self.wf(),
            1 < pos_byte <= self.z_byte,
        ensures
            r as int == self.prev_boundary(pos_byte as int),
    {
        let mut new_pos: isize = pos_byte - 1;
        while new_pos > 1 && !char_head_p(self.fetch_byte(new_pos))
            invariant
                self.wf(),
                1 <= new_pos < pos_byte <= self.z_byte,
                self.prev_boundary(pos_byte as int) == self.prev_boundary(new_pos + 1),
            decreases new_pos,
        {
            new_pos = new_pos - 1;
        }
        new_pos
    }

    /// The character code at byte position `n` of multibyte text.
    pub fn fetch_multibyte_char(&self, n: isize) -> (r: u32)
        requires
            self.wf(),
            1 <= n <= self.z_byte,
        ensures
            r as int == self.char_at(n as int),
    {
        let head = self.fetch_byte(n);
        let len = multibyte_length_by_head(head);
        if !char_head_p(head) || len == 1 || n > self.z_byte - len as isize {
            return head as u32;
        }
        let mut i: usize = 1;
        while i < len
            invariant
                self.wf(),
                1 <= i <= len <= MAX_MULTIBYTE_LENGTH,
                head == self.byte_at(n as int),
                len as int == head_len(head),
                1 <= n,
                n + len <= self.z_byte,
                forall|q: int| n < q < n + i ==> !is_head(#[trigger] self.byte_at(q)),
            decreases len - i,
        {
            if char_head_p(self.fetch_byte(n + i as isize)) {
                let ghost w: int = n + i;
                assert(is_head(self.byte_at(w)));
                assert(!self.continued(n as int, len as int));
                return head as u32;
            }
            i = i + 1;
        }
        let b0 = head as u32;
        let b1 = self.fetch_byte(n + 1) as u32;
        let r: u32 = if len == 2 {
            (b0 % 32) * 64 + b1 % 64
        } else {
            let b2 = self.fetch_byte(n + 2) as u32;
            if len == 3 {
                (b0 % 16) * 4096 + (b1 % 64) * 64 + b2 % 64
            } else {
                let b3 = self.fetch_byte(n + 3) as u32;
                (b0 % 8) * 262144 + (b1 % 64) * 4096 + (b2 % 64) * 64 + b3 % 64
            }
        };
        let ghost s = Seq::new(len as nat, |k: int| self.byte_at(n + k));
        assert(s[0] == b0 && s[1] == b1);
        r
    }
}

/// The number of characters in `s`: its head bytes where it is
/// multibyte, else its bytes.
pub open spec fn char_count(s: Seq<u8>, multibyte: bool) -> int
    decreases s.len(),
{
    if s.len() == 0 {
        0
    } else {
        char_count(s.drop_last(), multibyte) + if !multibyte || is_head(s.last()) {
            1int
        } else {
            0int
        }
    }
}

proof fn lemma_char_count_push(s: Seq<u8>, b: u8, multibyte: bool)
    ensures
        char_count(s.push(b), multibyte) == char_count(s, multibyte) + if !multibyte || is_head(
            b,
        ) {
            1int
        } else {
            0int
        },
{
    assert(s.push(b).drop_last() =~= s);
}

proof fn lemma_char_count_bounds(s: Seq<u8>, multibyte: bool)
    ensures
        0 <= char_count(s, multibyte) <= s.len(),
    decreases s.len(),
{
    if s.len() > 0 {
        lemma_char_count_bounds(s.drop_last(), multibyte);
    }
}

/// Counting the characters after a split point adds at most the bytes there.
proof fn lemma_char_count_split(s: Seq<u8>, k: int, multibyte: bool)
    requires
        0 <= k <= s.len(),
    ensures
        char_count(s, multibyte) - char_count(s.subrange(0, k), multibyte) <= s.len() - k,
        char_count(s.subrange(0, k), multibyte) <= char_count(s, multibyte),
    decreases s.len() - k,
{
    if k < s.len() {
        lemma_char_count_split(s, k + 1, multibyte);
        lemma_char_count_push(s.subrange(0, k), s[k], multibyte);
        assert(s.subrange(0, k).push(s[k]) =~= s.subrange(0, k + 1));
    } else {
        assert(s.subrange(0, k) =~= s);
    }
}

/// What the backward scan finds: a position before `pos`, holding a head
/// byte unless it is the beginning, with no head byte between it and `pos`.
pub proof fn lemma_prev_boundary_is_nearest_head(t: &BufferText, pos: int)
    requires
        1 < pos,
    ensures
        1 <= t.prev_boundary(pos) < pos,
        t.prev_boundary(pos) == 1 || is_head(t.byte_at(t.prev_boundary(pos))),
        forall|q: int| t.prev_boundary(pos) < q < pos ==> !is_head(#[trigger] t.byte_at(q)),
    decreases pos,
{
    if pos - 1 > 1 && !is_head(t.byte_at(pos - 1)) {
        lemma_prev_boundary_is_nearest_head(t, pos - 1);
    }
}

/// In well-formed text the backward scan from a position in the content
/// stops at a head byte at most `MAX_MULTIBYTE_LENGTH - 1` bytes before the
/// byte it starts on, and that head byte's character covers that byte.
pub proof fn lemma_dec_pos_scan_is_bounded(t: &BufferText, b: int)
    requires
        t.wf(),
        t.well_formed(),
        1 < b <= t.z_byte,
    ensures
        is_head(t.byte_at(t.prev_boundary(b))),
        (b - 1) - t.prev_boundary(b) <= MAX_MULTIBYTE_LENGTH - 1,
        b <= t.next_boundary(t.prev_boundary(b)) <= t.z_byte,
        t.continued(t.prev_boundary(b), head_len(t.byte_at(t.prev_boundary(b)))),
{
    reveal(BufferText::well_formed);
    lemma_prev_boundary_is_nearest_head(t, b);
    let r = t.prev_boundary(b);
    assert(is_head(t.byte_at(r)));
    let n = head_len(t.byte_at(r));
    if r + n < b {
        assert(is_head(t.byte_at(r + n)));
    }
}

/// Moving back to the previous boundary and then forward over one
/// character returns to where it started, from any boundary after the
/// beginning of well-formed text.
pub proof fn lemma_inc_pos_of_dec_pos(t: &BufferText, b: int)
    requires
        t.wf(),
        t.well_formed(),
        t.is_boundary(b),
        1 < b,
    ensures
        t.next_boundary(t.prev_boundary(b)) == b,
{
    lemma_prev_boundary_is_nearest_head(t, b);
    lemma_dec_pos_scan_is_bounded(t, b);
    let r = t.prev_boundary(b);
    let n = head_len(t.byte_at(r));
    if r + n > b {
        assert(!is_head(t.byte_at(b)));
    }
}

} // verus!
