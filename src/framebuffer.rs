//! The linear framebuffer: negotiated with the GPU over the mailbox, and
//! written one colour byte at a time through a bounds check.
//!
//! The surface does not touch pixel memory itself. Every drawing operation
//! appends the byte stores it decides on to a list of `PixelWrite`s, each an
//! offset from the surface's base address that has passed the bounds check;
//! the caller carries them out in order.
use vstd::prelude::*;
use vstd::arithmetic::div_mod::lemma_fundamental_div_mod_converse;
use crate::font::PsfFont;
use crate::mbox::{MailBox, MBOX_REQUEST, MBOX_TAG_LAST};

verus! {

/// Base address of a surface that has not been initialized.
pub const FB_SENTINEL: u32 = 0xDEAD_BEEF;

/// Bytes per pixel at the negotiated depth of 32 bits.
pub const BYTES_PER_PIXEL: u32 = 4;

/// Colour depth requested from the GPU.
pub const FB_DEPTH: u32 = 32;

/// Alignment requested for the framebuffer allocation.
pub const FB_ALIGN: u32 = 4096;

/// Clears the alias bits of a GPU bus address, giving the CPU address.
pub const FB_ADDRESS_MASK: u32 = 0x3FFF_FFFF;

pub const TAG_SET_PHYS_WH: u32 = 0x48003;
pub const TAG_SET_VIRT_WH: u32 = 0x48004;
pub const TAG_SET_VIRT_OFFSET: u32 = 0x48009;
pub const TAG_SET_DEPTH: u32 = 0x48005;
pub const TAG_SET_PIXEL_ORDER: u32 = 0x48006;
pub const TAG_ALLOCATE_BUFFER: u32 = 0x40001;
pub const TAG_GET_PITCH: u32 = 0x40008;

/// Word of the init buffer where the GPU answers the depth.
pub const DEPTH_WORD: usize = 20;

/// Word of the init buffer where the GPU answers the buffer's bus address.
pub const ADDRESS_WORD: usize = 28;

/// Word of the init buffer where the GPU answers the pitch.
pub const PITCH_WORD: usize = 33;

/// Why the framebuffer could not be brought up.
#[derive(Clone, Copy, Debug, PartialEq, Eq)]
pub enum FbError {
    /// The GPU rejected the request, did not take 32-bit depth, gave no
    /// buffer, or gave a pitch of 0.
    InitFailed,
}

/// One byte store into pixel memory, at `offset` bytes from the base address.
#[derive(Clone, Copy, Debug, PartialEq, Eq)]
pub struct PixelWrite {
    pub offset: u64,
    pub value: u8,
}

/// A linear framebuffer and the text cursor drawn into it.
#[derive(Clone, Copy, Debug, PartialEq, Eq)]
pub struct FrameBufferStream {
    pub width: u32,
    pub height: u32,
    /// Bytes per row, set by the GPU; 0 until initialized.
    pub pitch: u32,
    /// Cursor column, in glyph cells.
    pub x: u32,
    /// Cursor row, in glyph cells.
    pub y: u32,
    /// CPU address of pixel memory; `FB_SENTINEL` until initialized.
    pub base: u32,
}

/// The property buffer that asks for a `width` by `height` surface at 32-bit
/// depth, then for the buffer and its pitch.
pub open spec fn init_request(width: u32, height: u32) -> Seq<u32> {
    seq![
        140u32, MBOX_REQUEST,
        TAG_SET_PHYS_WH, 8, 8, width, height,
        TAG_SET_VIRT_WH, 8, 8, width, height,
        TAG_SET_VIRT_OFFSET, 8, 8, 0, 0,
        TAG_SET_DEPTH, 4, 4, FB_DEPTH,
        TAG_SET_PIXEL_ORDER, 4, 4, 1,
        TAG_ALLOCATE_BUFFER, 8, 8, FB_ALIGN, 0,
        TAG_GET_PITCH, 4, 4, 0,
        MBOX_TAG_LAST, 0,
    ]
}

/// The answer in `words` makes a usable surface: the exchange was accepted,
/// the depth is 32 bits, a buffer was given and its pitch is not 0.
pub open spec fn init_accepted(words: Seq<u32>, accepted: bool) -> bool {
    &&& accepted
    &&& words[DEPTH_WORD as int] == FB_DEPTH
    &&& words[ADDRESS_WORD as int] != 0
    &&& words[PITCH_WORD as int] != 0
}

impl FrameBufferStream {
    /// The surface after an init exchange whose answer is `words`.
    pub open spec fn spec_init(self, words: Seq<u32>, accepted: bool) -> (FrameBufferStream, Result<(), FbError>) {
        if init_accepted(words, accepted) {
            (
                FrameBufferStream {
                    pitch: words[PITCH_WORD as int],
                    base: words[ADDRESS_WORD as int] & FB_ADDRESS_MASK,
                    ..self
                },
                Ok(()),
            )
        } else {
            (self, Err(FbError::InitFailed))
        }
    }

    /// A surface of the given size that is not initialized yet.
    pub fn new(width: u32, height: u32) -> (r: FrameBufferStream)
        ensures
            r == (FrameBufferStream { width, height, pitch: 0, x: 0, y: 0, base: FB_SENTINEL }),
    {
        FrameBufferStream { width, height, pitch: 0, x: 0, y: 0, base: FB_SENTINEL }
    }

    /// Clear `mbox` and write into it the request that sets up this surface.
    pub fn request_init(&self, mbox: &mut MailBox)
        ensures
            final(mbox)@ == init_request(self.width, self.height),
    {
        mbox.clear();
        mbox.mbox[0] = 35 * 4;
        mbox.mbox[1] = MBOX_REQUEST;
        mbox.mbox[2] = TAG_SET_PHYS_WH;
        mbox.mbox[3] = 8;
        mbox.mbox[4] = 8;
        mbox.mbox[5] = self.width;
        mbox.mbox[6] = self.height;
        mbox.mbox[7] = TAG_SET_VIRT_WH;
        mbox.mbox[8] = 8;
        mbox.mbox[9] = 8;
        mbox.mbox[10] = self.width;
        mbox.mbox[11] = self.height;
        mbox.mbox[12] = TAG_SET_VIRT_OFFSET;
        mbox.mbox[13] = 8;
        mbox.mbox[14] = 8;
        mbox.mbox[15] = 0;
        mbox.mbox[16] = 0;
        mbox.mbox[17] = TAG_SET_DEPTH;
        mbox.mbox[18] = 4;
        mbox.mbox[19] = 4;
        mbox.mbox[20] = FB_DEPTH;
        mbox.mbox[21] = TAG_SET_PIXEL_ORDER;
        mbox.mbox[22] = 4;
        mbox.mbox[23] = 4;
        mbox.mbox[24] = 1;
        mbox.mbox[25] = TAG_ALLOCATE_BUFFER;
        mbox.mbox[26] = 8;
        mbox.mbox[27] = 8;
        mbox.mbox[28] = FB_ALIGN;
        mbox.mbox[29] = 0;
        mbox.mbox[30] = TAG_GET_PITCH;
        mbox.mbox[31] = 4;
        mbox.mbox[32] = 4;
        mbox.mbox[33] = 0;
        mbox.mbox[34] = MBOX_TAG_LAST;
        assert(mbox@ =~= init_request(self.width, self.height));
    }

    /// Take the GPU's answer to `request_init`. `accepted` is how the
    /// exchange completed. On success the pitch and the buffer's CPU address
    /// are kept; on failure the surface stays uninitialized.
    pub fn init(&mut self, mbox: &MailBox, accepted: bool) -> (r: Result<(), FbError>)
        ensures
            (*final(self), r) == old(self).spec_init(mbox@, accepted),
    {
        if accepted && mbox.mbox[DEPTH_WORD] == FB_DEPTH && mbox.mbox[ADDRESS_WORD] != 0
            && mbox.mbox[PITCH_WORD] != 0 {
            self.pitch = mbox.mbox[PITCH_WORD];
            self.base = mbox.mbox[ADDRESS_WORD] & FB_ADDRESS_MASK;
            Ok(())
        } else {
            Err(FbError::InitFailed)
        }
    }
}

/// A successful init leaves a usable surface: its base address is no longer
/// the sentinel and its pitch is positive. An answer whose depth is not 32
/// bits fails, and a failed init leaves the surface as it was.
pub proof fn lemma_init_outcome(fb: FrameBufferStream, words: Seq<u32>, accepted: bool)
    requires
        words.len() == 36,
    ensures
        fb.spec_init(words, accepted).1 is Ok ==> fb.spec_init(words, accepted).0.base != FB_SENTINEL,
        fb.spec_init(words, accepted).1 is Ok ==> fb.spec_init(words, accepted).0.pitch > 0,
        words[DEPTH_WORD as int] != FB_DEPTH ==> fb.spec_init(words, accepted).1 is Err,
        fb.spec_init(words, accepted).1 is Err ==> fb.spec_init(words, accepted).0 == fb,
{
    let a = words[ADDRESS_WORD as int];
    assert(a & FB_ADDRESS_MASK != FB_SENTINEL) by (bit_vector);
}

/// Colour channel `c` of `(r, g, b)`.
pub open spec fn channel(r: u8, g: u8, b: u8, c: int) -> u8 {
    if c == 0 {
        r
    } else if c == 1 {
        g
    } else {
        b
    }
}

/// Pixel memory `mem` after the stores of `ws`, in order; a store past the
/// end of `mem` changes nothing.
pub open spec fn apply_writes(mem: Seq<u8>, ws: Seq<PixelWrite>) -> Seq<u8>
    decreases ws.len(),
{
    if ws.len() == 0 {
        mem
    } else {
        let m = apply_writes(mem, ws.drop_last());
        if ws.last().offset < m.len() {
            m.update(ws.last().offset as int, ws.last().value)
        } else {
            m
        }
    }
}

impl FrameBufferStream {
    /// Size in bytes of pixel memory: `pitch` bytes for each of `height`
    /// rows. Every byte offset below it is safe to write.
    pub open spec fn limit(self) -> int {
        self.pitch as int * self.height as int
    }

    /// `ws` with a store of `value` at `offset` appended, if the offset lies
    /// within pixel memory.
    pub open spec fn emitted(self, ws: Seq<PixelWrite>, offset: int, value: u8) -> Seq<PixelWrite> {
        if 0 <= offset < self.limit() {
            ws.push(PixelWrite { offset: offset as u64, value })
        } else {
            ws
        }
    }

    /// `ws` with the three colour stores of the pixel at byte `origin`.
    pub open spec fn pixel_plan(self, ws: Seq<PixelWrite>, origin: int, r: u8, g: u8, b: u8) -> Seq<PixelWrite> {
        self.emitted(self.emitted(self.emitted(ws, origin, r), origin + 1, g), origin + 2, b)
    }

    /// `ws` with the stores that paint the first `n` pixels of row `row`.
    pub open spec fn clear_cols(self, ws: Seq<PixelWrite>, row: int, n: int, r: u8, g: u8, b: u8) -> Seq<PixelWrite>
        decreases n,
    {
        if n <= 0 {
            ws
        } else {
            self.pixel_plan(
                self.clear_cols(ws, row, n - 1, r, g, b),
                row * self.pitch as int + (n - 1) * BYTES_PER_PIXEL as int,
                r,
                g,
                b,
            )
        }
    }

    /// `ws` with the stores that paint the first `n` rows.
    pub open spec fn clear_rows(self, ws: Seq<PixelWrite>, n: int, r: u8, g: u8, b: u8) -> Seq<PixelWrite>
        decreases n,
    {
        if n <= 0 {
            ws
        } else {
            self.clear_cols(self.clear_rows(ws, n - 1, r, g, b), n - 1, self.width as int, r, g, b)
        }
    }

    /// Append a store of `value` at `offset` unless it lies past pixel memory.
    fn emit(&self, offset: u128, value: u8, out: &mut Vec<PixelWrite>)
        ensures
            final(out)@ == self.emitted(old(out)@, offset as int, value),
    {
        assert(self.pitch as int * self.height as int <= 0xFFFF_FFFF * 0xFFFF_FFFF) by (nonlinear_arith)
            requires
                self.pitch <= 0xFFFF_FFFF,
                self.height <= 0xFFFF_FFFF,
        ;
        let limit: u128 = self.pitch as u128 * self.height as u128;
        if offset < limit {
            out.push(PixelWrite { offset: offset as u64, value });
        }
    }

    /// Whether a store at `offset` lies within pixel memory; a store
    /// anywhere else is dropped.
    pub fn in_bounds(&self, offset: u32) -> (r: bool)
        ensures
            r == ((offset as int) < self.limit()),
    {
        assert(self.pitch as int * self.height as int <= 0xFFFF_FFFF * 0xFFFF_FFFF) by (nonlinear_arith)
            requires
                self.pitch <= 0xFFFF_FFFF,
                self.height <= 0xFFFF_FFFF,
        ;
        (offset as u64) < self.pitch as u64 * self.height as u64
    }

    /// Store one colour byte at `offset`, unless it lies past pixel memory,
    /// in which case the store is dropped. This is the only way a byte of
    /// pixel memory is written.
    pub fn write_pixel_channel(&self, offset: u32, value: u8, out: &mut Vec<PixelWrite>)
        ensures
            (offset as int) >= self.limit() ==> final(out)@ == old(out)@,
            (offset as int) < self.limit() ==> final(out)@ == old(out)@.push(
                PixelWrite { offset: offset as u64, value },
            ),
    {
        self.emit(offset as u128, value, out);
    }

    /// Paint every pixel `(r, g, b)`: row by row, the pixel in column `x` of
    /// row `y` at byte `y * pitch + 4 * x`, one store per colour channel.
    pub fn clear(&self, r: u8, g: u8, b: u8, out: &mut Vec<PixelWrite>)
        ensures
            final(out)@ == self.clear_rows(old(out)@, self.height as int, r, g, b),
    {
        let mut y: u32 = 0;
        while y < self.height
            invariant
                y <= self.height,
                out@ == self.clear_rows(old(out)@, y as int, r, g, b),
            decreases self.height - y,
        {
            assert(y as int * self.pitch as int <= 0xFFFF_FFFF * 0xFFFF_FFFF) by (nonlinear_arith)
                requires
                    y <= 0xFFFF_FFFF,
                    self.pitch <= 0xFFFF_FFFF,
            ;
            let row_start: u128 = y as u128 * self.pitch as u128;
            let ghost before = out@;
            let mut x: u32 = 0;
            while x < self.width
                invariant
                    y < self.height,
                    x <= self.width,
                    row_start == y as int * self.pitch as int,
                    row_start <= 0xFFFF_FFFF * 0xFFFF_FFFF,
                    before == self.clear_rows(old(out)@, y as int, r, g, b),
                    out@ == self.clear_cols(before, y as int, x as int, r, g, b),
                decreases self.width - x,
            {
                let origin: u128 = row_start + 4 * x as u128;
                self.emit(origin, r, out);
                self.emit(origin + 1, g, out);
                self.emit(origin + 2, b, out);
                x = x + 1;
            }
            y = y + 1;
        }
    }
}

impl Default for FrameBufferStream {
    /// A 1920 by 1080 surface, not initialized yet.
    fn default() -> (r: FrameBufferStream)
        ensures
            r == (FrameBufferStream {
                width: 1920,
                height: 1080,
                pitch: 0,
                x: 0,
                y: 0,
                base: FB_SENTINEL,
            }),
    {
        FrameBufferStream::new(1920, 1080)
    }
}

/// `b` starts with the stores of `a`.
pub open spec fn extends(a: Seq<PixelWrite>, b: Seq<PixelWrite>) -> bool {
    a.len() <= b.len() && forall|i: int| 0 <= i < a.len() ==> b[i] == a[i]
}

proof fn lemma_apply_len(mem: Seq<u8>, ws: Seq<PixelWrite>)
    ensures
        apply_writes(mem, ws).len() == mem.len(),
    decreases ws.len(),
{
    if ws.len() > 0 {
        lemma_apply_len(mem, ws.drop_last());
    }
}

/// A byte that `ws` stores to, always with the same value, holds that value
/// once `ws` is applied.
proof fn lemma_apply_reads(mem: Seq<u8>, ws: Seq<PixelWrite>, i: int, o: int, v: u8)
    requires
        0 <= i < ws.len(),
        ws[i].offset == o,
        ws[i].value == v,
        o < mem.len(),
        forall|j: int| 0 <= j < ws.len() && ws[j].offset == o ==> ws[j].value == v,
    ensures
        apply_writes(mem, ws)[o] == v,
    decreases ws.len(),
{
    let m = apply_writes(mem, ws.drop_last());
    lemma_apply_len(mem, ws.drop_last());
    if i < ws.len() - 1 {
        assert forall|j: int|
            0 <= j < ws.drop_last().len() && ws.drop_last()[j].offset == o implies ws.drop_last()[j].value
            == v by {
            assert(ws.drop_last()[j] == ws[j]);
        }
        lemma_apply_reads(mem, ws.drop_last(), i, o, v);
    }
}

impl FrameBufferStream {
    proof fn lemma_limit_bound(self)
        ensures
            0 <= self.limit() <= 0xFFFF_FFFF * 0xFFFF_FFFF,
    {
        assert(0 <= self.pitch as int * self.height as int <= 0xFFFF_FFFF * 0xFFFF_FFFF)
            by (nonlinear_arith)
            requires
                self.pitch <= 0xFFFF_FFFF,
                self.height <= 0xFFFF_FFFF,
        ;
    }

    proof fn lemma_pixel_plan_extends(self, ws: Seq<PixelWrite>, origin: int, r: u8, g: u8, b: u8)
        ensures
            extends(ws, self.pixel_plan(ws, origin, r, g, b)),
    {
    }

    proof fn lemma_clear_cols_mono(self, ws: Seq<PixelWrite>, row: int, n: int, m: int, r: u8, g: u8, b: u8)
        requires
            0 <= n <= m,
        ensures
            extends(self.clear_cols(ws, row, n, r, g, b), self.clear_cols(ws, row, m, r, g, b)),
        decreases m,
    {
        if n < m {
            self.lemma_clear_cols_mono(ws, row, n, m - 1, r, g, b);
            let prev = self.clear_cols(ws, row, m - 1, r, g, b);
            self.lemma_pixel_plan_extends(prev, row * self.pitch as int + (m - 1) * 4, r, g, b);
        }
    }

    proof fn lemma_clear_rows_mono(self, ws: Seq<PixelWrite>, n: int, m: int, r: u8, g: u8, b: u8)
        requires
            0 <= n <= m,
        ensures
            extends(self.clear_rows(ws, n, r, g, b), self.clear_rows(ws, m, r, g, b)),
        decreases m,
    {
        if n < m {
            self.lemma_clear_rows_mono(ws, n, m - 1, r, g, b);
            let prev = self.clear_rows(ws, m - 1, r, g, b);
            self.lemma_clear_cols_mono(prev, m - 1, 0, self.width as int, r, g, b);
        }
    }

    /// Every store in `ws` lands, within its row, on one of the first three
    /// bytes of a pixel in the first `width` columns, and holds that byte's
    /// colour channel.
    pub open spec fn channel_stores(self, ws: Seq<PixelWrite>, r: u8, g: u8, b: u8) -> bool {
        forall|i: int|
            0 <= i < ws.len() ==> {
                let k = #[trigger] ws[i].offset as int % self.pitch as int;
                &&& k < 4 * self.width
                &&& k % 4 < 3
                &&& ws[i].value == channel(r, g, b, k % 4)
            }
    }

    proof fn lemma_pixel_plan_channels(self, ws: Seq<PixelWrite>, row: int, col: int, r: u8, g: u8, b: u8)
        requires
            self.channel_stores(ws, r, g, b),
            self.pitch >= 4 * self.width,
            0 <= row,
            0 <= col < self.width,
        ensures
            self.channel_stores(
                self.pixel_plan(ws, row * self.pitch as int + col * 4, r, g, b),
                r,
                g,
                b,
            ),
    {
        let p = self.pitch as int;
        let origin = row * p + col * 4;
        self.lemma_limit_bound();
        assert(row * p >= 0) by (nonlinear_arith)
            requires
                row >= 0,
                p >= 0,
        ;
        lemma_fundamental_div_mod_converse(origin, p, row, col * 4);
        lemma_fundamental_div_mod_converse(origin + 1, p, row, col * 4 + 1);
        lemma_fundamental_div_mod_converse(origin + 2, p, row, col * 4 + 2);
    }

    proof fn lemma_clear_cols_channels(self, ws: Seq<PixelWrite>, row: int, n: int, r: u8, g: u8, b: u8)
        requires
            self.channel_stores(ws, r, g, b),
            self.pitch >= 4 * self.width,
            row >= 0,
            n <= self.width,
        ensures
            self.channel_stores(self.clear_cols(ws, row, n, r, g, b), r, g, b),
        decreases n,
    {
        if n > 0 {
            self.lemma_clear_cols_channels(ws, row, n - 1, r, g, b);
            self.lemma_pixel_plan_channels(self.clear_cols(ws, row, n - 1, r, g, b), row, n - 1, r, g, b);
        }
    }

    proof fn lemma_clear_rows_channels(self, ws: Seq<PixelWrite>, n: int, r: u8, g: u8, b: u8)
        requires
            self.channel_stores(ws, r, g, b),
            self.pitch >= 4 * self.width,
        ensures
            self.channel_stores(self.clear_rows(ws, n, r, g, b), r, g, b),
        decreases n,
    {
        if n > 0 {
            self.lemma_clear_rows_channels(ws, n - 1, r, g, b);
            self.lemma_clear_cols_channels(self.clear_rows(ws, n - 1, r, g, b), n - 1, self.width as int, r, g, b);
        }
    }
}

/// After `clear(r, g, b)`, each of the three colour bytes of a pixel that
/// lies within pixel memory reads back as its channel of `(r, g, b)`,
/// whatever the memory held before. Each row is at least as long as the
/// pixels drawn in it.
pub proof fn lemma_clear_reads_back(
    fb: FrameBufferStream,
    mem: Seq<u8>,
    r: u8,
    g: u8,
    b: u8,
    x: int,
    y: int,
    c: int,
)
    requires
        fb.pitch >= 4 * fb.width,
        0 <= x < fb.width,
        0 <= y < fb.height,
        0 <= c < 3,
        y * fb.pitch + 4 * x + c < fb.limit(),
        mem.len() == fb.limit(),
    ensures
        apply_writes(mem, fb.clear_rows(seq![], fb.height as int, r, g, b))[y * fb.pitch + 4 * x + c]
            == channel(r, g, b, c),
{
    let ws = fb.clear_rows(seq![], fb.height as int, r, g, b);
    let origin = y * fb.pitch + 4 * x;
    let o = origin + c;
    assert(y * fb.pitch >= 0) by (nonlinear_arith)
        requires
            y >= 0,
            fb.pitch >= 0,
    ;
    fb.lemma_limit_bound();
    // The pixel's own stores, made while painting row `y`.
    let before_row = fb.clear_rows(seq![], y, r, g, b);
    let before_px = fb.clear_cols(before_row, y, x, r, g, b);
    let with_px = fb.clear_cols(before_row, y, x + 1, r, g, b);
    let s1 = fb.emitted(before_px, origin, r);
    let s2 = fb.emitted(s1, origin + 1, g);
    assert(with_px == fb.emitted(s2, origin + 2, b));
    let i: int = if c == 0 {
        before_px.len() as int
    } else if c == 1 {
        s1.len() as int
    } else {
        s2.len() as int
    };
    assert(with_px[i] == PixelWrite { offset: o as u64, value: channel(r, g, b, c) });
    fb.lemma_clear_cols_mono(before_row, y, x + 1, fb.width as int, r, g, b);
    fb.lemma_clear_rows_mono(seq![], y + 1, fb.height as int, r, g, b);
    assert(ws[i] == with_px[i]);
    fb.lemma_clear_rows_channels(seq![], fb.height as int, r, g, b);
    lemma_fundamental_div_mod_converse(o, fb.pitch as int, y, 4 * x + c);
    lemma_apply_reads(mem, ws, i, o, channel(r, g, b, c));
}

/// `n + 1`, held at the largest value.
pub open spec fn next_cell(n: u32) -> u32 {
    if n < u32::MAX {
        (n + 1) as u32
    } else {
        n
    }
}

/// The colour byte of a glyph pixel: white where the bit is set.
pub open spec fn ink(set: bool) -> u8 {
    if set {
        255
    } else {
        0
    }
}

impl FrameBufferStream {
    /// Byte offset of the top-left pixel of the cursor's cell: cells are
    /// `font.height` rows high and `font.width + 1` pixels wide.
    pub open spec fn cell_origin(self, font: PsfFont) -> int {
        self.y as int * font.height as int * self.pitch as int + self.x as int * (font.width as int
            + 1) * BYTES_PER_PIXEL as int
    }

    /// `ws` with the stores of the first `n` pixels of row `row` of glyph
    /// `glyph`, the row starting at byte `line`.
    pub open spec fn glyph_cols(
        self,
        font: PsfFont,
        ws: Seq<PixelWrite>,
        glyph: int,
        row: int,
        line: int,
        n: int,
    ) -> Seq<PixelWrite>
        decreases n,
    {
        if n <= 0 {
            ws
        } else {
            let v = ink(font.pixel_set(glyph, row, n - 1));
            self.pixel_plan(
                self.glyph_cols(font, ws, glyph, row, line, n - 1),
                line + (n - 1) * BYTES_PER_PIXEL as int,
                v,
                v,
                v,
            )
        }
    }

    /// `ws` with the stores of the first `n` rows of glyph `glyph`, drawn
    /// with its top-left pixel at byte `origin`.
    pub open spec fn glyph_rows(
        self,
        font: PsfFont,
        ws: Seq<PixelWrite>,
        glyph: int,
        origin: int,
        n: int,
    ) -> Seq<PixelWrite>
        decreases n,
    {
        if n <= 0 {
            ws
        } else {
            self.glyph_cols(
                font,
                self.glyph_rows(font, ws, glyph, origin, n - 1),
                glyph,
                n - 1,
                origin + (n - 1) * self.pitch as int,
                font.width as int,
            )
        }
    }

    /// The surface and the stores after one character. A carriage return
    /// moves the cursor to column 0, a newline to column 0 of the next row;
    /// a character with a glyph is drawn at the cursor, which then moves one
    /// cell right; a character past the font's glyphs is skipped.
    pub open spec fn spec_put_char(self, font: PsfFont, ws: Seq<PixelWrite>, ch: char) -> (FrameBufferStream, Seq<PixelWrite>) {
        if ch == '\r' {
            (FrameBufferStream { x: 0, ..self }, ws)
        } else if ch == '\n' {
            (FrameBufferStream { x: 0, y: next_cell(self.y), ..self }, ws)
        } else if (ch as u32) < font.numglyph {
            (
                FrameBufferStream { x: next_cell(self.x), ..self },
                self.glyph_rows(font, ws, ch as u32 as int, self.cell_origin(font), font.height as int),
            )
        } else {
            (self, ws)
        }
    }

    /// The surface and the stores after `text`, character by character.
    pub open spec fn render(self, font: PsfFont, ws: Seq<PixelWrite>, text: Seq<char>) -> (FrameBufferStream, Seq<PixelWrite>)
        decreases text.len(),
    {
        if text.len() == 0 {
            (self, ws)
        } else {
            let (f, w) = self.render(font, ws, text.drop_last());
            f.spec_put_char(font, w, text.last())
        }
    }

    /// Draw glyph `glyph` with its top-left pixel at the cursor's cell.
    fn draw_glyph(&self, font: &PsfFont, glyph: u32, out: &mut Vec<PixelWrite>)
        requires
            font.wf(),
            glyph < font.numglyph,
        ensures
            final(out)@ == self.glyph_rows(
                *font,
                old(out)@,
                glyph as int,
                self.cell_origin(*font),
                font.height as int,
            ),
    {
        assert(self.y as int * font.height as int <= 0xFFFF_FFFF * 0xFFFF_FFFF) by (nonlinear_arith)
            requires
                self.y <= 0xFFFF_FFFF,
                font.height <= 0xFFFF_FFFF,
        ;
        let cell_row: u128 = self.y as u128 * font.height as u128;
        assert(cell_row * self.pitch as int <= 0xFFFF_FFFF * 0xFFFF_FFFF * 0xFFFF_FFFF) by (nonlinear_arith)
            requires
                cell_row <= 0xFFFF_FFFF * 0xFFFF_FFFF,
                self.pitch <= 0xFFFF_FFFF,
        ;
        assert(self.x as int * (font.width as int + 1) <= 0xFFFF_FFFF * (0xFFFF_FFFF + 1)) by (nonlinear_arith)
            requires
                self.x <= 0xFFFF_FFFF,
                font.width <= 0xFFFF_FFFF,
        ;
        let cell_col: u128 = self.x as u128 * (font.width as u128 + 1);
        let origin: u128 = cell_row * self.pitch as u128 + cell_col * 4;
        assert(origin == self.cell_origin(*font)) by (nonlinear_arith)
            requires
                origin == cell_row * self.pitch as int + cell_col * 4,
                cell_row == self.y as int * font.height as int,
                cell_col == self.x as int * (font.width as int + 1),
        ;
        let mut row: u32 = 0;
        while row < font.height
            invariant
                font.wf(),
                glyph < font.numglyph,
                row <= font.height,
                origin == self.cell_origin(*font),
                origin <= 0xFFFF_FFFF * 0xFFFF_FFFF * 0xFFFF_FFFF + 0xFFFF_FFFF * (0xFFFF_FFFF + 1) * 4,
                out@ == self.glyph_rows(*font, old(out)@, glyph as int, origin as int, row as int),
            decreases font.height - row,
        {
            assert(row as int * self.pitch as int <= 0xFFFF_FFFF * 0xFFFF_FFFF) by (nonlinear_arith)
                requires
                    row <= 0xFFFF_FFFF,
                    self.pitch <= 0xFFFF_FFFF,
            ;
            let line: u128 = origin + row as u128 * self.pitch as u128;
            let ghost before = out@;
            let mut col: u32 = 0;
            while col < font.width
                invariant
                    font.wf(),
                    glyph < font.numglyph,
                    row < font.height,
                    col <= font.width,
                    line == origin + row as int * self.pitch as int,
                    line <= 0xFFFF_FFFF * 0xFFFF_FFFF * 0xFFFF_FFFF + 0xFFFF_FFFF * (0xFFFF_FFFF + 1) * 4 + 0xFFFF_FFFF * 0xFFFF_FFFF,
                    before == self.glyph_rows(*font, old(out)@, glyph as int, origin as int, row as int),
                    out@ == self.glyph_cols(*font, before, glyph as int, row as int, line as int, col as int),
                decreases font.width - col,
            {
                let v: u8 = if font.glyph_pixel(glyph, row, col) {
                    255
                } else {
                    0
                };
                let at: u128 = line + 4 * col as u128;
                self.emit(at, v, out);
                self.emit(at + 1, v, out);
                self.emit(at + 2, v, out);
                col = col + 1;
            }
            row = row + 1;
        }
    }

    /// Render one character at the cursor and move the cursor on.
    pub fn put_char(&mut self, font: &PsfFont, ch: char, out: &mut Vec<PixelWrite>)
        requires
            font.wf(),
        ensures
            (*final(self), final(out)@) == old(self).spec_put_char(*font, old(out)@, ch),
    {
        if ch == '\r' {
            self.x = 0;
        } else if ch == '\n' {
            self.x = 0;
            if self.y < u32::MAX {
                self.y = self.y + 1;
            }
        } else if (ch as u32) < font.numglyph {
            self.draw_glyph(font, ch as u32, out);
            if self.x < u32::MAX {
                self.x = self.x + 1;
            }
        }
    }

    /// Render `text` at the cursor, one glyph per character: each character
    /// code is the glyph's index in `font`.
    pub fn write(&mut self, font: &PsfFont, text: &str, out: &mut Vec<PixelWrite>)
        requires
            font.wf(),
        ensures
            (*final(self), final(out)@) == old(self).render(*font, old(out)@, text@),
    {
        let n = text.unicode_len();
        let mut i: usize = 0;
        while i < n
            invariant
                font.wf(),
                n == text@.len(),
                i <= n,
                (*self, out@) == old(self).render(*font, old(out)@, text@.subrange(0, i as int)),
            decreases n - i,
        {
            let ch = text.get_char(i);
            proof {
                let t = text@.subrange(0, i as int + 1);
                assert(t.drop_last() =~= text@.subrange(0, i as int));
                assert(t.last() == ch);
            }
            self.put_char(font, ch, out);
            i = i + 1;
        }
        assert(text@.subrange(0, n as int) =~= text@);
    }
}

/// A newline moves the cursor to column 0 of the next row and stores
/// nothing.
pub proof fn lemma_newline_moves_cursor(fb: FrameBufferStream, font: PsfFont, ws: Seq<PixelWrite>)
    requires
        fb.y < u32::MAX,
    ensures
        fb.render(font, ws, seq!['\n']) == (FrameBufferStream { x: 0, y: (fb.y + 1) as u32, ..fb }, ws),
{
    assert(seq!['\n'].drop_last() =~= Seq::<char>::empty());
    assert(fb.render(font, ws, Seq::<char>::empty()) == (fb, ws));
    assert(seq!['\n'].last() == '\n');
}

/// Every pixel of glyph `glyph` is set.
pub open spec fn glyph_solid(font: PsfFont, glyph: int) -> bool {
    forall|row: int, col: int|
        0 <= row < font.height && 0 <= col < font.width ==> #[trigger] font.pixel_set(glyph, row, col)
}

/// `b` is `a` followed by white stores only.
pub open spec fn white_after(a: Seq<PixelWrite>, b: Seq<PixelWrite>) -> bool {
    extends(a, b) && forall|i: int| a.len() <= i < b.len() ==> b[i].value == 255
}

impl FrameBufferStream {
    proof fn lemma_glyph_rows_extends(self, font: PsfFont, ws: Seq<PixelWrite>, glyph: int, origin: int, n: int)
        ensures
            extends(ws, self.glyph_rows(font, ws, glyph, origin, n)),
        decreases n,
    {
        if n > 0 {
            let prev = self.glyph_rows(font, ws, glyph, origin, n - 1);
            self.lemma_glyph_rows_extends(font, ws, glyph, origin, n - 1);
            self.lemma_glyph_cols_extends(
                font,
                prev,
                glyph,
                n - 1,
                origin + (n - 1) * self.pitch as int,
                font.width as int,
            );
        }
    }

    proof fn lemma_glyph_cols_extends(self, font: PsfFont, ws: Seq<PixelWrite>, glyph: int, row: int, line: int, n: int)
        ensures
            extends(ws, self.glyph_cols(font, ws, glyph, row, line, n)),
        decreases n,
    {
        if n > 0 {
            self.lemma_glyph_cols_extends(font, ws, glyph, row, line, n - 1);
        }
    }

    proof fn lemma_glyph_cols_white(self, font: PsfFont, ws: Seq<PixelWrite>, glyph: int, row: int, line: int, n: int)
        requires
            forall|col: int| 0 <= col < n ==> font.pixel_set(glyph, row, col),
        ensures
            white_after(ws, self.glyph_cols(font, ws, glyph, row, line, n)),
        decreases n,
    {
        if n > 0 {
            self.lemma_glyph_cols_white(font, ws, glyph, row, line, n - 1);
        }
    }

    proof fn lemma_glyph_rows_white(self, font: PsfFont, ws: Seq<PixelWrite>, glyph: int, origin: int, n: int)
        requires
            n <= font.height,
            glyph_solid(font, glyph),
        ensures
            white_after(ws, self.glyph_rows(font, ws, glyph, origin, n)),
        decreases n,
    {
        if n > 0 {
            let prev = self.glyph_rows(font, ws, glyph, origin, n - 1);
            self.lemma_glyph_rows_white(font, ws, glyph, origin, n - 1);
            self.lemma_glyph_cols_white(
                font,
                prev,
                glyph,
                n - 1,
                origin + (n - 1) * self.pitch as int,
                font.width as int,
            );
        }
    }
}

/// A character that the font has a glyph for moves the cursor exactly one
/// cell right on the same row, and only appends stores. When every pixel of
/// the glyph is set, every store it appends is white.
pub proof fn lemma_glyph_advances_cursor(fb: FrameBufferStream, font: PsfFont, ws: Seq<PixelWrite>, ch: char)
    requires
        ch != '\r',
        ch != '\n',
        (ch as u32) < font.numglyph,
        fb.x < u32::MAX,
    ensures
        fb.spec_put_char(font, ws, ch).0 == (FrameBufferStream { x: (fb.x + 1) as u32, ..fb }),
        extends(ws, fb.spec_put_char(font, ws, ch).1),
        glyph_solid(font, ch as u32 as int) ==> white_after(ws, fb.spec_put_char(font, ws, ch).1),
{
    let g = ch as u32 as int;
    let origin = fb.cell_origin(font);
    if glyph_solid(font, g) {
        fb.lemma_glyph_rows_white(font, ws, g, origin, font.height as int);
    } else {
        fb.lemma_glyph_rows_extends(font, ws, g, origin, font.height as int);
    }
}

impl FrameBufferStream {
    /// Byte `c` of the pixel in column `col` of pixel row `row` of a block
    /// whose top-left pixel starts at byte `origin`.
    pub open spec fn byte_at(self, origin: int, row: int, col: int, c: int) -> int {
        origin + row * self.pitch as int + col * BYTES_PER_PIXEL as int + c
    }

    /// `off` is one of the first three bytes of a pixel of the block of
    /// `rows` by `cols` pixels whose top-left pixel starts at byte `origin`.
    pub open spec fn in_block(self, off: int, origin: int, rows: int, cols: int) -> bool {
        exists|row: int, col: int, c: int|
            0 <= row < rows && 0 <= col < cols && 0 <= c < 3 && off == #[trigger] self.byte_at(
                origin,
                row,
                col,
                c,
            )
    }

    /// `b` is `a` followed by stores that lie within pixel memory and within
    /// the block of `rows` by `cols` pixels at `origin`.
    pub open spec fn stores_in_block(
        self,
        a: Seq<PixelWrite>,
        b: Seq<PixelWrite>,
        origin: int,
        rows: int,
        cols: int,
    ) -> bool {
        &&& extends(a, b)
        &&& forall|i: int| a.len() <= i < b.len() ==> self.store_in_block(#[trigger] b[i], origin, rows, cols)
    }

    /// `w` lies within pixel memory and within the block of `rows` by `cols`
    /// pixels at `origin`.
    pub open spec fn store_in_block(self, w: PixelWrite, origin: int, rows: int, cols: int) -> bool {
        w.offset < self.limit() && self.in_block(w.offset as int, origin, rows, cols)
    }

    proof fn lemma_stores_in_block_trans(
        self,
        a: Seq<PixelWrite>,
        b: Seq<PixelWrite>,
        c: Seq<PixelWrite>,
        origin: int,
        rows: int,
        cols: int,
    )
        requires
            self.stores_in_block(a, b, origin, rows, cols),
            self.stores_in_block(b, c, origin, rows, cols),
        ensures
            self.stores_in_block(a, c, origin, rows, cols),
    {
        assert forall|i: int| a.len() <= i < c.len() implies self.store_in_block(
            #[trigger] c[i],
            origin,
            rows,
            cols,
        ) by {
            if i < b.len() {
                assert(c[i] == b[i]);
            }
        }
        assert forall|i: int| 0 <= i < a.len() implies c[i] == a[i] by {
            assert(b[i] == a[i]);
        }
        assert(extends(a, c));
    }

    proof fn lemma_pixel_plan_in_block(
        self,
        ws: Seq<PixelWrite>,
        origin: int,
        row: int,
        col: int,
        rows: int,
        cols: int,
        r: u8,
        g: u8,
        b: u8,
    )
        requires
            0 <= row < rows,
            0 <= col < cols,
        ensures
            self.stores_in_block(
                ws,
                self.pixel_plan(ws, self.byte_at(origin, row, col, 0), r, g, b),
                origin,
                rows,
                cols,
            ),
    {
        self.lemma_limit_bound();
        let o = self.byte_at(origin, row, col, 0);
        assert(o + 1 == self.byte_at(origin, row, col, 1));
        assert(o + 2 == self.byte_at(origin, row, col, 2));
        assert(self.in_block(o, origin, rows, cols));
        assert(self.in_block(o + 1, origin, rows, cols));
        assert(self.in_block(o + 2, origin, rows, cols));
    }

    proof fn lemma_clear_cols_in_surface(self, ws: Seq<PixelWrite>, row: int, n: int, r: u8, g: u8, b: u8)
        requires
            0 <= row < self.height,
            n <= self.width,
        ensures
            self.stores_in_block(
                ws,
                self.clear_cols(ws, row, n, r, g, b),
                0,
                self.height as int,
                self.width as int,
            ),
        decreases n,
    {
        if n > 0 {
            let prev = self.clear_cols(ws, row, n - 1, r, g, b);
            self.lemma_clear_cols_in_surface(ws, row, n - 1, r, g, b);
            assert(self.byte_at(0, row, n - 1, 0) == row * self.pitch as int + (n - 1) * 4);
            self.lemma_pixel_plan_in_block(prev, 0, row, n - 1, self.height as int, self.width as int, r, g, b);
            self.lemma_stores_in_block_trans(
                ws,
                prev,
                self.clear_cols(ws, row, n, r, g, b),
                0,
                self.height as int,
                self.width as int,
            );
        }
    }

    proof fn lemma_clear_rows_in_surface(self, ws: Seq<PixelWrite>, n: int, r: u8, g: u8, b: u8)
        requires
            n <= self.height,
        ensures
            self.stores_in_block(ws, self.clear_rows(ws, n, r, g, b), 0, self.height as int, self.width as int),
        decreases n,
    {
        if n > 0 {
            let prev = self.clear_rows(ws, n - 1, r, g, b);
            self.lemma_clear_rows_in_surface(ws, n - 1, r, g, b);
            self.lemma_clear_cols_in_surface(prev, n - 1, self.width as int, r, g, b);
            self.lemma_stores_in_block_trans(
                ws,
                prev,
                self.clear_rows(ws, n, r, g, b),
                0,
                self.height as int,
                self.width as int,
            );
        }
    }

    proof fn lemma_glyph_cols_in_cell(
        self,
        font: PsfFont,
        ws: Seq<PixelWrite>,
        glyph: int,
        origin: int,
        row: int,
        n: int,
    )
        requires
            0 <= row < font.height,
            n <= font.width,
        ensures
            self.stores_in_block(
                ws,
                self.glyph_cols(font, ws, glyph, row, origin + row * self.pitch as int, n),
                origin,
                font.height as int,
                font.width as int,
            ),
        decreases n,
    {
        if n > 0 {
            let line = origin + row * self.pitch as int;
            let prev = self.glyph_cols(font, ws, glyph, row, line, n - 1);
            let v = ink(font.pixel_set(glyph, row, n - 1));
            self.lemma_glyph_cols_in_cell(font, ws, glyph, origin, row, n - 1);
            assert(self.byte_at(origin, row, n - 1, 0) == line + (n - 1) * 4);
            self.lemma_pixel_plan_in_block(
                prev,
                origin,
                row,
                n - 1,
                font.height as int,
                font.width as int,
                v,
                v,
                v,
            );
            self.lemma_stores_in_block_trans(
                ws,
                prev,
                self.glyph_cols(font, ws, glyph, row, line, n),
                origin,
                font.height as int,
                font.width as int,
            );
        }
    }

    proof fn lemma_glyph_rows_in_cell(self, font: PsfFont, ws: Seq<PixelWrite>, glyph: int, origin: int, n: int)
        requires
            n <= font.height,
        ensures
            self.stores_in_block(
                ws,
                self.glyph_rows(font, ws, glyph, origin, n),
                origin,
                font.height as int,
                font.width as int,
            ),
        decreases n,
    {
        if n > 0 {
            let prev = self.glyph_rows(font, ws, glyph, origin, n - 1);
            self.lemma_glyph_rows_in_cell(font, ws, glyph, origin, n - 1);
            self.lemma_glyph_cols_in_cell(font, prev, glyph, origin, n - 1, font.width as int);
            self.lemma_stores_in_block_trans(
                ws,
                prev,
                self.glyph_rows(font, ws, glyph, origin, n),
                origin,
                font.height as int,
                font.width as int,
            );
        }
    }

    proof fn lemma_glyph_cols_mono(
        self,
        font: PsfFont,
        ws: Seq<PixelWrite>,
        glyph: int,
        row: int,
        line: int,
        n: int,
        m: int,
    )
        requires
            0 <= n <= m,
        ensures
            extends(
                self.glyph_cols(font, ws, glyph, row, line, n),
                self.glyph_cols(font, ws, glyph, row, line, m),
            ),
        decreases m,
    {
        if n < m {
            self.lemma_glyph_cols_mono(font, ws, glyph, row, line, n, m - 1);
        }
    }

    proof fn lemma_glyph_rows_mono(
        self,
        font: PsfFont,
        ws: Seq<PixelWrite>,
        glyph: int,
        origin: int,
        n: int,
        m: int,
    )
        requires
            0 <= n <= m,
        ensures
            extends(self.glyph_rows(font, ws, glyph, origin, n), self.glyph_rows(font, ws, glyph, origin, m)),
        decreases m,
    {
        if n < m {
            self.lemma_glyph_rows_mono(font, ws, glyph, origin, n, m - 1);
            self.lemma_glyph_cols_extends(
                font,
                self.glyph_rows(font, ws, glyph, origin, m - 1),
                glyph,
                m - 1,
                origin + (m - 1) * self.pitch as int,
                font.width as int,
            );
        }
    }
}

/// `clear` stores only on the first three bytes of the surface's pixels, and
/// only within pixel memory.
pub proof fn lemma_clear_stays_in_surface(fb: FrameBufferStream, ws: Seq<PixelWrite>, r: u8, g: u8, b: u8)
    ensures
        fb.stores_in_block(
            ws,
            fb.clear_rows(ws, fb.height as int, r, g, b),
            0,
            fb.height as int,
            fb.width as int,
        ),
{
    fb.lemma_clear_rows_in_surface(ws, fb.height as int, r, g, b);
}

/// Drawing a character stores only on the first three bytes of the pixels
/// of the cursor's cell, `font.height` rows of `font.width` pixels, and only
/// within pixel memory.
pub proof fn lemma_glyph_stays_in_cell(fb: FrameBufferStream, font: PsfFont, ws: Seq<PixelWrite>, ch: char)
    ensures
        fb.stores_in_block(
            ws,
            fb.spec_put_char(font, ws, ch).1,
            fb.cell_origin(font),
            font.height as int,
            font.width as int,
        ),
{
    if ch != '\r' && ch != '\n' && (ch as u32) < font.numglyph {
        fb.lemma_glyph_rows_in_cell(font, ws, ch as u32 as int, fb.cell_origin(font), font.height as int);
    }
}

/// A character whose glyph has every pixel set paints white each of the
/// first three bytes of every pixel of the cursor's cell that lies within
/// pixel memory, whatever the memory held before.
pub proof fn lemma_solid_glyph_fills_cell(
    fb: FrameBufferStream,
    font: PsfFont,
    mem: Seq<u8>,
    ch: char,
    row: int,
    col: int,
    c: int,
)
    requires
        ch != '\r',
        ch != '\n',
        (ch as u32) < font.numglyph,
        glyph_solid(font, ch as u32 as int),
        0 <= row < font.height,
        0 <= col < font.width,
        0 <= c < 3,
        fb.byte_at(fb.cell_origin(font), row, col, c) < fb.limit(),
        mem.len() == fb.limit(),
    ensures
        apply_writes(mem, fb.spec_put_char(font, seq![], ch).1)[fb.byte_at(
            fb.cell_origin(font),
            row,
            col,
            c,
        )] == 255,
{
    let g = ch as u32 as int;
    let origin = fb.cell_origin(font);
    let ws = fb.glyph_rows(font, seq![], g, origin, font.height as int);
    assert(fb.spec_put_char(font, seq![], ch).1 == ws);
    let o = fb.byte_at(origin, row, col, c);
    assert(origin >= 0 && row * fb.pitch >= 0) by (nonlinear_arith)
        requires
            origin == fb.y as int * font.height as int * fb.pitch as int + fb.x as int * (font.width as int + 1) * 4,
            row >= 0,
    ;
    fb.lemma_limit_bound();
    let line = origin + row * fb.pitch as int;
    let px = line + col * 4;
    let before_row = fb.glyph_rows(font, seq![], g, origin, row);
    let before_px = fb.glyph_cols(font, before_row, g, row, line, col);
    let with_px = fb.glyph_cols(font, before_row, g, row, line, col + 1);
    assert(font.pixel_set(g, row, col));
    let s1 = fb.emitted(before_px, px, 255);
    let s2 = fb.emitted(s1, px + 1, 255);
    assert(with_px == fb.emitted(s2, px + 2, 255));
    let i: int = if c == 0 {
        before_px.len() as int
    } else if c == 1 {
        s1.len() as int
    } else {
        s2.len() as int
    };
    assert(with_px[i] == PixelWrite { offset: o as u64, value: 255 });
    fb.lemma_glyph_cols_mono(font, before_row, g, row, line, col + 1, font.width as int);
    fb.lemma_glyph_rows_mono(font, seq![], g, origin, row + 1, font.height as int);
    assert(ws[i] == with_px[i]);
    fb.lemma_glyph_rows_white(font, seq![], g, origin, font.height as int);
    lemma_apply_reads(mem, ws, i, o, 255);
}

} // verus!
