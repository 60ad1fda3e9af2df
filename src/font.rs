//! PSF fonts: a packed little-endian header of eight 32-bit fields followed
//! by one fixed-size bitmap per glyph.
use vstd::prelude::*;

verus! {

/// Magic number that opens a PSF2 font.
pub const PSF_MAGIC: u32 = 0x864A_B572;

/// Size in bytes of the packed header.
pub const PSF_HEADER_LEN: usize = 32;

/// Why a byte string is not a usable font.
#[derive(Clone, Copy, Debug, PartialEq, Eq)]
pub enum FontError {
    /// Shorter than the header.
    TooShort,
    /// The first field is not `PSF_MAGIC`.
    BadMagic,
    /// Zero width or height, a header shorter than its own fields, or glyphs
    /// too small to hold `height` rows of `ceil(width / 8)` bytes.
    BadGeometry,
    /// The glyph table runs past the end of the data.
    Truncated,
}

/// A parsed font: its header fields and the bytes they describe.
#[derive(Clone, Debug, PartialEq, Eq)]
pub struct PsfFont {
    pub magic: u32,
    pub version: u32,
    pub headersize: u32,
    pub flags: u32,
    pub numglyph: u32,
    pub bytes_per_glyph: u32,
    pub height: u32,
    pub width: u32,
    pub data: Vec<u8>,
}

/// The little-endian 32-bit word at byte `at` of `b`.
pub open spec fn le_u32(b: Seq<u8>, at: int) -> u32 {
    (b[at] as int + 256 * b[at + 1] as int + 65536 * b[at + 2] as int + 16777216
        * b[at + 3] as int) as u32
}

/// Bytes in one glyph row of a font `width` pixels wide.
pub open spec fn row_bytes(width: u32) -> int {
    (width as int + 7) / 8
}

/// The header's sizes describe glyphs that can be drawn.
pub open spec fn shape_ok(headersize: u32, bytes_per_glyph: u32, height: u32, width: u32) -> bool {
    &&& width > 0
    &&& height > 0
    &&& headersize >= PSF_HEADER_LEN
    &&& bytes_per_glyph as int >= height as int * row_bytes(width)
}

/// The glyph table described by the header lies within `len` bytes.
pub open spec fn table_fits(headersize: u32, numglyph: u32, bytes_per_glyph: u32, len: int) -> bool {
    headersize as int + numglyph as int * bytes_per_glyph as int <= len
}

/// Why `b` is not a usable font, checked in this order; `None` when it is one.
pub open spec fn parse_error(b: Seq<u8>) -> Option<FontError> {
    if b.len() < PSF_HEADER_LEN {
        Some(FontError::TooShort)
    } else if le_u32(b, 0) != PSF_MAGIC {
        Some(FontError::BadMagic)
    } else if !shape_ok(le_u32(b, 8), le_u32(b, 20), le_u32(b, 24), le_u32(b, 28)) {
        Some(FontError::BadGeometry)
    } else if !table_fits(le_u32(b, 8), le_u32(b, 16), le_u32(b, 20), b.len() as int) {
        Some(FontError::Truncated)
    } else {
        None
    }
}

impl PsfFont {
    /// The font is what a successful parse gives.
    pub open spec fn wf(&self) -> bool {
        &&& self.data@.len() >= PSF_HEADER_LEN
        &&& self.magic == PSF_MAGIC
        &&& self.magic == le_u32(self.data@, 0)
        &&& self.version == le_u32(self.data@, 4)
        &&& self.headersize == le_u32(self.data@, 8)
        &&& self.flags == le_u32(self.data@, 12)
        &&& self.numglyph == le_u32(self.data@, 16)
        &&& self.bytes_per_glyph == le_u32(self.data@, 20)
        &&& self.height == le_u32(self.data@, 24)
        &&& self.width == le_u32(self.data@, 28)
        &&& shape_ok(self.headersize, self.bytes_per_glyph, self.height, self.width)
        &&& table_fits(self.headersize, self.numglyph, self.bytes_per_glyph, self.data@.len() as int)
    }

    /// Read a font from its bytes. The magic number is checked before any
    /// size in the header is trusted, and every glyph must lie within `data`.
    pub fn parse(data: &[u8]) -> (r: Result<PsfFont, FontError>)
        ensures
            match parse_error(data@) {
                Some(e) => r == Err::<PsfFont, FontError>(e),
                None => r is Ok && r->Ok_0.wf() && r->Ok_0.data@ == data@,
            },
    {
        if data.len() < PSF_HEADER_LEN {
            return Err(FontError::TooShort);
        }
        let magic = read_u32_le(data, 0);
        if magic != PSF_MAGIC {
            return Err(FontError::BadMagic);
        }
        let version = read_u32_le(data, 4);
        let headersize = read_u32_le(data, 8);
        let flags = read_u32_le(data, 12);
        let numglyph = read_u32_le(data, 16);
        let bytes_per_glyph = read_u32_le(data, 20);
        let height = read_u32_le(data, 24);
        let width = read_u32_le(data, 28);
        if width == 0 || height == 0 || (headersize as usize) < PSF_HEADER_LEN {
            return Err(FontError::BadGeometry);
        }
        let row_len: u64 = (width as u64 + 7) / 8;
        assert(height as int * row_len as int <= 0xFFFF_FFFF * 0x2000_0000) by (nonlinear_arith)
            requires
                height <= 0xFFFF_FFFF,
                row_len <= 0x2000_0000,
        ;
        let rows_len: u64 = height as u64 * row_len;
        if (bytes_per_glyph as u64) < rows_len {
            return Err(FontError::BadGeometry);
        }
        assert(numglyph as int * bytes_per_glyph as int <= 0xFFFF_FFFF * 0xFFFF_FFFF)
            by (nonlinear_arith)
            requires
                numglyph <= 0xFFFF_FFFF,
                bytes_per_glyph <= 0xFFFF_FFFF,
        ;
        let table: u64 = numglyph as u64 * bytes_per_glyph as u64;
        assert(table as int == numglyph as int * bytes_per_glyph as int);
        if headersize as u64 + table > data.len() as u64 {
            return Err(FontError::Truncated);
        }
        let bytes = vstd::slice::slice_to_vec(data);
        Ok(PsfFont {
            magic,
            version,
            headersize,
            flags,
            numglyph,
            bytes_per_glyph,
            height,
            width,
            data: bytes,
        })
    }

    /// Whether pixel `col` of row `row` of glyph `glyph` is set.
    pub fn glyph_pixel(&self, glyph: u32, row: u32, col: u32) -> (r: bool)
        requires
            self.wf(),
            glyph < self.numglyph,
            row < self.height,
            col < self.width,
        ensures
            r == self.pixel_set(glyph as int, row as int, col as int),
    {
        let row_len: u64 = (self.width as u64 + 7) / 8;
        proof {
            lemma_row_in_glyph(self, glyph as int, row as int);
        }
        let len = self.data.len();
        let start: u64 = self.headersize as u64 + glyph as u64 * self.bytes_per_glyph as u64 + row as u64
            * row_len;
        let k: u32 = self.width - 1 - col;
        let at: u64 = start + row_len - 1 - (k / 8) as u64;
        assert(at < len);
        let byte = self.data[at as usize];
        (byte >> ((k % 8) as u8)) & 1u8 == 1u8
    }

    /// Byte index of row `row` of glyph `glyph`.
    pub open spec fn row_start(&self, glyph: int, row: int) -> int {
        self.headersize as int + glyph * self.bytes_per_glyph as int + row * row_bytes(self.width)
    }

    /// Whether pixel `col` of row `row` of glyph `glyph` is set: the row's
    /// bytes read as one big-endian number, and the pixels taken from bit
    /// `width - 1` down to bit 0.
    pub open spec fn pixel_set(&self, glyph: int, row: int, col: int) -> bool {
        let k = self.width as int - 1 - col;
        let byte = self.data@[self.row_start(glyph, row) + row_bytes(self.width) - 1 - k / 8];
        (byte >> ((k % 8) as u8)) & 1u8 == 1u8
    }
}

/// Every row of every glyph lies within the font's data.
proof fn lemma_row_in_glyph(f: &PsfFont, glyph: int, row: int)
    requires
        f.wf(),
        0 <= glyph < f.numglyph,
        0 <= row < f.height,
    ensures
        f.headersize as int <= f.row_start(glyph, row),
        f.row_start(glyph, row) + row_bytes(f.width) <= f.data@.len(),
        f.row_start(glyph, row) + row_bytes(f.width) <= f.headersize as int + (glyph + 1)
            * f.bytes_per_glyph as int,
        0 <= glyph * f.bytes_per_glyph as int <= f.data@.len(),
        0 <= row * row_bytes(f.width) <= f.data@.len(),
{
    let bpg = f.bytes_per_glyph as int;
    let rb = row_bytes(f.width);
    let h = f.height as int;
    let n = f.numglyph as int;
    assert(row * rb + rb <= h * rb) by (nonlinear_arith)
        requires
            0 <= row < h,
            rb >= 0,
    ;
    assert(0 <= row * rb) by (nonlinear_arith)
        requires
            0 <= row,
            rb >= 0,
    ;
    assert(0 <= glyph * bpg) by (nonlinear_arith)
        requires
            0 <= glyph,
            bpg >= 0,
    ;
    assert(glyph * bpg + bpg <= n * bpg) by (nonlinear_arith)
        requires
            0 <= glyph < n,
            bpg >= 0,
    ;
    assert((glyph + 1) * bpg == glyph * bpg + bpg) by (nonlinear_arith);
}

/// Read the little-endian word at byte `at`.
fn read_u32_le(b: &[u8], at: usize) -> (r: u32)
    requires
        at + 4 <= b@.len(),
    ensures
        r == le_u32(b@, at as int),
{
    let r = b[at] as u32 + (b[at + 1] as u32) * 256 + (b[at + 2] as u32) * 65536 + (b[at + 3]
        as u32) * 16777216;
    r
}

} // verus!
