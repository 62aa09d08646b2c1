//! Decoder for PSF2 console fonts, the bitmap fonts of the Linux console.
//!
//! A font file is a 32-byte header followed by a flat table of glyph bitmaps.
//! Every glyph takes the same number of bytes, one byte per pixel row, and is
//! found by its character's code point. Glyphs wider than 8 pixels are not
//! supported.

use vstd::prelude::*;
use vstd::slice::slice_subrange;
use vstd::slice::slice_to_vec;
use vstd::string::StringExecFns;

verus! {

/// Number of bytes that the header takes at the start of a font file.
pub const HEADER_LEN: usize = 32;

/// Why a font could not be decoded.
#[derive(Debug, Clone, Copy, PartialEq, Eq, Structural)]
pub enum FontError {
    /// The buffer does not start with a complete header that carries the
    /// format's magic number.
    HeaderMismatch,
}

impl FontError {
    /// The text shown to a user for this error.
    pub fn message(&self) -> (text: String)
        ensures
            text@ == "header magic does not match, is this a psf2 font?"@,
    {
        match self {
            FontError::HeaderMismatch => String::from_str(
                "header magic does not match, is this a psf2 font?",
            ),
        }
    }
}

/// The header fields of a font file, in file order.
#[derive(Debug, Clone, Copy)]
pub struct Header {
    pub magic: [u8; 4],
    pub version: u32,
    /// Size of the header in bytes, as the file states it.
    pub size: u32,
    pub flags: u32,
    /// Number of glyphs.
    pub length: u32,
    /// Bytes per glyph.
    pub glyph_size: u32,
    pub glyph_height: u32,
    pub glyph_width: u32,
}

/// A decoded font: its header and the glyph table.
#[derive(Debug)]
pub struct Font {
    pub header: Header,
    /// The glyph bitmaps, one after the other.
    pub char_data: Vec<u8>,
}

/// The four bytes that every font file starts with.
pub open spec fn magic() -> Seq<u8> {
    seq![0x72u8, 0xb5u8, 0x4au8, 0x86u8]
}

/// The 32-bit little-endian number stored in the first four bytes of `bytes`.
pub open spec fn le_u32(bytes: Seq<u8>) -> int {
    bytes[0] as int + 0x100 * (bytes[1] as int) + 0x1_0000 * (bytes[2] as int) + 0x100_0000 * (
    bytes[3] as int)
}

/// The header field that starts at byte `offset` of a font file.
pub open spec fn field(raw: Seq<u8>, offset: int) -> int {
    le_u32(raw.subrange(offset, offset + 4))
}

/// Whether `raw` starts with a complete header that carries the magic number.
pub open spec fn has_header(raw: Seq<u8>) -> bool {
    raw.len() >= HEADER_LEN && raw.subrange(0, 4) == magic()
}

/// One pixel of a glyph row: the bit of `byte` for the given column, the
/// leftmost column being the most significant bit.
pub open spec fn bit_at(byte: u8, column: int) -> u8 {
    (byte >> ((7 - column) as u8)) & 1
}

/// A glyph row as pixels, left to right: 1 is a pixel to plot, 0 is not.
pub open spec fn row_bits(byte: u8) -> Seq<u8> {
    Seq::new(8, |column: int| bit_at(byte, column))
}

/// Every pixel of a glyph row is 0 or 1.
pub proof fn lemma_bit_is_binary(byte: u8, column: int)
    requires
        0 <= column < 8,
    ensures
        bit_at(byte, column) == 0 || bit_at(byte, column) == 1,
{
    let shift = (7 - column) as u8;
    assert(((byte >> shift) & 1) == 0 || ((byte >> shift) & 1) == 1) by (bit_vector);
}

impl Header {
    /// The header that the first 32 bytes of a font file describe.
    pub open spec fn decoded(self, raw: Seq<u8>) -> bool {
        &&& self.magic@ == raw.subrange(0, 4)
        &&& self.version == field(raw, 4)
        &&& self.size == field(raw, 8)
        &&& self.flags == field(raw, 12)
        &&& self.length == field(raw, 16)
        &&& self.glyph_size == field(raw, 20)
        &&& self.glyph_height == field(raw, 24)
        &&& self.glyph_width == field(raw, 28)
    }
}

impl Font {
    /// The glyph table: everything in the file after the header.
    pub open spec fn table(&self) -> Seq<u8> {
        self.char_data@
    }

    /// Whether the table holds all the bytes of the glyph for `ch`.
    pub open spec fn has_glyph(&self, ch: char) -> bool {
        (ch as int + 1) * self.header.glyph_size <= self.table().len()
    }

    /// Byte `row` of the glyph for `ch`.
    pub open spec fn glyph_byte(&self, ch: char, row: int) -> u8 {
        self.table()[self.header.glyph_size * (ch as int) + row]
    }

    /// The glyph for `ch` as rows of pixels, top to bottom.
    pub open spec fn glyph(&self, ch: char) -> Seq<Seq<u8>> {
        Seq::new(self.header.glyph_size as nat, |row: int| row_bits(self.glyph_byte(ch, row)))
    }

    /// Whether the header's numbers agree with each other and with the table:
    /// glyphs are 8 pixels wide, take one byte per row, and the table holds
    /// as many glyphs as the header counts.
    pub open spec fn consistent(&self) -> bool {
        &&& self.header.glyph_width == 8
        &&& self.header.glyph_size == self.header.glyph_height
        &&& self.header.length * self.header.glyph_size <= self.table().len()
    }

    /// Whether `ch` is one of the glyphs that the header counts.
    pub open spec fn counts(&self, ch: char) -> bool {
        (ch as int) < self.header.length
    }

    /// In a consistent font every counted character has its glyph in the
    /// table.
    pub proof fn lemma_counted_has_glyph(&self, ch: char)
        requires
            self.consistent(),
            self.counts(ch),
        ensures
            self.has_glyph(ch),
    {
        let n = self.header.length as int;
        let g = self.header.glyph_size as int;
        let c = ch as int;
        assert((c + 1) * g <= n * g) by (nonlinear_arith)
            requires
                0 <= c < n,
                0 <= g,
        ;
    }

    /// Tells whether the table holds the glyph for `ch`, which is what
    /// `get_char` asks of its argument.
    pub fn contains(&self, ch: char) -> (found: bool)
        ensures
            found == self.has_glyph(ch),
    {
        let size = self.header.glyph_size as u64;
        let code = ch as u64;
        let len = self.char_data.len() as u64;
        assert((code + 1) * size <= 0x11_0000 * 0x1_0000_0000) by (nonlinear_arith)
            requires
                0 <= code < 0x11_0000,
                0 <= size < 0x1_0000_0000,
        ;
        (code + 1) * size <= len
    }

    /// The glyph for `ch`: one row for each of its bytes, each row holding
    /// the byte's 8 bits from the most significant to the least.
    ///
    /// In a consistent font that makes `glyph_height` rows of `glyph_width`
    /// pixels.
    pub fn get_char(&self, ch: char) -> (rows: Vec<Vec<u8>>)
        requires
            self.has_glyph(ch),
        ensures
            rows.deep_view() == self.glyph(ch),
            rows.len() == self.header.glyph_size,
            forall|row: int| 0 <= row < rows.len() ==> (#[trigger] rows[row]).len() == 8,
            forall|row: int, column: int|
                0 <= row < rows.len() && 0 <= column < 8 ==> #[trigger] rows[row][column] <= 1,
            self.consistent() ==> rows.len() == self.header.glyph_height,
            self.consistent() ==> forall|row: int|
                0 <= row < rows.len() ==> (#[trigger] rows[row]).len() == self.header.glyph_width,
    {
        let size = self.header.glyph_size as usize;
        let code = ch as usize;
        assert(size == self.header.glyph_size && code == ch as int);
        assert((code + 1) * size <= self.char_data.len());
        assert(size * code + size == (code + 1) * size) by (nonlinear_arith);
        assert(0 <= size * code) by (nonlinear_arith)
            requires
                0 <= code,
                0 <= size,
        ;
        let from = size * code;
        let mut rows: Vec<Vec<u8>> = Vec::with_capacity(size);
        let mut i: usize = 0;
        while i < size
            invariant
                i <= size,
                size == self.header.glyph_size,
                from == self.header.glyph_size * (ch as int),
                from + size <= self.char_data.len(),
                rows.len() == i,
                forall|row: int| 0 <= row < i ==> (#[trigger] rows[row])@ == row_bits(self.glyph_byte(ch, row)),
            decreases size - i,
        {
            let byte = self.char_data[from + i];
            let mut bits: Vec<u8> = Vec::with_capacity(8);
            let mut j: u8 = 0;
            while j < 8
                invariant
                    j <= 8,
                    bits.len() == j,
                    forall|column: int| 0 <= column < j ==> #[trigger] bits[column] == bit_at(byte, column),
                decreases 8 - j,
            {
                let bit = (byte >> (7 - j)) & 1;
                bits.push(bit);
                j = j + 1;
            }
            assert(bits@ =~= row_bits(byte));
            rows.push(bits);
            i = i + 1;
        }
        proof {
            assert(rows.deep_view() =~~= self.glyph(ch));
            assert forall|row: int, column: int|
                0 <= row < rows.len() && 0 <= column < 8 implies #[trigger] rows[row][column] <= 1 by {
                lemma_bit_is_binary(self.glyph_byte(ch, row), column);
            }
        }
        rows
    }

    /// Decodes a font file.
    ///
    /// The first four bytes are compared with the magic number before
    /// anything else is read. The header's other fields are taken as they
    /// are, and all bytes after the header become the glyph table.
    pub fn load(raw: &[u8]) -> (result: Result<Font, FontError>)
        ensures
            result is Ok <==> has_header(raw@),
            result matches Err(error) ==> error == FontError::HeaderMismatch,
            result matches Ok(font) ==> font.header.decoded(raw@) && font.table() == raw@.skip(
                HEADER_LEN as int,
            ),
    {
        if raw.len() < 4 || raw[0] != 0x72 || raw[1] != 0xb5 || raw[2] != 0x4a || raw[3] != 0x86 {
            assert(!has_header(raw@)) by {
                if raw@.len() >= 4 {
                    let head = raw@.subrange(0, 4);
                    assert(head[0] == raw@[0] && head[1] == raw@[1] && head[2] == raw@[2] && head[3]
                        == raw@[3]);
                }
            }
            return Err(FontError::HeaderMismatch);
        }
        assert(raw@.subrange(0, 4) =~= magic());
        if raw.len() < HEADER_LEN {
            return Err(FontError::HeaderMismatch);
        }
        let header = Header {
            magic: [raw[0], raw[1], raw[2], raw[3]],
            version: as_u32_le(slice_subrange(raw, 4, 8)),
            size: as_u32_le(slice_subrange(raw, 8, 12)),
            flags: as_u32_le(slice_subrange(raw, 12, 16)),
            length: as_u32_le(slice_subrange(raw, 16, 20)),
            glyph_size: as_u32_le(slice_subrange(raw, 20, 24)),
            glyph_height: as_u32_le(slice_subrange(raw, 24, 28)),
            glyph_width: as_u32_le(slice_subrange(raw, 28, 32)),
        };
        assert(header.magic@ =~= raw@.subrange(0, 4));
        let char_data = slice_to_vec(slice_subrange(raw, HEADER_LEN, raw.len()));
        assert(char_data@ =~= raw@.skip(HEADER_LEN as int));
        Ok(Font { header, char_data })
    }
}

/// Reads a 32-bit little-endian number from the first four bytes of `array`.
pub fn as_u32_le(array: &[u8]) -> (value: u32)
    requires
        array.len() >= 4,
    ensures
        value == le_u32(array@),
{
    let b0 = array[0] as u32;
    let b1 = array[1] as u32;
    let b2 = array[2] as u32;
    let b3 = array[3] as u32;
    assert(b0 << 0 == b0) by (bit_vector);
    assert(b1 << 8 == b1 * 0x100) by (bit_vector)
        requires
            b1 < 0x100,
    ;
    assert(b2 << 16 == b2 * 0x1_0000) by (bit_vector)
        requires
            b2 < 0x100,
    ;
    assert(b3 << 24 == b3 * 0x100_0000) by (bit_vector)
        requires
            b3 < 0x100,
    ;
    (b0 << 0) + (b1 << 8) + (b2 << 16) + (b3 << 24)
}

} // verus!
