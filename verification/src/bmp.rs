//! BMP images on the SD card: the header, the pixel rows as RGB565, and the
//! catalogue of files shown by the power and photo screens.

use vstd::prelude::*;

verus! {

#[derive(Debug, Clone, Copy, PartialEq, Eq, Structural)]
pub enum SdError {
    Init,
    NoVolume,
    NoDir,
    FileOpen,
    Read,
    BadBmp,
    NoImage,
}

// ── Header ───────────────────────────────────────────────────────────────────

/// What the drawing code needs from a BMP header.
#[derive(Debug, Clone, Copy, PartialEq, Eq, Structural)]
pub struct BmpInfo {
    pub width: u32,
    pub height: u32,
    pub bits_per_pixel: u16,
    pub data_offset: u32,
    pub row_stride: u32,
    pub top_down: bool,
}

/// Little-endian unsigned value of `bs[at .. at + 4]`.
pub open spec fn le_u32(bs: Seq<u8>, at: int) -> int {
    bs[at] + bs[at + 1] * 0x100 + bs[at + 2] * 0x10000 + bs[at + 3] * 0x1000000
}

/// Little-endian two's-complement value of `bs[at .. at + 4]`.
pub open spec fn le_i32(bs: Seq<u8>, at: int) -> int {
    let u = le_u32(bs, at);
    if u >= 0x80000000 { u - 0x100000000 } else { u }
}

pub open spec fn abs(v: int) -> int {
    if v < 0 { -v } else { v }
}

/// Bytes of a row of `width` pixels of `bpp` bits, padded to a multiple of four.
pub open spec fn spec_row_stride(width: int, bpp: int) -> int {
    ((width * ((bpp + 7) / 8) + 3) / 4) * 4
}

/// The header of a BMP file: "BM", pixel data offset (bytes 10..14), width
/// (18..22) and height (22..26; negative for rows stored top-down), and 16, 24
/// or 32 bits per pixel (28..30).
pub open spec fn spec_parse_bmp_header(hdr: Seq<u8>) -> Result<BmpInfo, SdError> {
    let bpp = hdr[28] + hdr[29] * 0x100;
    let w = abs(le_i32(hdr, 18));
    let h = abs(le_i32(hdr, 22));
    if hdr[0] != 0x42 || hdr[1] != 0x4d {
        Err(SdError::BadBmp)
    } else if !(bpp == 16 || bpp == 24 || bpp == 32) {
        Err(SdError::BadBmp)
    } else {
        Ok(BmpInfo {
            width: w as u32,
            height: h as u32,
            bits_per_pixel: bpp as u16,
            data_offset: le_u32(hdr, 10) as u32,
            row_stride: spec_row_stride(w, bpp) as u32,
            top_down: le_i32(hdr, 22) < 0,
        })
    }
}

/// For a header that `parse_bmp_header` accepts, the row stride of its width
/// fits in a `u32` (else the arithmetic overflows).
pub open spec fn bmp_header_fits(hdr: Seq<u8>) -> bool {
    let bpp = hdr[28] + hdr[29] * 0x100;
    hdr[0] == 0x42 && hdr[1] == 0x4d && (bpp == 16 || bpp == 24 || bpp == 32)
        ==> abs(le_i32(hdr, 18)) * ((bpp + 7) / 8) + 3 <= u32::MAX
}

/// Whether `parse_bmp_header` can read `hdr` without overflow.
pub fn header_fits(hdr: &[u8; 54]) -> (b: bool)
    ensures
        b == bmp_header_fits(hdr@),
{
    let bits_per_pixel: u16 = (hdr[28] as u16) + (hdr[29] as u16) * 256;
    if hdr[0] != 0x42 || hdr[1] != 0x4d || !(bits_per_pixel == 16 || bits_per_pixel == 24 || bits_per_pixel == 32) {
        return true;
    }
    let abs_w = abs_of_raw(read_le_u32(hdr, 18));
    let bytes_pp = (bits_per_pixel as u64 + 7) / 8;
    assert(bytes_pp <= 4);
    assert((abs_w as u64) * bytes_pp <= 0xffff_ffffu64 * 4) by (nonlinear_arith)
        requires abs_w <= 0xffff_ffffu32, bytes_pp <= 4;
    (abs_w as u64) * bytes_pp + 3 <= 0xffff_ffff
}

fn read_le_u32(hdr: &[u8; 54], at: usize) -> (v: u32)
    requires
        at + 4 <= 54,
    ensures
        v == le_u32(hdr@, at as int),
{
    let (b0, b1, b2, b3) = (hdr[at], hdr[at + 1], hdr[at + 2], hdr[at + 3]);
    let v = (b0 as u32) | ((b1 as u32) << 8) | ((b2 as u32) << 16) | ((b3 as u32) << 24);
    assert(v == b0 as u32 + b1 as u32 * 0x100 + b2 as u32 * 0x10000 + b3 as u32 * 0x1000000) by (bit_vector)
        requires v == (b0 as u32) | ((b1 as u32) << 8) | ((b2 as u32) << 16) | ((b3 as u32) << 24);
    v
}

/// Absolute value of the two's-complement number whose bits are `raw`.
fn abs_of_raw(raw: u32) -> (v: u32)
    ensures
        v == abs(if raw >= 0x80000000 { raw - 0x100000000 } else { raw as int }),
{
    if raw >= 0x80000000 {
        (0x100000000u64 - raw as u64) as u32
    } else {
        raw
    }
}

/// Reads the 54-byte header of a BMP file.
pub fn parse_bmp_header(hdr: &[u8; 54]) -> (r: Result<BmpInfo, SdError>)
    requires
        bmp_header_fits(hdr@),
    ensures
        r == spec_parse_bmp_header(hdr@),
{
    if hdr[0] != 0x42 || hdr[1] != 0x4d {
        return Err(SdError::BadBmp);
    }
    let data_offset = read_le_u32(hdr, 10);
    let width_raw = read_le_u32(hdr, 18);
    let height_raw = read_le_u32(hdr, 22);
    let bits_per_pixel: u16 = (hdr[28] as u16) + (hdr[29] as u16) * 256;

    if !(bits_per_pixel == 16 || bits_per_pixel == 24 || bits_per_pixel == 32) {
        return Err(SdError::BadBmp);
    }

    let top_down = height_raw >= 0x80000000;
    let abs_h = abs_of_raw(height_raw);
    let abs_w = abs_of_raw(width_raw);
    let bytes_pp = (bits_per_pixel as u32 + 7) / 8;
    let row_stride = ((abs_w * bytes_pp + 3) / 4) * 4;

    Ok(BmpInfo { width: abs_w, height: abs_h, bits_per_pixel, data_offset, row_stride, top_down })
}

// ── Pixel rows ───────────────────────────────────────────────────────────────

/// RGB565 from 8-bit blue, green and red.
pub open spec fn rgb565(b: int, g: int, r: int) -> int {
    (r / 8) * 2048 + (g / 4) * 32 + b / 8
}

/// Bytes per pixel at `bpp` bits.
pub open spec fn bytes_per_pixel(bpp: int) -> int {
    (bpp + 7) / 8
}

/// The pixels of a row that `row_to_rgb565` converts: as many as asked for and
/// as the raw bytes hold (none for an unsupported depth).
pub open spec fn converted_pixels(raw_len: int, bpp: int, pixels: int) -> int {
    if bpp == 16 || bpp == 24 || bpp == 32 {
        let avail = raw_len / bytes_per_pixel(bpp);
        if pixels < avail { pixels } else { avail }
    } else {
        0
    }
}

/// RGB565 of pixel `i` of a row of `raw` bytes: the little-endian word at 16 bits,
/// or blue, green, red bytes at 24 and 32 bits.
pub open spec fn pixel_565(raw: Seq<u8>, bpp: int, i: int) -> int {
    if bpp == 16 {
        raw[2 * i] + raw[2 * i + 1] * 256
    } else {
        let k = bytes_per_pixel(bpp);
        rgb565(raw[k * i] as int, raw[k * i + 1] as int, raw[k * i + 2] as int)
    }
}

fn pack_565(b: u8, g: u8, r: u8) -> (v: u16)
    ensures
        v == rgb565(b as int, g as int, r as int),
{
    let (b, g, r) = (b as u16, g as u16, r as u16);
    let v = ((r >> 3) << 11) | ((g >> 2) << 5) | (b >> 3);
    assert(v == (r / 8) * 2048 + (g / 4) * 32 + b / 8) by (bit_vector)
        requires v == ((r >> 3) << 11) | ((g >> 2) << 5) | (b >> 3), r < 256, g < 256, b < 256;
    v
}

/// Converts one BMP row to RGB565 pixels in `out`; the rest of `out` is left as it was.
pub fn row_to_rgb565(raw: &[u8], bpp: u16, pixels: usize, out: &mut [u16])
    requires
        converted_pixels(raw@.len() as int, bpp as int, pixels as int) <= old(out)@.len(),
    ensures
        final(out)@.len() == old(out)@.len(),
        forall|i: int| 0 <= i < final(out)@.len() ==> #[trigger] final(out)@[i] == if i < converted_pixels(raw@.len() as int, bpp as int, pixels as int) {
            pixel_565(raw@, bpp as int, i) as u16
        } else {
            old(out)@[i]
        },
{
    if bpp == 16 || bpp == 24 || bpp == 32 {
        let k: usize = if bpp == 16 { 2 } else if bpp == 24 { 3 } else { 4 };
        let rl = raw.len();
        let avail = rl / k;
        let count = if pixels < avail { pixels } else { avail };
        let mut i: usize = 0;
        while i < count
            invariant
                count == converted_pixels(raw@.len() as int, bpp as int, pixels as int),
                rl == raw@.len(),
                k == bytes_per_pixel(bpp as int),
                count <= avail == (raw@.len() as int) / (k as int),
                count <= old(out)@.len(),
                i <= count,
                out@.len() == old(out)@.len(),
                bpp == 16 || bpp == 24 || bpp == 32,
                forall|j: int| 0 <= j < out@.len() ==> #[trigger] out@[j] == if j < i { pixel_565(raw@, bpp as int, j) as u16 } else { old(out)@[j] },
            decreases count - i,
        {
            assert(k * i + k <= raw@.len()) by (nonlinear_arith)
                requires i < count, count <= (raw@.len() as int) / (k as int), k > 0;
            assert(k * i + k <= rl);
            let v = if bpp == 16 {
                let lo = raw[2 * i];
                let hi = raw[2 * i + 1];
                (lo as u16) + (hi as u16) * 256
            } else {
                pack_565(raw[k * i], raw[k * i + 1], raw[k * i + 2])
            };
            out[i] = v;
            i = i + 1;
        }
    }
}

/// The channels of a converted pixel: at 24 and 32 bits the blue, green and red
/// of a pixel are its first, second and third bytes, kept in the low 5, middle
/// 6 and high 5 bits of the RGB565 word; at 16 bits the word is the pixel's two
/// bytes, low byte first.
pub proof fn lemma_pixel_channels(raw: Seq<u8>, bpp: int, i: int)
    requires
        bpp == 16 || bpp == 24 || bpp == 32,
        0 <= i,
        (bpp / 8) * i + bpp / 8 <= raw.len(),
    ensures
        bpp == 16 ==> pixel_565(raw, bpp, i) == raw[2 * i] + 256 * raw[2 * i + 1],
        bpp != 16 ==> ({
            let k = if bpp == 24 { 3int } else { 4int };
            let v = pixel_565(raw, bpp, i);
            &&& 0 <= v < 0x10000
            &&& v % 32 == raw[k * i] / 8
            &&& (v / 32) % 64 == raw[k * i + 1] / 4
            &&& v / 2048 == raw[k * i + 2] / 8
        }),
{
    if bpp != 16 {
        let k = if bpp == 24 { 3int } else { 4int };
        assert(bytes_per_pixel(bpp) == k);
        let b = raw[k * i] as int;
        let g = raw[k * i + 1] as int;
        let r = raw[k * i + 2] as int;
        let v = pixel_565(raw, bpp, i);
        assert(v == (r / 8) * 2048 + (g / 4) * 32 + b / 8);
        assert(0 <= b / 8 < 32 && 0 <= g / 4 < 64 && 0 <= r / 8 < 32);
        vstd::arithmetic::div_mod::lemma_fundamental_div_mod_converse(v, 32, (r / 8) * 64 + g / 4, b / 8);
        vstd::arithmetic::div_mod::lemma_fundamental_div_mod_converse((r / 8) * 64 + g / 4, 64, r / 8, g / 4);
        vstd::arithmetic::div_mod::lemma_fundamental_div_mod_converse(v, 2048, r / 8, (g / 4) * 32 + b / 8);
    }
}

/// The 24- and 32-bit layouts give the same colour for the same blue, green and
/// red bytes (the fourth byte of a 32-bit pixel is not used).
pub proof fn lemma_depths_agree(raw24: Seq<u8>, raw32: Seq<u8>, i: int)
    requires
        0 <= i,
        3 * i + 3 <= raw24.len(),
        4 * i + 4 <= raw32.len(),
        raw24[3 * i] == raw32[4 * i],
        raw24[3 * i + 1] == raw32[4 * i + 1],
        raw24[3 * i + 2] == raw32[4 * i + 2],
    ensures
        pixel_565(raw24, 24, i) == pixel_565(raw32, 32, i),
{
    lemma_pixel_channels(raw24, 24, i);
    lemma_pixel_channels(raw32, 32, i);
    let v = pixel_565(raw24, 24, i);
    let w = pixel_565(raw32, 32, i);
    vstd::arithmetic::div_mod::lemma_fundamental_div_mod(v, 32);
    vstd::arithmetic::div_mod::lemma_fundamental_div_mod(w, 32);
    vstd::arithmetic::div_mod::lemma_fundamental_div_mod(v / 32, 64);
    vstd::arithmetic::div_mod::lemma_fundamental_div_mod(w / 32, 64);
    vstd::arithmetic::div_mod::lemma_div_denominator(v, 32, 64);
    vstd::arithmetic::div_mod::lemma_div_denominator(w, 32, 64);
}

// ── Drawing layout ───────────────────────────────────────────────────────────

/// The row of the file that holds screen row `y`: rows are stored bottom-up
/// unless the header's height was negative.
pub open spec fn file_row(info: BmpInfo, y: int) -> int {
    if info.top_down { y } else { info.height - 1 - y }
}

impl BmpInfo {
    /// The part of the image drawn in a `max_w` × `max_h` area: its top-left corner, clipped.
    pub fn draw_size(&self, max_w: u32, max_h: u32) -> (r: (u32, u32))
        ensures
            r.0 == (if self.width < max_w { self.width } else { max_w }),
            r.1 == (if self.height < max_h { self.height } else { max_h }),
    {
        let w = if self.width < max_w { self.width } else { max_w };
        let h = if self.height < max_h { self.height } else { max_h };
        (w, h)
    }

    /// File offset of the pixels of screen row `y`.
    pub fn row_offset(&self, y: u32) -> (r: u32)
        requires
            y < self.height,
            self.data_offset + file_row(*self, y as int) * self.row_stride <= u32::MAX,
        ensures
            r == self.data_offset + file_row(*self, y as int) * self.row_stride,
    {
        let row = if self.top_down { y } else { self.height - 1 - y };
        assert(row * self.row_stride <= u32::MAX) by (nonlinear_arith)
            requires self.data_offset + row * self.row_stride <= u32::MAX, self.data_offset >= 0;
        self.data_offset + row * self.row_stride
    }

    /// Bytes to read for `draw_w` pixels of a row, at most `buf_len`.
    pub fn row_read_len(&self, draw_w: u32, buf_len: usize) -> (r: usize)
        requires
            draw_w as int * bytes_per_pixel(self.bits_per_pixel as int) <= usize::MAX,
        ensures
            r == (if draw_w * bytes_per_pixel(self.bits_per_pixel as int) < buf_len {
                draw_w * bytes_per_pixel(self.bits_per_pixel as int)
            } else {
                buf_len as int
            }),
    {
        let bpp_bytes = (self.bits_per_pixel as usize + 7) / 8;
        let want = draw_w as usize * bpp_bytes;
        if want < buf_len { want } else { buf_len }
    }
}

// ── File names ───────────────────────────────────────────────────────────────

/// What `str::to_uppercase` makes of `s` (Unicode case mapping).
pub uninterp spec fn uppercase(s: Seq<char>) -> Seq<char>;

/// `str::to_uppercase`: the Unicode upper case of `s`. The case mapping itself
/// is left unsaid; the result is the name `uppercase` applied to `s`.
#[verifier::external_body]
fn to_uppercase(s: &str) -> (r: String)
    ensures
        r@ == uppercase(s@),
{
    s.to_uppercase()
}

pub open spec fn bmp_suffix() -> Seq<char> {
    seq!['.', 'B', 'M', 'P']
}

/// `upper` ends with ".BMP".
pub fn has_bmp_suffix(upper: &str) -> (b: bool)
    ensures
        b == (upper@.len() >= 4 && upper@.subrange(upper@.len() - 4, upper@.len() as int) == bmp_suffix()),
{
    let cs = crate::text::chars_of(upper);
    let n = cs.len();
    let suffix = ['.', 'B', 'M', 'P'];
    assert(suffix@ =~= bmp_suffix());
    if n < 4 {
        return false;
    }
    let b = crate::text::occurs_at_exec(cs.as_slice(), suffix.as_slice(), n - 4);
    b
}

/// `name` is the name of a BMP file: upper-cased, it ends with ".BMP".
pub open spec fn is_bmp_name(name: Seq<char>) -> bool {
    let u = uppercase(name);
    u.len() >= 4 && u.subrange(u.len() - 4, u.len() as int) == bmp_suffix()
}

/// The name of a BMP file: it ends in ".bmp" in any case.
pub fn is_bmp(name: &str) -> (b: bool)
    ensures
        b == is_bmp_name(name@),
{
    let u = to_uppercase(name);
    has_bmp_suffix(u.as_str())
}

/// The names of BMP files among `names`, in their order.
pub fn bmp_names(names: Vec<String>) -> (r: Vec<String>)
    ensures
        crate::bp35c2::views(r@) == crate::bp35c2::views(names@).filter(|n: Seq<char>| is_bmp_name(n)),
{
    let ghost all = crate::bp35c2::views(names@);
    let ghost pred = |n: Seq<char>| is_bmp_name(n);
    let mut out: Vec<String> = Vec::new();
    let mut i: usize = 0;
    assert(all.take(0).filter(pred) =~= Seq::<Seq<char>>::empty()) by {
        reveal(Seq::filter);
    }
    while i < names.len()
        invariant
            i <= names@.len(),
            all == crate::bp35c2::views(names@),
            all.len() == names@.len(),
            pred == (|n: Seq<char>| is_bmp_name(n)),
            crate::bp35c2::views(out@) == all.take(i as int).filter(pred),
        decreases names.len() - i,
    {
        let ghost before = crate::bp35c2::views(out@);
        let ghost s1 = all.take(i + 1);
        assert(s1.drop_last() =~= all.take(i as int));
        assert(s1.last() == names@[i as int]@);
        assert(s1.filter(pred) == (if pred(s1.last()) {
            s1.drop_last().filter(pred).push(s1.last())
        } else {
            s1.drop_last().filter(pred)
        })) by {
            reveal(Seq::filter);
        }
        assert(pred(s1.last()) == is_bmp_name(names@[i as int]@));
        if is_bmp(names[i].as_str()) {
            let name = names[i].clone();
            assert(name@ == names@[i as int]@);
            out.push(name);
            assert(crate::bp35c2::views(out@) =~= before.push(names@[i as int]@));
        }
        i = i + 1;
    }
    assert(all.take(names@.len() as int) =~= all);
    out
}

/// The power image handed out when `cycle` images of its level have been
/// handed out before.
pub open spec fn power_image_at(files: Seq<Seq<char>>, cycle: int) -> Seq<char> {
    files[cycle % (files.len() as int)]
}

/// The power images of a level take turns: within any `files.len()` consecutive
/// hand-outs (while the counter does not wrap) each of them comes once.
pub proof fn lemma_power_images_take_turns(files: Seq<Seq<char>>, start: int, j: int)
    requires
        files.len() > 0,
        0 <= start,
        0 <= j < files.len(),
    ensures
        exists|k: int| 0 <= k < files.len() && #[trigger] power_image_at(files, start + k) == files[j],
{
    let n = files.len() as int;
    let q = start / n;
    let r = start % n;
    vstd::arithmetic::div_mod::lemma_fundamental_div_mod(start, n);
    vstd::arithmetic::div_mod::lemma_mod_bound(start, n);
    vstd::arithmetic::div_mod::lemma_small_mod(j as nat, n as nat);
    let k = if j >= r { j - r } else { j - r + n };
    let a = if j >= r { q } else { q + 1 };
    assert(start + k == n * a + j) by (nonlinear_arith)
        requires start == n * q + r, k == (if j >= r { j - r } else { j - r + n }), a == (if j >= r { q } else { q + 1 });
    vstd::arithmetic::div_mod::lemma_mod_multiples_vanish(a, j, n);
    assert(power_image_at(files, start + k) == files[j]);
}

// ── Catalogue of images ──────────────────────────────────────────────────────

/// The BMP files found on the card, and which power image is shown next.
pub struct ImageCatalog {
    /// File names under /IMG/POWER/{LOW,MID,HIGH}.
    power_files: [Vec<String>; 3],
    /// File names under /IMG (slideshow).
    photo_files: Vec<String>,
    /// How many images of each power level have been handed out (mod 2^32).
    power_cycle: [u32; 3],
}

impl ImageCatalog {
    /// The names of the power images of level `idx`.
    pub closed spec fn power_names(&self, idx: int) -> Seq<Seq<char>> {
        crate::bp35c2::views(self.power_files@[idx]@)
    }

    /// The names of the slideshow photos.
    pub closed spec fn photo_names(&self) -> Seq<Seq<char>> {
        crate::bp35c2::views(self.photo_files@)
    }

    /// How many power images of level `idx` have been handed out (mod 2^32).
    pub closed spec fn cycle(&self, idx: int) -> u32 {
        self.power_cycle@[idx]
    }

    pub fn new() -> (c: Self)
        ensures
            forall|i: int| 0 <= i < 3 ==> (#[trigger] c.power_names(i)).len() == 0 && c.cycle(i) == 0,
            c.photo_names().len() == 0,
    {
        ImageCatalog {
            power_files: [Vec::new(), Vec::new(), Vec::new()],
            photo_files: Vec::new(),
            power_cycle: [0, 0, 0],
        }
    }

    /// Replaces the power images of `level`.
    pub fn set_power_files(&mut self, level: crate::power::PowerLevel, files: Vec<String>)
        ensures
            final(self).power_names(level.spec_index()) == crate::bp35c2::views(files@),
            forall|i: int| 0 <= i < 3 && i != level.spec_index() ==> #[trigger] final(self).power_names(i) == old(self).power_names(i),
            forall|i: int| 0 <= i < 3 ==> #[trigger] final(self).cycle(i) == old(self).cycle(i),
            final(self).photo_names() == old(self).photo_names(),
    {
        let idx = level.index();
        self.power_files[idx] = files;
    }

    /// Replaces the slideshow photos.
    pub fn set_photo_files(&mut self, files: Vec<String>)
        ensures
            final(self).photo_names() == crate::bp35c2::views(files@),
            forall|i: int| 0 <= i < 3 ==> #[trigger] final(self).power_names(i) == old(self).power_names(i),
            forall|i: int| 0 <= i < 3 ==> #[trigger] final(self).cycle(i) == old(self).cycle(i),
    {
        self.photo_files = files;
    }

    pub fn photo_count(&self) -> (n: usize)
        ensures
            n == self.photo_names().len(),
    {
        self.photo_files.len()
    }

    /// All images: the slideshow's and the three power levels'.
    pub fn total_count(&self) -> (n: usize)
        requires
            self.photo_names().len() + self.power_names(0).len() + self.power_names(1).len()
                + self.power_names(2).len() <= usize::MAX,
        ensures
            n == self.photo_names().len() + self.power_names(0).len() + self.power_names(1).len()
                + self.power_names(2).len(),
    {
        self.photo_files.len() + self.power_files[0].len() + self.power_files[1].len() + self.power_files[2].len()
    }

    /// The next power image of `level`, cycling through its files in order;
    /// `NoImage` (and nothing advanced) if the level has none.
    pub fn next_power_image(&mut self, level: crate::power::PowerLevel) -> (r: Result<String, SdError>)
        ensures
            ({
                let idx = level.spec_index();
                let files = old(self).power_names(idx);
                &&& forall|i: int| 0 <= i < 3 ==> #[trigger] final(self).power_names(i) == old(self).power_names(i)
                &&& final(self).photo_names() == old(self).photo_names()
                &&& forall|i: int| 0 <= i < 3 && i != idx ==> #[trigger] final(self).cycle(i) == old(self).cycle(i)
                &&& files.len() == 0 ==> r == Err::<String, SdError>(SdError::NoImage) && final(self).cycle(idx) == old(self).cycle(idx)
                &&& files.len() > 0 ==> (r matches Ok(name)
                    && name@ == power_image_at(files, old(self).cycle(idx) as int)
                    && final(self).cycle(idx) == (if old(self).cycle(idx) == u32::MAX { 0 } else { old(self).cycle(idx) + 1 }))
            }),
    {
        let idx = level.index();
        let n = self.power_files[idx].len();
        if n == 0 {
            return Err(SdError::NoImage);
        }
        let cycle = self.power_cycle[idx] as usize % n;
        let next = self.power_cycle[idx].wrapping_add(1);
        self.power_cycle[idx] = next;
        let name = self.power_files[idx][cycle].clone();
        Ok(name)
    }

    /// The slideshow photo at `idx`.
    pub fn photo_name(&self, idx: usize) -> (r: Result<String, SdError>)
        ensures
            idx >= self.photo_names().len() ==> r == Err::<String, SdError>(SdError::NoImage),
            idx < self.photo_names().len() ==> (r matches Ok(name) && name@ == self.photo_names()[idx as int]),
    {
        if idx >= self.photo_files.len() {
            return Err(SdError::NoImage);
        }
        Ok(self.photo_files[idx].clone())
    }
}

} // verus!
