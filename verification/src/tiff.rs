//! Palette-indexed TIFF support: reading and patching the
//! PhotometricInterpretation tag of the first image directory, and turning
//! palette indices into RGB pixels through the colour map.
use vstd::prelude::*;
use crate::text::push_decimal;

verus! {

/// PhotometricInterpretation value of a palette (colour-mapped) image.
pub const PMI_PALETTE: u16 = 3;

/// PhotometricInterpretation value of a grey image, black is zero.
pub const PMI_BLACKISZERO: u16 = 1;

/// The TIFF tag number of PhotometricInterpretation.
pub const TAG_PMI: u16 = 262;

/// A 16-bit value at `off` (little- or big-endian).
pub open spec fn ru16_spec(b: Seq<u8>, off: int, le: bool) -> u16 {
    if le { (b[off] + 256 * b[off + 1]) as u16 } else { (256 * b[off] + b[off + 1]) as u16 }
}

/// A 32-bit value at `off` (little- or big-endian).
pub open spec fn ru32_spec(b: Seq<u8>, off: int, le: bool) -> u32 {
    if le {
        (b[off] + 256 * b[off + 1] + 65536 * b[off + 2] + 16777216 * b[off + 3]) as u32
    } else {
        (16777216 * b[off] + 65536 * b[off + 1] + 256 * b[off + 2] + b[off + 3]) as u32
    }
}

/// Reads a 16-bit value at `off`.
pub fn ru16(b: &Vec<u8>, off: usize, le: bool) -> (r: u16)
    requires
        off + 1 < b@.len(),
    ensures
        r == ru16_spec(b@, off as int, le),
{
    let n = b.len();
    let x = b[off] as u16;
    let y = b[off + 1] as u16;
    if le { x + 256 * y } else { 256 * x + y }
}

/// Reads a 32-bit value at `off`.
pub fn ru32(b: &Vec<u8>, off: usize, le: bool) -> (r: u32)
    requires
        off + 3 < b@.len(),
    ensures
        r == ru32_spec(b@, off as int, le),
{
    let n = b.len();
    let x0 = b[off] as u32;
    let x1 = b[off + 1] as u32;
    let x2 = b[off + 2] as u32;
    let x3 = b[off + 3] as u32;
    if le { x0 + 256 * x1 + 65536 * x2 + 16777216 * x3 } else { 16777216 * x0 + 65536 * x1 + 256 * x2 + x3 }
}

/// Writes a 16-bit value at `off`.
pub fn wu16(b: &mut Vec<u8>, off: usize, val: u16, le: bool)
    requires
        off + 1 < old(b)@.len(),
    ensures
        final(b)@ == (if le {
            old(b)@.update(off as int, (val % 256) as u8).update(off + 1, (val / 256) as u8)
        } else {
            old(b)@.update(off as int, (val / 256) as u8).update(off + 1, (val % 256) as u8)
        }),
        ru16_spec(final(b)@, off as int, le) == val,
{
    let n = b.len();
    let lo = (val % 256) as u8;
    let hi = (val / 256) as u8;
    if le {
        b.set(off, lo);
        b.set(off + 1, hi);
    } else {
        b.set(off, hi);
        b.set(off + 1, lo);
    }
}

/// The header of a TIFF file: byte order (`II` little-endian, `MM`
/// big-endian), the magic number 42, and the offset of the first image
/// directory.
pub open spec fn parse_header_spec(b: Seq<u8>) -> Option<(bool, u32)> {
    if b.len() < 8 {
        None
    } else {
        let order = if b[0] == 0x49 && b[1] == 0x49 {
            Some(true)
        } else if b[0] == 0x4D && b[1] == 0x4D {
            Some(false)
        } else {
            None
        };
        match order {
            None => None,
            Some(le) => if ru16_spec(b, 2, le) != 42 { None } else { Some((le, ru32_spec(b, 4, le))) },
        }
    }
}

/// Parses a TIFF header into `(little_endian, ifd_offset)`.
pub fn parse_header(b: &Vec<u8>) -> (r: Option<(bool, u32)>)
    ensures
        r == parse_header_spec(b@),
{
    if b.len() < 8 {
        return None;
    }
    let le = if b[0] == 0x49 && b[1] == 0x49 {
        true
    } else if b[0] == 0x4D && b[1] == 0x4D {
        false
    } else {
        return None;
    };
    if ru16(b, 2, le) != 42 {
        return None;
    }
    Some((le, ru32(b, 4, le)))
}

/// The first directory entry at or after entry `i` (of `count` entries
/// starting at `ifd + 2`) that has tag 262 and, when `want` is given, that
/// value; none when the entries run out or an entry does not fit in the
/// data. The result is the byte offset of the entry.
pub open spec fn find_pmi_entry(b: Seq<u8>, le: bool, ifd: int, count: int, i: int, want: Option<u16>) -> Option<int>
    decreases count - i,
{
    if i >= count {
        None
    } else {
        let off = ifd + 2 + i * 12;
        if off + 12 > b.len() {
            None
        } else if ru16_spec(b, off, le) == TAG_PMI && (match want { Some(w) => ru16_spec(b, off + 8, le) == w, None => true }) {
            Some(off)
        } else {
            find_pmi_entry(b, le, ifd, count, i + 1, want)
        }
    }
}

/// The entry of the first image directory that `read_pmi` (`want` none) or
/// `patch_pmi` (`want` the value to replace) acts on.
pub open spec fn pmi_entry(b: Seq<u8>, want: Option<u16>) -> Option<(bool, int)> {
    match parse_header_spec(b) {
        None => None,
        Some((le, ifd)) => {
            if ifd + 2 > b.len() {
                None
            } else {
                match find_pmi_entry(b, le, ifd as int, ru16_spec(b, ifd as int, le) as int, 0, want) {
                    Some(off) => Some((le, off)),
                    None => None,
                }
            }
        },
    }
}

/// The PhotometricInterpretation value of the first image directory.
pub open spec fn read_pmi_spec(b: Seq<u8>) -> Option<u16> {
    match pmi_entry(b, None) {
        Some((le, off)) => Some(ru16_spec(b, off + 8, le)),
        None => None,
    }
}

/// An entry that `find_pmi_entry` returns lies inside the data.
proof fn lemma_find_in_bounds(b: Seq<u8>, le: bool, ifd: int, count: int, i: int, want: Option<u16>)
    requires
        i >= 0,
    ensures
        find_pmi_entry(b, le, ifd, count, i, want) matches Some(off) ==> off + 12 <= b.len() && off >= ifd + 2,
    decreases count - i,
{
    if i < count {
        let off = ifd + 2 + i * 12;
        if !(off + 12 > b.len()) {
            lemma_find_in_bounds(b, le, ifd, count, i + 1, want);
        }
    }
}

/// Scans the directory entries for the PhotometricInterpretation entry.
fn scan_entries(b: &Vec<u8>, le: bool, ifd: usize, count: usize, want: Option<u16>) -> (r: Option<usize>)
    requires
        ifd + 2 <= b@.len(),
    ensures
        match r {
            Some(off) => find_pmi_entry(b@, le, ifd as int, count as int, 0, want) == Some(off as int)
                && off + 12 <= b@.len(),
            None => find_pmi_entry(b@, le, ifd as int, count as int, 0, want) is None,
        },
{
    let mut i: usize = 0;
    while i < count
        invariant
            ifd + 2 <= b@.len(),
            i <= count,
            find_pmi_entry(b@, le, ifd as int, count as int, 0, want)
                == find_pmi_entry(b@, le, ifd as int, count as int, i as int, want),
        decreases count - i,
    {
        // Entries lie within the data, so the offset arithmetic cannot overflow.
        if i > (b.len() - ifd - 2) / 12 {
            proof {
                assert(ifd + 2 + i * 12 + 12 > b@.len()) by (nonlinear_arith)
                    requires i > (b@.len() - ifd - 2) / 12, ifd + 2 <= b@.len();
            }
            return None;
        }
        proof {
            assert(i * 12 <= b@.len() - ifd - 2) by (nonlinear_arith)
                requires i <= (b@.len() - ifd - 2) / 12, ifd + 2 <= b@.len();
        }
        let off = ifd + 2 + i * 12;
        if off > b.len() || b.len() - off < 12 {
            return None;
        }
        let tag = ru16(b, off, le);
        if tag == TAG_PMI {
            let val = ru16(b, off + 8, le);
            let ok = match want {
                Some(w) => val == w,
                None => true,
            };
            if ok {
                return Some(off);
            }
        }
        i = i + 1;
    }
    None
}

/// Reads the PhotometricInterpretation value from the first image directory.
pub fn read_pmi(b: &Vec<u8>) -> (r: Option<u16>)
    ensures
        r == read_pmi_spec(b@),
{
    let (le, ifd_off) = match parse_header(b) {
        Some(h) => h,
        None => return None,
    };
    let ifd = ifd_off as usize;
    if ifd > b.len() || b.len() - ifd < 2 {
        return None;
    }
    let count = ru16(b, ifd, le) as usize;
    match scan_entries(b, le, ifd, count, None) {
        Some(off) => Some(ru16(b, off + 8, le)),
        None => None,
    }
}

/// Whether the data is a TIFF whose first image directory says it is
/// palette-indexed.
pub fn is_palette_tiff(b: &Vec<u8>) -> (r: bool)
    ensures
        r == (read_pmi_spec(b@) == Some(PMI_PALETTE)),
{
    match read_pmi(b) {
        Some(v) => v == PMI_PALETTE,
        None => false,
    }
}

/// Overwrites the PhotometricInterpretation value `from` with `to`. When
/// the first image directory has no such entry with value `from`, nothing
/// changes and the result is `None`.
pub fn patch_pmi(b: &mut Vec<u8>, from: u16, to: u16) -> (r: Option<()>)
    ensures
        match pmi_entry(old(b)@, Some(from)) {
            Some((le, off)) => r is Some && final(b)@ == (if le {
                    old(b)@.update(off + 8, (to % 256) as u8).update(off + 9, (to / 256) as u8)
                } else {
                    old(b)@.update(off + 8, (to / 256) as u8).update(off + 9, (to % 256) as u8)
                }),
            None => r is None && final(b)@ == old(b)@,
        },
{
    let (le, ifd_off) = match parse_header(b) {
        Some(h) => h,
        None => return None,
    };
    let ifd = ifd_off as usize;
    if ifd > b.len() || b.len() - ifd < 2 {
        return None;
    }
    let count = ru16(b, ifd, le) as usize;
    match scan_entries(b, le, ifd, count, Some(from)) {
        Some(off) => {
            wu16(b, off + 8, to, le);
            Some(())
        },
        None => None,
    }
}

// ── Colour map ───────────────────────────────────────────────────────────────

/// Three 256-entry 8-bit tables (red, green, blue).
pub struct Palette {
    pub reds: Vec<u8>,
    pub greens: Vec<u8>,
    pub blues: Vec<u8>,
}

/// The palette of 768 16-bit colour-map entries (all reds, then greens,
/// then blues), each reduced to its high byte.
pub open spec fn palette_spec(flat: Seq<u16>, k: int, i: int) -> u8 {
    (flat[k * 256 + i] / 256) as u8
}

/// Why a colour map cannot be turned into a palette: the number of entries
/// is not 768. The message names the count found.
pub open spec fn wrong_count_message(n: nat) -> Seq<char> {
    seq!['p', 'a', 'l', 'e', 't', 't', 'e', ' ', 'T', 'I', 'F', 'F', ':', ' ', 'e', 'x', 'p', 'e', 'c', 't', 'e', 'd', ' ',
        '7', '6', '8', ' ', 'C', 'o', 'l', 'o', 'r', 'M', 'a', 'p', ' ', 'e', 'n', 't', 'r', 'i', 'e', 's', ',', ' ', 'g', 'o', 't', ' ']
        + crate::text::decimal_digits(n)
}

/// Builds the palette from the flat colour-map entries.
pub fn palette_from_colormap(flat: &Vec<u16>) -> (r: Result<Palette, String>)
    ensures
        match r {
            Ok(p) => flat@.len() == 768 && p.reds@.len() == 256 && p.greens@.len() == 256 && p.blues@.len() == 256
                && forall|i: int| 0 <= i < 256 ==> {
                    &&& #[trigger] p.reds@[i] == palette_spec(flat@, 0, i)
                    &&& p.greens@[i] == palette_spec(flat@, 1, i)
                    &&& p.blues@[i] == palette_spec(flat@, 2, i)
                },
            Err(m) => flat@.len() != 768 && m@ == wrong_count_message(flat@.len()),
        },
{
    if flat.len() != 768 {
        let lit = vec!['p', 'a', 'l', 'e', 't', 't', 'e', ' ', 'T', 'I', 'F', 'F', ':', ' ', 'e', 'x', 'p', 'e', 'c', 't', 'e', 'd', ' ',
            '7', '6', '8', ' ', 'C', 'o', 'l', 'o', 'r', 'M', 'a', 'p', ' ', 'e', 'n', 't', 'r', 'i', 'e', 's', ',', ' ', 'g', 'o', 't', ' '];
        let mut m = crate::text::string_from_chars(&lit, 0, lit.len());
        push_decimal(&mut m, flat.len() as u64);
        assert(m@ =~= wrong_count_message(flat@.len()));
        return Err(m);
    }
    let mut reds: Vec<u8> = Vec::new();
    let mut greens: Vec<u8> = Vec::new();
    let mut blues: Vec<u8> = Vec::new();
    let mut i: usize = 0;
    while i < 256
        invariant
            flat@.len() == 768,
            i <= 256,
            reds@.len() == i && greens@.len() == i && blues@.len() == i,
            forall|j: int| 0 <= j < i ==> {
                &&& #[trigger] reds@[j] == palette_spec(flat@, 0, j)
                &&& greens@[j] == palette_spec(flat@, 1, j)
                &&& blues@[j] == palette_spec(flat@, 2, j)
            },
        decreases 256 - i,
    {
        reds.push((flat[i] / 256) as u8);
        greens.push((flat[256 + i] / 256) as u8);
        blues.push((flat[512 + i] / 256) as u8);
        i = i + 1;
    }
    Ok(Palette { reds, greens, blues })
}

/// RGB pixels of a palette image: each index replaced by its three colour
/// bytes.
pub fn expand_palette(indices: &Vec<u8>, palette: &Palette) -> (r: Vec<u8>)
    requires
        palette.reds@.len() == 256,
        palette.greens@.len() == 256,
        palette.blues@.len() == 256,
    ensures
        r@.len() == indices@.len() * 3,
        forall|i: int| 0 <= i < indices@.len() ==> {
            &&& r@[3 * i] == palette.reds@[#[trigger] indices@[i] as int]
            &&& r@[3 * i + 1] == palette.greens@[indices@[i] as int]
            &&& r@[3 * i + 2] == palette.blues@[indices@[i] as int]
        },
{
    let mut r: Vec<u8> = Vec::new();
    let mut i: usize = 0;
    while i < indices.len()
        invariant
            palette.reds@.len() == 256,
            palette.greens@.len() == 256,
            palette.blues@.len() == 256,
            i <= indices@.len(),
            r@.len() == 3 * i,
            forall|j: int| 0 <= j < i ==> {
                &&& r@[3 * j] == palette.reds@[#[trigger] indices@[j] as int]
                &&& r@[3 * j + 1] == palette.greens@[indices@[j] as int]
                &&& r@[3 * j + 2] == palette.blues@[indices@[j] as int]
            },
        decreases indices@.len() - i,
    {
        let p = indices[i] as usize;
        r.push(palette.reds[p]);
        r.push(palette.greens[p]);
        r.push(palette.blues[p]);
        i = i + 1;
    }
    r
}


// ── Decoding through the tiff and image crates ───────────────────────────────

/// The decoded image type of the image crate.
#[verifier::external_type_specification]
#[verifier::external_body]
pub struct ExDynamicImage(image::DynamicImage);

/// One entry of a TIFF tag value list, by the kinds a colour map uses.
#[derive(Clone, Copy, Debug, PartialEq, Eq)]
pub enum ColorMapValue {
    /// A 16-bit value.
    Short(u16),
    /// A 64-bit unsigned value.
    Big(u64),
    /// An 8-bit value.
    Byte(u8),
    /// Any other kind of value.
    Other,
}

/// The ColorMap tag of the first image directory, as the tiff crate reads
/// it: none when the decoder cannot start or the tag is missing; `Some(None)`
/// when the tag is not a list; otherwise its entries.
pub uninterp spec fn colormap_of(bytes: Seq<u8>) -> Option<Option<Seq<ColorMapValue>>>;

/// Whether `image::load_from_memory` decodes the data.
pub uninterp spec fn image_decodes(bytes: Seq<u8>) -> bool;

/// The 8-bit grey pixels (`into_luma8`) of the image that
/// `image::load_from_memory` decodes from the data: width, height and the
/// row-major samples; none when decoding fails.
pub uninterp spec fn luma8_of(bytes: Seq<u8>) -> Option<(u32, u32, Seq<u8>)>;

/// Reads the ColorMap tag with `tiff::decoder::Decoder::get_tag`.
/// Trusted: the result follows the named `colormap_of(bytes)`; the error
/// text (the decoder's message) is not stated.
#[verifier::external_body]
fn read_colormap_tag(bytes: &Vec<u8>) -> (r: Result<Option<Vec<ColorMapValue>>, String>)
    ensures
        match r {
            Ok(Some(v)) => colormap_of(bytes@) == Some(Some(v@)),
            Ok(None) => colormap_of(bytes@) == Some(None::<Seq<ColorMapValue>>),
            Err(_) => colormap_of(bytes@) is None,
        },
{
    let mut dec = tiff::decoder::Decoder::new(std::io::Cursor::new(bytes.as_slice()))
        .map_err(|e| format!("palette TIFF: init decoder: {e}"))?;
    let val = dec.get_tag(tiff::tags::Tag::ColorMap)
        .map_err(|e| format!("palette TIFF: ColorMap tag missing: {e}"))?;
    match val {
        tiff::decoder::ifd::Value::List(items) => Ok(Some(items.into_iter().map(|v| match v {
            tiff::decoder::ifd::Value::Short(n) => ColorMapValue::Short(n),
            tiff::decoder::ifd::Value::UnsignedBig(n) => ColorMapValue::Big(n),
            tiff::decoder::ifd::Value::Byte(n) => ColorMapValue::Byte(n),
            _ => ColorMapValue::Other,
        }).collect())),
        _ => Ok(None),
    }
}

/// The 16-bit value of a colour-map entry: 16-bit values as they are,
/// 64-bit values truncated to their low 16 bits, bytes widened, other
/// kinds 0.
pub open spec fn entry_value(v: ColorMapValue) -> u16 {
    match v {
        ColorMapValue::Short(n) => n,
        ColorMapValue::Big(n) => (n % 0x1_0000) as u16,
        ColorMapValue::Byte(n) => n as u16,
        ColorMapValue::Other => 0,
    }
}

/// The 16-bit values of colour-map entries.
pub open spec fn entry_values(vs: Seq<ColorMapValue>) -> Seq<u16> {
    vs.map_values(|v: ColorMapValue| entry_value(v))
}

/// The 16-bit value of one colour-map entry (see `entry_value`).
pub fn colormap_entry(v: ColorMapValue) -> (r: u16)
    ensures
        r == entry_value(v),
{
    match v {
        ColorMapValue::Short(n) => n,
        ColorMapValue::Big(n) => {
            let low = n % 0x1_0000;
            low as u16
        },
        ColorMapValue::Byte(n) => n as u16,
        ColorMapValue::Other => 0,
    }
}

/// The 16-bit values of colour-map entries, in order.
pub fn colormap_table(vs: &Vec<ColorMapValue>) -> (r: Vec<u16>)
    ensures
        r@ == entry_values(vs@),
{
    let mut out: Vec<u16> = Vec::new();
    let mut i: usize = 0;
    while i < vs.len()
        invariant
            i <= vs@.len(),
            out@ == entry_values(vs@.subrange(0, i as int)),
        decreases vs@.len() - i,
    {
        out.push(colormap_entry(vs[i]));
        i = i + 1;
        assert(out@ =~= entry_values(vs@.subrange(0, i as int)));
    }
    assert(vs@.subrange(0, vs@.len() as int) =~= vs@);
    out
}

/// Decodes with `image::load_from_memory` and converts with `into_luma8`.
/// Trusted: the result is the named `luma8_of(bytes)`, which has one sample
/// per pixel; the error text is not stated.
#[verifier::external_body]
fn decode_luma8(bytes: &Vec<u8>) -> (r: Result<(u32, u32, Vec<u8>), String>)
    ensures
        match r {
            Ok((w, h, px)) => luma8_of(bytes@) == Some((w, h, px@)) && px@.len() == w * h,
            Err(_) => luma8_of(bytes@) is None,
        },
{
    let luma = image::load_from_memory(bytes.as_slice())
        .map_err(|e| format!("palette TIFF: decode after patch failed: {e}"))?
        .into_luma8();
    let (w, h) = (luma.width(), luma.height());
    Ok((w, h, luma.into_raw()))
}

/// Decodes with `image::load_from_memory`.
/// Trusted: succeeds exactly when the named `image_decodes(bytes)` holds;
/// the decoded image and the error text are not stated.
#[verifier::external_body]
fn load_from_memory(bytes: &Vec<u8>) -> (r: Result<image::DynamicImage, String>)
    ensures
        r is Ok == image_decodes(bytes@),
{
    image::load_from_memory(bytes.as_slice()).map_err(|e| e.to_string())
}

/// Builds an RGB image with `image::RgbImage::from_raw`.
/// Trusted: as documented, it succeeds when the buffer holds at least three
/// bytes per pixel.
#[verifier::external_body]
fn rgb_image(w: u32, h: u32, pixels: Vec<u8>) -> (r: Option<image::DynamicImage>)
    ensures
        pixels@.len() >= 3 * w * h ==> r is Some,
{
    image::RgbImage::from_raw(w, h, pixels).map(image::DynamicImage::ImageRgb8)
}

/// The data with the PhotometricInterpretation value 3 replaced by 1, when
/// the first image directory has such an entry.
pub open spec fn patched_spec(b: Seq<u8>) -> Option<Seq<u8>> {
    match pmi_entry(b, Some(PMI_PALETTE)) {
        Some((le, off)) => Some(if le {
            b.update(off + 8, 1u8).update(off + 9, 0u8)
        } else {
            b.update(off + 8, 0u8).update(off + 9, 1u8)
        }),
        None => None,
    }
}

/// Whether a palette TIFF decodes: its colour map is a list of 768 entries,
/// its PhotometricInterpretation entry says palette, and the image crate
/// decodes it once that entry says grey.
pub open spec fn palette_decodes(b: Seq<u8>) -> bool {
    &&& colormap_of(b) matches Some(Some(entries)) && entries.len() == 768
    &&& patched_spec(b) matches Some(p) && luma8_of(p) is Some
}

/// Decodes a palette-indexed TIFF: reads the colour map, makes the image
/// look grey (PhotometricInterpretation 3 → 1) so that each pixel decodes
/// as its palette index, and expands the indices through the colour map.
pub fn decode(bytes: &Vec<u8>) -> (r: Result<image::DynamicImage, String>)
    ensures
        r is Ok == palette_decodes(bytes@),
{
    let flat = match read_colormap_tag(bytes) {
        Err(m) => return Err(m),
        Ok(None) => {
            let lit = vec!['p', 'a', 'l', 'e', 't', 't', 'e', ' ', 'T', 'I', 'F', 'F', ':', ' ', 'u', 'n', 'e', 'x', 'p', 'e', 'c', 't', 'e', 'd', ' ',
                'C', 'o', 'l', 'o', 'r', 'M', 'a', 'p', ' ', 'v', 'a', 'l', 'u', 'e', ' ', 't', 'y', 'p', 'e'];
            return Err(crate::text::string_from_chars(&lit, 0, lit.len()));
        },
        Ok(Some(entries)) => colormap_table(&entries),
    };
    let palette = match palette_from_colormap(&flat) {
        Ok(p) => p,
        Err(m) => return Err(m),
    };
    let mut patched = bytes.clone();
    assert(patched@ == bytes@);
    match patch_pmi(&mut patched, PMI_PALETTE, PMI_BLACKISZERO) {
        None => {
            let lit = vec!['p', 'a', 'l', 'e', 't', 't', 'e', ' ', 'T', 'I', 'F', 'F', ':', ' ', 'P', 'h', 'o', 't', 'o', 'm', 'e', 't', 'r', 'i', 'c',
                'I', 'n', 't', 'e', 'r', 'p', 'r', 'e', 't', 'a', 't', 'i', 'o', 'n', ' ', 't', 'a', 'g', ' ', 'n', 'o', 't', ' ', 'f', 'o', 'u', 'n', 'd'];
            return Err(crate::text::string_from_chars(&lit, 0, lit.len()));
        },
        Some(_) => {},
    }
    assert(patched_spec(bytes@) == Some(patched@));
    let (w, h, indices) = match decode_luma8(&patched) {
        Ok(t) => t,
        Err(m) => return Err(m),
    };
    let rgb = expand_palette(&indices, &palette);
    proof {
        let n = indices@.len();
        let m = rgb@.len();
        assert(m == 3 * w * h) by (nonlinear_arith)
            requires m == n * 3, n == w * h;
    }
    match rgb_image(w, h, rgb) {
        Some(img) => Ok(img),
        None => {
            let lit = vec!['p', 'a', 'l', 'e', 't', 't', 'e', ' ', 'T', 'I', 'F', 'F', ':', ' ', 'b', 'a', 'd', ' ', 's', 'i', 'z', 'e'];
            Err(crate::text::string_from_chars(&lit, 0, lit.len()))
        },
    }
}

/// Loads an image: whatever the image crate decodes, and otherwise a
/// palette-indexed TIFF through `decode`.
pub fn load_image(bytes: &Vec<u8>) -> (r: Result<image::DynamicImage, String>)
    ensures
        r is Ok == (image_decodes(bytes@)
            || (read_pmi_spec(bytes@) == Some(PMI_PALETTE) && palette_decodes(bytes@))),
{
    match load_from_memory(bytes) {
        Ok(img) => Ok(img),
        Err(e) => {
            if is_palette_tiff(bytes) {
                decode(bytes)
            } else {
                Err(e)
            }
        },
    }
}


/// Encodes an image as PNG with `DynamicImage::write_to` and
/// `ImageFormat::Png`. Nothing is stated of the outcome: it depends on the
/// decoded image, which the library does not see into; the error text is
/// the encoder's.
#[verifier::external_body]
fn encode_png(img: &image::DynamicImage) -> (r: Result<Vec<u8>, String>) {
    let mut out = Vec::new();
    img.write_to(&mut std::io::Cursor::new(&mut out), image::ImageFormat::Png).map_err(|e| e.to_string())?;
    Ok(out)
}

/// The bytes of an image re-encoded as PNG, for viewers that cannot show
/// its own format: the image is loaded as `load_image` does (failing
/// exactly when that fails), then encoded.
pub fn png_from_bytes(bytes: &Vec<u8>) -> (r: Result<Vec<u8>, String>)
    ensures
        r is Ok ==> (image_decodes(bytes@) || (read_pmi_spec(bytes@) == Some(PMI_PALETTE) && palette_decodes(bytes@))),
        !(image_decodes(bytes@) || (read_pmi_spec(bytes@) == Some(PMI_PALETTE) && palette_decodes(bytes@))) ==> r is Err,
{
    match load_image(bytes) {
        Ok(img) => encode_png(&img),
        Err(e) => Err(e),
    }
}

} // verus!
