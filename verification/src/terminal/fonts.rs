//! What is read out of font files: glyph numbers and emoji pictures.
//!
//! Glyphs are numbered by the font's character map, which `swash` and `skrifa`
//! read, and pictures are decoded by `image`.  Their results have names here,
//! and no definition.

use crate::terminal::charmap::is_sound_charmap;
use crate::terminal::ink::EmojiImage;
use skrifa::MetadataProvider;
use vstd::prelude::*;

verus! {

/// The glyph that `swash` finds for a character in the first font of a font
/// file: nothing where the file is no font, zero where the font has no glyph.
pub uninterp spec fn outline_charmap(font_data: Seq<u8>, ch: char) -> Option<u16>;

/// The glyph that `skrifa` finds for a character in the first font of a font
/// file.
pub uninterp spec fn picture_charmap(font_data: Seq<u8>, ch: char) -> Option<u32>;

/// The pixels, width and height of the picture that `image` decodes a PNG file
/// to.
pub uninterp spec fn decoded_picture(data: Seq<u8>) -> Option<(Seq<u8>, u32, u32)>;

/// `FontRef::from_index` and `Charmap::map` of `swash`, on the first font of
/// the file: a function of the file and of the character.  The groups of a
/// character map are read and counted without a test, so they have to be sound.
#[verifier::external_body]
fn swash_glyph(font_data: &[u8], ch: char) -> (r: Option<u16>)
    requires
        is_sound_charmap(font_data@),
    ensures
        r == outline_charmap(font_data@, ch),
{
    let font = swash::FontRef::from_index(font_data, 0)?;
    Some(font.charmap().map(ch))
}

/// `FontRef::from_index` and `Charmap::map` of `skrifa`, on the first font of
/// the file: a function of the file and of the character, and never the glyph
/// that stands for a missing one.
#[verifier::external_body]
fn skrifa_glyph(font_data: &[u8], ch: char) -> (r: Option<u32>)
    ensures
        r == picture_charmap(font_data@, ch),
        r != Some(0u32),
{
    let font = skrifa::FontRef::from_index(font_data, 0).ok()?;
    font.charmap().map(ch).map(|glyph| glyph.to_u32())
}

/// `load_from_memory_with_format` of `image` for PNG files, then `to_rgba8`: the
/// pixels row by row, four bytes each, and the size of the picture.  They are a
/// function of the file.
#[verifier::external_body]
fn image_pixels(data: &[u8]) -> (r: Option<(Vec<u8>, u32, u32)>)
    ensures
        match r {
            Some((rgba, width, height)) => decoded_picture(data@) == Some((rgba@, width, height)),
            None => decoded_picture(data@) is None,
        },
{
    let image = image::load_from_memory_with_format(data, image::ImageFormat::Png).ok()?;
    let rgba = image.to_rgba8();
    let (width, height) = (rgba.width(), rgba.height());
    Some((rgba.into_raw(), width, height))
}

/// A glyph that is there: zero stands for a missing one.
pub open spec fn present(glyph: Option<u16>) -> Option<u16> {
    match glyph {
        Some(id) => if id == 0 {
            None
        } else {
            Some(id)
        },
        None => None,
    }
}

/// The glyph of a character in a font file, if the font has it.
pub fn outline_glyph_id(font_data: &[u8], ch: char) -> (r: Option<u16>)
    requires
        is_sound_charmap(font_data@),
    ensures
        r == present(outline_charmap(font_data@, ch)),
{
    present_glyph(swash_glyph(font_data, ch))
}

/// A glyph that is there: zero stands for a missing one.
pub fn present_glyph(glyph: Option<u16>) -> (r: Option<u16>)
    ensures
        r == present(glyph),
{
    match glyph {
        Some(id) => {
            if id == 0 {
                None
            } else {
                Some(id)
            }
        },
        None => None,
    }
}

/// The glyph of a character in a font file with pictures, if the font has it.
pub fn emoji_glyph_id(font_data: &[u8], ch: char) -> (r: Option<u32>)
    ensures
        r == picture_charmap(font_data@, ch),
        r != Some(0u32),
{
    skrifa_glyph(font_data, ch)
}

/// A picture as a font stores it.
pub enum PictureData {
    /// A file to decode.
    Png(Vec<u8>),
    /// Pixels in the order blue, green, red, opacity, and the width of a row.
    Bgra(u32, Vec<u8>),
    /// A mask without colours.
    Mask,
}

/// The number of pixels that `len` bytes hold.
pub open spec fn pixel_count(len: nat) -> nat {
    len / 4
}

/// Which byte of a pixel stands at byte `i` once blue and red are exchanged.
pub open spec fn exchanged(i: int) -> int {
    if i % 4 == 0 {
        i + 2
    } else if i % 4 == 2 {
        i - 2
    } else {
        i
    }
}

/// Whole pixels with blue and red exchanged.
pub open spec fn swizzled(data: Seq<u8>) -> Seq<u8> {
    Seq::new(4 * pixel_count(data.len()), |i: int| data[exchanged(i)])
}

/// Exchanges blue and red in every whole pixel.
pub fn swizzle(data: &Vec<u8>) -> (r: Vec<u8>)
    ensures
        r@ == swizzled(data@),
{
    let mut rgba: Vec<u8> = Vec::new();
    let pixels: usize = data.len() / 4;
    let mut k: usize = 0;
    while k < pixels
        invariant
            pixels == data@.len() / 4,
            data@.len() <= usize::MAX,
            k <= pixels,
            rgba@.len() == 4 * k,
            forall|i: int| 0 <= i < 4 * k ==> #[trigger] rgba@[i] == data@[exchanged(i)],
        decreases pixels - k,
    {
        rgba.push(data[4 * k + 2]);
        rgba.push(data[4 * k + 1]);
        rgba.push(data[4 * k]);
        rgba.push(data[4 * k + 3]);
        k = k + 1;
    }
    rgba
}

/// The pixels, width and height that a picture comes to.  The height of stored
/// pixels follows from their number, as far as 32 bits count it.
pub open spec fn picture(data: PictureData) -> Option<(Seq<u8>, u32, u32)> {
    match data {
        PictureData::Png(file) => decoded_picture(file@),
        PictureData::Bgra(width, pixels) => Some(
            (
                swizzled(pixels@),
                width,
                ((pixels@.len() % 0x1_0000_0000) / (width as nat * 4)) as u32,
            ),
        ),
        PictureData::Mask => None,
    }
}

/// The parts of a picture, if there is one.
pub open spec fn picture_parts(image: Option<EmojiImage>) -> Option<(Seq<u8>, u32, u32)> {
    match image {
        Some(i) => Some((i.rgba@, i.width, i.height)),
        None => None,
    }
}

/// The picture that stored pixels make: whole rows of `width` pixels.
pub fn stored_picture(width: u32, pixels: &Vec<u8>) -> (r: EmojiImage)
    requires
        0 < width,
        width * 4 <= u32::MAX,
    ensures
        r.rgba@ == swizzled(pixels@),
        r.width == width,
        r.height == (pixels@.len() % 0x1_0000_0000) / (width as nat * 4),
{
    let count: u64 = pixels.len() as u64 % 0x1_0000_0000;
    let height: u32 = count as u32 / (width * 4);
    EmojiImage { rgba: swizzle(pixels), width, height }
}

/// The picture that a font stores, if it comes to one.
pub fn decode_emoji(data: PictureData) -> (r: Option<EmojiImage>)
    requires
        data matches PictureData::Bgra(width, _) ==> 0 < width && width * 4 <= u32::MAX,
    ensures
        picture_parts(r) == picture(data),
{
    match data {
        PictureData::Png(file) => match image_pixels(file.as_slice()) {
            Some((rgba, width, height)) => Some(EmojiImage { rgba, width, height }),
            None => None,
        },
        PictureData::Bgra(width, pixels) => Some(stored_picture(width, &pixels)),
        PictureData::Mask => None,
    }
}

/// Exchanging blue and red twice gives back every whole pixel.
pub proof fn lemma_swizzle_undoes_itself(data: Seq<u8>)
    ensures
        swizzled(swizzled(data)) == data.subrange(0, 4 * pixel_count(data.len()) as int),
{
}

/// Exchanging blue and red keeps pixels where they are: the bytes of pixel `k`,
/// blue, green, red and opacity, come out as red, green, blue and opacity.  What
/// is no whole pixel is dropped.
pub proof fn lemma_pixels_swizzled(data: Seq<u8>, k: int)
    requires
        0 <= k,
        4 * k + 4 <= data.len(),
    ensures
        4 * k + 4 <= swizzled(data).len(),
        swizzled(data).len() <= data.len() < swizzled(data).len() + 4,
        swizzled(data).len() % 4 == 0,
        swizzled(data)[4 * k] == data[4 * k + 2],
        swizzled(data)[4 * k + 1] == data[4 * k + 1],
        swizzled(data)[4 * k + 2] == data[4 * k],
        swizzled(data)[4 * k + 3] == data[4 * k + 3],
{
}

/// A glyph that is there is any but zero.
pub proof fn lemma_what_is_present(glyph: Option<u16>)
    ensures
        present(glyph) is Some <==> glyph is Some && glyph != Some(0u16),
        present(glyph) is Some ==> present(glyph) == glyph,
{
}

/// What a stored picture comes to: a file to what it decodes to, stored pixels
/// to themselves in another order and as many whole rows as they have, counted
/// in 32 bits, and a mask to nothing.
pub proof fn lemma_pictures(data: PictureData)
    ensures
        data matches PictureData::Png(file) ==> picture(data) == decoded_picture(file@),
        data is Mask ==> picture(data) is None,
        data matches PictureData::Bgra(width, pixels) ==> 0 < width ==> (picture(data) matches Some(
            p,
        ) && p.0 == swizzled(pixels@) && p.1 == width && 4 * (p.2 * width) <= pixels@.len()
            % 0x1_0000_0000 < 4 * (p.2 * width + width)),
        data matches PictureData::Bgra(width, pixels) ==> 0 < width && pixels@.len() <= u32::MAX
            ==> (picture(data) matches Some(p) && 4 * (p.2 * width) <= pixels@.len() < 4 * (p.2
            * width + width)),
{
    if let PictureData::Bgra(width, pixels) = data {
        if 0 < width {
            let len = pixels@.len() as int % 0x1_0000_0000;
            let d = width * 4;
            vstd::arithmetic::div_mod::lemma_fundamental_div_mod(len, d);
            let q = len / d;
            assert(0 <= q <= len) by (nonlinear_arith)
                requires
                    len == d * q + len % d,
                    0 <= len % d < d,
                    d >= 1,
                    len >= 0,
            ;
            assert(d * q == 4 * (q * width)) by (nonlinear_arith)
                requires
                    d == width * 4,
            ;
        }
    }
}

} // verus!
