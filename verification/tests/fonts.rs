use image::ImageEncoder;
use rdpterm::terminal::charmap::has_sound_charmap;
use rdpterm::terminal::fonts::decode_emoji;
use rdpterm::terminal::fonts::emoji_glyph_id;
use rdpterm::terminal::fonts::outline_glyph_id;
use rdpterm::terminal::fonts::present_glyph;
use rdpterm::terminal::fonts::stored_picture;
use rdpterm::terminal::fonts::swizzle;
use rdpterm::terminal::fonts::PictureData;

fn be16(out: &mut Vec<u8>, v: u16) {
    out.extend_from_slice(&v.to_be_bytes());
}

fn be32(out: &mut Vec<u8>, v: u32) {
    out.extend_from_slice(&v.to_be_bytes());
}

/// A font file that holds a character map and nothing else: each group runs
/// from a first to a last character and starts at a glyph.
fn font(groups: &[(u32, u32, u32)]) -> Vec<u8> {
    let mut cmap = Vec::new();
    be16(&mut cmap, 0);
    be16(&mut cmap, 1);
    be16(&mut cmap, 3);
    be16(&mut cmap, 10);
    be32(&mut cmap, 12);
    be16(&mut cmap, 12);
    be16(&mut cmap, 0);
    be32(&mut cmap, 16 + 12 * groups.len() as u32);
    be32(&mut cmap, 0);
    be32(&mut cmap, groups.len() as u32);
    for (first, last, glyph) in groups {
        be32(&mut cmap, *first);
        be32(&mut cmap, *last);
        be32(&mut cmap, *glyph);
    }
    let mut file = Vec::new();
    be32(&mut file, 0x0001_0000);
    be16(&mut file, 1);
    be16(&mut file, 16);
    be16(&mut file, 0);
    be16(&mut file, 0);
    file.extend_from_slice(b"cmap");
    be32(&mut file, 0);
    be32(&mut file, 28);
    be32(&mut file, cmap.len() as u32);
    file.extend_from_slice(&cmap);
    file
}

fn png(rgba: &[u8], width: u32, height: u32) -> Vec<u8> {
    let mut file = Vec::new();
    image::codecs::png::PngEncoder::new(&mut file)
        .write_image(rgba, width, height, image::ExtendedColorType::Rgba8)
        .unwrap();
    file
}

#[test]
fn glyphs_are_looked_up_in_the_character_map() {
    let file = font(&[(0x41, 0x5A, 7), (0x4E00, 0x4E20, 100), (0xF0000, 0xF0010, 300)]);
    assert_eq!(outline_glyph_id(&file, 'A'), Some(7));
    assert_eq!(outline_glyph_id(&file, 'C'), Some(9));
    assert_eq!(outline_glyph_id(&file, '世'), Some(122));
    assert_eq!(outline_glyph_id(&file, '\u{F0001}'), Some(301));
    assert_eq!(outline_glyph_id(&file, 'a'), None);
    assert_eq!(emoji_glyph_id(&file, 'A'), Some(7));
    assert_eq!(emoji_glyph_id(&file, 'C'), Some(9));
    assert_eq!(emoji_glyph_id(&file, '\u{F0001}'), Some(301));
    assert_eq!(emoji_glyph_id(&file, 'a'), None);
}

#[test]
fn the_missing_glyph_is_no_glyph() {
    let file = font(&[(0x41, 0x42, 0)]);
    assert_eq!(outline_glyph_id(&file, 'A'), None);
    assert_eq!(outline_glyph_id(&file, 'B'), Some(1));
    assert_eq!(emoji_glyph_id(&file, 'A'), None);
    assert_eq!(emoji_glyph_id(&file, 'B'), Some(1));
    assert_eq!(present_glyph(Some(0)), None);
    assert_eq!(present_glyph(Some(3)), Some(3));
    assert_eq!(present_glyph(None), None);
}

#[test]
fn what_is_no_font_has_no_glyphs() {
    for file in [&b""[..], b"not a font", &[0u8; 64]] {
        assert_eq!(outline_glyph_id(file, 'A'), None);
        assert_eq!(emoji_glyph_id(file, 'A'), None);
    }
}

#[test]
fn glyphs_that_cannot_be_counted_are_noticed() {
    assert!(has_sound_charmap(&font(&[])));
    assert!(has_sound_charmap(&font(&[(0x41, 0x5A, 7), (0x4E00, 0x4E20, 100)])));
    assert!(has_sound_charmap(&font(&[(0x41, 0x41, u32::MAX)])));
    assert!(!has_sound_charmap(&font(&[(0x41, 0x42, u32::MAX)])));
    assert!(has_sound_charmap(&font(&[(0x41, 0x5A, u32::MAX - 25)])));
    assert!(!has_sound_charmap(&font(&[(0x41, 0x5A, 7), (0x61, 0x7A, u32::MAX - 24)])));
    // Behind the last character nothing is looked up.
    assert!(has_sound_charmap(&font(&[(0, u32::MAX, u32::MAX - 0x10_FFFF)])));
    assert!(!has_sound_charmap(&font(&[(0, u32::MAX, u32::MAX - 0x10_FFFE)])));
    let file = font(&[(0x41, 0x42, u32::MAX)]);
    // Without its end the group is not read, and without its length the map is
    // not sound.
    assert!(has_sound_charmap(&file[..file.len() - 1]));
    assert!(!has_sound_charmap(&file[..file.len() - 13]));
    for file in [&b""[..], b"not a font", &[0u8; 64]] {
        assert!(has_sound_charmap(file));
    }
}

#[test]
fn maps_of_a_collection_are_read_too() {
    let inner = font(&[(0x41, 0x42, u32::MAX)]);
    let mut file = Vec::new();
    file.extend_from_slice(b"ttcf");
    be32(&mut file, 0x0001_0000);
    be32(&mut file, 1);
    be32(&mut file, 16);
    let start = file.len() as u32;
    file.extend_from_slice(&inner);
    // Tables are found from the start of the file.
    let offset = 16 + 12 + 8;
    file[offset..offset + 4].copy_from_slice(&(start + 28).to_be_bytes());
    assert!(!has_sound_charmap(&file));
    let last = file.len();
    file[last - 4..].copy_from_slice(&7u32.to_be_bytes());
    assert!(has_sound_charmap(&file));
    assert_eq!(outline_glyph_id(&file, 'B'), Some(8));
}

#[test]
fn pictures_are_decoded() {
    let rgba: Vec<u8> = (0..24).map(|i| (i * 10) as u8).collect();
    let image = decode_emoji(PictureData::Png(png(&rgba, 3, 2))).unwrap();
    assert_eq!((image.width, image.height), (3, 2));
    assert_eq!(image.rgba, rgba);
    assert!(decode_emoji(PictureData::Png(b"not a picture".to_vec())).is_none());
    assert!(decode_emoji(PictureData::Png(Vec::new())).is_none());
    assert!(decode_emoji(PictureData::Mask).is_none());
}

#[test]
fn opaque_pictures_get_an_opacity() {
    let mut file = Vec::new();
    image::codecs::png::PngEncoder::new(&mut file)
        .write_image(&[1, 2, 3, 4, 5, 6], 2, 1, image::ExtendedColorType::Rgb8)
        .unwrap();
    let image = decode_emoji(PictureData::Png(file)).unwrap();
    assert_eq!(image.rgba, vec![1, 2, 3, 255, 4, 5, 6, 255]);
}

#[test]
fn stored_pixels_change_their_order() {
    let bgra: Vec<u8> = (1..=16).collect();
    let image = decode_emoji(PictureData::Bgra(2, bgra.clone())).unwrap();
    assert_eq!((image.width, image.height), (2, 2));
    assert_eq!(image.rgba, vec![3, 2, 1, 4, 7, 6, 5, 8, 11, 10, 9, 12, 15, 14, 13, 16]);
    // A row that is not complete does not count, a pixel that is not is dropped.
    let image = stored_picture(3, &bgra);
    assert_eq!((image.width, image.height, image.rgba.len()), (3, 1, 16));
    let image = stored_picture(2, &bgra[..11].to_vec());
    assert_eq!((image.height, image.rgba.len()), (1, 8));
    let image = stored_picture(1, &Vec::new());
    assert_eq!((image.height, image.rgba.len()), (0, 0));
}

#[test]
fn changing_the_order_twice_gives_it_back() {
    let data: Vec<u8> = (0..43).collect();
    assert_eq!(swizzle(&swizzle(&data)), data[..40].to_vec());
}
