use mosaic::chunk::finds_odd_palette;
use mosaic::codec::{decode, encode_png};
use mosaic::database::{create_db, TileFile};
use mosaic::raster::{Raster, Rgba};

const SIGNATURE: [u8; 8] = [0x89, b'P', b'N', b'G', 0x0D, 0x0A, 0x1A, 0x0A];

fn crc32(data: &[u8]) -> u32 {
    let mut crc = 0xFFFF_FFFFu32;
    for &b in data {
        crc ^= b as u32;
        for _ in 0..8 {
            crc = if crc & 1 != 0 { (crc >> 1) ^ 0xEDB8_8320 } else { crc >> 1 };
        }
    }
    !crc
}

fn adler32(data: &[u8]) -> u32 {
    let (mut a, mut b) = (1u32, 0u32);
    for &x in data {
        a = (a + x as u32) % 65521;
        b = (b + a) % 65521;
    }
    (b << 16) | a
}

fn chunk(out: &mut Vec<u8>, kind: &[u8; 4], data: &[u8]) {
    out.extend((data.len() as u32).to_be_bytes());
    let mut body = kind.to_vec();
    body.extend(data);
    out.extend(&body);
    out.extend(crc32(&body).to_be_bytes());
}

/// A PNG file of one row of pixels, each an index into the palette.
fn indexed_png(palette: &[u8], indices: &[u8]) -> Vec<u8> {
    let mut out = SIGNATURE.to_vec();
    let mut ihdr = Vec::new();
    ihdr.extend((indices.len() as u32).to_be_bytes());
    ihdr.extend(1u32.to_be_bytes());
    ihdr.extend([8, 3, 0, 0, 0]);
    chunk(&mut out, b"IHDR", &ihdr);
    chunk(&mut out, b"PLTE", palette);
    let mut raw = vec![0u8];
    raw.extend(indices);
    let mut z = vec![0x78, 0x01, 0x01];
    z.extend((raw.len() as u16).to_le_bytes());
    z.extend((!(raw.len() as u16)).to_le_bytes());
    z.extend(&raw);
    z.extend(adler32(&raw).to_be_bytes());
    chunk(&mut out, b"IDAT", &z);
    chunk(&mut out, b"IEND", &[]);
    out
}

#[test]
fn a_picture_with_a_palette_is_decoded_through_the_palette() {
    let png = indexed_png(&[10, 20, 30, 40, 50, 60], &[1, 0, 1]);
    assert!(!finds_odd_palette(&png));
    let img = decode("png", &png).unwrap();
    assert_eq!(img.dimensions(), (3, 1));
    assert_eq!(img.get_pixel(0, 0), Rgba { r: 40, g: 50, b: 60, a: 255 });
    assert_eq!(img.get_pixel(1, 0), Rgba { r: 10, g: 20, b: 30, a: 255 });
    assert_eq!(img.get_pixel(2, 0), Rgba { r: 40, g: 50, b: 60, a: 255 });
}

#[test]
fn a_palette_of_256_colours_is_the_longest() {
    let full: Vec<u8> = (0..768).map(|i| (i % 251) as u8).collect();
    let png = indexed_png(&full, &[255]);
    assert!(!finds_odd_palette(&png));
    let img = decode("png", &png).unwrap();
    assert_eq!(img.get_pixel(0, 0), Rgba { r: full[765], g: full[766], b: full[767], a: 255 });
    let mut longer = full.clone();
    longer.extend([1, 2, 3]);
    let png = indexed_png(&longer, &[255]);
    assert!(finds_odd_palette(&png));
    assert!(decode("png", &png).is_none());
}

#[test]
fn a_palette_that_is_no_run_of_whole_colours_is_not_decoded() {
    for n in [1usize, 2, 4, 5, 7, 767, 769, 770, 1000] {
        let palette: Vec<u8> = (0..n).map(|i| i as u8).collect();
        let png = indexed_png(&palette, &[0]);
        assert!(finds_odd_palette(&png), "palette of {n} bytes");
        assert!(decode("png", &png).is_none(), "palette of {n} bytes");
        assert!(decode("PNG", &png).is_none(), "palette of {n} bytes");
    }
    for n in [0usize, 3, 6, 9, 765, 768] {
        let palette: Vec<u8> = (0..n).map(|i| i as u8).collect();
        assert!(!finds_odd_palette(&indexed_png(&palette, &[0])), "palette of {n} bytes");
    }
}

#[test]
fn the_palette_is_looked_for_in_png_files_only() {
    assert!(!finds_odd_palette(&[]));
    assert!(!finds_odd_palette(&SIGNATURE));
    let mut not_png = vec![0xFF, 0xD8, 0xFF, 0xE0, 0x00, 0x10, 0x00, 0x00];
    not_png.extend([0, 0, 0, 4, b'P', b'L', b'T', b'E', 1, 2, 3, 4, 0, 0, 0, 0]);
    assert!(!finds_odd_palette(&not_png));
    let mut png = SIGNATURE.to_vec();
    png.extend([0, 0, 0, 4, b'P', b'L', b'T', b'E', 1, 2, 3, 4, 0, 0, 0, 0]);
    assert!(finds_odd_palette(&png));
    let plain = encode_png(&Raster::new(4, 4)).unwrap();
    assert!(!finds_odd_palette(&plain));
}

#[test]
fn the_walk_goes_from_chunk_to_chunk_by_their_lengths() {
    // what looks like an odd palette inside the data of another chunk
    let mut png = SIGNATURE.to_vec();
    chunk(&mut png, b"tEXt", &[0, 0, 0, 4, b'P', b'L', b'T', b'E', 1, 2, 3, 4, 0, 0, 0, 0]);
    chunk(&mut png, b"PLTE", &[1, 2, 3]);
    assert!(!finds_odd_palette(&png));
    // an odd palette behind other chunks
    let mut png = SIGNATURE.to_vec();
    chunk(&mut png, b"IHDR", &[0, 0, 0, 1, 0, 0, 0, 1, 8, 3, 0, 0, 0]);
    chunk(&mut png, b"gAMA", &[0, 0, 0xB1, 0x8F]);
    chunk(&mut png, b"PLTE", &[1, 2, 3, 4]);
    assert!(finds_odd_palette(&png));
    // a chunk that says it is longer than the file
    let mut png = SIGNATURE.to_vec();
    png.extend([0xFF, 0xFF, 0xFF, 0xFF, b't', b'E', b'X', b't', 1, 2, 3]);
    chunk(&mut png, b"PLTE", &[1, 2, 3, 4]);
    assert!(!finds_odd_palette(&png));
    // a palette chunk cut off right behind its kind
    let mut png = SIGNATURE.to_vec();
    png.extend([0, 0, 0, 5, b'P', b'L', b'T', b'E']);
    assert!(finds_odd_palette(&png));
    let mut png = SIGNATURE.to_vec();
    png.extend([0, 0, 0, 5, b'P', b'L', b'T']);
    assert!(!finds_odd_palette(&png));
}

#[test]
fn a_tile_with_an_odd_palette_is_passed_over() {
    let files = vec![
        TileFile { path: "odd.png".into(), extension: "png".into(), bytes: indexed_png(&[1, 2, 3, 4], &[0]) },
        TileFile { path: "fine.png".into(), extension: "png".into(), bytes: indexed_png(&[9, 8, 7], &[0, 0]) },
    ];
    let db = create_db(&files).unwrap();
    assert_eq!(db.len(), 1);
    let tiles = db.get(&mosaic::color::MyColor::new(9, 8, 7)).unwrap();
    assert_eq!(tiles[0].path, "fine.png");
}

struct Lcg(u64);

impl Lcg {
    fn next(&mut self, below: u32) -> u32 {
        self.0 = self.0.wrapping_mul(6364136223846793005).wrapping_add(1442695040888963407);
        ((self.0 >> 33) as u32) % below.max(1)
    }
}

/// Pictures with palettes and indices of many lengths: each is decoded or
/// refused, and a palette of a wrong length is always refused.
#[test]
fn pictures_with_any_palette_are_decoded_or_refused() {
    let mut rng = Lcg(7);
    let mut decoded = 0;
    for _ in 0..1500 {
        let n = [0u32, 1, 2, 3, 4, 6, 9, 48, 765, 766, 768, 769, 771, 900][rng.next(14) as usize];
        let palette: Vec<u8> = (0..n).map(|_| rng.next(256) as u8).collect();
        let indices: Vec<u8> = (0..1 + rng.next(9)).map(|_| rng.next(256) as u8).collect();
        let png = indexed_png(&palette, &indices);
        let odd = n % 3 != 0 || n > 768;
        assert_eq!(finds_odd_palette(&png), odd);
        let img = decode("png", &png);
        if odd {
            assert!(img.is_none());
        }
        if let Some(img) = img {
            assert_eq!(img.dimensions(), (indices.len() as u32, 1));
            decoded += 1;
        }
    }
    assert!(decoded > 300, "{decoded}");
}
