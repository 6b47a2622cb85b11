use mosaic::average::{average_color, average_of};
use mosaic::codec::encode_png;
use mosaic::color::MyColor;
use mosaic::raster::{Raster, Rgba};

fn from_colors(width: u32, height: u32, colors: &[(u8, u8, u8)]) -> Raster {
    let mut img = Raster::new(width, height);
    for (i, c) in colors.iter().enumerate() {
        let x = i as u32 % width;
        let y = i as u32 / width;
        img.put_pixel(x, y, Rgba { r: c.0, g: c.1, b: c.2, a: 255 });
    }
    img
}

#[test]
fn the_average_of_a_uniform_picture_is_its_colour() {
    for (w, h) in [(1, 1), (3, 1), (7, 1), (7, 3), (10, 10), (13, 17)] {
        for c in [(255, 255, 255), (0, 0, 0), (1, 2, 3), (254, 127, 85)] {
            let img = from_colors(w, h, &vec![c; (w * h) as usize]);
            assert_eq!(average_of(&img), MyColor::new(c.0, c.1, c.2), "{w}x{h} of {c:?}");
        }
    }
}

#[test]
fn the_average_is_rounded_down() {
    let img = from_colors(2, 1, &[(0, 0, 0), (255, 255, 255)]);
    assert_eq!(average_of(&img), MyColor::new(127, 127, 127));
    let img = from_colors(3, 1, &[(1, 0, 255), (2, 0, 255), (2, 1, 254)]);
    assert_eq!(average_of(&img), MyColor::new(1, 0, 254));
}

#[test]
fn the_average_is_taken_channel_by_channel() {
    let img = from_colors(2, 2, &[(10, 0, 200), (20, 0, 100), (30, 4, 0), (40, 0, 0)]);
    assert_eq!(average_of(&img), MyColor::new(25, 1, 75));
}

#[test]
fn the_average_lies_between_the_least_and_the_greatest() {
    let colors = [(10, 200, 30), (12, 180, 90), (11, 255, 31), (19, 181, 33), (10, 199, 89)];
    let img = from_colors(5, 1, &colors);
    let avg = average_of(&img);
    assert!((10..=19).contains(&avg.r));
    assert!((180..=255).contains(&avg.g));
    assert!((30..=90).contains(&avg.b));
    assert_eq!(avg, MyColor::new(12, 203, 54));
}

#[test]
fn alpha_plays_no_part_in_the_average() {
    let mut img = Raster::new(2, 1);
    img.put_pixel(0, 0, Rgba { r: 100, g: 100, b: 100, a: 0 });
    img.put_pixel(1, 0, Rgba { r: 50, g: 50, b: 50, a: 255 });
    assert_eq!(average_of(&img), MyColor::new(75, 75, 75));
}

#[test]
fn the_average_of_a_picture_without_pixels_is_black() {
    assert_eq!(average_of(&Raster::new(0, 0)), MyColor::new(0, 0, 0));
    assert_eq!(average_of(&Raster::new(0, 9)), MyColor::new(0, 0, 0));
}

#[test]
fn the_average_of_a_large_bright_picture_does_not_overflow() {
    let img = from_colors(300, 300, &vec![(255, 254, 253); 90000]);
    assert_eq!(average_of(&img), MyColor::new(255, 254, 253));
}

#[test]
fn average_color_decodes_the_file_first() {
    let img = from_colors(2, 1, &[(0, 10, 20), (100, 30, 21)]);
    let file = encode_png(&img).unwrap();
    assert_eq!(average_color("png", &file), Some(MyColor::new(50, 20, 20)));
    assert_eq!(average_color("jpg", &file), None);
}

#[test]
fn average_color_of_what_is_no_picture_is_none() {
    assert_eq!(average_color("png", b"not a picture"), None);
    assert_eq!(average_color("jpg", b"not a picture"), None);
    assert_eq!(average_color("png", &[]), None);
}

#[test]
fn average_color_of_a_jpeg_file_is_close_to_its_colour() {
    let mut rgb = Vec::new();
    for _ in 0..100 {
        rgb.extend_from_slice(&[40, 180, 90]);
    }
    let mut jpeg = Vec::new();
    image::codecs::jpeg::JpegEncoder::new_with_quality(&mut jpeg, 100)
        .encode(&rgb, 10, 10, image::ColorType::Rgb8)
        .unwrap();
    let avg = average_color("jpg", &jpeg).unwrap();
    assert!((avg.r as i32 - 40).abs() <= 3, "{avg:?}");
    assert!((avg.g as i32 - 180).abs() <= 3, "{avg:?}");
    assert!((avg.b as i32 - 90).abs() <= 3, "{avg:?}");
}
