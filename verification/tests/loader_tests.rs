use fastpack::export::prepare_sheet_image;
use fastpack::image::{Image, Rgba};
use fastpack::loader::{is_image_extension, load_sprite};
use fastpack::pixel_format::PixelFormat;
use fastpack::rect::Size;

fn encoded(w: u32, h: u32, format: image::ImageFormat) -> Vec<u8> {
    let mut img = image::RgbaImage::new(w, h);
    for (x, y, p) in img.enumerate_pixels_mut() {
        *p = image::Rgba([(x * 40) as u8, (y * 60) as u8, 7, 255]);
    }
    let mut out = std::io::Cursor::new(Vec::new());
    img.write_to(&mut out, format).unwrap();
    out.into_inner()
}

#[test]
fn load_png_sprite() {
    let bytes = encoded(3, 2, image::ImageFormat::Png);
    let s = load_sprite(&bytes, "png", "ui/button".to_string(), "ui/button.png".to_string()).unwrap();
    assert_eq!(s.id, "ui/button");
    assert_eq!(s.source_path, "ui/button.png");
    assert_eq!((s.image.width, s.image.height), (3, 2));
    assert_eq!(s.original_size, Size { w: 3, h: 2 });
    assert_eq!(s.image.pixels.len(), 6);
    assert_eq!(s.image.get_pixel(2, 1), Rgba { r: 80, g: 60, b: 7, a: 255 });
    assert!(s.trim_rect.is_none() && s.nine_patch.is_none() && s.alias_of.is_none());
    assert_eq!(s.extrude, 0);
    assert_eq!(s.content_hash, fastpack::trim::content_hash(&s.image));
}

#[test]
fn load_bmp_and_uppercase_extension() {
    let bytes = encoded(2, 2, image::ImageFormat::Bmp);
    let s = load_sprite(&bytes, "BMP", "a".to_string(), "a.BMP".to_string()).unwrap();
    assert_eq!(s.original_size, Size { w: 2, h: 2 });
}

#[test]
fn load_refuses_bad_bytes_and_unknown_extensions() {
    assert!(load_sprite(b"not an image", "png", "x".to_string(), "x.png".to_string()).is_none());
    let bytes = encoded(2, 2, image::ImageFormat::Png);
    assert!(load_sprite(&bytes, "txt", "x".to_string(), "x.txt".to_string()).is_none());
    assert!(load_sprite(&bytes, "", "x".to_string(), "x".to_string()).is_none());
}

#[test]
fn image_from_raw_checks_the_length() {
    let img = Image::from_raw(2, 1, &[1, 2, 3, 4, 5, 6, 7, 8]).unwrap();
    assert_eq!(img.pixels, vec![Rgba { r: 1, g: 2, b: 3, a: 4 }, Rgba { r: 5, g: 6, b: 7, a: 8 }]);
    assert!(Image::from_raw(2, 2, &[0; 8]).is_none());
    assert!(Image::from_raw(1, 1, &[0; 5]).is_none());
}

#[test]
fn sheet_preparation() {
    let img = Image::from_raw(1, 1, &[200, 100, 50, 128]).unwrap();
    let same = prepare_sheet_image(img.clone(), false, PixelFormat::Rgba8888);
    assert_eq!(same.pixels, img.pixels);
    let pre = prepare_sheet_image(img.clone(), true, PixelFormat::Rgba8888);
    assert_eq!(pre.pixels, fastpack::premultiply::premultiply(&img).pixels);
    let dithered = prepare_sheet_image(img.clone(), false, PixelFormat::Rgba4444);
    assert_eq!(dithered.pixels, fastpack::dither::dither(&img, PixelFormat::Rgba4444).pixels);
}

#[test]
fn image_extensions_ignore_ascii_case() {
    for e in ["png", "PNG", "Jpg", "jpeg", "bmp", "tga", "WebP", "tiff", "TIF", "gif"] {
        assert!(is_image_extension(e), "{e}");
    }
    for e in ["", "txt", "pngx", "pn", "svg", "psd", "jpé"] {
        assert!(!is_image_extension(e), "{e}");
    }
}
