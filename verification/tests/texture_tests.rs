use std::io::Cursor;

use image::{ImageBuffer, ImageFormat, Rgba};
use render_assets::store::Completion;
use render_assets::texture::{decode_image, ImageData, TextureAssets};
use render_assets::LoadError;

fn png_bytes_2x1() -> Vec<u8> {
    let img: ImageBuffer<Rgba<u8>, Vec<u8>> = ImageBuffer::from_fn(2, 1, |x, _| {
        if x == 0 {
            Rgba([255, 0, 0, 255])
        } else {
            Rgba([0, 0, 255, 128])
        }
    });
    let mut out = Cursor::new(Vec::new());
    image::DynamicImage::ImageRgba8(img)
        .write_to(&mut out, ImageFormat::Png)
        .unwrap();
    out.into_inner()
}

#[test]
fn decode_image_yields_rgba_pixels() {
    let bytes = png_bytes_2x1();
    let img = decode_image(&bytes).unwrap();
    assert_eq!((img.width, img.height), (2, 1));
    assert_eq!(img.rgba, vec![255, 0, 0, 255, 0, 0, 255, 128]);
}

#[test]
fn decode_image_rejects_garbage() {
    let r = decode_image(&vec![1, 2, 3, 4]);
    assert_eq!(r.err(), Some(LoadError::Decode));
}

#[test]
fn texture_assets_materialize_decoded_images() {
    let mut textures = TextureAssets::new();
    let sub = textures.load("white").unwrap();
    assert!(textures.get("white").is_none());

    let img = ImageData { width: 1, height: 1, rgba: vec![255, 255, 255, 255] };
    let completion = Completion { id: "white".to_string(), token: sub.token, result: Ok(img) };
    textures.hot_reload(&Vec::new(), Some(completion), 5);

    let tex = textures.get("white").unwrap();
    assert_eq!((tex.width, tex.height), (1, 1));
    assert_eq!(tex.rgba, vec![255, 255, 255, 255]);
    assert_eq!(textures.generation("white"), Some(1));
}
