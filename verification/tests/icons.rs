use task_switcher::icon::{
    encode_icon, inline_image, png_payload, to_rgba, ICON_BYTES, ICON_SIZE,
};

const PREFIX: &str = "data:image/png;base64,";

/// An icon whose pixel `p` is blue `p % 256`, green `p / 4 % 256`, red
/// `255 - p % 256`, with the alpha that `alpha` gives.
fn drawn(alpha: fn(usize) -> u8) -> Vec<u8> {
    let mut pixels = Vec::with_capacity(ICON_BYTES);
    for p in 0..ICON_BYTES / 4 {
        pixels.push((p % 256) as u8);
        pixels.push((p / 4 % 256) as u8);
        pixels.push(255 - (p % 256) as u8);
        pixels.push(alpha(p));
    }
    pixels
}

fn decode(payload: &str) -> image::RgbaImage {
    let encoded = payload.strip_prefix(PREFIX).expect("the media type comes first");
    let png = base64::Engine::decode(&base64::engine::general_purpose::STANDARD, encoded)
        .expect("the payload is base64");
    assert_eq!(&png[..8], &[0x89, b'P', b'N', b'G', 0x0d, 0x0a, 0x1a, 0x0a]);
    image::load_from_memory(&png).expect("the payload holds an image").to_rgba8()
}

#[test]
fn icon_has_32_by_32_pixels_of_four_samples() {
    assert_eq!(ICON_SIZE, 32);
    assert_eq!(ICON_BYTES, 32 * 32 * 4);
}

#[test]
fn to_rgba_swaps_red_and_blue() {
    let mut pixels = vec![0u8; ICON_BYTES];
    pixels[0] = 1;
    pixels[1] = 2;
    pixels[2] = 3;
    pixels[3] = 4;
    pixels[4092] = 10;
    pixels[4093] = 20;
    pixels[4094] = 30;
    pixels[4095] = 40;
    let samples = to_rgba(&pixels).unwrap();
    assert_eq!(samples.len(), ICON_BYTES);
    assert_eq!(&samples[..4], &[3, 2, 1, 4]);
    assert_eq!(&samples[4092..], &[30, 20, 10, 40]);
}

#[test]
fn to_rgba_keeps_every_pixel_in_place() {
    let pixels = drawn(|p| (p % 255) as u8 + 1);
    let samples = to_rgba(&pixels).unwrap();
    for p in 0..ICON_BYTES / 4 {
        assert_eq!(samples[4 * p], pixels[4 * p + 2]);
        assert_eq!(samples[4 * p + 1], pixels[4 * p + 1]);
        assert_eq!(samples[4 * p + 2], pixels[4 * p]);
        assert_eq!(samples[4 * p + 3], pixels[4 * p + 3]);
    }
}

#[test]
fn to_rgba_makes_an_icon_without_alpha_opaque() {
    let pixels = drawn(|_| 0);
    let samples = to_rgba(&pixels).unwrap();
    for p in 0..ICON_BYTES / 4 {
        assert_eq!(samples[4 * p + 3], 255);
    }
}

#[test]
fn to_rgba_makes_only_clear_pixels_opaque() {
    let mut pixels = vec![0u8; ICON_BYTES];
    pixels[3] = 0;
    pixels[7] = 1;
    pixels[11] = 128;
    pixels[15] = 254;
    pixels[19] = 255;
    let samples = to_rgba(&pixels).unwrap();
    assert_eq!(samples[3], 255);
    assert_eq!(samples[7], 1);
    assert_eq!(samples[11], 128);
    assert_eq!(samples[15], 254);
    assert_eq!(samples[19], 255);
}

#[test]
fn to_rgba_rejects_other_sizes() {
    assert!(to_rgba(&[]).is_none());
    assert!(to_rgba(&vec![0u8; ICON_BYTES - 1]).is_none());
    assert!(to_rgba(&vec![0u8; ICON_BYTES + 1]).is_none());
    assert!(to_rgba(&vec![0u8; 16 * 16 * 4]).is_none());
}

#[test]
fn inline_image_puts_the_media_type_first() {
    assert_eq!(inline_image("QUJD"), "data:image/png;base64,QUJD");
    assert_eq!(inline_image(""), "data:image/png;base64,");
}

#[test]
fn png_payload_writes_the_bytes_in_base64() {
    assert_eq!(png_payload(b"hello"), "data:image/png;base64,aGVsbG8=");
    assert_eq!(png_payload(b""), "data:image/png;base64,");
    assert_eq!(png_payload(&[0xfb, 0xff, 0xfe]), "data:image/png;base64,+//+");
    assert_eq!(png_payload(b"a"), "data:image/png;base64,YQ==");
}

#[test]
fn encode_icon_rejects_other_sizes() {
    assert!(encode_icon(&[]).is_none());
    assert!(encode_icon(&vec![0u8; ICON_BYTES - 4]).is_none());
    assert!(encode_icon(&vec![0u8; ICON_BYTES + 4]).is_none());
}

#[test]
fn encode_icon_gives_the_same_payload_for_the_same_icon() {
    let pixels = drawn(|p| (p % 256) as u8);
    assert_eq!(encode_icon(&pixels), encode_icon(&pixels));
}

#[test]
fn encoded_icon_decodes_to_a_32_by_32_raster() {
    let payload = encode_icon(&drawn(|p| (p % 256) as u8)).unwrap();
    assert!(payload.starts_with(PREFIX));
    let image = decode(&payload);
    assert_eq!(image.width(), 32);
    assert_eq!(image.height(), 32);
    assert_eq!(image.as_raw().len(), ICON_BYTES);
}

#[test]
fn encoded_icon_holds_the_reordered_pixels() {
    let pixels = drawn(|p| (p % 255) as u8 + 1);
    let image = decode(&encode_icon(&pixels).unwrap());
    assert_eq!(image.as_raw(), &to_rgba(&pixels).unwrap());
    for y in 0..32u32 {
        for x in 0..32u32 {
            let first = ((y * 32 + x) * 4) as usize;
            let pixel = image.get_pixel(x, y).0;
            assert_eq!(
                pixel,
                [pixels[first + 2], pixels[first + 1], pixels[first], pixels[first + 3]]
            );
        }
    }
}

#[test]
fn encoded_icon_without_alpha_is_opaque_everywhere() {
    let image = decode(&encode_icon(&drawn(|_| 0)).unwrap());
    for pixel in image.pixels() {
        assert_eq!(pixel.0[3], 255);
    }
}

#[test]
fn encoded_icon_keeps_partial_alpha() {
    let pixels = drawn(|p| (p % 254) as u8 + 1);
    let image = decode(&encode_icon(&pixels).unwrap());
    for (p, pixel) in image.pixels().enumerate() {
        assert_eq!(pixel.0[3], pixels[4 * p + 3]);
    }
}

#[test]
fn encoded_icon_makes_clear_pixels_of_a_partly_clear_icon_opaque() {
    let pixels = drawn(|p| if p % 2 == 0 { 0 } else { 100 });
    let image = decode(&encode_icon(&pixels).unwrap());
    for (p, pixel) in image.pixels().enumerate() {
        assert_eq!(pixel.0[3], if p % 2 == 0 { 255 } else { 100 });
    }
}
