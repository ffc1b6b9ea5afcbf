//! Icons: from the 32-bit samples that the operating system draws to the text that a
//! front end can use as an image source.
//!
//! The raster arrives in the system's channel order (blue, green, red, alpha). It is put
//! into red, green, blue, alpha order, compressed as PNG, written in base64 and prefixed
//! with the media type. A pixel whose alpha is zero is made opaque: many icons carry no
//! transparency at all and would otherwise vanish. This is deliberate.

use vstd::prelude::*;

verus! {

/// Width and height of an icon, in pixels.
pub const ICON_SIZE: u32 = 32;

/// Number of samples in an icon: four for each pixel.
pub const ICON_BYTES: usize = 4096;

/// The alpha that is stored for an alpha `a` read from the system.
pub open spec fn stored_alpha(a: u8) -> u8 {
    if a == 0 {
        255
    } else {
        a
    }
}

/// The sample at position `i` of the RGBA raster made from the BGRA samples `bgra`.
pub open spec fn rgba_sample(bgra: Seq<u8>, i: int) -> u8 {
    let first = 4 * (i / 4);
    if i % 4 == 0 {
        bgra[first + 2]
    } else if i % 4 == 1 {
        bgra[first + 1]
    } else if i % 4 == 2 {
        bgra[first]
    } else {
        stored_alpha(bgra[first + 3])
    }
}

/// The RGBA raster made from the BGRA samples `bgra`.
pub open spec fn rgba_samples(bgra: Seq<u8>) -> Seq<u8> {
    Seq::new(bgra.len(), |i: int| rgba_sample(bgra, i))
}

/// The text that marks what follows as a PNG image in base64.
pub open spec fn media_prefix() -> Seq<char> {
    "data:image/png;base64,"@
}

/// Whether the base64 form of `len` bytes has a length that fits the machine.
pub open spec fn base64_fits(len: nat) -> bool {
    len / 3 * 4 + 4 <= usize::MAX
}

/// The payload for an icon drawn as `bgra`: absent unless the raster has the size of an
/// icon and its PNG form exists.
pub open spec fn icon_payload(bgra: Seq<u8>) -> Option<Seq<char>> {
    if bgra.len() != ICON_BYTES {
        None
    } else {
        match png_encoding(rgba_samples(bgra), ICON_SIZE, ICON_SIZE) {
            Some(png) => if base64_fits(png.len()) {
                Some(media_prefix() + base64_text(png))
            } else {
                None
            },
            None => None,
        }
    }
}

/// A raster of RGBA pixels, kept in an `image::RgbaImage`. The verifier does not look
/// inside; `raster_samples`, `raster_width` and `raster_height` describe it.
#[verifier::external_body]
pub struct Raster {
    pixels: image::RgbaImage,
}

/// The samples of a raster, row by row from the top, four for each pixel.
pub uninterp spec fn raster_samples(raster: Raster) -> Seq<u8>;

/// The width in pixels that a raster was made with.
pub uninterp spec fn raster_width(raster: Raster) -> nat;

/// The height in pixels that a raster was made with.
pub uninterp spec fn raster_height(raster: Raster) -> nat;

/// The PNG file that the `image` crate writes for 8-bit RGBA samples of the given width
/// and height, or `None` where it reports an error.
pub uninterp spec fn png_encoding(samples: Seq<u8>, width: u32, height: u32) -> Option<Seq<u8>>;

/// The base64 form of `bytes` in the standard alphabet, with padding.
pub uninterp spec fn base64_text(bytes: Seq<u8>) -> Seq<char>;

/// `ImageBuffer::new`: a raster of the given size with every sample zero. The size must
/// be one that a vector can hold.
#[verifier::external_body]
fn new_raster(width: u32, height: u32) -> (raster: Raster)
    requires
        4 * width * height <= isize::MAX,
    ensures
        raster_width(raster) == width,
        raster_height(raster) == height,
        raster_samples(raster) == Seq::new((4 * width * height) as nat, |i: int| 0u8),
{
    Raster { pixels: image::RgbaImage::new(width, height) }
}

/// `ImageBuffer::put_pixel`: overwrites the four samples of the pixel in column `x` of
/// row `y` and leaves every other sample and the size as they were. The pixel must lie
/// inside the raster.
#[verifier::external_body]
fn put_pixel(raster: &mut Raster, x: u32, y: u32, rgba: [u8; 4])
    requires
        x < raster_width(*old(raster)),
        y < raster_height(*old(raster)),
    ensures
        raster_width(*final(raster)) == raster_width(*old(raster)),
        raster_height(*final(raster)) == raster_height(*old(raster)),
        raster_samples(*final(raster)) == raster_samples(*old(raster)).update(
            4 * (y * raster_width(*old(raster)) + x),
            rgba[0],
        ).update(4 * (y * raster_width(*old(raster)) + x) + 1, rgba[1]).update(
            4 * (y * raster_width(*old(raster)) + x) + 2,
            rgba[2],
        ).update(4 * (y * raster_width(*old(raster)) + x) + 3, rgba[3]),
{
    raster.pixels.put_pixel(x, y, image::Rgba(rgba));
}

/// `ImageBuffer::into_raw`: hands out the samples of the raster.
#[verifier::external_body]
fn into_samples(raster: Raster) -> (samples: Vec<u8>)
    ensures
        samples@ == raster_samples(raster),
{
    raster.pixels.into_raw()
}

/// `PngEncoder::write_image` on a fresh `PngEncoder::new` over an empty vector, for
/// 8-bit RGBA: the bytes written, or `None` on an error. The encoder insists on four
/// samples for each pixel.
#[verifier::external_body]
fn png_encode(samples: &[u8], width: u32, height: u32) -> (png: Option<Vec<u8>>)
    requires
        samples@.len() == 4 * width * height,
    ensures
        match png {
            Some(bytes) => png_encoding(samples@, width, height) == Some(bytes@),
            None => png_encoding(samples@, width, height) is None,
        },
{
    let mut out: Vec<u8> = Vec::new();
    let encoder = image::codecs::png::PngEncoder::new(&mut out);
    let color = image::ExtendedColorType::Rgba8;
    match image::ImageEncoder::write_image(encoder, samples, width, height, color) {
        Ok(()) => Some(out),
        Err(_) => None,
    }
}

/// `Engine::encode` of `base64::engine::general_purpose::STANDARD`. The encoded length
/// must fit the machine.
#[verifier::external_body]
fn base64_encode(bytes: &[u8]) -> (text: String)
    requires
        base64_fits(bytes@.len()),
    ensures
        text@ == base64_text(bytes@),
{
    base64::Engine::encode(&base64::engine::general_purpose::STANDARD, bytes)
}

/// Reorders a drawn icon from blue, green, red, alpha to red, green, blue, alpha and
/// makes every pixel with alpha zero opaque.
fn bgra_to_rgba(pixels: &[u8]) -> (raster: Raster)
    requires
        pixels@.len() == ICON_BYTES,
    ensures
        raster_width(raster) == ICON_SIZE,
        raster_height(raster) == ICON_SIZE,
        raster_samples(raster) == rgba_samples(pixels@),
{
    let mut raster = new_raster(ICON_SIZE, ICON_SIZE);
    let mut y: u32 = 0;
    while y < ICON_SIZE
        invariant
            y <= ICON_SIZE,
            pixels@.len() == ICON_BYTES,
            raster_width(raster) == ICON_SIZE,
            raster_height(raster) == ICON_SIZE,
            raster_samples(raster).len() == ICON_BYTES,
            forall|i: int|
                0 <= i < 4 * (y * ICON_SIZE) ==> raster_samples(raster)[i] == rgba_sample(
                    pixels@,
                    i,
                ),
        decreases ICON_SIZE - y,
    {
        let mut x: u32 = 0;
        while x < ICON_SIZE
            invariant
                y < ICON_SIZE,
                x <= ICON_SIZE,
                pixels@.len() == ICON_BYTES,
                raster_width(raster) == ICON_SIZE,
                raster_height(raster) == ICON_SIZE,
                raster_samples(raster).len() == ICON_BYTES,
                forall|i: int|
                    0 <= i < 4 * (y * ICON_SIZE + x) ==> raster_samples(raster)[i] == rgba_sample(
                        pixels@,
                        i,
                    ),
            decreases ICON_SIZE - x,
        {
            let first: usize = ((y * ICON_SIZE + x) * 4) as usize;
            let b = pixels[first];
            let g = pixels[first + 1];
            let r = pixels[first + 2];
            let a = pixels[first + 3];
            let alpha: u8 = if a == 0 { 255 } else { a };
            put_pixel(&mut raster, x, y, [r, g, b, alpha]);
            x += 1;
        }
        y += 1;
    }
    raster
}

/// The samples of a drawn icon in red, green, blue, alpha order, with every pixel of
/// alpha zero made opaque; `None` unless `pixels` has the size of an icon.
pub fn to_rgba(pixels: &[u8]) -> (samples: Option<Vec<u8>>)
    ensures
        pixels@.len() != ICON_BYTES ==> samples is None,
        pixels@.len() == ICON_BYTES ==> samples is Some && samples->0@ == rgba_samples(pixels@),
{
    if pixels.len() != ICON_BYTES {
        return None;
    }
    Some(into_samples(bgra_to_rgba(pixels)))
}

/// Puts the media type in front of an image written in base64.
pub fn inline_image(encoded: &str) -> (payload: String)
    ensures
        payload@ == media_prefix() + encoded@,
{
    let mut payload = String::from_str("data:image/png;base64,");
    payload.append(encoded);
    payload
}

/// The payload for a PNG file: its base64 form behind the media type.
pub fn png_payload(png: &[u8]) -> (payload: String)
    requires
        base64_fits(png@.len()),
    ensures
        payload@ == media_prefix() + base64_text(png@),
{
    let encoded = base64_encode(png);
    inline_image(encoded.as_str())
}

/// Encodes a drawn icon as an inline image. `pixels` holds the icon as the system
/// draws it: 32 rows of 32 pixels from the top, each pixel as blue, green, red, alpha.
/// The result is absent where `pixels` has another size or the PNG cannot be written.
pub fn encode_icon(pixels: &[u8]) -> (payload: Option<String>)
    ensures
        match payload {
            Some(text) => icon_payload(pixels@) == Some(text@),
            None => icon_payload(pixels@) is None,
        },
{
    if pixels.len() != ICON_BYTES {
        return None;
    }
    let samples = into_samples(bgra_to_rgba(pixels));
    match png_encode(samples.as_slice(), ICON_SIZE, ICON_SIZE) {
        Some(png) => {
            if png.len() / 3 > (usize::MAX - 4) / 4 {
                return None;
            }
            Some(png_payload(png.as_slice()))
        },
        None => None,
    }
}

/// A payload begins with the media type, and what follows is the PNG form of the
/// reordered raster, written in base64.
pub proof fn lemma_payload_is_inline_png(bgra: Seq<u8>)
    requires
        icon_payload(bgra) is Some,
    ensures
        bgra.len() == ICON_BYTES,
        png_encoding(rgba_samples(bgra), ICON_SIZE, ICON_SIZE) is Some,
        media_prefix().is_prefix_of(icon_payload(bgra)->0),
        icon_payload(bgra)->0.skip(media_prefix().len() as int) == base64_text(
            png_encoding(rgba_samples(bgra), ICON_SIZE, ICON_SIZE)->0,
        ),
{
    let encoded = base64_text(png_encoding(rgba_samples(bgra), ICON_SIZE, ICON_SIZE)->0);
    let payload = media_prefix() + encoded;
    assert(payload.subrange(0, media_prefix().len() as int) == media_prefix());
    assert(payload.skip(media_prefix().len() as int) == encoded);
}

/// An icon drawn without any alpha comes out opaque everywhere, and a pixel drawn with
/// an alpha other than zero keeps it.
pub proof fn lemma_alpha_fix(bgra: Seq<u8>)
    requires
        bgra.len() % 4 == 0,
    ensures
        (forall|i: int| 0 <= i < bgra.len() && i % 4 == 3 ==> bgra[i] == 0) ==> (forall|i: int|
            0 <= i < bgra.len() && i % 4 == 3 ==> rgba_samples(bgra)[i] == 255),
        forall|i: int|
            0 <= i < bgra.len() && i % 4 == 3 && bgra[i] != 0 ==> rgba_samples(bgra)[i] == bgra[i],
{
    assert forall|i: int| 0 <= i < bgra.len() && i % 4 == 3 implies rgba_samples(bgra)[i]
        == stored_alpha(bgra[i]) by {}
}

/// The colours of every pixel are kept: red and blue change places and green stays.
pub proof fn lemma_colours_kept(bgra: Seq<u8>)
    requires
        bgra.len() % 4 == 0,
    ensures
        forall|i: int| 0 <= i < bgra.len() && i % 4 == 0 ==> rgba_samples(bgra)[i] == bgra[i + 2],
        forall|i: int| 0 <= i < bgra.len() && i % 4 == 1 ==> rgba_samples(bgra)[i] == bgra[i],
        forall|i: int| 0 <= i < bgra.len() && i % 4 == 2 ==> rgba_samples(bgra)[i] == bgra[i - 2],
{
    assert forall|i: int| 0 <= i < bgra.len() implies #[trigger] rgba_samples(bgra)[i]
        == rgba_sample(bgra, i) && 4 * (i / 4) + i % 4 == i by {}
}

} // verus!
