//! The screenshot of the overlay as a PNG file's bytes.

use vstd::prelude::*;
use crate::number::decimal;

verus! {

/// One pixel as the screenshot holds it: red, green, blue, alpha.
#[derive(Clone, Copy, Debug, PartialEq, Eq, Structural)]
pub struct Pixel {
    pub r: u8,
    pub g: u8,
    pub b: u8,
    pub a: u8,
}

/// The pixels' bytes, four per pixel in the order red, green, blue, alpha.
pub open spec fn rgba_spec(p: Seq<Pixel>) -> Seq<u8>
    decreases p.len(),
{
    if p.len() == 0 {
        Seq::empty()
    } else {
        rgba_spec(p.drop_last()) + seq![p.last().r, p.last().g, p.last().b, p.last().a]
    }
}

pub proof fn lemma_rgba_len(p: Seq<Pixel>)
    ensures
        rgba_spec(p).len() == 4 * p.len(),
    decreases p.len(),
{
    if p.len() > 0 {
        lemma_rgba_len(p.drop_last());
    }
}

/// The pixels' bytes, four per pixel in the order red, green, blue, alpha.
pub fn rgba_bytes(pixels: &Vec<Pixel>) -> (r: Vec<u8>)
    ensures
        r@ == rgba_spec(pixels@),
{
    let mut data: Vec<u8> = Vec::new();
    let mut i: usize = 0;
    while i < pixels.len()
        invariant
            i <= pixels.len(),
            data@ == rgba_spec(pixels@.take(i as int)),
        decreases pixels.len() - i,
    {
        let c = pixels[i];
        data.push(c.r);
        data.push(c.g);
        data.push(c.b);
        data.push(c.a);
        assert(pixels@.take(i + 1).drop_last() =~= pixels@.take(i as int));
        assert(data@ =~= rgba_spec(pixels@.take(i + 1)));
        i = i + 1;
    }
    assert(pixels@.take(i as int) =~= pixels@);
    data
}

/// The bytes of the PNG file that the `png` crate writes for an 8-bit RGBA
/// image of the given size and pixel bytes, with its default settings.
pub uninterp spec fn png_rgba8(width: u32, height: u32, data: Seq<u8>) -> Seq<u8>;

/// What png says when it refuses an 8-bit RGBA image: a zero width, else a
/// zero height, else data of the wrong length (`len` bytes where
/// `width * height * 4` were expected).
pub open spec fn png_refusal(width: u32, height: u32, len: nat) -> Seq<char> {
    if width == 0 {
        "Zero width not allowed"@
    } else if height == 0 {
        "Zero height not allowed"@
    } else {
        "wrong data size, expected "@ + decimal((width as int * height as int * 4) as nat)
            + " got "@ + decimal(len)
    }
}

/// Encodes an 8-bit RGBA image into memory with png's encoder:
/// `png::Encoder::new`, `set_color(Rgba)`, `set_depth(Eight)`,
/// `write_header`, `Writer::write_image_data` and `Writer::finish`, the one
/// sequence in which png writes a file (it has no single call for it).
/// Trusted, from png 0.17.16's source: writing into a `Vec` cannot fail, so
/// the encoder refuses only a zero width or height (`write_header`) and data
/// whose length is not `width * height * 4` (`write_image_data`); the bytes
/// it writes are a function of the size and the data, named `png_rgba8`.
/// A refusal is png's `Display` of its error: `FormatError`'s texts for a
/// zero width or height (encoder.rs:78-79), `ParameterError`'s
/// `ImageBufferSize` text for the data length (common.rs:946-947).
#[verifier::external_body]
fn encode_rgba8(width: u32, height: u32, data: &[u8]) -> (r: Result<Vec<u8>, String>)
    requires
        width as int * height as int * 4 <= u32::MAX,
    ensures
        r is Ok <==> (width > 0 && height > 0 && data@.len() == width as int * height as int * 4),
        r matches Ok(bytes) ==> bytes@ == png_rgba8(width, height, data@),
        r matches Err(msg) ==> msg@ == png_refusal(width, height, data@.len()),
{
    let mut out: Vec<u8> = Vec::new();
    let mut encoder = png::Encoder::new(&mut out, width, height);
    encoder.set_color(png::ColorType::Rgba);
    encoder.set_depth(png::BitDepth::Eight);
    let written = match encoder.write_header() {
        Ok(mut writer) => match writer.write_image_data(data) {
            Ok(()) => writer.finish(),
            Err(e) => Err(e),
        },
        Err(e) => Err(e),
    };
    match written {
        Ok(()) => Ok(out),
        Err(e) => Err(e.to_string()),
    }
}

/// The PNG bytes of a screenshot `width` pixels wide and `height` high.
/// The sizes are taken as `u32` (their low 32 bits), and their product times
/// four must fit a `u32`.
pub fn encode_screenshot(width: usize, height: usize, pixels: &Vec<Pixel>) -> (r: Result<
    Vec<u8>,
    String,
>)
    requires
        (width as u32) as int * (height as u32) as int * 4 <= u32::MAX,
    ensures
        r is Ok <==> (width as u32 > 0 && height as u32 > 0 && pixels@.len() == (width as u32)
            as int * (height as u32) as int),
        r matches Ok(bytes) ==> bytes@ == png_rgba8(
            width as u32,
            height as u32,
            rgba_spec(pixels@),
        ),
        r matches Err(msg) ==> msg@ == png_refusal(
            width as u32,
            height as u32,
            4 * pixels@.len(),
        ),
{
    #[verifier::truncate]
    let w = width as u32;
    #[verifier::truncate]
    let h = height as u32;
    let data = rgba_bytes(pixels);
    proof {
        lemma_rgba_len(pixels@);
    }
    encode_rgba8(w, h, data.as_slice())
}

} // verus!
