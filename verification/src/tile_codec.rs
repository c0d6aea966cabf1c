//! QOI tile encoding and decoding through the `qoi` crate, over RGBA bytes.

use vstd::prelude::*;
use crate::bit_renderer::{Pixel, PixelBuffer, white};
use crate::error::Error;
use crate::pyramid_tile_generator::{PyramidTileGenerator, TileImage};
use crate::text::{chars_of, push_chars, string_from_chars};

verus! {

/// The bytes that `qoi::encode_to_vec` produces for the given raw pixel bytes
/// and dimensions.
pub uninterp spec fn qoi_encoding(data: Seq<u8>, width: u32, height: u32) -> Seq<u8>;

/// What `qoi::decode_to_vec` gives for the given bytes: the header's width and
/// height with the decoded pixel bytes, or the debug text of its error.
pub uninterp spec fn qoi_decoding(data: Seq<u8>) -> Result<(u32, u32, Seq<u8>), Seq<char>>;

/// The QOI magic `qoif` at the start of the bytes.
pub open spec fn starts_with_qoi_magic(v: Seq<u8>) -> bool {
    &&& v.len() >= 4
    &&& v[0] == 0x71u8
    &&& v[1] == 0x6fu8
    &&& v[2] == 0x69u8
    &&& v[3] == 0x66u8
}

/// The inputs `qoi::encode_to_vec` accepts: between one pixel and 400 million
/// pixels, with three or four bytes for each pixel.
pub open spec fn qoi_input_ok(len: int, width: u32, height: u32) -> bool {
    let n = width as int * height as int;
    &&& 1 <= n <= 400_000_000
    &&& (len == 3 * n || len == 4 * n)
}

/// Calls `qoi::encode_to_vec`. Its source accepts exactly the inputs of
/// `qoi_input_ok`, writes a 14-byte header that starts with the magic `qoif`
/// and an 8-byte end marker, and its documentation shows that decoding the
/// output gives back the dimensions and the input bytes. The text of an error
/// is its debug rendering, which is not described here.
#[verifier::external_body]
fn qoi_encode_to_vec(data: &[u8], width: u32, height: u32) -> (res: Result<Vec<u8>, String>)
    ensures
        res is Ok <==> qoi_input_ok(data@.len() as int, width, height),
        res matches Ok(v) ==> {
            &&& v@ == qoi_encoding(data@, width, height)
            &&& v@.len() >= 22
            &&& starts_with_qoi_magic(v@)
            &&& qoi_decoding(v@) == Ok::<(u32, u32, Seq<u8>), Seq<char>>((width, height, data@))
        },
{
    match qoi::encode_to_vec(data, width, height) {
        Ok(v) => Ok(v),
        Err(e) => Err(format!("{:?}", e)),
    }
}

/// Calls `qoi::decode_to_vec` and keeps the header's width and height with the
/// decoded bytes, or the debug text of the error. Its source refuses input
/// shorter than the 14-byte header, and a decoded image has between one and
/// 400 million pixels with three or four bytes each.
#[verifier::external_body]
fn qoi_decode_to_vec(data: &[u8]) -> (res: Result<(u32, u32, Vec<u8>), String>)
    ensures
        match res {
            Ok((w, h, v)) => qoi_decoding(data@) == Ok::<(u32, u32, Seq<u8>), Seq<char>>((w, h, v@)),
            Err(s) => qoi_decoding(data@) == Err::<(u32, u32, Seq<u8>), Seq<char>>(s@),
        },
        res matches Ok((w, h, v)) ==> qoi_input_ok(v@.len() as int, w, h),
        data@.len() < 14 ==> res is Err,
{
    match qoi::decode_to_vec(data) {
        Ok((header, v)) => Ok((header.width, header.height, v)),
        Err(e) => Err(format!("{:?}", e)),
    }
}

/// RGBA bytes of a pixel sequence: four bytes per pixel, alpha fully opaque.
pub open spec fn rgba_bytes(pixels: Seq<Pixel>) -> Seq<u8> {
    Seq::new((4 * pixels.len()) as nat, |i: int| {
        let p = pixels[i / 4];
        if i % 4 == 0 { p.r } else if i % 4 == 1 { p.g } else if i % 4 == 2 { p.b } else { 255u8 }
    })
}

/// Pixels read from RGBA bytes into `n` white pixels: pixel `i` takes the
/// colour of bytes `4i..4i+3` when the four bytes `4i..4i+4` are present.
pub open spec fn rgba_pixels(data: Seq<u8>, n: int) -> Seq<Pixel> {
    Seq::new(n as nat, |i: int|
        if 4 * i + 4 <= data.len() {
            Pixel { r: data[4 * i], g: data[4 * i + 1], b: data[4 * i + 2] }
        } else {
            white()
        })
}

/// The image a QOI tile decodes to, or the decoder's error text.
pub open spec fn qoi_image(data: Seq<u8>) -> Result<TileImage, Seq<char>> {
    match qoi_decoding(data) {
        Ok((w, h, bytes)) => Ok(
            TileImage { width: w as int, height: h as int, pixels: rgba_pixels(bytes, w as int * h as int) },
        ),
        Err(e) => Err(e),
    }
}

/// Reading back RGBA bytes gives the pixels they were made from.
pub proof fn lemma_rgba_round_trip(pixels: Seq<Pixel>)
    ensures
        rgba_pixels(rgba_bytes(pixels), pixels.len() as int) == pixels,
{
    let bytes = rgba_bytes(pixels);
    assert forall|i: int| 0 <= i < pixels.len() implies #[trigger] rgba_pixels(bytes, pixels.len() as int)[i]
        == pixels[i] by {
        assert((4 * i) / 4 == i && (4 * i + 1) / 4 == i && (4 * i + 2) / 4 == i);
        assert((4 * i) % 4 == 0 && (4 * i + 1) % 4 == 1 && (4 * i + 2) % 4 == 2);
    }
    assert(rgba_pixels(bytes, pixels.len() as int) =~= pixels);
}

/// The light-gray, fully opaque 256x256 RGBA image of an empty child tile.
pub open spec fn empty_tile_rgba() -> Seq<u8> {
    Seq::new(262144, |i: int| if i % 4 == 3 { 255u8 } else { 220u8 })
}

/// The prefix of a QOI encoding failure.
pub open spec fn qoi_encode_error_prefix() -> Seq<char> {
    "QOI encoding error: "@
}

/// The prefix of a QOI decoding failure.
pub open spec fn qoi_decode_error_prefix() -> Seq<char> {
    "Failed to decode QOI: "@
}

fn image_error(prefix: &str, detail: &str) -> (e: Error)
    ensures
        e matches Error::ImageError(msg) && msg@ == prefix@ + detail@,
{
    let mut out = chars_of(prefix);
    let d = chars_of(detail);
    push_chars(&mut out, d.as_slice());
    Error::ImageError(string_from_chars(out.as_slice()))
}

impl PyramidTileGenerator {
    /// Decodes a QOI tile: the decoded RGBA bytes fill a buffer of the
    /// header's dimensions, four bytes per pixel.
    pub fn decode_qoi(qoi_data: &[u8]) -> (res: Result<PixelBuffer, Error>)
        ensures
            match qoi_image(qoi_data@) {
                Ok(img) => res matches Ok(b) && b.wf() && b.image() == img,
                Err(e) => res matches Err(Error::ImageError(msg)) && msg@ == qoi_decode_error_prefix() + e,
            },
            res matches Ok(b) ==> 1 <= b.spec_width() as int * b.spec_height() as int <= 400_000_000,
    {
        let (width, height, decoded) = match qoi_decode_to_vec(qoi_data) {
            Ok(t) => t,
            Err(e) => return Err(image_error("Failed to decode QOI: ", e.as_str())),
        };
        let mut buffer = PixelBuffer::new(width, height);
        let total = buffer.data().len();
        let len: usize = decoded.len();
        let n_full = len / 4;
        let ghost target = rgba_pixels(decoded@, width as int * height as int);
        let mut pixel_idx: usize = 0;
        while pixel_idx < total && pixel_idx < n_full
            invariant
                len == decoded@.len(),
                n_full == len / 4,
                pixel_idx <= total,
                pixel_idx <= n_full,
                total == buffer.pixels().len(),
                total == width as int * height as int,
                buffer.wf(),
                buffer.spec_width() == width,
                buffer.spec_height() == height,
                target == rgba_pixels(decoded@, total as int),
                forall|i: int| 0 <= i < total ==> #[trigger] buffer.pixels()[i] ==
                    if i < pixel_idx { target[i] } else { white() },
            decreases total - pixel_idx,
        {
            assert(4 * pixel_idx + 4 <= len) by (nonlinear_arith)
                requires
                    pixel_idx < n_full,
                    n_full == len / 4,
            ;
            let base: usize = 4 * pixel_idx;
            let p = Pixel::new(decoded[base], decoded[base + 1], decoded[base + 2]);
            buffer.set_index(pixel_idx, p);
            pixel_idx = pixel_idx + 1;
        }
        proof {
            assert forall|i: int| 0 <= i < total implies #[trigger] buffer.pixels()[i] == target[i] by {
                if i >= pixel_idx && 4 * i + 4 <= len {
                    assert(i < n_full) by (nonlinear_arith)
                        requires
                            4 * i + 4 <= len,
                            n_full == len / 4,
                    ;
                }
            }
            assert(buffer.pixels() =~= target);
        }
        Ok(buffer)
    }

    /// Encodes a buffer as a QOI image of four channels (alpha fully opaque).
    /// The tile decodes back to the same image.
    pub fn encode_qoi(buffer: &PixelBuffer) -> (res: Result<Vec<u8>, Error>)
        requires
            buffer.wf(),
            buffer.spec_width() as int * buffer.spec_height() as int * 4 <= u32::MAX,
        ensures
            res is Ok <==> 1 <= buffer.spec_width() as int * buffer.spec_height() as int <= 400_000_000,
            res matches Ok(v) ==> v@ == qoi_encoding(rgba_bytes(buffer.pixels()), buffer.spec_width(),
                buffer.spec_height()) && qoi_image(v@) == Ok::<TileImage, Seq<char>>(buffer.image())
                && v@.len() >= 22 && starts_with_qoi_magic(v@),
            res matches Err(e) ==> e matches Error::ImageError(msg) && qoi_encode_error_prefix().is_prefix_of(
                msg@),
    {
        let width = buffer.width();
        let height = buffer.height();
        let rgba_size = (width * height * 4) as usize;
        let mut rgba_data: Vec<u8> = Vec::with_capacity(rgba_size);
        let pixels = buffer.data();
        let mut i: usize = 0;
        while i < pixels.len()
            invariant
                i <= pixels@.len(),
                pixels@ == buffer.pixels(),
                rgba_data@ =~= rgba_bytes(pixels@.subrange(0, i as int)),
            decreases pixels@.len() - i,
        {
            let p = pixels[i];
            rgba_data.push(p.r);
            rgba_data.push(p.g);
            rgba_data.push(p.b);
            rgba_data.push(255u8);
            i = i + 1;
            proof {
                let sub = pixels@.subrange(0, i as int);
                assert forall|k: int| 0 <= k < rgba_data@.len() implies rgba_data@[k] == rgba_bytes(sub)[k] by {
                    if k < 4 * (i - 1) {
                        assert(sub[k / 4] == pixels@.subrange(0, i - 1)[k / 4]);
                    }
                }
            }
        }
        assert(pixels@.subrange(0, pixels@.len() as int) =~= pixels@);
        proof {
            lemma_rgba_round_trip(buffer.pixels());
        }
        match qoi_encode_to_vec(rgba_data.as_slice(), width, height) {
            Ok(v) => Ok(v),
            Err(e) => {
                let err = image_error("QOI encoding error: ", e.as_str());
                proof {
                    let m = qoi_encode_error_prefix();
                    assert(err->ImageError_0@.subrange(0, m.len() as int) =~= m);
                }
                Err(err)
            },
        }
    }

    /// The QOI encoding of a light-gray 256x256 tile, used in place of a child
    /// tile that lies outside the dump.
    pub fn generate_empty_child_tile() -> (res: Result<Vec<u8>, Error>)
        ensures
            res matches Ok(v) && v@ == qoi_encoding(empty_tile_rgba(), 256, 256)
                && qoi_image(v@) == Ok::<TileImage, Seq<char>>(TileImage {
                    width: 256,
                    height: 256,
                    pixels: Seq::new(65536, |i: int| Pixel { r: 220, g: 220, b: 220 }),
                }) && v@.len() >= 22 && starts_with_qoi_magic(v@),
    {
        let mut rgba_data: Vec<u8> = Vec::with_capacity(262144);
        let mut i: usize = 0;
        while i < 262144
            invariant
                i <= 262144,
                rgba_data@.len() == i,
                forall|k: int| 0 <= k < i ==> #[trigger] rgba_data@[k] == empty_tile_rgba()[k],
            decreases 262144 - i,
        {
            if i % 4 == 3 {
                rgba_data.push(255u8);
            } else {
                rgba_data.push(220u8);
            }
            i = i + 1;
        }
        assert(rgba_data@ =~= empty_tile_rgba());
        let res = qoi_encode_to_vec(rgba_data.as_slice(), 256, 256);
        proof {
            let gray = Seq::new(65536, |i: int| Pixel { r: 220, g: 220, b: 220 });
            assert forall|k: int| 0 <= k < 65536 implies #[trigger] rgba_pixels(empty_tile_rgba(), 65536)[k]
                == gray[k] by {
                assert((4 * k) % 4 == 0 && (4 * k + 1) % 4 == 1 && (4 * k + 2) % 4 == 2);
            }
            assert(rgba_pixels(empty_tile_rgba(), 65536) =~= gray);
        }
        match res {
            Ok(v) => Ok(v),
            Err(e) => Err(image_error("QOI encoding error: ", e.as_str())),
        }
    }
}

} // verus!
