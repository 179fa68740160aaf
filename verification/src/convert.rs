//! Image re-encoding: an accepted still or animated image is decoded and
//! re-encoded as lossy WebP at a fixed quality, so every stored image
//! shares one normalized codec.
//!
//! What the codecs compute is named rather than written out: the decoder's
//! verdict and its RGBA pixels, and the encoder's verdict and its WebP
//! stream, are functions of their arguments alone, so the re-encoder's
//! contract can say exactly which outcome each input has without imitating
//! either codec.

use vstd::prelude::*;

use crate::format::{
    check_format, classify, is_image_format, is_webp, sniffed_name, Format, FormatError,
};

verus! {

/// The fixed lossy quality every re-encoded image uses, on the encoder's
/// zero-to-hundred scale.
pub const WEBP_QUALITY: u8 = 80;

/// The widest and tallest image the WebP codec can hold, in pixels.
pub const WEBP_MAX_DIM: u32 = 16383;

/// Why a stream could not be re-encoded.
#[derive(Debug, Clone, PartialEq, Eq)]
pub enum ConvertError {
    /// The stream is not in the accepted set at all; carries the detected
    /// format's name.
    NotAccepted(Vec<u8>),
    /// The stream is an accepted format, but a video container, which this
    /// path does not re-encode.
    NotImage(Format),
    /// The stream carried an accepted image signature but its payload did
    /// not decode; carries the decoder's diagnostic.
    Decode(Vec<u8>),
    /// The decoded image's dimensions fall outside what the WebP codec can
    /// hold; carries the offending width and height.
    TooLarge(u32, u32),
    /// The decoded pixels could not be encoded; carries the encoder's
    /// diagnostic.
    Encode(Vec<u8>),
}

/// Whether the decoder accepts these bytes as this image format: a
/// function of the bytes and the format alone.
pub uninterp spec fn image_decodes(b: Seq<u8>, f: Format) -> bool;

/// What the decoder yields: the fully decoded pixels as contiguous RGBA8
/// bytes, with the image's width and height. A function of the bytes and
/// the format alone, meaningful where [`image_decodes`] holds.
pub uninterp spec fn decoded_rgba8(b: Seq<u8>, f: Format) -> (Seq<u8>, u32, u32);

/// Whether the WebP encoder succeeds on this RGBA8 buffer at this quality:
/// a function of its arguments alone.
pub uninterp spec fn webp_encodes(rgba: Seq<u8>, width: u32, height: u32, quality: u8) -> bool;

/// The WebP stream the encoder writes for this RGBA8 buffer at this
/// quality: a function of its arguments alone, meaningful where
/// [`webp_encodes`] holds.
pub uninterp spec fn webp_encoding(rgba: Seq<u8>, width: u32, height: u32, quality: u8) -> Seq<u8>;

/// Relies on `image::load_from_memory_with_format`,
/// `DynamicImage::to_rgba8` and `ImageBuffer::into_raw`: decoding and
/// pixel layout read only the bytes and the format, so the outcome is the
/// named verdict, and a success carries the named pixels — exactly width
/// by height, four bytes per pixel — while a failure carries the decoder's
/// diagnostic.
#[verifier::external_body]
fn decode_rgba8(data: &Vec<u8>, fmt: Format) -> (r: Result<(Vec<u8>, u32, u32), Vec<u8>>)
    requires
        is_image_format(fmt),
    ensures
        r is Ok <==> image_decodes(data@, fmt),
        r matches Ok(t) ==> ({
            let d = decoded_rgba8(data@, fmt);
            t.0@ == d.0 && t.1 == d.1 && t.2 == d.2 && t.0@.len() == t.1 as int * t.2 as int * 4
        }),
{
    let f = match fmt {
        Format::Jpeg => image::ImageFormat::Jpeg,
        Format::Png => image::ImageFormat::Png,
        Format::Gif => image::ImageFormat::Gif,
        _ => image::ImageFormat::WebP,
    };
    match image::load_from_memory_with_format(data, f) {
        Ok(img) => {
            let rgba = img.to_rgba8();
            let (w, h) = (rgba.width(), rgba.height());
            Ok((rgba.into_raw(), w, h))
        },
        Err(e) => Err(e.to_string().into_bytes()),
    }
}

/// Relies on `webp::Encoder::from_rgba` and `Encoder::encode_simple` (the
/// fallible call beneath the image crate's lossy WebP path): the outcome
/// reads only the buffer, the dimensions and the quality; the buffer of
/// matching size within the codec's dimension limit passes the picture
/// import; a codec failure on any input comes back as the error code
/// rather than a panic (only the codec's own version-mismatch init checks,
/// which no input reaches, can abort); and a success writes exactly the
/// named encoding, one complete WebP (RIFF) file.
#[verifier::external_body]
fn encode_webp_lossy(data: &Vec<u8>, width: u32, height: u32, quality: u8) -> (r: Result<
    Vec<u8>,
    Vec<u8>,
>)
    requires
        data@.len() == width as int * height as int * 4,
        1 <= width <= WEBP_MAX_DIM,
        1 <= height <= WEBP_MAX_DIM,
    ensures
        r is Ok <==> webp_encodes(data@, width, height, quality),
        r matches Ok(out) ==> out@ == webp_encoding(data@, width, height, quality) && is_webp(
            out@,
        ),
{
    let encoder = webp::Encoder::from_rgba(data, width, height);
    match encoder.encode_simple(false, quality.into()) {
        Ok(mem) => Ok(mem.to_vec()),
        Err(e) => Err(format!("{e:?}").into_bytes()),
    }
}

/// Re-encodes an accepted image as lossy WebP at the fixed quality,
/// feeding the fully decoded pixel buffer to the encoder as contiguous
/// RGBA8 with the decoded width and height. Every outcome is pinned: a
/// stream outside the accepted set is rejected with the detected format's
/// name; an accepted video container is rejected as such; a payload that
/// does not decode yields exactly a decode error; decoded dimensions
/// outside the codec's range are rejected carrying those dimensions; and
/// otherwise the result is the encoder's own verdict — on success exactly
/// its WebP stream for those pixels at the fixed quality.
///
/// An animated GIF is re-encoded from its first frame as a still WebP.
/// The codec beneath does offer an animation encoder, but only as a
/// builder session that borrows every frame across repeated calls, which
/// no single trusted call of this crate can carry; the animated variant
/// therefore remains out of reach here.
pub fn convert_to_webp(data: &Vec<u8>) -> (r: Result<Vec<u8>, ConvertError>)
    ensures
        classify(data@) is None ==> (r matches Err(ConvertError::NotAccepted(n)) && n@
            == sniffed_name(data@)),
        classify(data@) matches Some(f) ==> if !is_image_format(f) {
            r == Err::<Vec<u8>, ConvertError>(ConvertError::NotImage(f))
        } else if !image_decodes(data@, f) {
            r matches Err(ConvertError::Decode(_))
        } else {
            ({
                let d = decoded_rgba8(data@, f);
                if !(1 <= d.1 <= WEBP_MAX_DIM && 1 <= d.2 <= WEBP_MAX_DIM) {
                    r == Err::<Vec<u8>, ConvertError>(ConvertError::TooLarge(d.1, d.2))
                } else if webp_encodes(d.0, d.1, d.2, WEBP_QUALITY) {
                    r matches Ok(out) && out@ == webp_encoding(d.0, d.1, d.2, WEBP_QUALITY)
                        && is_webp(out@)
                } else {
                    r matches Err(ConvertError::Encode(_))
                }
            })
        },
{
    let fmt = match check_format(data) {
        Ok(f) => f,
        Err(FormatError::Rejected(name)) => {
            return Err(ConvertError::NotAccepted(name));
        },
    };
    let accepted_image = match fmt {
        Format::Jpeg => true,
        Format::Png => true,
        Format::Gif => true,
        Format::Webp => true,
        _ => false,
    };
    if !accepted_image {
        return Err(ConvertError::NotImage(fmt));
    }
    let (rgba, width, height) = match decode_rgba8(data, fmt) {
        Ok(t) => t,
        Err(msg) => {
            return Err(ConvertError::Decode(msg));
        },
    };
    if width < 1 || width > WEBP_MAX_DIM || height < 1 || height > WEBP_MAX_DIM {
        return Err(ConvertError::TooLarge(width, height));
    }
    match encode_webp_lossy(&rgba, width, height, WEBP_QUALITY) {
        Ok(out) => Ok(out),
        Err(msg) => Err(ConvertError::Encode(msg)),
    }
}

} // verus!
