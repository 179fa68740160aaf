//! Content-based classification and the image re-encoding path.

use mgp::convert::{convert_to_webp, ConvertError};
use mgp::format::{check_format, Format, FormatError};

fn png_signature() -> Vec<u8> {
    vec![0x89, 0x50, 0x4E, 0x47, 0x0D, 0x0A, 0x1A, 0x0A]
}

#[test]
fn png_signature_classifies_as_png() {
    let mut data = png_signature();
    data.extend_from_slice(&[0; 32]);
    assert_eq!(check_format(&data), Ok(Format::Png));
}

#[test]
fn truncated_signature_is_rejected_not_a_crash() {
    let data = vec![0x89, 0x50, 0x4E];
    let r = check_format(&data);
    assert!(matches!(r, Err(FormatError::Rejected(_))));
}

#[test]
fn jpeg_content_wins_over_any_claimed_extension() {
    // The classifier sees bytes only, so a file named `movie.mp4` holding
    // JPEG content still classifies as JPEG.
    let data = vec![0xFF, 0xD8, 0xFF, 0xE0, 0x00, 0x10, 0x4A, 0x46, 0x49, 0x46];
    assert_eq!(check_format(&data), Ok(Format::Jpeg));
}

#[test]
fn gif_and_webp_signatures_classify() {
    let mut gif = b"GIF89a".to_vec();
    gif.extend_from_slice(&[0; 16]);
    assert_eq!(check_format(&gif), Ok(Format::Gif));
    let mut gif87 = b"GIF87a".to_vec();
    gif87.extend_from_slice(&[0; 16]);
    assert_eq!(check_format(&gif87), Ok(Format::Gif));
    let mut webp = b"RIFF".to_vec();
    webp.extend_from_slice(&[0x20, 0, 0, 0]);
    webp.extend_from_slice(b"WEBP");
    webp.extend_from_slice(&[0; 16]);
    assert_eq!(check_format(&webp), Ok(Format::Webp));
}

#[test]
fn ebml_doctype_distinguishes_webm_from_matroska() {
    let mut webm = vec![0x1A, 0x45, 0xDF, 0xA3, 0x9F, 0x42, 0x86, 0x81, 0x01];
    webm.extend_from_slice(&[0x42, 0x82, 0x84]);
    webm.extend_from_slice(b"webm");
    assert_eq!(check_format(&webm), Ok(Format::Webm));

    let mut mkv = vec![0x1A, 0x45, 0xDF, 0xA3, 0x9F, 0x42, 0x86, 0x81, 0x01];
    mkv.extend_from_slice(&[0x42, 0x82, 0x88]);
    mkv.extend_from_slice(b"matroska");
    assert_eq!(check_format(&mkv), Ok(Format::Mkv));

    let bare = vec![0x1A, 0x45, 0xDF, 0xA3, 0x9F, 0x42, 0x86, 0x81, 0x01];
    assert!(matches!(check_format(&bare), Err(FormatError::Rejected(_))));
}

#[test]
fn ftyp_brand_distinguishes_mp4_from_quicktime() {
    let mut mp4 = vec![0, 0, 0, 24];
    mp4.extend_from_slice(b"ftypisom");
    mp4.extend_from_slice(&[0; 8]);
    assert_eq!(check_format(&mp4), Ok(Format::Mp4));

    let mut mov = vec![0, 0, 0, 20];
    mov.extend_from_slice(b"ftypqt  ");
    mov.extend_from_slice(&[0; 8]);
    assert_eq!(check_format(&mov), Ok(Format::Mov));
}

#[test]
fn bare_doctype_text_without_its_element_is_not_a_container() {
    // The document-type text alone, with no DocType element header in
    // front of it, declares nothing.
    let mut data = vec![0x1A, 0x45, 0xDF, 0xA3];
    data.extend_from_slice(b"webm");
    assert!(matches!(check_format(&data), Err(FormatError::Rejected(_))));
}

#[test]
fn doctype_deep_in_a_padded_header_still_classifies() {
    let mut data = vec![0x1A, 0x45, 0xDF, 0xA3];
    data.extend_from_slice(&[0x00; 200]);
    data.extend_from_slice(&[0x42, 0x82, 0x84]);
    data.extend_from_slice(b"webm");
    assert_eq!(check_format(&data), Ok(Format::Webm));
}

#[test]
fn quicktime_boxes_classify_without_an_ftyp() {
    let mut mov = vec![0, 0, 0, 8];
    mov.extend_from_slice(b"moov");
    mov.extend_from_slice(&[0; 8]);
    assert_eq!(check_format(&mov), Ok(Format::Mov));
    let mut wide = vec![0, 0, 0, 8];
    wide.extend_from_slice(b"wide");
    assert_eq!(check_format(&wide), Ok(Format::Mov));
}

#[test]
fn unlisted_ftyp_brands_are_rejected_with_their_name() {
    // HEIC is an ISO-BMFF container, but not an accepted format: the
    // rejection carries what the sniffer actually found.
    let mut heic = vec![0, 0, 0, 24];
    heic.extend_from_slice(b"ftypheic");
    heic.extend_from_slice(&[0; 8]);
    match check_format(&heic) {
        Err(FormatError::Rejected(name)) => {
            let expected = file_format::FileFormat::from_bytes(&heic).name().as_bytes().to_vec();
            assert_eq!(name, expected);
        }
        other => panic!("expected a rejection, got {other:?}"),
    }
    let mut m4a = vec![0, 0, 0, 24];
    m4a.extend_from_slice(b"ftypM4A ");
    m4a.extend_from_slice(&[0; 8]);
    assert!(matches!(check_format(&m4a), Err(FormatError::Rejected(_))));
}

#[test]
fn rejection_names_what_was_found() {
    let mut pdf = b"%PDF-1.4\n".to_vec();
    pdf.extend_from_slice(&[0; 16]);
    match check_format(&pdf) {
        Err(FormatError::Rejected(name)) => {
            let expected = file_format::FileFormat::from_bytes(&pdf).name().as_bytes().to_vec();
            assert_eq!(name, expected);
            assert_eq!(name, b"Portable Document Format".to_vec());
        }
        other => panic!("expected a rejection, got {other:?}"),
    }
}

#[test]
fn unknown_bytes_reject_with_the_fallback_name() {
    let data = vec![0x00, 0x01, 0x02, 0x03];
    match check_format(&data) {
        Err(FormatError::Rejected(name)) => {
            assert_eq!(name, b"Arbitrary Binary Data".to_vec());
        }
        other => panic!("expected a rejection, got {other:?}"),
    }
}

fn tiny_png() -> Vec<u8> {
    let img = image::RgbaImage::from_pixel(2, 2, image::Rgba([10, 200, 30, 255]));
    let mut out = std::io::Cursor::new(Vec::new());
    image::DynamicImage::ImageRgba8(img)
        .write_to(&mut out, image::ImageFormat::Png)
        .unwrap();
    out.into_inner()
}

#[test]
fn accepted_image_re_encodes_as_webp() {
    let png = tiny_png();
    assert_eq!(check_format(&png), Ok(Format::Png));
    let webp = convert_to_webp(&png).unwrap();
    assert_eq!(&webp[0..4], b"RIFF");
    assert_eq!(&webp[8..12], b"WEBP");
    assert_eq!(check_format(&webp), Ok(Format::Webp));
}

#[test]
fn video_container_is_not_re_encoded() {
    let mut webm = vec![0x1A, 0x45, 0xDF, 0xA3, 0x9F, 0x42, 0x86, 0x81, 0x01];
    webm.extend_from_slice(&[0x42, 0x82, 0x84]);
    webm.extend_from_slice(b"webm");
    let r = convert_to_webp(&webm);
    assert_eq!(r, Err(ConvertError::NotImage(Format::Webm)));
}

#[test]
fn unaccepted_stream_is_not_re_encoded() {
    let mut pdf = b"%PDF-1.4\n".to_vec();
    pdf.extend_from_slice(&[0; 16]);
    let r = convert_to_webp(&pdf);
    assert!(matches!(r, Err(ConvertError::NotAccepted(n)) if n == b"Portable Document Format".to_vec()));
}

#[test]
fn smallest_image_re_encodes() {
    let img = image::RgbaImage::from_pixel(1, 1, image::Rgba([0, 0, 0, 255]));
    let mut out = std::io::Cursor::new(Vec::new());
    image::DynamicImage::ImageRgba8(img)
        .write_to(&mut out, image::ImageFormat::Png)
        .unwrap();
    let webp = convert_to_webp(&out.into_inner()).unwrap();
    assert_eq!(check_format(&webp), Ok(Format::Webp));
}

#[test]
fn oversized_image_is_rejected_with_its_dimensions() {
    let img = image::RgbaImage::from_pixel(16384, 1, image::Rgba([0, 0, 0, 255]));
    let mut out = std::io::Cursor::new(Vec::new());
    image::DynamicImage::ImageRgba8(img)
        .write_to(&mut out, image::ImageFormat::Png)
        .unwrap();
    let r = convert_to_webp(&out.into_inner());
    assert_eq!(r, Err(ConvertError::TooLarge(16384, 1)));
}

#[test]
fn signature_with_corrupt_payload_is_a_decode_error() {
    let mut data = png_signature();
    data.extend_from_slice(b"this is not a real png body");
    let r = convert_to_webp(&data);
    assert!(matches!(r, Err(ConvertError::Decode(_))));
}
