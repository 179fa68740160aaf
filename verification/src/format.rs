//! Content-based format classification: a byte stream is inspected for the
//! magic signatures of the closed set of accepted image and video formats,
//! never trusting a filename or declared type.

use vstd::prelude::*;

verus! {

/// The closed set of formats the caddy accepts.
#[derive(Debug, Clone, Copy, PartialEq, Eq, Structural)]
pub enum Format {
    /// JPEG still image.
    Jpeg,
    /// PNG still image.
    Png,
    /// GIF still or animated image.
    Gif,
    /// WebP still or animated image.
    Webp,
    /// WebM video container.
    Webm,
    /// Matroska video container.
    Mkv,
    /// MPEG-4 part 14 container.
    Mp4,
    /// QuickTime container.
    Mov,
}

/// Why a stream was not accepted.
#[derive(Debug, Clone, PartialEq, Eq)]
pub enum FormatError {
    /// The stream's format was determined but is not in the accepted set;
    /// carries the detected format's name.
    Rejected(Vec<u8>),
}

/// A format is an image format (as opposed to a video container).
pub open spec fn is_image_format(f: Format) -> bool {
    f == Format::Jpeg || f == Format::Png || f == Format::Gif || f == Format::Webp
}

/// JPEG: starts with the bytes `FF D8 FF`.
pub open spec fn is_jpeg(b: Seq<u8>) -> bool {
    b.len() >= 3 && b[0] == 0xFF && b[1] == 0xD8 && b[2] == 0xFF
}

/// PNG: starts with the eight-byte PNG signature.
pub open spec fn is_png(b: Seq<u8>) -> bool {
    b.len() >= 8 && b[0] == 0x89 && b[1] == 0x50 && b[2] == 0x4E && b[3] == 0x47 && b[4] == 0x0D
        && b[5] == 0x0A && b[6] == 0x1A && b[7] == 0x0A
}

/// GIF: starts with `GIF87a` or `GIF89a`.
pub open spec fn is_gif(b: Seq<u8>) -> bool {
    b.len() >= 6 && b[0] == 0x47 && b[1] == 0x49 && b[2] == 0x46 && b[3] == 0x38 && (b[4] == 0x37
        || b[4] == 0x39) && b[5] == 0x61
}

/// WebP: a RIFF container whose four-character code is `WEBP`.
pub open spec fn is_webp(b: Seq<u8>) -> bool {
    b.len() >= 12 && b[0] == 0x52 && b[1] == 0x49 && b[2] == 0x46 && b[3] == 0x46 && b[8] == 0x57
        && b[9] == 0x45 && b[10] == 0x42 && b[11] == 0x50
}

/// EBML: the four-byte magic shared by WebM and Matroska.
pub open spec fn is_ebml(b: Seq<u8>) -> bool {
    b.len() >= 4 && b[0] == 0x1A && b[1] == 0x45 && b[2] == 0xDF && b[3] == 0xA3
}

/// How far into the stream the document-type scan looks; the sniffer this
/// library defers to for rejections reads its header under a bounded
/// budget too.
pub const DOCTYPE_WINDOW: usize = 4096;

/// The window the document-type element must fall in.
pub open spec fn doctype_window(b: Seq<u8>) -> int {
    if b.len() < DOCTYPE_WINDOW {
        b.len() as int
    } else {
        DOCTYPE_WINDOW as int
    }
}

/// A DocType element declaring `pat` at offset `p`: the element identifier
/// `42 82`, a one-byte size with its high bit set and at least the length
/// of `pat`, then the document type itself — after the magic, wholly
/// inside the scan window. A bare occurrence of the document-type text,
/// without the element header in front, declares nothing.
pub open spec fn doctype_at(b: Seq<u8>, pat: Seq<u8>, p: int) -> bool {
    &&& 4 <= p
    &&& p + 3 + pat.len() <= doctype_window(b)
    &&& b[p] == 0x42
    &&& b[p + 1] == 0x82
    &&& b[p + 2] >= 0x80
    &&& b[p + 2] - 0x80 >= pat.len()
    &&& forall|i: int| 0 <= i < pat.len() ==> b[p + 3 + i] == pat[i]
}

/// Some DocType element in the scan window declares `pat`.
pub open spec fn has_doctype(b: Seq<u8>, pat: Seq<u8>) -> bool {
    exists|p: int| doctype_at(b, pat, p)
}

/// The EBML document type `webm`, as bytes.
pub open spec fn webm_doctype() -> Seq<u8> {
    seq![0x77, 0x65, 0x62, 0x6D]
}

/// The EBML document type `matroska`, as bytes.
pub open spec fn matroska_doctype() -> Seq<u8> {
    seq![0x6D, 0x61, 0x74, 0x72, 0x6F, 0x73, 0x6B, 0x61]
}

/// WebM: the EBML magic with a `webm` document type in the scan window.
pub open spec fn is_webm(b: Seq<u8>) -> bool {
    is_ebml(b) && has_doctype(b, webm_doctype())
}

/// Matroska: the EBML magic with a `matroska` document type in the scan
/// window and no `webm` one.
pub open spec fn is_mkv(b: Seq<u8>) -> bool {
    is_ebml(b) && !has_doctype(b, webm_doctype()) && has_doctype(b, matroska_doctype())
}

/// An `ftyp` box right after the leading size.
pub open spec fn has_ftyp(b: Seq<u8>) -> bool {
    b.len() >= 12 && b[4] == 0x66 && b[5] == 0x74 && b[6] == 0x79 && b[7] == 0x70
}

/// The major brand at offset eight is exactly these four bytes.
pub open spec fn brand_is(b: Seq<u8>, c0: u8, c1: u8, c2: u8, c3: u8) -> bool {
    b.len() >= 12 && b[8] == c0 && b[9] == c1 && b[10] == c2 && b[11] == c3
}

/// The box type right after the leading size is exactly these four bytes.
pub open spec fn box_is(b: Seq<u8>, c0: u8, c1: u8, c2: u8, c3: u8) -> bool {
    b.len() >= 8 && b[4] == c0 && b[5] == c1 && b[6] == c2 && b[7] == c3
}

/// QuickTime: an `ftyp` box whose major brand starts with `qt`, or one of
/// the bare QuickTime boxes — `free`, `mdat`, `moov`, `skip`, `wide` —
/// right after the leading size, in a stream without the EBML magic.
pub open spec fn is_mov(b: Seq<u8>) -> bool {
    !is_ebml(b) && ((b.len() >= 10 && b[4] == 0x66 && b[5] == 0x74 && b[6] == 0x79 && b[7] == 0x70
        && b[8] == 0x71 && b[9] == 0x74) || box_is(b, 0x66, 0x72, 0x65, 0x65) || box_is(
        b,
        0x6D,
        0x64,
        0x61,
        0x74,
    ) || box_is(b, 0x6D, 0x6F, 0x6F, 0x76) || box_is(b, 0x73, 0x6B, 0x69, 0x70) || box_is(
        b,
        0x77,
        0x69,
        0x64,
        0x65,
    ))
}

/// The `ftyp` major brands that mean MPEG-4 part 14, exactly the brands
/// the sniffer's signature table maps there; any other brand — HEIC, AVIF,
/// 3GPP, JPEG 2000 and the rest — is not in the accepted set and falls
/// through to the rejection path.
pub open spec fn is_mp4_brand(b: Seq<u8>) -> bool {
    ||| brand_is(b, 0x41, 0x52, 0x52, 0x49)  // ARRI
    ||| brand_is(b, 0x46, 0x41, 0x43, 0x45)  // FACE
    ||| brand_is(b, 0x4D, 0x53, 0x4E, 0x56)  // MSNV
    ||| brand_is(b, 0x4E, 0x44, 0x41, 0x53)  // NDAS
    ||| brand_is(b, 0x4E, 0x44, 0x53, 0x43)  // NDSC
    ||| brand_is(b, 0x4E, 0x44, 0x53, 0x48)  // NDSH
    ||| brand_is(b, 0x4E, 0x44, 0x53, 0x4D)  // NDSM
    ||| brand_is(b, 0x4E, 0x44, 0x53, 0x50)  // NDSP
    ||| brand_is(b, 0x4E, 0x44, 0x53, 0x53)  // NDSS
    ||| brand_is(b, 0x4E, 0x44, 0x58, 0x43)  // NDXC
    ||| brand_is(b, 0x4E, 0x44, 0x58, 0x48)  // NDXH
    ||| brand_is(b, 0x4E, 0x44, 0x58, 0x4D)  // NDXM
    ||| brand_is(b, 0x4E, 0x44, 0x58, 0x50)  // NDXP
    ||| brand_is(b, 0x4E, 0x44, 0x58, 0x53)  // NDXS
    ||| brand_is(b, 0x58, 0x41, 0x56, 0x43)  // XAVC
    ||| brand_is(b, 0x61, 0x76, 0x63, 0x31)  // avc1
    ||| brand_is(b, 0x64, 0x61, 0x73, 0x68)  // dash
    ||| brand_is(b, 0x69, 0x73, 0x6F, 0x32)  // iso2
    ||| brand_is(b, 0x69, 0x73, 0x6F, 0x33)  // iso3
    ||| brand_is(b, 0x69, 0x73, 0x6F, 0x34)  // iso4
    ||| brand_is(b, 0x69, 0x73, 0x6F, 0x35)  // iso5
    ||| brand_is(b, 0x69, 0x73, 0x6F, 0x36)  // iso6
    ||| brand_is(b, 0x69, 0x73, 0x6F, 0x6D)  // isom
    ||| brand_is(b, 0x6D, 0x6D, 0x70, 0x34)  // mmp4
    ||| brand_is(b, 0x6D, 0x6F, 0x62, 0x69)  // mobi
    ||| brand_is(b, 0x6D, 0x70, 0x32, 0x31)  // mp21
    ||| brand_is(b, 0x6D, 0x70, 0x34, 0x31)  // mp41
    ||| brand_is(b, 0x6D, 0x70, 0x34, 0x32)  // mp42
    ||| brand_is(b, 0x6D, 0x70, 0x34, 0x76)  // mp4v
    ||| brand_is(b, 0x6D, 0x70, 0x37, 0x31)  // mp71
    ||| brand_is(b, 0x6E, 0x76, 0x72, 0x31)  // nvr1
}

/// MP4: an `ftyp` box carrying one of the MPEG-4 brands, in a stream
/// without the EBML magic.
pub open spec fn is_mp4(b: Seq<u8>) -> bool {
    !is_ebml(b) && has_ftyp(b) && is_mp4_brand(b)
}

/// What a byte stream classifies as, if anything: the accepted signatures
/// are tried in this fixed order, and the first that matches decides.
pub open spec fn classify(b: Seq<u8>) -> Option<Format> {
    if is_jpeg(b) {
        Some(Format::Jpeg)
    } else if is_png(b) {
        Some(Format::Png)
    } else if is_gif(b) {
        Some(Format::Gif)
    } else if is_webp(b) {
        Some(Format::Webp)
    } else if is_webm(b) {
        Some(Format::Webm)
    } else if is_mkv(b) {
        Some(Format::Mkv)
    } else if is_mov(b) {
        Some(Format::Mov)
    } else if is_mp4(b) {
        Some(Format::Mp4)
    } else {
        None
    }
}

/// The name of whatever format a sniffer determines a byte stream to be:
/// a function of the bytes alone.
pub uninterp spec fn sniffed_name(b: Seq<u8>) -> Seq<u8>;

/// Relies on `file_format::FileFormat::from_bytes` and `FileFormat::name`:
/// the detected format, and hence its name, depends on the bytes alone.
#[verifier::external_body]
fn sniff_format_name(data: &Vec<u8>) -> (r: Vec<u8>)
    ensures
        r@ == sniffed_name(data@),
{
    file_format::FileFormat::from_bytes(data).name().as_bytes().to_vec()
}

/// Whether a DocType element declaring the token sits at exactly this
/// offset.
fn doctype_match_at(b: &Vec<u8>, pat: &Vec<u8>, p: usize) -> (r: bool)
    requires
        4 <= p,
        p + 3 + pat@.len() <= doctype_window(b@),
        doctype_window(b@) <= b@.len(),
    ensures
        r == doctype_at(b@, pat@, p as int),
{
    if b[p] != 0x42 || b[p + 1] != 0x82 {
        return false;
    }
    let size = b[p + 2];
    if size < 0x80 {
        return false;
    }
    if ((size - 0x80) as usize) < pat.len() {
        return false;
    }
    let mut i: usize = 0;
    while i < pat.len()
        invariant
            0 <= i <= pat@.len(),
            4 <= p,
            p + 3 + pat@.len() <= doctype_window(b@) <= b@.len(),
            b@[p as int] == 0x42,
            b@[p + 1] == 0x82,
            b@[p + 2] >= 0x80,
            b@[p + 2] - 0x80 >= pat@.len(),
            forall|j: int| 0 <= j < i ==> b@[p + 3 + j] == pat@[j],
        decreases pat@.len() - i,
    {
        if b[p + 3 + i] != pat[i] {
            proof {
                assert(b@[p + 3 + i] != pat@[i as int]);
            }
            return false;
        }
        i += 1;
    }
    true
}

/// Scans the window for a DocType element declaring the token.
fn find_doctype(b: &Vec<u8>, pat: &Vec<u8>) -> (r: bool)
    requires
        pat@.len() >= 1,
    ensures
        r == has_doctype(b@, pat@),
{
    let window: usize = if b.len() < DOCTYPE_WINDOW {
        b.len()
    } else {
        DOCTYPE_WINDOW
    };
    assert(window == doctype_window(b@));
    if window < 7 || window - 7 < pat.len() {
        proof {
            assert forall|p: int| !doctype_at(b@, pat@, p) by {
                if doctype_at(b@, pat@, p) {
                    assert(4 + 3 + pat@.len() <= doctype_window(b@));
                }
            }
        }
        return false;
    }
    let last_start: usize = window - 3 - pat.len();
    let mut p: usize = 4;
    while p <= last_start
        invariant
            4 <= p <= last_start + 1,
            last_start == doctype_window(b@) - 3 - pat@.len(),
            pat@.len() >= 1,
            b@.len() >= doctype_window(b@),
            forall|q: int| q < p ==> !doctype_at(b@, pat@, q),
        decreases last_start + 1 - p,
    {
        if doctype_match_at(b, pat, p) {
            return true;
        }
        p += 1;
    }
    proof {
        assert forall|q: int| !doctype_at(b@, pat@, q) by {
            if doctype_at(b@, pat@, q) {
                assert(4 <= q <= last_start);
            }
        }
    }
    false
}

/// Builds the `webm` document-type token.
fn webm_token() -> (r: Vec<u8>)
    ensures
        r@ == webm_doctype(),
{
    let mut r: Vec<u8> = Vec::new();
    r.push(0x77);
    r.push(0x65);
    r.push(0x62);
    r.push(0x6D);
    proof {
        assert(r@ =~= webm_doctype());
    }
    r
}

/// Builds the `matroska` document-type token.
fn matroska_token() -> (r: Vec<u8>)
    ensures
        r@ == matroska_doctype(),
{
    let mut r: Vec<u8> = Vec::new();
    r.push(0x6D);
    r.push(0x61);
    r.push(0x74);
    r.push(0x72);
    r.push(0x6F);
    r.push(0x73);
    r.push(0x6B);
    r.push(0x61);
    proof {
        assert(r@ =~= matroska_doctype());
    }
    r
}

/// Classifies a byte stream by its content alone. Returns the detected
/// format when it is in the accepted set, and otherwise a rejection naming
/// what the stream actually is.
pub fn check_format(data: &Vec<u8>) -> (r: Result<Format, FormatError>)
    ensures
        classify(data@) matches Some(f) ==> r == Ok::<Format, FormatError>(f),
        classify(data@) is None ==> (r matches Err(FormatError::Rejected(n)) && n@ == sniffed_name(
            data@,
        )),
{
    let n = data.len();
    if n >= 3 && data[0] == 0xFF && data[1] == 0xD8 && data[2] == 0xFF {
        return Ok(Format::Jpeg);
    }
    if n >= 8 && data[0] == 0x89 && data[1] == 0x50 && data[2] == 0x4E && data[3] == 0x47
        && data[4] == 0x0D && data[5] == 0x0A && data[6] == 0x1A && data[7] == 0x0A {
        return Ok(Format::Png);
    }
    if n >= 6 && data[0] == 0x47 && data[1] == 0x49 && data[2] == 0x46 && data[3] == 0x38 && (
    data[4] == 0x37 || data[4] == 0x39) && data[5] == 0x61 {
        return Ok(Format::Gif);
    }
    if n >= 12 && data[0] == 0x52 && data[1] == 0x49 && data[2] == 0x46 && data[3] == 0x46
        && data[8] == 0x57 && data[9] == 0x45 && data[10] == 0x42 && data[11] == 0x50 {
        return Ok(Format::Webp);
    }
    if n >= 4 && data[0] == 0x1A && data[1] == 0x45 && data[2] == 0xDF && data[3] == 0xA3 {
        let webm = webm_token();
        if find_doctype(data, &webm) {
            return Ok(Format::Webm);
        }
        let matroska = matroska_token();
        if find_doctype(data, &matroska) {
            return Ok(Format::Mkv);
        }
        return Err(FormatError::Rejected(sniff_format_name(data)));
    }
    if n >= 10 && data[4] == 0x66 && data[5] == 0x74 && data[6] == 0x79 && data[7] == 0x70
        && data[8] == 0x71 && data[9] == 0x74 {
        return Ok(Format::Mov);
    }
    if n >= 8 && (check_box(data, 0x66, 0x72, 0x65, 0x65) || check_box(data, 0x6D, 0x64, 0x61, 0x74)
        || check_box(data, 0x6D, 0x6F, 0x6F, 0x76) || check_box(data, 0x73, 0x6B, 0x69, 0x70)
        || check_box(data, 0x77, 0x69, 0x64, 0x65)) {
        return Ok(Format::Mov);
    }
    if n >= 12 && data[4] == 0x66 && data[5] == 0x74 && data[6] == 0x79 && data[7] == 0x70 {
        let mp4_brand = check_brand(data, 0x41, 0x52, 0x52, 0x49) || check_brand(
            data,
            0x46,
            0x41,
            0x43,
            0x45,
        ) || check_brand(data, 0x4D, 0x53, 0x4E, 0x56) || check_brand(data, 0x4E, 0x44, 0x41, 0x53)
            || check_brand(data, 0x4E, 0x44, 0x53, 0x43) || check_brand(data, 0x4E, 0x44, 0x53, 0x48)
            || check_brand(data, 0x4E, 0x44, 0x53, 0x4D) || check_brand(data, 0x4E, 0x44, 0x53, 0x50)
            || check_brand(data, 0x4E, 0x44, 0x53, 0x53) || check_brand(data, 0x4E, 0x44, 0x58, 0x43)
            || check_brand(data, 0x4E, 0x44, 0x58, 0x48) || check_brand(data, 0x4E, 0x44, 0x58, 0x4D)
            || check_brand(data, 0x4E, 0x44, 0x58, 0x50) || check_brand(data, 0x4E, 0x44, 0x58, 0x53)
            || check_brand(data, 0x58, 0x41, 0x56, 0x43) || check_brand(data, 0x61, 0x76, 0x63, 0x31)
            || check_brand(data, 0x64, 0x61, 0x73, 0x68) || check_brand(data, 0x69, 0x73, 0x6F, 0x32)
            || check_brand(data, 0x69, 0x73, 0x6F, 0x33) || check_brand(data, 0x69, 0x73, 0x6F, 0x34)
            || check_brand(data, 0x69, 0x73, 0x6F, 0x35) || check_brand(data, 0x69, 0x73, 0x6F, 0x36)
            || check_brand(data, 0x69, 0x73, 0x6F, 0x6D) || check_brand(data, 0x6D, 0x6D, 0x70, 0x34)
            || check_brand(data, 0x6D, 0x6F, 0x62, 0x69) || check_brand(data, 0x6D, 0x70, 0x32, 0x31)
            || check_brand(data, 0x6D, 0x70, 0x34, 0x31) || check_brand(data, 0x6D, 0x70, 0x34, 0x32)
            || check_brand(data, 0x6D, 0x70, 0x34, 0x76) || check_brand(data, 0x6D, 0x70, 0x37, 0x31)
            || check_brand(data, 0x6E, 0x76, 0x72, 0x31);
        if mp4_brand {
            return Ok(Format::Mp4);
        }
    }
    Err(FormatError::Rejected(sniff_format_name(data)))
}

/// Whether the major brand at offset eight is exactly these four bytes.
fn check_brand(data: &Vec<u8>, c0: u8, c1: u8, c2: u8, c3: u8) -> (r: bool)
    requires
        data@.len() >= 12,
    ensures
        r == brand_is(data@, c0, c1, c2, c3),
{
    data[8] == c0 && data[9] == c1 && data[10] == c2 && data[11] == c3
}

/// Whether the box type right after the leading size is exactly these four
/// bytes.
fn check_box(data: &Vec<u8>, c0: u8, c1: u8, c2: u8, c3: u8) -> (r: bool)
    requires
        data@.len() >= 8,
    ensures
        r == box_is(data@, c0, c1, c2, c3),
{
    data[4] == c0 && data[5] == c1 && data[6] == c2 && data[7] == c3
}

} // verus!
