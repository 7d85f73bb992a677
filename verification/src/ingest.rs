//! Image ingestion: a dropped file's name decides whether its bytes enter
//! the pipeline at all; the pipeline decodes, resizes to a thumbnail,
//! re-encodes in the sniffed format and wraps the result in a data URI.

use vstd::prelude::*;
use vstd::string::{StrSliceExecFns, StringExecFns};

verus! {

/// Neither thumbnail dimension may exceed this bound.
pub const THUMB_SIZE: u32 = 250;

/// The image formats the pipeline tells apart; anything else is carried
/// with the bare `image` MIME type.
#[derive(Clone, Copy, PartialEq, Eq, Structural, Debug)]
pub enum ImageKind {
    Png,
    Gif,
    Other,
}

/// The PNG signature: the eight magic bytes every PNG file starts with.
pub open spec fn png_sig(b: Seq<u8>) -> bool {
    b.len() >= 8 && b[0] == 0x89u8 && b[1] == 0x50u8 && b[2] == 0x4eu8 && b[3] == 0x47u8 && b[4]
        == 0x0du8 && b[5] == 0x0au8 && b[6] == 0x1au8 && b[7] == 0x0au8
}

/// The GIF signature: `GIF89a` or `GIF87a`.
pub open spec fn gif_sig(b: Seq<u8>) -> bool {
    b.len() >= 6 && b[0] == 0x47u8 && b[1] == 0x49u8 && b[2] == 0x46u8 && b[3] == 0x38u8 && (b[4]
        == 0x39u8 || b[4] == 0x37u8) && b[5] == 0x61u8
}

/// The kind a byte buffer announces through its magic bytes.
pub open spec fn kind_of(b: Seq<u8>) -> ImageKind {
    if png_sig(b) {
        ImageKind::Png
    } else if gif_sig(b) {
        ImageKind::Gif
    } else {
        ImageKind::Other
    }
}

/// The data-URI prefix for each kind, MIME type included.
pub open spec fn mime_prefix(k: ImageKind) -> Seq<char> {
    match k {
        ImageKind::Png => "data:image/png;base64,"@,
        ImageKind::Gif => "data:image/gif;base64,"@,
        ImageKind::Other => "data:image;base64,"@,
    }
}

/// A name the pipeline accepts: it ends in `.png` or `.gif`, case blind.
pub open spec fn supported_name(s: Seq<char>) -> bool {
    s.len() >= 4 && {
        let a = s[s.len() - 4];
        let b = s[s.len() - 3];
        let c = s[s.len() - 2];
        let d = s[s.len() - 1];
        (a == '.' && (b == 'p' || b == 'P') && (c == 'n' || c == 'N') && (d == 'g' || d == 'G')) || (
        a == '.' && (b == 'g' || b == 'G') && (c == 'i' || c == 'I') && (d == 'f' || d == 'F'))
    }
}

/// What base64::encode returns for a byte buffer; a function of the bytes
/// alone.
pub uninterp spec fn base64_of(bytes: Seq<u8>) -> Seq<char>;

/// Relies on image::guess_format: it recognises a format by a table of magic
/// bytes, and the PNG and GIF signatures are both in that table.
#[verifier::external_body]
fn sniff_format(buf: &Vec<u8>) -> (r: Option<image::ImageFormat>)
    ensures
        png_sig(buf@) || gif_sig(buf@) ==> r is Some,
{
    image::guess_format(buf.as_slice()).ok()
}

/// Relies on image::load_from_memory: the buffer decodes to a picture or the
/// call fails; nothing is assumed of the picture itself.
#[verifier::external_body]
fn decode_image(buf: &Vec<u8>) -> Option<image::DynamicImage> {
    image::load_from_memory(buf.as_slice()).ok()
}

/// Relies on DynamicImage::resize: scales the picture so that neither
/// dimension exceeds the bound, preserving aspect ratio.
#[verifier::external_body]
fn resize_image(pic: &image::DynamicImage, bound: u32) -> image::DynamicImage {
    pic.resize(bound, bound, image::imageops::FilterType::Gaussian)
}

/// Relies on DynamicImage::write_to: encodes the picture into the buffer in
/// the given format, or fails.
#[verifier::external_body]
fn encode_image(pic: &image::DynamicImage, format: image::ImageFormat) -> Option<Vec<u8>> {
    let mut out: Vec<u8> = Vec::new();
    match pic.write_to(&mut out, format) {
        Ok(()) => Some(out),
        Err(_) => None,
    }
}

/// Relies on base64::encode: the standard alphabet with padding; the result
/// depends on the input bytes alone.
#[verifier::external_body]
fn base64_encode(bytes: &Vec<u8>) -> (r: String)
    ensures
        r@ == base64_of(bytes@),
{
    base64::encode(bytes.as_slice())
}

#[verifier::external_type_specification]
#[verifier::external_body]
pub struct ExDynamicImage(image::DynamicImage);

#[verifier::external_type_specification]
#[verifier::external_body]
pub struct ExImageFormat(image::ImageFormat);

/// The kind the buffer's magic bytes announce.
pub fn sniff_kind(buf: &Vec<u8>) -> (k: ImageKind)
    ensures
        k == kind_of(buf@),
{
    let n = buf.len();
    if n >= 8 && buf[0] == 0x89 && buf[1] == 0x50 && buf[2] == 0x4e && buf[3] == 0x47 && buf[4]
        == 0x0d && buf[5] == 0x0a && buf[6] == 0x1a && buf[7] == 0x0a {
        ImageKind::Png
    } else if n >= 6 && buf[0] == 0x47 && buf[1] == 0x49 && buf[2] == 0x46 && buf[3] == 0x38 && (
    buf[4] == 0x39 || buf[4] == 0x37) && buf[5] == 0x61 {
        ImageKind::Gif
    } else {
        ImageKind::Other
    }
}

/// The data-URI prefix for `k`, as a string.
pub fn mime_prefix_str(k: ImageKind) -> (r: &'static str)
    ensures
        r@ == mime_prefix(k),
{
    match k {
        ImageKind::Png => "data:image/png;base64,",
        ImageKind::Gif => "data:image/gif;base64,",
        ImageKind::Other => "data:image;base64,",
    }
}

/// Wrap an already encoded payload in a data URI for kind `k`.
pub fn make_data_uri(k: ImageKind, payload: String) -> (r: String)
    ensures
        r@ == mime_prefix(k) + payload@,
{
    let prefix = mime_prefix_str(k);
    String::from_str(prefix).concat(payload.as_str())
}

/// Does `name` end in `.png` or `.gif`, in any case? Only such files may be
/// handed to [`ingest_bytes`]; everything else is ignored before any
/// decoding happens.
pub fn eligible_name(name: &str) -> (r: bool)
    ensures
        r == supported_name(name@),
{
    let n = name.unicode_len();
    if n < 4 {
        return false;
    }
    let a = name.get_char(n - 4);
    let b = name.get_char(n - 3);
    let c = name.get_char(n - 2);
    let d = name.get_char(n - 1);
    (a == '.' && (b == 'p' || b == 'P') && (c == 'n' || c == 'N') && (d == 'g' || d == 'G')) || (a
        == '.' && (b == 'g' || b == 'G') && (c == 'i' || c == 'I') && (d == 'f' || d == 'F'))
}

/// The pipeline proper: decode, resize to the thumbnail bound, re-encode in
/// the sniffed format, and base64-wrap into a data URI. A buffer that fails
/// to decode or re-encode yields nothing and has no other effect.
pub fn ingest_bytes(buf: &Vec<u8>) -> (r: Option<String>)
    ensures
        r matches Some(s) ==> exists|payload: Seq<u8>|
            s@ == mime_prefix(kind_of(buf@)) + base64_of(payload),
{
    let format = match sniff_format(buf) {
        Option::Some(f) => f,
        Option::None => { return None; },
    };
    let pic = match decode_image(buf) {
        Option::Some(p) => p,
        Option::None => { return None; },
    };
    let small = resize_image(&pic, THUMB_SIZE);
    let out = match encode_image(&small, format) {
        Option::Some(o) => o,
        Option::None => { return None; },
    };
    let b64 = base64_encode(&out);
    let kind = sniff_kind(buf);
    let uri = make_data_uri(kind, b64);
    proof {
        assert(uri@ == mime_prefix(kind_of(buf@)) + base64_of(out@));
    }
    Some(uri)
}

/// One dropped file, name and bytes: a name that is not `.png`/`.gif` never
/// reaches the pipeline; an accepted one is ingested.
pub fn ingest_file(name: &str, buf: &Vec<u8>) -> (r: Option<String>)
    ensures
        !supported_name(name@) ==> r is None,
        r matches Some(s) ==> exists|payload: Seq<u8>|
            s@ == mime_prefix(kind_of(buf@)) + base64_of(payload),
{
    if eligible_name(name) {
        ingest_bytes(buf)
    } else {
        None
    }
}

} // verus!
