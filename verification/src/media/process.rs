//! Processing of uploaded images: conversion to WebP and thumbnails.  The
//! decoding and encoding are the `image` crate's; which encoding is kept,
//! and which type is reported, is decided here.
use crate::config::MediaConfig;
use crate::text::string_push_str;
use vstd::prelude::*;

verus! {

/// An image after processing: its bytes, an optional thumbnail, its size and
/// type.
#[derive(Debug)]
pub struct ProcessedImage {
    pub data: Vec<u8>,
    pub thumbnail: Option<Vec<u8>>,
    pub width: u32,
    pub height: u32,
    pub mime_type: String,
}

/// The image formats that the processing tells apart.
#[derive(Debug, Clone, Copy, PartialEq, Eq, Structural)]
pub enum ImageKind {
    Jpeg,
    Png,
    Gif,
    WebP,
    /// Any other format `image` recognises.
    Other,
}

/// The width and height of the image that `image::load_from_memory` decodes
/// from `data`; `None` where it does not decode.
pub uninterp spec fn decoded_size_of(data: Seq<u8>) -> Option<(u32, u32)>;

/// The format `image::guess_format` reads from the first bytes of `data`;
/// `None` where it recognises none.
pub uninterp spec fn guessed_kind_of(data: Seq<u8>) -> Option<ImageKind>;

/// The lossless WebP encoding (`image::codecs::webp::WebPEncoder`) of the
/// image decoded from `data`; `None` where decoding or encoding fails.
pub uninterp spec fn webp_of(data: Seq<u8>) -> Option<Seq<u8>>;

/// The thumbnail (`DynamicImage::thumbnail(width, u32::MAX)`) of the image
/// decoded from `data`, encoded as lossless WebP; `None` where a step fails.
pub uninterp spec fn thumb_webp_of(data: Seq<u8>, width: u32) -> Option<Seq<u8>>;

/// The thumbnail of the image decoded from `data`, written with
/// `DynamicImage::write_to` as PNG; `None` where a step fails.
pub uninterp spec fn thumb_png_of(data: Seq<u8>, width: u32) -> Option<Seq<u8>>;

/// The thumbnail of the image decoded from `data`, written with
/// `DynamicImage::write_to` in the format `image::guess_format` gives;
/// `None` where a step fails or no format is recognised.
pub uninterp spec fn thumb_guessed_of(data: Seq<u8>, width: u32) -> Option<Seq<u8>>;

/// `image::load_from_memory`, then `width` and `height`.  The decoder's
/// result is named, not written out.
#[verifier::external_body]
fn decoded_size(data: &[u8]) -> (r: Option<(u32, u32)>)
    ensures
        r == decoded_size_of(data@),
{
    match image::load_from_memory(data) {
        Ok(img) => Some((img.width(), img.height())),
        Err(_) => None,
    }
}

/// `image::guess_format`, its variants told apart.  The guess is named, not
/// written out.
#[verifier::external_body]
fn guessed_kind(data: &[u8]) -> (r: Option<ImageKind>)
    ensures
        r == guessed_kind_of(data@),
{
    match image::guess_format(data) {
        Ok(image::ImageFormat::Jpeg) => Some(ImageKind::Jpeg),
        Ok(image::ImageFormat::Png) => Some(ImageKind::Png),
        Ok(image::ImageFormat::Gif) => Some(ImageKind::Gif),
        Ok(image::ImageFormat::WebP) => Some(ImageKind::WebP),
        Ok(_) => Some(ImageKind::Other),
        Err(_) => None,
    }
}

/// `image::load_from_memory`, then `write_with_encoder` with
/// `WebPEncoder::new_lossless`.  The encoding is named, not written out.
#[verifier::external_body]
fn webp_bytes(data: &[u8]) -> (r: Option<Vec<u8>>)
    ensures
        match r {
            Some(v) => webp_of(data@) == Some(v@),
            None => webp_of(data@) is None,
        },
{
    let img = match image::load_from_memory(data) {
        Ok(img) => img,
        Err(_) => return None,
    };
    let mut buf = std::io::Cursor::new(Vec::new());
    match img.write_with_encoder(image::codecs::webp::WebPEncoder::new_lossless(&mut buf)) {
        Ok(()) => Some(buf.into_inner()),
        Err(_) => None,
    }
}

/// `image::load_from_memory`, `DynamicImage::thumbnail(width, u32::MAX)`,
/// then `write_with_encoder` with `WebPEncoder::new_lossless`.  The
/// encoding is named, not written out.
#[verifier::external_body]
fn thumbnail_webp(data: &[u8], width: u32) -> (r: Option<Vec<u8>>)
    ensures
        match r {
            Some(v) => thumb_webp_of(data@, width) == Some(v@),
            None => thumb_webp_of(data@, width) is None,
        },
{
    let thumb = match image::load_from_memory(data) {
        Ok(img) => img.thumbnail(width, u32::MAX),
        Err(_) => return None,
    };
    let mut buf = std::io::Cursor::new(Vec::new());
    match thumb.write_with_encoder(image::codecs::webp::WebPEncoder::new_lossless(&mut buf)) {
        Ok(()) => Some(buf.into_inner()),
        Err(_) => None,
    }
}

/// `image::load_from_memory`, `DynamicImage::thumbnail(width, u32::MAX)`,
/// then `write_to` with `ImageFormat::Png`.  The encoding is named, not
/// written out.
#[verifier::external_body]
fn thumbnail_png(data: &[u8], width: u32) -> (r: Option<Vec<u8>>)
    ensures
        match r {
            Some(v) => thumb_png_of(data@, width) == Some(v@),
            None => thumb_png_of(data@, width) is None,
        },
{
    let thumb = match image::load_from_memory(data) {
        Ok(img) => img.thumbnail(width, u32::MAX),
        Err(_) => return None,
    };
    let mut buf = std::io::Cursor::new(Vec::new());
    match thumb.write_to(&mut buf, image::ImageFormat::Png) {
        Ok(()) => Some(buf.into_inner()),
        Err(_) => None,
    }
}

/// `image::load_from_memory`, `DynamicImage::thumbnail(width, u32::MAX)`,
/// then `write_to` in the format of `image::guess_format(data)`.  The
/// encoding is named, not written out.
#[verifier::external_body]
fn thumbnail_guessed(data: &[u8], width: u32) -> (r: Option<Vec<u8>>)
    ensures
        match r {
            Some(v) => thumb_guessed_of(data@, width) == Some(v@),
            None => thumb_guessed_of(data@, width) is None,
        },
{
    let (thumb, format) = match (image::load_from_memory(data), image::guess_format(data)) {
        (Ok(img), Ok(f)) => (img.thumbnail(width, u32::MAX), f),
        _ => return None,
    };
    let mut buf = std::io::Cursor::new(Vec::new());
    match thumb.write_to(&mut buf, format) {
        Ok(()) => Some(buf.into_inner()),
        Err(_) => None,
    }
}

/// The MIME type of an image format; `application/octet-stream` for other
/// or unknown formats.
pub open spec fn mime_of(kind: Option<ImageKind>) -> Seq<char> {
    match kind {
        Some(ImageKind::Jpeg) => "image/jpeg"@,
        Some(ImageKind::Png) => "image/png"@,
        Some(ImageKind::Gif) => "image/gif"@,
        Some(ImageKind::WebP) => "image/webp"@,
        _ => "application/octet-stream"@,
    }
}

/// The MIME type of an image format (see `mime_of`).
pub fn format_to_mime(kind: Option<ImageKind>) -> (r: String)
    ensures
        r@ == mime_of(kind),
{
    let mut s = String::new();
    match kind {
        Some(ImageKind::Jpeg) => string_push_str(&mut s, "image/jpeg"),
        Some(ImageKind::Png) => string_push_str(&mut s, "image/png"),
        Some(ImageKind::Gif) => string_push_str(&mut s, "image/gif"),
        Some(ImageKind::WebP) => string_push_str(&mut s, "image/webp"),
        _ => string_push_str(&mut s, "application/octet-stream"),
    }
    s
}

/// The stored bytes and type of an upload: its WebP encoding when
/// conversion is on, the upload is not WebP already and the encoding
/// succeeds; the upload as it is otherwise.
pub open spec fn stored_form(data: Seq<u8>, auto_webp: bool) -> (Seq<u8>, Seq<char>) {
    let kind = guessed_kind_of(data);
    if auto_webp && kind != Some(ImageKind::WebP) {
        match webp_of(data) {
            Some(w) => (w, "image/webp"@),
            None => (data, mime_of(kind)),
        }
    } else {
        (data, mime_of(kind))
    }
}

/// The thumbnail of an upload stored with type `mime`: WebP when it is
/// stored as WebP, otherwise in the upload's own format, PNG when that is
/// not recognised.
pub open spec fn thumbnail_spec(data: Seq<u8>, width: u32, mime: Seq<char>) -> Option<Seq<u8>> {
    if mime == "image/webp"@ {
        thumb_webp_of(data, width)
    } else if guessed_kind_of(data) is None {
        thumb_png_of(data, width)
    } else {
        thumb_guessed_of(data, width)
    }
}

/// What `process_image` gives for an image that decodes to `size`.
pub open spec fn processed_ok(r: ProcessedImage, data: Seq<u8>, config: MediaConfig, size: (u32, u32)) -> bool {
    let (stored, mime) = stored_form(data, config.auto_webp);
    &&& r.width == size.0
    &&& r.height == size.1
    &&& r.data@ == stored
    &&& r.mime_type@ == mime
    &&& match r.thumbnail {
        Some(t) => config.generate_thumb && thumbnail_spec(data, config.thumb_width, mime) == Some(t@),
        None => !config.generate_thumb || thumbnail_spec(data, config.thumb_width, mime) is None,
    }
}

/// Processes an uploaded image: its size, the form it is stored in, and a
/// thumbnail when the configuration asks for one.  It fails only when the
/// image does not decode.
pub fn process_image(input: &[u8], config: &MediaConfig) -> (r: Result<ProcessedImage, String>)
    ensures
        match decoded_size_of(input@) {
            None => r matches Err(e) && e@ == "无法解码图片"@,
            Some(size) => r matches Ok(p) && processed_ok(p, input@, *config, size),
        },
{
    let (width, height) = match decoded_size(input) {
        Some(d) => d,
        None => return Err("无法解码图片".to_owned()),
    };
    let kind = guessed_kind(input);
    let is_webp = match kind {
        Some(ImageKind::WebP) => true,
        _ => false,
    };
    let (data, mime_type) = if config.auto_webp && !is_webp {
        match webp_bytes(input) {
            Some(w) => (w, "image/webp".to_owned()),
            None => (vstd::slice::slice_to_vec(input), format_to_mime(kind)),
        }
    } else {
        (vstd::slice::slice_to_vec(input), format_to_mime(kind))
    };
    let ghost stored = stored_form(input@, config.auto_webp);
    assert(data@ == stored.0 && mime_type@ == stored.1);
    let thumbnail = if config.generate_thumb {
        if crate::builder::keyed::str_eq(mime_type.as_str(), "image/webp") {
            thumbnail_webp(input, config.thumb_width)
        } else if kind.is_none() {
            thumbnail_png(input, config.thumb_width)
        } else {
            thumbnail_guessed(input, config.thumb_width)
        }
    } else {
        None
    };
    Ok(ProcessedImage { data, thumbnail, width, height, mime_type })
}

/// Each image format that is recognised by name has its own `image/` type,
/// named after the format (`image/jpeg`, `image/png`, `image/gif`,
/// `image/webp`); any other data is `application/octet-stream`.
pub proof fn law_image_mime_types(k: ImageKind, l: ImageKind)
    ensures
        mime_of(Some(ImageKind::Jpeg)) == "image/jpeg"@,
        mime_of(Some(ImageKind::Png)) == "image/png"@,
        mime_of(Some(ImageKind::Gif)) == "image/gif"@,
        mime_of(Some(ImageKind::WebP)) == "image/webp"@,
        mime_of(Some(ImageKind::Other)) == "application/octet-stream"@,
        mime_of(None) == "application/octet-stream"@,
        k != ImageKind::Other ==> mime_of(Some(k)).take(6) == "image/"@,
        k != ImageKind::Other && l != ImageKind::Other && k != l ==> mime_of(Some(k)) != mime_of(Some(l)),
{
    reveal_strlit("image/jpeg");
    reveal_strlit("image/png");
    reveal_strlit("image/gif");
    reveal_strlit("image/webp");
    reveal_strlit("image/");
    assert("image/jpeg"@.take(6) =~= "image/"@);
    assert("image/png"@.take(6) =~= "image/"@);
    assert("image/gif"@.take(6) =~= "image/"@);
    assert("image/webp"@.take(6) =~= "image/"@);
    assert("image/jpeg"@[6] != "image/png"@[6]);
    assert("image/jpeg"@[6] != "image/gif"@[6]);
    assert("image/jpeg"@[6] != "image/webp"@[6]);
    assert("image/png"@[6] != "image/gif"@[6]);
    assert("image/png"@[6] != "image/webp"@[6]);
    assert("image/gif"@[6] != "image/webp"@[6]);
}

/// An upload stored as it came keeps the type of its format: a JPEG stays
/// `image/jpeg`, and so on for PNG, GIF and WebP.
pub proof fn law_unconverted_upload_keeps_type(data: Seq<u8>)
    ensures
        stored_form(data, false).0 == data,
        guessed_kind_of(data) == Some(ImageKind::Jpeg) ==> stored_form(data, false).1 == "image/jpeg"@,
        guessed_kind_of(data) == Some(ImageKind::Png) ==> stored_form(data, false).1 == "image/png"@,
        guessed_kind_of(data) == Some(ImageKind::Gif) ==> stored_form(data, false).1 == "image/gif"@,
        guessed_kind_of(data) == Some(ImageKind::WebP) ==> stored_form(data, false).1 == "image/webp"@,
{
}

} // verus!
