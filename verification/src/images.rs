//! Trusted boundary to the image codec: probing pixel dimensions, and the
//! decode-resize-encode transcode. Everything around these calls is
//! verified; the calls themselves are believed on the image crate's word.

use vstd::prelude::*;

verus! {

/// The pixel dimensions the image reader extracts from these bytes, or
/// (0, 0) when they cannot be read; a function of the bytes alone.
pub uninterp spec fn decoded_dims(data: Seq<u8>) -> (u32, u32);

/// Relies on image::ImageReader::into_dimensions over a guessed format: the
/// dimensions depend on the bytes alone; unreadable bytes give (0, 0).
#[verifier::external_body]
pub fn probe_dims(data: &Vec<u8>) -> (r: (u32, u32))
    ensures
        r == decoded_dims(data@),
{
    match image::ImageReader::new(std::io::Cursor::new(data.as_slice())).with_guessed_format() {
        Ok(reader) => reader.into_dimensions().unwrap_or((0, 0)),
        Err(_) => (0, 0),
    }
}

/// The closed set of encodings the transcoder can produce.
#[derive(Clone, Copy, Debug)]
pub enum ImageKind {
    Png,
    Jpeg,
    Gif,
    WebP,
}

/// What the transcoder produces for these bytes: decoded, resized to fit
/// within the given bounds with the Lanczos3 filter, re-encoded in the
/// given format; `None` when decoding or encoding fails. A function of the
/// arguments alone.
pub uninterp spec fn transcode_of(data: Seq<u8>, width: u32, height: u32, kind: ImageKind) -> Option<
    Seq<u8>,
>;

/// Relies on image::load_from_memory, DynamicImage::resize with the
/// Lanczos3 filter, and DynamicImage::write_to: the whole pipeline is a
/// pure function of the bytes, the bounds and the format; codec failures
/// are returned as errors, not thrown.
#[verifier::external_body]
pub fn transcode_image(data: &Vec<u8>, width: u32, height: u32, kind: ImageKind) -> (r: Result<
    Vec<u8>,
    String,
>)
    ensures
        match r {
            Ok(out) => transcode_of(data@, width, height, kind) == Some(out@),
            Err(_) => transcode_of(data@, width, height, kind) is None,
        },
{
    let img = match image::load_from_memory(data.as_slice()) {
        Ok(img) => img,
        Err(e) => return Err(e.to_string()),
    };
    let fmt = match kind {
        ImageKind::Png => image::ImageFormat::Png,
        ImageKind::Jpeg => image::ImageFormat::Jpeg,
        ImageKind::Gif => image::ImageFormat::Gif,
        ImageKind::WebP => image::ImageFormat::WebP,
    };
    let resized = img.resize(width, height, image::imageops::FilterType::Lanczos3);
    let mut buffer = Vec::new();
    resized.write_to(&mut std::io::Cursor::new(&mut buffer), fmt).map_err(|e| e.to_string()).map(|_| buffer)
}

} // verus!
