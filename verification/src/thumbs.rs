//! Serving images: fetch-by-hash with optional resize, and the
//! cache-aside thumbnail pipeline.
//!
//! The store lookup, the validation, the resize decision and the cache
//! bookkeeping are verified here; reading the file's bytes is the caller's
//! side effect, done between `*_lookup` and `*_finish`.

use crate::cache::{create_cached_image, spec_content_type, CachedImage, ThumbCache};
use crate::error::{AppError, AppResult};
use crate::hashing::dec_u64;
use crate::images::{transcode_image, transcode_of, ImageKind};
use crate::records::{
    contains_hash,
    hash_index,
    random_pred,
    sfilter,
    FileRec,
    FileSchema,
    RecordStore,
};
use crate::strutil::{contains_exec, contains_seq, str_eq_str};
use vstd::prelude::*;
use vstd::string::StrSliceExecFns;
use vstd::string::StringExecFns;

verus! {

/// What char::is_alphanumeric answers: a property of the character alone.
pub uninterp spec fn is_unicode_alnum(c: char) -> bool;

/// Relies on char::is_alphanumeric: the answer depends on the character
/// alone.
#[verifier::external_body]
pub fn char_is_alphanumeric(c: char) -> (r: bool)
    ensures
        r == is_unicode_alnum(c),
{
    c.is_alphanumeric()
}

/// A well-formed content-hash parameter: alphanumeric, 8 to 128 characters.
pub open spec fn spec_hash_valid(h: Seq<char>) -> bool {
    8 <= h.len() <= 128 && forall|i: int| 0 <= i < h.len() ==> is_unicode_alnum(#[trigger] h[i])
}

/// Checks a hash parameter's shape.
pub fn validate_hash(hash: &str) -> (r: bool)
    ensures
        r == spec_hash_valid(hash@),
{
    let n: usize = hash.unicode_len();
    if n < 8 || n > 128 {
        return false;
    }
    let mut i: usize = 0;
    while i < n
        invariant
            n == hash@.len(),
            i <= n,
            forall|k: int| 0 <= k < i ==> is_unicode_alnum(#[trigger] hash@[k]),
        decreases n - i,
    {
        if !char_is_alphanumeric(hash.get_char(i)) {
            return false;
        }
        i = i + 1;
    }
    true
}

/// A well-formed folder parameter: nonempty, at most 255 characters.
pub open spec fn spec_folder_len_valid(f: Seq<char>) -> bool {
    1 <= f.len() <= 255
}

/// Whether the folder parameter attempts directory traversal.
pub open spec fn spec_folder_traversal(f: Seq<char>) -> bool {
    contains_seq(f, seq!['.', '.']) || contains_seq(f, seq!['/']) || contains_seq(f, seq!['\\'])
}

/// Checks the folder parameter for traversal patterns.
pub fn folder_has_traversal(folder: &str) -> (r: bool)
    ensures
        r == spec_folder_traversal(folder@),
{
    proof {
        reveal_strlit("..");
        reveal_strlit("/");
        reveal_strlit("\\");
        assert(".."@ =~= seq!['.', '.']);
        assert("/"@ =~= seq!['/']);
        assert("\\"@ =~= seq!['\\']);
    }
    contains_exec(folder, "..") || contains_exec(folder, "/") || contains_exec(folder, "\\")
}

/// The encoding chosen for a stored extension, or none when the format is
/// not supported for re-encoding.
pub open spec fn spec_format_for(e: Seq<char>) -> Option<ImageKind> {
    if e == "png"@ {
        Some(ImageKind::Png)
    } else if e == "jpg"@ || e == "jpeg"@ {
        Some(ImageKind::Jpeg)
    } else if e == "gif"@ {
        Some(ImageKind::Gif)
    } else if e == "webp"@ {
        Some(ImageKind::WebP)
    } else {
        None
    }
}

/// The encoding the record's stored extension selects.
pub fn format_for_extension(extension: &str) -> (r: Option<ImageKind>)
    ensures
        r == spec_format_for(extension@),
{
    proof {
        reveal_strlit("png");
        reveal_strlit("jpg");
        reveal_strlit("jpeg");
        reveal_strlit("gif");
        reveal_strlit("webp");
    }
    if str_eq_str(extension, "png") {
        Some(ImageKind::Png)
    } else if str_eq_str(extension, "jpg") || str_eq_str(extension, "jpeg") {
        Some(ImageKind::Jpeg)
    } else if str_eq_str(extension, "gif") {
        Some(ImageKind::Gif)
    } else if str_eq_str(extension, "webp") {
        Some(ImageKind::WebP)
    } else {
        None
    }
}

/// Transcodes the file's bytes for the record: decoded, resized to fit the
/// given bounds, re-encoded in the format of the record's stored extension.
/// Succeeds exactly when the extension is recognized and the transcode
/// goes through: an unrecognized extension is a bad request, a codec
/// failure an image error.
pub fn create_image_buffer(f_schema: &FileSchema, data: &Vec<u8>, width: u32, height: u32) -> (r:
    AppResult<Vec<u8>>)
    ensures
        match spec_format_for(f_schema.extension@) {
            None => (r matches Err(e) && e matches AppError::BadRequest(m) && m@
                == "Unsupported image format: "@ + f_schema.extension@),
            Some(kind) => match r {
                Ok(out) => transcode_of(data@, width, height, kind) == Some(out@),
                Err(e) => e is ImageError && transcode_of(data@, width, height, kind) is None,
            },
        },
{
    match format_for_extension(f_schema.extension.as_str()) {
        None => {
            proof {
                reveal_strlit("Unsupported image format: ");
            }
            Err(
                AppError::BadRequest(
                    String::from_str("Unsupported image format: ").concat(
                        f_schema.extension.as_str(),
                    ),
                ),
            )
        },
        Some(k) => match transcode_image(data, width, height, k) {
            Ok(buf) => Ok(buf),
            Err(msg) => Err(AppError::ImageError(msg)),
        },
    }
}

/// Whether a download request resizes: only when both dimensions are given
/// and one of them exceeds the stored size.
pub open spec fn spec_resize_download(
    width: Option<usize>,
    height: Option<usize>,
    src_w: i32,
    src_h: i32,
) -> bool {
    &&& width matches Some(w)
    &&& height matches Some(h)
    &&& (w as i32 > src_w || h as i32 > src_h)
}

/// Whether a thumbnail request transcodes: when either requested dimension
/// falls short of the stored size.
pub open spec fn spec_resize_thumbnail(width: u32, height: u32, src_w: i32, src_h: i32) -> bool {
    (width as i32) < src_w || (height as i32) < src_h
}

/// No-upscale guarantee: a thumbnail request at least as large as the
/// source in both dimensions performs no resize, so the original bytes are
/// returned unchanged (see `thumbnail_finish`).
pub proof fn lemma_no_upscale(width: u32, height: u32, src_w: i32, src_h: i32)
    requires
        src_w <= width <= i32::MAX,
        src_h <= height <= i32::MAX,
    ensures
        !spec_resize_thumbnail(width, height, src_w, src_h),
{
}

/// A download resolved to its record: the caller reads the file at
/// `record.path` and hands the bytes to `retrieve_finish`.
#[derive(Debug)]
pub struct RetrieveJob {
    pub record: FileSchema,
    pub resize: bool,
    pub width: u32,
    pub height: u32,
}

/// Resolves a download request: validates the hash parameter, looks the
/// record up, and decides whether to resize.
pub fn retrieve_file(
    store: &RecordStore,
    hash: &str,
    width: Option<usize>,
    height: Option<usize>,
) -> (r: AppResult<RetrieveJob>)
    requires
        store.wf(),
    ensures
        match r {
            Ok(job) => {
                &&& spec_hash_valid(hash@)
                &&& contains_hash(store@.recs, hash@)
                &&& job.record@ == store@.recs[hash_index(store@.recs, hash@)]
                &&& job.resize == spec_resize_download(
                    width,
                    height,
                    job.record@.width,
                    job.record@.height,
                )
            },
            Err(e) => {
                ||| (e is BadRequest && !spec_hash_valid(hash@))
                ||| (e is NotFound && spec_hash_valid(hash@) && !contains_hash(
                    store@.recs,
                    hash@,
                ))
            },
        },
{
    if !validate_hash(hash) {
        proof {
            reveal_strlit("Invalid hash format");
        }
        return Err(AppError::bad_request("Invalid hash format"));
    }
    let f_schema = match store.get_by_hash(hash) {
        Ok(rec) => rec,
        Err(e) => {
            return Err(e);
        },
    };
    let resize = match (width, height) {
        (Some(w), Some(h)) => {
            #[verifier::truncate] (w as i32) > f_schema.width || #[verifier::truncate] (h as i32)
                > f_schema.height
        },
        _ => false,
    };
    let (rw, rh) = match (width, height) {
        (Some(w), Some(h)) => (#[verifier::truncate] (w as u32), #[verifier::truncate] (h as u32)),
        _ => (0u32, 0u32),
    };
    Ok(RetrieveJob { record: f_schema, resize, width: rw, height: rh })
}

/// Serves the download from the file's bytes: verbatim when no resize was
/// decided, else transcoded to the requested bounds. Success is owed
/// exactly when no resize was decided, or the record's extension is
/// recognized and the transcode goes through. The response carries the
/// record's content type and a one-day client-cache duration.
pub fn retrieve_finish(job: RetrieveJob, bytes: Vec<u8>) -> (r: AppResult<CachedImage>)
    ensures
        !job.resize ==> (r matches Ok(ci) && ci.0@ == bytes@ && ci.1 == Some(
            spec_content_type(job.record.extension@),
        ) && ci.2 == Some(86400u64)),
        job.resize ==> match spec_format_for(job.record.extension@) {
            None => (r matches Err(e) && e matches AppError::BadRequest(m) && m@
                == "Unsupported image format: "@ + job.record.extension@),
            Some(kind) => match r {
                Ok(ci) => transcode_of(bytes@, job.width, job.height, kind) == Some(ci.0@)
                    && ci.1 == Some(spec_content_type(job.record.extension@)) && ci.2 == Some(
                    86400u64,
                ),
                Err(e) => e is ImageError && transcode_of(
                    bytes@,
                    job.width,
                    job.height,
                    kind,
                ) is None,
            },
        },
{
    if !job.resize {
        return Ok(create_cached_image(bytes, job.record.extension.as_str(), 86400));
    }
    let buffer = match create_image_buffer(&job.record, &bytes, job.width, job.height) {
        Ok(b) => b,
        Err(e) => {
            return Err(e);
        },
    };
    Ok(create_cached_image(buffer, job.record.extension.as_str(), 86400))
}

/// A thumbnail request resolved past the cache: the caller reads the file
/// at `record.path` and hands the bytes to `thumbnail_finish`.
#[derive(Debug)]
pub struct ThumbJob {
    pub cache_key: String,
    pub record: FileSchema,
    pub width: u32,
    pub height: u32,
    pub resize: bool,
}

/// A thumbnail lookup: either served from the cache or waiting for the
/// file's bytes.
#[derive(Debug)]
pub enum ThumbLookup {
    Cached(CachedImage),
    Fetch(ThumbJob),
}

/// The cache key of a folder thumbnail: the folder and the ordinal, not
/// the requested dimensions.
pub open spec fn spec_folder_key(folder: Seq<char>, number: Option<usize>) -> Seq<char> {
    "thumb_"@ + folder + "_"@ + dec_u64(
        match number {
            Some(x) => x as u64,
            None => 1u64,
        },
    )
}

/// The cache key of a photo thumbnail: the content hash alone.
pub open spec fn spec_photo_key(hash: Seq<char>) -> Seq<char> {
    "thumb_"@ + hash
}

fn folder_key(folder: &str, number: Option<usize>) -> (r: String)
    ensures
        r@ == spec_folder_key(folder@, number),
{
    proof {
        reveal_strlit("thumb_");
        reveal_strlit("_");
    }
    let nr: u64 = match number {
        Some(x) => x as u64,
        None => 1,
    };
    String::from_str("thumb_").concat(folder).concat("_").concat(
        crate::hashing::u64_to_dec(nr).as_str(),
    )
}

/// Resolves a folder-thumbnail request: validates the folder parameter,
/// serves a cached thumbnail when one is stored under the request's key,
/// else picks a seeded random record of the folder and decides the resize.
pub fn get_thumbnail_folder(
    store: &RecordStore,
    cache: &ThumbCache,
    folder: &str,
    number: Option<usize>,
    width: Option<usize>,
    height: Option<usize>,
    seed: u64,
) -> (r: AppResult<ThumbLookup>)
    requires
        store.wf(),
    ensures
        match r {
            Ok(lk) => spec_folder_len_valid(folder@) && !spec_folder_traversal(folder@) && match lk {
                ThumbLookup::Cached(ci) => cache.history().contains_pair(
                    spec_folder_key(folder@, number),
                    ci.0@,
                ) && ci.2 == Some(604800u64),
                ThumbLookup::Fetch(job) => {
                    &&& sfilter(
                        store@.recs,
                        |rec: FileRec| random_pred(rec, folder@, "*"@, "*"@, "*"@),
                    ).contains(job.record@)
                    &&& job.cache_key@ == spec_folder_key(folder@, number)
                    &&& job.width == (match width {
                        Some(w) => w as u32,
                        None => 150u32,
                    })
                    &&& job.height == (match height {
                        Some(h) => h as u32,
                        None => 150u32,
                    })
                    &&& job.resize == spec_resize_thumbnail(
                        job.width,
                        job.height,
                        job.record@.width,
                        job.record@.height,
                    )
                },
            },
            Err(e) => {
                ||| (e is BadRequest && (!spec_folder_len_valid(folder@)
                    || spec_folder_traversal(folder@)))
                ||| (e is NotFound && spec_folder_len_valid(folder@) && !spec_folder_traversal(
                    folder@,
                ) && sfilter(
                    store@.recs,
                    |rec: FileRec| random_pred(rec, folder@, "*"@, "*"@, "*"@),
                ).len() == 0)
            },
        },
{
    let flen = folder.unicode_len();
    if flen == 0 || flen > 255 {
        proof {
            reveal_strlit("Invalid folder name");
        }
        return Err(AppError::bad_request("Invalid folder name"));
    }
    if folder_has_traversal(folder) {
        proof {
            reveal_strlit("Invalid folder name: contains forbidden characters");
        }
        return Err(AppError::bad_request("Invalid folder name: contains forbidden characters"));
    }
    let cache_key = folder_key(folder, number);
    if let Some(data) = cache.get(cache_key.as_str()) {
        proof {
            reveal_strlit("jpg");
        }
        return Ok(ThumbLookup::Cached(create_cached_image(data, "jpg", 604800)));
    }
    proof {
        reveal_strlit("*");
    }
    let picks = store.random(folder, 1, "*", "*", "*", seed);
    if picks.len() == 0 {
        proof {
            reveal_strlit("Files in folder");
        }
        return Err(AppError::not_found("Files in folder"));
    }
    let f_schema = picks[0].duplicate();
    proof {
        assert(picks@[0]@ == f_schema@);
    }
    let image_width: u32 = match width {
        Some(w) => #[verifier::truncate] (w as u32),
        None => 150,
    };
    let image_height: u32 = match height {
        Some(h) => #[verifier::truncate] (h as u32),
        None => 150,
    };
    let resize = {
        #[verifier::truncate] (image_width as i32) < f_schema.width || #[verifier::truncate] (
        image_height as i32) < f_schema.height
    };
    Ok(
        ThumbLookup::Fetch(
            ThumbJob {
                cache_key,
                record: f_schema,
                width: image_width,
                height: image_height,
                resize,
            },
        ),
    )
}

/// Resolves a photo-thumbnail request: validates the hash parameter,
/// serves a cached thumbnail when one is stored under the hash's key, else
/// looks the record up and decides the resize.
pub fn get_thumbnail_photo(
    store: &RecordStore,
    cache: &ThumbCache,
    hash: &str,
    width: Option<usize>,
    height: Option<usize>,
) -> (r: AppResult<ThumbLookup>)
    requires
        store.wf(),
    ensures
        match r {
            Ok(lk) => spec_hash_valid(hash@) && match lk {
                ThumbLookup::Cached(ci) => cache.history().contains_pair(
                    spec_photo_key(hash@),
                    ci.0@,
                ) && ci.2 == Some(604800u64),
                ThumbLookup::Fetch(job) => {
                    &&& contains_hash(store@.recs, hash@)
                    &&& job.record@ == store@.recs[hash_index(store@.recs, hash@)]
                    &&& job.cache_key@ == spec_photo_key(hash@)
                    &&& job.width == (match width {
                        Some(w) => w as u32,
                        None => 150u32,
                    })
                    &&& job.height == (match height {
                        Some(h) => h as u32,
                        None => 150u32,
                    })
                    &&& job.resize == spec_resize_thumbnail(
                        job.width,
                        job.height,
                        job.record@.width,
                        job.record@.height,
                    )
                },
            },
            Err(e) => {
                ||| (e is BadRequest && !spec_hash_valid(hash@))
                ||| (e is NotFound && spec_hash_valid(hash@) && !contains_hash(
                    store@.recs,
                    hash@,
                ))
            },
        },
{
    proof {
        reveal_strlit("thumb_");
    }
    let cache_key = String::from_str("thumb_").concat(hash);
    if !validate_hash(hash) {
        proof {
            reveal_strlit("Invalid hash format");
        }
        return Err(AppError::bad_request("Invalid hash format"));
    }
    if let Some(data) = cache.get(cache_key.as_str()) {
        proof {
            reveal_strlit("jpg");
        }
        return Ok(ThumbLookup::Cached(create_cached_image(data, "jpg", 604800)));
    }
    let f_schema = match store.get_by_hash(hash) {
        Ok(rec) => rec,
        Err(e) => {
            return Err(e);
        },
    };
    let image_width: u32 = match width {
        Some(w) => #[verifier::truncate] (w as u32),
        None => 150,
    };
    let image_height: u32 = match height {
        Some(h) => #[verifier::truncate] (h as u32),
        None => 150,
    };
    let resize = {
        #[verifier::truncate] (image_width as i32) < f_schema.width || #[verifier::truncate] (
        image_height as i32) < f_schema.height
    };
    Ok(
        ThumbLookup::Fetch(
            ThumbJob {
                cache_key,
                record: f_schema,
                width: image_width,
                height: image_height,
                resize,
            },
        ),
    )
}

/// Serves the thumbnail from the file's bytes: verbatim when no resize was
/// decided (never upscale), else transcoded to the requested bounds and
/// stored in the cache under the request's key. Success is owed exactly
/// when no resize was decided, or the record's extension is recognized and
/// the transcode goes through. The response carries the record's content
/// type and a one-week client-cache duration.
pub fn thumbnail_finish(cache: &mut ThumbCache, job: ThumbJob, bytes: Vec<u8>) -> (r: AppResult<
    CachedImage,
>)
    ensures
        !job.resize ==> (r matches Ok(ci) && ci.0@ == bytes@ && ci.1 == Some(
            spec_content_type(job.record.extension@),
        ) && ci.2 == Some(604800u64) && *final(cache) == *old(cache)),
        job.resize ==> match spec_format_for(job.record.extension@) {
            None => (r matches Err(e) && e matches AppError::BadRequest(m) && m@
                == "Unsupported image format: "@ + job.record.extension@ && *final(cache)
                == *old(cache)),
            Some(kind) => match r {
                Ok(ci) => transcode_of(bytes@, job.width, job.height, kind) == Some(ci.0@)
                    && ci.1 == Some(spec_content_type(job.record.extension@)) && ci.2 == Some(
                    604800u64,
                ) && final(cache).history() == old(cache).history().insert(
                    job.cache_key@,
                    ci.0@,
                ),
                Err(e) => e is ImageError && transcode_of(
                    bytes@,
                    job.width,
                    job.height,
                    kind,
                ) is None && *final(cache) == *old(cache),
            },
        },
{
    if !job.resize {
        return Ok(create_cached_image(bytes, job.record.extension.as_str(), 604800));
    }
    let buffer = match create_image_buffer(&job.record, &bytes, job.width, job.height) {
        Ok(b) => b,
        Err(e) => {
            return Err(e);
        },
    };
    let served = buffer.clone();
    cache.insert(job.cache_key, buffer);
    Ok(create_cached_image(served, job.record.extension.as_str(), 604800))
}

} // verus!
