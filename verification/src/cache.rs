//! The thumbnail byte cache and the cacheable-response type.
//!
//! The cache is a bounded, time-expiring key-to-bytes map. A hit is
//! guaranteed to return exactly what was last stored for that key; expiry
//! and capacity eviction may drop entries at any time, so a miss promises
//! nothing.

use crate::hashing::{dec_u64, fnv1a, hex_u64, u64_to_dec};
use crate::strutil::{ascii_lower, ascii_lower_exec, push_char, str_eq_str};
use chrono::TimeZone;
use vstd::prelude::*;
use vstd::string::StringExecFns;

verus! {

#[verifier::external_type_specification]
#[verifier::external_body]
#[verifier::reject_recursive_types(K)]
#[verifier::reject_recursive_types(V)]
#[verifier::reject_recursive_types(S)]
pub struct ExMokaCache<K, V, S>(moka::sync::Cache<K, V, S>);

/// The bounded, time-expiring thumbnail cache. Its model is the map of the
/// last value stored per key; the underlying cache may forget entries, but
/// never serves anything else.
pub struct ThumbCache {
    inner: moka::sync::Cache<String, Vec<u8>>,
    history: Ghost<Map<Seq<char>, Seq<u8>>>,
}

/// Relies on moka's cache builder: a cache bounded by `max_capacity`
/// entries whose entries expire `ttl_secs` seconds after insertion. The
/// builder asserts that the time-to-live is at most 1000 years, so longer
/// values are excluded here.
#[verifier::external_body]
fn moka_new(max_capacity: u64, ttl_secs: u64) -> (c: moka::sync::Cache<String, Vec<u8>>)
    requires
        ttl_secs <= 31_536_000_000,
{
    moka::sync::Cache::builder().max_capacity(max_capacity).time_to_live(
        std::time::Duration::from_secs(ttl_secs),
    ).build()
}

impl ThumbCache {
    /// The last value stored for each key so far.
    pub closed spec fn history(&self) -> Map<Seq<char>, Seq<u8>> {
        self.history@
    }

    /// A fresh cache bounded by `max_capacity` entries whose entries expire
    /// `ttl_secs` seconds after insertion; the time-to-live must be at most
    /// 1000 years (the builder's own bound).
    pub fn new(max_capacity: u64, ttl_secs: u64) -> (c: ThumbCache)
        requires
            ttl_secs <= 31_536_000_000,
        ensures
            c.history() == Map::<Seq<char>, Seq<u8>>::empty(),
    {
        ThumbCache { inner: moka_new(max_capacity, ttl_secs), history: Ghost(Map::empty()) }
    }

    /// Relies on moka's Cache::get: a pure lookup that never populates; a
    /// hit is a clone of the value last inserted for this key.
    #[verifier::external_body]
    pub fn get(&self, key: &str) -> (r: Option<Vec<u8>>)
        ensures
            r matches Some(v) ==> self.history().contains_pair(key@, v@),
    {
        self.inner.get(key)
    }

    /// Relies on moka's Cache::insert: stores the value for the key,
    /// replacing any earlier one.
    #[verifier::external_body]
    pub fn insert(&mut self, key: String, value: Vec<u8>)
        ensures
            final(self).history() == old(self).history().insert(key@, value@),
    {
        self.inner.insert(key, value);
    }
}

/// The content type a response declares for its bytes.
#[derive(Debug)]
pub enum ContentKind {
    Png,
    Jpeg,
    Gif,
    WebP,
    Avif,
}

/// A byte body ready to serve, with an optional content type and an
/// optional client-cache duration in seconds.
#[derive(Debug)]
pub struct CachedImage(pub Vec<u8>, pub Option<ContentKind>, pub Option<u64>);

impl CachedImage {
    /// A response carrying the bytes with a content type and a client-cache
    /// duration.
    pub fn with_cache(data: Vec<u8>, content_type: ContentKind, cache_duration_secs: u64) -> (r:
        CachedImage)
        ensures
            r.0 == data,
            r.1 == Some(content_type),
            r.2 == Some(cache_duration_secs),
    {
        CachedImage(data, Some(content_type), Some(cache_duration_secs))
    }
}

/// The content type an extension denotes, case-insensitively; unknown
/// extensions default to JPEG.
pub open spec fn spec_content_type(extension: Seq<char>) -> ContentKind {
    let e = ascii_lower(extension);
    if e == "png"@ {
        ContentKind::Png
    } else if e == "jpg"@ || e == "jpeg"@ {
        ContentKind::Jpeg
    } else if e == "gif"@ {
        ContentKind::Gif
    } else if e == "webp"@ {
        ContentKind::WebP
    } else if e == "avif"@ {
        ContentKind::Avif
    } else {
        ContentKind::Jpeg
    }
}

/// The content type for a file extension.
pub fn get_content_type(extension: &str) -> (r: ContentKind)
    ensures
        r == spec_content_type(extension@),
{
    let low = ascii_lower_exec(extension);
    let l = low.as_str();
    if str_eq_str(l, "png") {
        ContentKind::Png
    } else if str_eq_str(l, "jpg") || str_eq_str(l, "jpeg") {
        ContentKind::Jpeg
    } else if str_eq_str(l, "gif") {
        ContentKind::Gif
    } else if str_eq_str(l, "webp") {
        ContentKind::WebP
    } else if str_eq_str(l, "avif") {
        ContentKind::Avif
    } else {
        ContentKind::Jpeg
    }
}

/// A response for these bytes with the content type of the extension and
/// the given client-cache duration.
pub fn create_cached_image(data: Vec<u8>, extension: &str, cache_duration_secs: u64) -> (r:
    CachedImage)
    ensures
        r.0 == data,
        r.1 == Some(spec_content_type(extension@)),
        r.2 == Some(cache_duration_secs),
{
    let content_type = get_content_type(extension);
    CachedImage::with_cache(data, content_type, cache_duration_secs)
}

/// What chrono renders for a timestamp in RFC 7231 form (`%a, %d %b %Y
/// %H:%M:%S GMT`): a function of the seconds alone.
pub uninterp spec fn http_date_of(secs: u64) -> Seq<char>;

/// Relies on chrono's Utc.timestamp_opt and DateTime::format: within
/// chrono's supported range the rendering depends on the timestamp alone.
#[verifier::external_body]
pub fn format_http_date(secs: u64) -> (r: String)
    requires
        secs < 8_000_000_000_000,
    ensures
        r@ == http_date_of(secs),
{
    let dt = match chrono::Utc.timestamp_opt(secs as i64, 0).single() {
        Some(dt) => dt,
        None => chrono::DateTime::<chrono::Utc>::UNIX_EPOCH,
    };
    dt.format("%a, %d %b %Y %H:%M:%S GMT").to_string()
}

/// The caching headers of a response: Cache-Control with the max-age,
/// a stable ETag over the body, the Expires date and Last-Modified set to
/// now. The duration defaults to one hour.
pub fn response_headers(body: &Vec<u8>, cache_duration_secs: Option<u64>, now_secs: u64) -> (r:
    Vec<(String, String)>)
    requires
        now_secs < 4_000_000_000_000,
        cache_duration_secs matches Some(d) ==> d < 4_000_000_000_000,
    ensures
        ({
            let dur = match cache_duration_secs {
                Some(d) => d,
                None => 3600u64,
            };
            &&& r@.len() == 4
            &&& r@[0].0@ == "Cache-Control"@ && r@[0].1@ == "public, max-age="@ + dec_u64(dur)
            &&& r@[1].0@ == "ETag"@ && r@[1].1@ == seq!['"'] + hex_u64(fnv1a(body@)) + seq!['"']
            &&& r@[2].0@ == "Expires"@ && r@[2].1@ == http_date_of((now_secs + dur) as u64)
            &&& r@[3].0@ == "Last-Modified"@ && r@[3].1@ == http_date_of(now_secs)
        }),
{
    let dur = match cache_duration_secs {
        Some(d) => d,
        None => 3600,
    };
    proof {
        reveal_strlit("Cache-Control");
        reveal_strlit("public, max-age=");
        reveal_strlit("ETag");
        reveal_strlit("Expires");
        reveal_strlit("Last-Modified");
    }
    let cache_control = String::from_str("public, max-age=").concat(u64_to_dec(dur).as_str());
    let etag = crate::hashing::calculate_etag(body.as_slice());
    let mut quoted = String::new();
    push_char(&mut quoted, '"');
    let mut quoted = quoted.concat(etag.as_str());
    push_char(&mut quoted, '"');
    let expires = format_http_date(now_secs + dur);
    let modified = format_http_date(now_secs);
    let mut out: Vec<(String, String)> = Vec::new();
    out.push((String::from_str("Cache-Control"), cache_control));
    out.push((String::from_str("ETag"), quoted));
    out.push((String::from_str("Expires"), expires));
    out.push((String::from_str("Last-Modified"), modified));
    out
}

} // verus!
