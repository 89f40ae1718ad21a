//! Scanner and thumbnail-pipeline behavior on synthetic directory trees and
//! real image bytes.

use rust_gallery::cache::{format_http_date, ThumbCache};
use rust_gallery::hashing::{calculate_etag, calculate_sha256, ContentHasher};
use rust_gallery::paths::{
    extension_of, folder_name_of, is_hidden, is_image, sanitize_folder, stem_of,
};
use rust_gallery::records::{Image, RecordStore};
use rust_gallery::scan::{extract_image_info, walk_directory, ScanEntry};
use rust_gallery::tasks::ThreadManager;
use rust_gallery::thumbs::{
    get_thumbnail_folder, get_thumbnail_photo, retrieve_file, retrieve_finish, thumbnail_finish,
    ThumbLookup,
};
use std::io::Cursor;
use rust_gallery::cache::response_headers;

/// Encodes a tiny single-color image in the given format.
fn tiny_image_bytes(w: u32, h: u32, shade: u8, format: image::ImageFormat) -> Vec<u8> {
    let img = image::RgbImage::from_pixel(w, h, image::Rgb([shade, shade, shade]));
    let mut bytes = Vec::new();
    image::DynamicImage::ImageRgb8(img)
        .write_to(&mut Cursor::new(&mut bytes), format)
        .expect("encoding a tiny image should work");
    bytes
}

fn entry(path: &str, data: Vec<u8>) -> ScanEntry {
    ScanEntry {
        path: path.to_string(),
        is_dir: false,
        mtime: Some(1000),
        data,
    }
}

#[test]
fn test_hash_stability() {
    let data = b"the very same bytes".to_vec();
    let again = b"the very same bytes".to_vec();
    assert_eq!(calculate_sha256(&data), calculate_sha256(&again));

    // The digest is the real SHA-256, not the input handed back.
    let empty: Vec<u8> = Vec::new();
    assert_eq!(
        calculate_sha256(&empty),
        "e3b0c44298fc1c149afbf4c8996fb92427ae41e4649b934ca495991b7852b855"
    );
    assert_eq!(
        calculate_sha256(&b"abc".to_vec()),
        "ba7816bf8f01cfea414140de5dae2223b00361a396177a9cb410ff61f20015ad"
    );
}

#[test]
fn test_content_hasher_chunking() {
    let data: Vec<u8> = (0u8..=255).cycle().take(10_000).collect();
    let mut hasher = ContentHasher::new();
    for chunk in data.chunks(999) {
        hasher.update(chunk);
    }
    assert_eq!(hasher.finalize_hex(), calculate_sha256(&data));
}

#[test]
fn test_folder_sanitization() {
    assert_eq!(sanitize_folder("My Photos, 2024!"), "my-photos-2024!");
    assert_eq!(sanitize_folder("A.B/C:D;E"), "abcde");
    assert_eq!(sanitize_folder("plain"), "plain");
}

#[test]
fn test_path_grammar() {
    let path = "/roots/Holiday Snaps/IMG_0042.JPG";
    assert_eq!(stem_of(path), "IMG_0042");
    assert_eq!(extension_of(path), "JPG");
    assert_eq!(folder_name_of(path), "Holiday Snaps");
    assert!(is_image(path));
    assert!(!is_image("/roots/notes.txt"));
    assert!(is_hidden(".hidden"));
    assert!(!is_hidden("visible.jpg"));
}

#[test]
fn test_extract_image_info_dimensions() {
    let bytes = tiny_image_bytes(3, 2, 128, image::ImageFormat::Png);
    let info = extract_image_info("/roots/pics/sample.png", &bytes);
    assert_eq!((info.w, info.h), (3, 2));
    assert_eq!(info.file_name, "sample");
    assert_eq!(info.file_extension, "png");
    assert_eq!(info.folder_name, "pics");

    let garbage = vec![0u8; 16];
    let info = extract_image_info("/roots/pics/broken.png", &garbage);
    assert_eq!((info.w, info.h), (0, 0));
}

#[test]
fn test_end_to_end_scan() {
    let mut store = RecordStore::new();
    let entries = vec![
        entry(
            "/roots/pics/a.jpg",
            tiny_image_bytes(4, 4, 10, image::ImageFormat::Jpeg),
        ),
        entry(
            "/roots/pics/b.jpg",
            tiny_image_bytes(4, 4, 120, image::ImageFormat::Jpeg),
        ),
        entry(
            "/roots/pics/c.jpg",
            tiny_image_bytes(4, 4, 240, image::ImageFormat::Jpeg),
        ),
        // A zero-byte file: its dimensions cannot be read, so it is skipped
        // without aborting the scan.
        entry("/roots/pics/corrupt.jpg", Vec::new()),
    ];
    let printed = walk_directory(&mut store, "/roots", false, None, &entries);
    assert_eq!(store.count_all(), 3);
    assert_eq!(printed, vec!["pics".to_string()]);
}

#[test]
fn test_index_idempotence() {
    let mut store = RecordStore::new();
    let entries = vec![
        entry(
            "/roots/pics/a.jpg",
            tiny_image_bytes(5, 3, 10, image::ImageFormat::Jpeg),
        ),
        entry(
            "/roots/pics/b.jpg",
            tiny_image_bytes(5, 3, 200, image::ImageFormat::Jpeg),
        ),
        entry("/roots/pics/.hidden.jpg", Vec::new()),
        entry("/roots/@eaDir/thumb.jpg", Vec::new()),
    ];
    walk_directory(&mut store, "/roots", false, None, &entries);
    let first_hashes = store.all_hashes();
    assert_eq!(first_hashes.len(), 2);

    walk_directory(&mut store, "/roots", false, None, &entries);
    let second_hashes = store.all_hashes();
    assert_eq!(first_hashes, second_hashes);
    assert_eq!(store.count_all(), 2);
}

#[test]
fn test_scan_filters() {
    let mut store = RecordStore::new();
    let good = tiny_image_bytes(2, 2, 50, image::ImageFormat::Png);
    let entries = vec![
        ScanEntry {
            path: "/roots/pics".to_string(),
            is_dir: true,
            mtime: Some(1000),
            data: Vec::new(),
        },
        entry("/roots/pics/notes.txt", good.clone()),
        entry("/roots/pics/.secret.png", good.clone()),
        entry("/roots/pics/ok.png", good.clone()),
    ];
    walk_directory(&mut store, "/roots", false, None, &entries);
    assert_eq!(store.count_all(), 1);
    let files = store.all_by_folder("pics");
    assert_eq!(files.len(), 1);
    assert_eq!(files[0].filename, "ok");
    assert_eq!(files[0].extension, "png");
    assert_eq!(files[0].width, 2);
    assert_eq!(files[0].height, 2);
}

#[test]
fn test_incremental_mtime_skip() {
    let mut store = RecordStore::new();
    let mut entries = vec![entry(
        "/roots/pics/old.png",
        tiny_image_bytes(2, 2, 7, image::ImageFormat::Png),
    )];
    entries[0].mtime = Some(500);
    // Not modified since the last pass: skipped entirely.
    walk_directory(&mut store, "/roots", false, Some(600), &entries);
    assert_eq!(store.count_all(), 0);
    // Modified after the last pass: processed.
    walk_directory(&mut store, "/roots", false, Some(400), &entries);
    assert_eq!(store.count_all(), 1);
}

#[test]
fn test_dedup_by_hash_modes() {
    let bytes = tiny_image_bytes(2, 2, 90, image::ImageFormat::Png);
    let hash = calculate_sha256(&bytes);

    let mut store = RecordStore::new();
    let image1 = Image {
        path: "/a/one.png".to_string(),
        hash: hash.clone(),
        extension: "png".to_string(),
        filename: "one".to_string(),
        folder_name: "a".to_string(),
        width: 2,
        height: 2,
        root: "/a".to_string(),
    };
    let mut image2 = Image {
        path: "/b/two.png".to_string(),
        ..duplicate_image(&image1)
    };
    image2.filename = "two".to_string();

    assert_eq!(store.insert(image1).unwrap(), 1);
    assert_eq!(store.insert(duplicate_image(&image2)).unwrap(), 0);
    assert_eq!(store.count_all(), 1);
    assert_eq!(store.get_by_hash(&hash).unwrap().path, "/a/one.png");

    // Force mode overwrites the record's fields in place.
    assert_eq!(store.update(image2).unwrap(), 1);
    assert_eq!(store.count_all(), 1);
    assert_eq!(store.get_by_hash(&hash).unwrap().path, "/b/two.png");
}

fn duplicate_image(img: &Image) -> Image {
    Image {
        path: img.path.clone(),
        hash: img.hash.clone(),
        extension: img.extension.clone(),
        filename: img.filename.clone(),
        folder_name: img.folder_name.clone(),
        width: img.width,
        height: img.height,
        root: img.root.clone(),
    }
}

#[test]
fn test_zero_dimension_rejection() {
    let mut store = RecordStore::new();
    // Garbage bytes probe as (0, 0) and are never persisted.
    let entries = vec![
        entry("/roots/pics/fake.jpg", b"not an image at all".to_vec()),
        entry("/roots/pics/empty.png", Vec::new()),
    ];
    walk_directory(&mut store, "/roots", false, None, &entries);
    assert_eq!(store.count_all(), 0);
}

#[test]
fn test_no_upscale() {
    let bytes = tiny_image_bytes(4, 3, 33, image::ImageFormat::Png);
    let mut store = RecordStore::new();
    store
        .insert(Image {
            path: "/roots/pics/small.png".to_string(),
            hash: calculate_sha256(&bytes),
            extension: "png".to_string(),
            filename: "small".to_string(),
            folder_name: "pics".to_string(),
            width: 4,
            height: 3,
            root: "/roots".to_string(),
        })
        .unwrap();

    let mut cache = ThumbCache::new(100, 3600);
    // Requesting at least the source in both dimensions: the original
    // bytes come back unchanged, also at exact equality.
    for (w, h) in [(10, 10), (4, 3)] {
        let lookup = get_thumbnail_folder(&store, &cache, "pics", None, Some(w), Some(h), 5)
            .expect("thumbnail lookup should succeed");
        match lookup {
            ThumbLookup::Fetch(job) => {
                assert!(!job.resize, "no resize may happen at or above the source size");
                let served = thumbnail_finish(&mut cache, job, bytes.clone())
                    .expect("serving the original should succeed");
                assert_eq!(served.0, bytes);
            }
            ThumbLookup::Cached(_) => panic!("nothing was cached yet"),
        }
    }
}

#[test]
fn test_cache_hit_avoids_recompute() {
    let bytes = tiny_image_bytes(8, 8, 77, image::ImageFormat::Png);
    let mut store = RecordStore::new();
    let hash = calculate_sha256(&bytes);
    store
        .insert(Image {
            path: "/roots/pics/photo.png".to_string(),
            hash: hash.clone(),
            extension: "png".to_string(),
            filename: "photo".to_string(),
            folder_name: "pics".to_string(),
            width: 8,
            height: 8,
            root: "/roots".to_string(),
        })
        .unwrap();

    let mut cache = ThumbCache::new(100, 3600);
    let mut transcodes = 0;

    // First request: a miss, one transcode, stored in the cache.
    match get_thumbnail_photo(&store, &cache, &hash, Some(4), Some(4)).unwrap() {
        ThumbLookup::Fetch(job) => {
            assert!(job.resize);
            transcodes += 1;
            thumbnail_finish(&mut cache, job, bytes.clone()).expect("transcode should succeed");
        }
        ThumbLookup::Cached(_) => panic!("first request cannot be cached"),
    }

    // Second identical request: served from the cache, no further
    // transcode.
    match get_thumbnail_photo(&store, &cache, &hash, Some(4), Some(4)).unwrap() {
        ThumbLookup::Cached(served) => {
            assert!(!served.0.is_empty());
        }
        ThumbLookup::Fetch(_) => panic!("second request must be served from the cache"),
    }
    assert_eq!(transcodes, 1);
}

#[test]
fn test_retrieve_resize_decision() {
    let bytes = tiny_image_bytes(6, 6, 10, image::ImageFormat::Png);
    let mut store = RecordStore::new();
    let hash = calculate_sha256(&bytes);
    store
        .insert(Image {
            path: "/roots/pics/pic.png".to_string(),
            hash: hash.clone(),
            extension: "png".to_string(),
            filename: "pic".to_string(),
            folder_name: "pics".to_string(),
            width: 6,
            height: 6,
            root: "/roots".to_string(),
        })
        .unwrap();

    // Within the stored size: the original bytes are returned verbatim.
    let job = retrieve_file(&store, &hash, Some(4), Some(4)).unwrap();
    assert!(!job.resize);
    let served = retrieve_finish(job, bytes.clone()).unwrap();
    assert_eq!(served.0, bytes);

    // Beyond the stored size: a transcode runs and re-encodes the image.
    let job = retrieve_file(&store, &hash, Some(20), Some(20)).unwrap();
    assert!(job.resize);
    let served = retrieve_finish(job, bytes.clone()).unwrap();
    assert!(!served.0.is_empty());
    let reopened = image::load_from_memory(&served.0).expect("output should decode");
    assert!(reopened.width() >= 6);

    // A malformed hash parameter is rejected outright.
    let err = retrieve_file(&store, "no!good", Some(2), Some(2)).unwrap_err();
    assert_eq!(err.status_code(), 400);
}

#[test]
fn test_single_flight_indexing() {
    let mut tm = ThreadManager::new();
    let (first, plan) = tm.index_files(Some("false")).unwrap();
    assert!(!first.task_running);
    assert!(plan.is_some());

    // A second request while the task runs reports it and starts nothing.
    let (second, plan) = tm.index_files(Some("false")).unwrap();
    assert!(second.task_running);
    assert!(plan.is_none());
    assert_eq!(second.message, "Indexation task is already running");
}

#[test]
fn test_cancellation() {
    let mut tm = ThreadManager::new();
    let (_, plan) = tm.index_files(None).unwrap();
    let plan = plan.expect("a fresh manager starts the scan");

    // The running scan polls the flag between batches and stops early.
    tm.request_cancellation();
    let mut store = RecordStore::new();
    let total = 50;
    let mut processed = 0;
    for batch in 0..5 {
        if tm.should_stop() {
            break;
        }
        let chunk: Vec<ScanEntry> = (batch * 10..batch * 10 + 10)
            .map(|i| {
                entry(
                    &format!("/roots/pics/img_{:03}.png", i),
                    tiny_image_bytes(2, 2, i as u8, image::ImageFormat::Png),
                )
            })
            .collect();
        walk_directory(&mut store, "/roots", plan.force_write, plan.last_indexed, &chunk);
        processed += chunk.len();
    }
    assert!(processed < total, "the scan must stop before all files");

    let response = tm.cancel_task();
    assert!(!response.task_running);
    let (running, _) = tm.status();
    assert!(!running);
}

#[test]
fn test_scan_completion_updates_last_indexed() {
    let mut tm = ThreadManager::new();
    let (_, plan) = tm.index_files(None).unwrap();
    assert!(plan.is_some());
    tm.complete_scan(123_456);
    let (running, last) = tm.status();
    assert!(!running);
    assert_eq!(last, Some(123_456));
}

#[test]
fn test_etag_and_http_date() {
    assert_eq!(format_http_date(0), "Thu, 01 Jan 1970 00:00:00 GMT");
    assert_eq!(format_http_date(784_111_777), "Sun, 06 Nov 1994 08:49:37 GMT");

    let a = calculate_etag(b"some body");
    let b = calculate_etag(b"some body");
    let c = calculate_etag(b"other body");
    assert_eq!(a, b);
    assert_ne!(a, c);
}

#[test]
fn test_cache_round_trip() {
    let mut cache = ThumbCache::new(10, 3600);
    assert!(cache.get("thumb_x").is_none());
    cache.insert("thumb_x".to_string(), vec![1, 2, 3]);
    assert_eq!(cache.get("thumb_x"), Some(vec![1, 2, 3]));
}

#[test]
fn test_response_headers_shape() {

    let headers = response_headers(&vec![1, 2, 3], Some(86_400), 784_111_777);
    assert_eq!(headers.len(), 4);
    assert_eq!(headers[0].0, "Cache-Control");
    assert_eq!(headers[0].1, "public, max-age=86400");
    assert_eq!(headers[1].0, "ETag");
    assert!(headers[1].1.starts_with('"') && headers[1].1.ends_with('"'));
    assert_eq!(headers[2].0, "Expires");
    assert_eq!(headers[2].1, "Mon, 07 Nov 1994 08:49:37 GMT");
    assert_eq!(headers[3].0, "Last-Modified");
    assert_eq!(headers[3].1, "Sun, 06 Nov 1994 08:49:37 GMT");
}

#[test]
fn test_hash_suffix_fast_skip() {
    let mut store = RecordStore::new();
    let bytes = tiny_image_bytes(2, 2, 1, image::ImageFormat::Png);
    let hash = calculate_sha256(&bytes);
    walk_directory(
        &mut store,
        "/roots",
        false,
        None,
        &vec![entry("/roots/pics/first.png", bytes.clone())],
    );
    assert_eq!(store.count_all(), 1);

    // A file renamed with the stored hash's 16-character prefix embedded in
    // its stem is skipped without re-hashing: different bytes, same record
    // count afterwards.
    let renamed = format!("/roots/pics/copy_{}.png", &hash[..16]);
    let other_bytes = tiny_image_bytes(2, 2, 2, image::ImageFormat::Png);
    walk_directory(
        &mut store,
        "/roots",
        false,
        None,
        &vec![entry(&renamed, other_bytes)],
    );
    assert_eq!(store.count_all(), 1);
}
