//! Record-store behavior: insert-or-ignore, retrieval, counting, folder
//! deletion and the tags column.

use rust_gallery::records::{Image, RecordStore};
use rust_gallery::tags::decode_tags;
use rust_gallery::tags::encode_tags;
use rust_gallery::config::{ConfigInfo, ConfigStore};

fn create_test_image(filename: &str, folder: &str, hash: &str) -> Image {
    Image {
        path: format!("/test/images/{}/{}", folder, filename),
        hash: hash.to_string(),
        extension: "jpg".to_string(),
        filename: filename.to_string(),
        folder_name: folder.to_string(),
        width: 1920,
        height: 1080,
        root: "test_root".to_string(),
    }
}

#[test]
fn test_file_insert_and_retrieve() {
    let mut store = RecordStore::new();
    let image = create_test_image("test.jpg", "test_folder", "uniquehash123");

    let result = store.insert(image);
    assert!(result.is_ok());
    assert_eq!(result.unwrap(), 1);

    let retrieved = store.get_by_hash("uniquehash123").unwrap();
    assert_eq!(retrieved.filename, "test.jpg");
    assert_eq!(retrieved.folder_name, "test_folder");
    assert_eq!(retrieved.width, 1920);
    assert_eq!(retrieved.height, 1080);
}

#[test]
fn test_file_duplicate_hash_ignored() {
    let mut store = RecordStore::new();
    let image1 = create_test_image("test1.jpg", "folder1", "samehash");
    let image2 = create_test_image("test2.jpg", "folder2", "samehash");

    store.insert(image1).expect("First insert failed");
    let result = store.insert(image2).expect("Second insert failed");

    assert_eq!(result, 0);
}

#[test]
fn test_file_count_by_folder() {
    let mut store = RecordStore::new();
    let img1 = create_test_image("photo1.jpg", "count_test", "hash001");
    let img2 = create_test_image("photo2.jpg", "count_test", "hash002");
    let img3 = create_test_image("photo3.jpg", "other_folder", "hash003");

    store.insert(img1).unwrap();
    store.insert(img2).unwrap();
    store.insert(img3).unwrap();

    let count = store.count_by_folder("count_test");
    assert_eq!(count, 2);
}

#[test]
fn test_file_tags_operations() {
    let mut store = RecordStore::new();
    let image = create_test_image("photo.jpg", "folder", "taghash123");
    store.insert(image).unwrap();

    let tags = vec![
        "sunset".to_string(),
        "beach".to_string(),
        "vacation".to_string(),
    ];
    store.add_tags("taghash123", tags);

    let file = store.get_by_hash("taghash123").unwrap();
    assert!(file.tags.is_some());
    let tags_str = file.tags.unwrap();

    let parsed_tags = decode_tags(&tags_str).expect("tags column should decode");
    assert_eq!(parsed_tags.len(), 3);
    assert!(parsed_tags.contains(&"sunset".to_string()));
    assert!(parsed_tags.contains(&"beach".to_string()));
    assert!(parsed_tags.contains(&"vacation".to_string()));
}

#[test]
fn test_delete_folder_with_name() {
    let mut store = RecordStore::new();
    let img1 = create_test_image("photo1.jpg", "delete_me", "hash001");
    let img2 = create_test_image("photo2.jpg", "delete_me", "hash002");
    let img3 = create_test_image("photo3.jpg", "keep_me", "hash003");

    store.insert(img1).unwrap();
    store.insert(img2).unwrap();
    store.insert(img3).unwrap();

    let deleted = store.delete_folder_with_name("delete_me");
    assert_eq!(deleted, 2);

    let remaining_count = store.count_by_folder("keep_me");
    assert_eq!(remaining_count, 1);

    let deleted_count = store.count_by_folder("delete_me");
    assert_eq!(deleted_count, 0);
}

#[test]
fn test_config_get_and_update() {

    let mut store = ConfigStore::new();
    store.update(ConfigInfo {
        random_equal_folders: 5,
        photo_per_random: 10,
        folders_per_page: 25,
        equal_enabled: true,
    });

    let initial_config = store.get_config().unwrap();
    assert!(initial_config.id > 0);

    let new_config = ConfigInfo {
        random_equal_folders: 15,
        photo_per_random: 30,
        folders_per_page: 100,
        equal_enabled: false,
    };
    store.update(new_config);

    let updated_config = store.get_config().unwrap();
    assert_eq!(updated_config.random_equal_folders, 15);
    assert_eq!(updated_config.photo_per_random, 30);
    assert_eq!(updated_config.folders_per_page, 100);
    assert!(!updated_config.equal_enabled);
}

#[test]
fn test_tags_round_trip() {

    let tags = vec![
        "plain".to_string(),
        "with \"quotes\"".to_string(),
        "back\\slash".to_string(),
    ];
    let encoded = encode_tags(&tags);
    let decoded = decode_tags(&encoded).expect("encoder output should decode");
    assert_eq!(decoded, tags);
}

#[test]
fn test_random_sampling_bounds() {
    let mut store = RecordStore::new();
    for i in 0..8 {
        store
            .insert(create_test_image(
                &format!("img{}.jpg", i),
                &format!("folder_{}", i % 2),
                &format!("hash{:04}", i),
            ))
            .unwrap();
    }
    let picked = store.random("*", 3, "*", "*", "*", 42);
    assert_eq!(picked.len(), 3);
    let all = store.random("*", 100, "*", "*", "*", 7);
    assert_eq!(all.len(), 8);
    let by_folder = store.random("folder_0", 100, "*", "*", "*", 7);
    assert_eq!(by_folder.len(), 4);
    for r in &by_folder {
        assert_eq!(r.folder_name, "folder_0");
    }
}
