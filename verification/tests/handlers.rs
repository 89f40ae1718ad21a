//! Endpoint-core behavior: validation, pagination, search, routing shape,
//! tags, config and task endpoints.

use rust_gallery::api::{
    assign_tag,
    delete_folder,
    get_all_files_json,
    get_all_tags,
    get_folder_by_name,
    get_folders_json,
    get_roots_json,
    random_json,
    route_segment,
    DeleteFolder,
    RandomQuery,
    StateFiles,
    TagAssign,
    TagFolderAssign,
};
use rust_gallery::config::{ConfigData, ConfigStore};
use rust_gallery::error::AppError;
use rust_gallery::records::{Image, RecordStore};
use rust_gallery::tasks::ThreadManager;
use rust_gallery::config::{get_config, ConfigInfo};
use rust_gallery::config::update_config;
use rust_gallery::api::assign_tag_folder;
use rust_gallery::api::Context;

fn create_test_image(filename: &str, folder: &str, hash: &str) -> Image {
    Image {
        path: format!("/test/images/{}/{}", folder, filename),
        hash: hash.to_string(),
        extension: "jpg".to_string(),
        filename: filename.to_string(),
        folder_name: folder.to_string(),
        width: 1920,
        height: 1080,
        root: "test_root".to_string(),
    }
}

fn insert_test_images(store: &mut RecordStore, count: usize) -> Vec<String> {
    let mut hashes = Vec::new();
    for i in 0..count {
        let hash = format!("testhash{:08}", i);
        let image = create_test_image(
            &format!("test_image_{}.jpg", i),
            &format!("folder_{}", i % 3),
            &hash,
        );
        store.insert(image).expect("Failed to insert test image");
        hashes.push(hash);
    }
    hashes
}

fn status_of(e: &AppError) -> u16 {
    e.status_code()
}

#[test]
fn test_get_folders_json_success() {
    let mut store = RecordStore::new();
    insert_test_images(&mut store, 10);

    let folders = get_folders_json(&store, "test_root", Some(""), Some(1), Some(10))
        .expect("folders listing should succeed");
    assert!(!folders.is_empty(), "Should have at least one folder");
}

#[test]
fn test_get_folders_json_with_search() {
    let mut store = RecordStore::new();
    let image1 = create_test_image("photo1.jpg", "vacation_2024", "hash001");
    let image2 = create_test_image("photo2.jpg", "work_photos", "hash002");
    store.insert(image1).expect("Insert failed");
    store.insert(image2).expect("Insert failed");

    let folders = get_folders_json(&store, "test_root", Some("vacation"), Some(1), Some(10))
        .expect("search should succeed");
    assert_eq!(folders.len(), 1);
    assert_eq!(folders[0].title, "vacation_2024");
}

#[test]
fn test_get_folders_json_pagination_validation() {
    let store = RecordStore::new();

    let response = get_folders_json(&store, "test_root", Some(""), Some(0), Some(10));
    assert_eq!(status_of(&response.unwrap_err()), 422);

    let response = get_folders_json(&store, "test_root", Some(""), Some(1), Some(1001));
    assert_eq!(status_of(&response.unwrap_err()), 422);
}

#[test]
fn test_get_roots_json() {
    let mut store = RecordStore::new();
    let mut img1 = create_test_image("photo1.jpg", "folder1", "hash001");
    img1.root = "root1".to_string();
    let mut img2 = create_test_image("photo2.jpg", "folder2", "hash002");
    img2.root = "root2".to_string();
    store.insert(img1).expect("Insert failed");
    store.insert(img2).expect("Insert failed");

    let roots = get_roots_json(&store);
    assert_eq!(roots.len(), 2);
    assert_eq!(roots[0].photo_count, 1);
}

#[test]
fn test_get_folder_by_name_valid() {
    let mut store = RecordStore::new();
    let image = create_test_image("photo.jpg", "test_folder", "hash123");
    store.insert(image).expect("Insert failed");

    let response = get_folder_by_name(&store, "test_folder");
    assert!(response.is_ok());
}

#[test]
fn test_get_folder_by_name_directory_traversal_prevention() {
    let store = RecordStore::new();

    // A name of plain dots reaches the handler and is rejected outright.
    let segment = route_segment("..").expect("single segment");
    let response = get_folder_by_name(&store, &segment);
    assert_eq!(
        status_of(&response.unwrap_err()),
        400,
        "Directory traversal pattern '..' should return 400"
    );

    // Patterns with embedded forward slashes match no single-segment route.
    let patterns_with_forward_slash = vec!["../secrets", "folder/../etc", "folder/../../passwd"];
    for attempt in patterns_with_forward_slash {
        assert!(
            route_segment(attempt).is_none(),
            "Pattern with forward slash '{}' doesn't match route",
            attempt
        );
    }

    // Patterns with backslashes reach the handler and are blocked with 400.
    let patterns_with_backslash = vec!["..\\windows", "folder\\..\\system32"];
    for attempt in patterns_with_backslash {
        let segment = route_segment(attempt).expect("single segment");
        let response = get_folder_by_name(&store, &segment);
        assert_eq!(
            status_of(&response.unwrap_err()),
            400,
            "Pattern with backslash '{}' should be blocked with 400",
            attempt
        );
    }
}

#[test]
fn test_get_folder_by_name_length_validation() {
    let store = RecordStore::new();
    let long_name = "a".repeat(256);

    let response = get_folder_by_name(&store, &long_name);
    assert_eq!(status_of(&response.unwrap_err()), 422);
}

#[test]
fn test_delete_folder_success() {
    let mut store = RecordStore::new();
    let image = create_test_image("photo.jpg", "folder_to_delete", "hash123");
    store.insert(image).expect("Insert failed");

    let response = delete_folder(
        &mut store,
        &DeleteFolder {
            folder_name: "folder_to_delete".to_string(),
        },
    );
    assert!(response.is_ok());

    let count = store.count_by_folder("folder_to_delete");
    assert_eq!(count, 0);
}

#[test]
fn test_delete_folder_validation() {
    let mut store = RecordStore::new();
    let response = delete_folder(
        &mut store,
        &DeleteFolder {
            folder_name: "".to_string(),
        },
    );
    assert_eq!(
        status_of(&response.unwrap_err()),
        422,
        "Empty folder name should return 422"
    );
}

#[test]
fn test_assign_tag_success() {
    let mut store = RecordStore::new();
    let image = create_test_image("photo.jpg", "test_folder", "hash123abc");
    store.insert(image).expect("Insert failed");

    let response = assign_tag(
        &mut store,
        &TagAssign {
            image_hash: "hash123abc".to_string(),
            tags: vec!["landscape".to_string(), "sunset".to_string()],
        },
    );
    assert!(response.is_ok());

    let file = store.get_by_hash("hash123abc").unwrap();
    assert!(file.tags.is_some());
    let tags_str = file.tags.unwrap();
    assert!(tags_str.contains("landscape"));
    assert!(tags_str.contains("sunset"));
}

#[test]
fn test_assign_tag_validation() {
    let mut store = RecordStore::new();

    let response = assign_tag(
        &mut store,
        &TagAssign {
            image_hash: "short".to_string(),
            tags: vec!["test".to_string()],
        },
    );
    let status = status_of(&response.unwrap_err());
    assert!(
        status == 422 || status == 404,
        "Expected 422 or 404, got {:?}",
        status
    );

    let long_hash = "a".repeat(129);
    let response = assign_tag(
        &mut store,
        &TagAssign {
            image_hash: long_hash,
            tags: vec!["test".to_string()],
        },
    );
    let status = status_of(&response.unwrap_err());
    assert!(
        status == 422 || status == 404,
        "Expected 422 or 404, got {:?}",
        status
    );
}

#[test]
fn test_assign_tag_folder_success() {

    let mut store = RecordStore::new();
    let img1 = create_test_image("photo1.jpg", "tag_test_folder", "hash001");
    let img2 = create_test_image("photo2.jpg", "tag_test_folder", "hash002");
    store.insert(img1).expect("Insert failed");
    store.insert(img2).expect("Insert failed");

    let response = assign_tag_folder(
        &mut store,
        &TagFolderAssign {
            folder_name: "tag_test_folder".to_string(),
            tags: vec!["family".to_string(), "2024".to_string()],
        },
    );
    assert!(response.is_ok());

    let files = store.all_by_folder("tag_test_folder");
    assert_eq!(files.len(), 2);
    for file in files {
        assert!(file.tags.is_some());
        let tags_str = file.tags.unwrap();
        assert!(tags_str.contains("family"));
        assert!(tags_str.contains("2024"));
    }
}

#[test]
fn test_get_all_files_json_success() {
    let mut store = RecordStore::new();
    let mut state = StateFiles::new();
    insert_test_images(&mut store, 5);

    let response = get_all_files_json(&store, &mut state, Some(1), Some(10), Some("folder_0"))
        .expect("listing should succeed");
    assert_eq!(response.page, 1);
    assert_eq!(response.total, response.items.len());
    assert!(!response.items.is_empty());
}

#[test]
fn test_get_all_files_json_pagination_validation() {
    let store = RecordStore::new();
    let mut state = StateFiles::new();

    let response = get_all_files_json(&store, &mut state, Some(0), Some(10), Some("test"));
    assert_eq!(status_of(&response.unwrap_err()), 422);

    let response = get_all_files_json(&store, &mut state, Some(1), Some(1001), Some("test"));
    assert_eq!(status_of(&response.unwrap_err()), 422);
}

#[test]
fn test_random_json_success() {
    let mut store = RecordStore::new();
    insert_test_images(&mut store, 20);

    let query = RandomQuery {
        size: 5,
        folder: "*".to_string(),
        tag: "*".to_string(),
        equal: false,
        equal_size: 50,
        root: "*".to_string(),
        extension: "*".to_string(),
    };
    let response = random_json(&store, &query, 99).expect("random listing should succeed");
    assert!(response.items.len() <= 5);
}

#[test]
fn test_random_json_validation() {
    let store = RecordStore::new();
    let query = RandomQuery {
        size: 1001,
        folder: "*".to_string(),
        tag: "*".to_string(),
        equal: false,
        equal_size: 50,
        root: "*".to_string(),
        extension: "*".to_string(),
    };
    let response = random_json(&store, &query, 1);
    assert_eq!(status_of(&response.unwrap_err()), 422);
}

#[test]
fn test_get_config_success() {

    let mut store = ConfigStore::new();
    // The deployment seeds the configuration row before the endpoint runs.
    store.update(ConfigInfo {
        random_equal_folders: 5,
        photo_per_random: 10,
        folders_per_page: 25,
        equal_enabled: true,
    });

    let response = get_config(&store).expect("config read should succeed");
    assert_eq!(response.random_equal_folders, 5);
    assert_eq!(response.photo_per_random, 10);
    assert_eq!(response.folders_per_page, 25);
    assert!(response.equal_enabled);
}

#[test]
fn test_update_config_success() {

    let mut store = ConfigStore::new();
    let response = update_config(
        &mut store,
        ConfigData {
            random_equal_folders: 10,
            photo_per_random: 25,
            folders_per_page: 50,
            equal_enabled: true,
        },
    );
    assert!(response.is_ok());

    let config = store.get_config().unwrap();
    assert_eq!(config.random_equal_folders, 10);
    assert_eq!(config.photo_per_random, 25);
    assert_eq!(config.folders_per_page, 50);
    assert!(config.equal_enabled);
}

#[test]
fn test_update_config_validation() {

    let mut store = ConfigStore::new();
    let response = update_config(
        &mut store,
        ConfigData {
            random_equal_folders: -1,
            photo_per_random: 25,
            folders_per_page: 50,
            equal_enabled: true,
        },
    );
    assert_eq!(status_of(&response.unwrap_err()), 422);

    let response = update_config(
        &mut store,
        ConfigData {
            random_equal_folders: 10,
            photo_per_random: 0,
            folders_per_page: 50,
            equal_enabled: true,
        },
    );
    assert_eq!(status_of(&response.unwrap_err()), 422);
}

#[test]
fn test_config_value_validation() {

    let invalid_configs = vec![
        ConfigData {
            random_equal_folders: -1,
            photo_per_random: 10,
            folders_per_page: 10,
            equal_enabled: true,
        },
        ConfigData {
            random_equal_folders: 10,
            photo_per_random: -5,
            folders_per_page: 10,
            equal_enabled: true,
        },
        ConfigData {
            random_equal_folders: 10,
            photo_per_random: 10,
            folders_per_page: -1,
            equal_enabled: true,
        },
        ConfigData {
            random_equal_folders: 0,
            photo_per_random: 10,
            folders_per_page: 10,
            equal_enabled: true,
        },
    ];
    for config in invalid_configs {
        let mut store = ConfigStore::new();
        let response = update_config(&mut store, config);
        assert_eq!(
            status_of(&response.unwrap_err()),
            422,
            "Invalid config should be rejected"
        );
    }

    let mut store = ConfigStore::new();
    let response = update_config(
        &mut store,
        ConfigData {
            random_equal_folders: 5,
            photo_per_random: 10,
            folders_per_page: 25,
            equal_enabled: true,
        },
    );
    assert!(response.is_ok());
}

#[test]
fn test_get_all_tags_success() {
    let mut store = RecordStore::new();
    let image1 = create_test_image("photo1.jpg", "test_folder", "hash001");
    store.insert(image1).expect("Insert failed");
    store.add_tags("hash001", vec!["nature".to_string(), "landscape".to_string()]);

    let image2 = create_test_image("photo2.jpg", "test_folder", "hash002");
    store.insert(image2).expect("Insert failed");
    store.add_tags("hash002", vec!["portrait".to_string(), "nature".to_string()]);

    let tags = get_all_tags(&store, Some("*")).expect("tags listing should succeed");
    assert!(tags.len() >= 2);
}

#[test]
fn test_get_all_tags_folder_filter() {
    let mut store = RecordStore::new();
    let img1 = create_test_image("photo1.jpg", "folder_a", "hash001");
    store.insert(img1).expect("Insert failed");
    store.add_tags("hash001", vec!["tag_a".to_string()]);

    let img2 = create_test_image("photo2.jpg", "folder_b", "hash002");
    store.insert(img2).expect("Insert failed");
    store.add_tags("hash002", vec!["tag_b".to_string()]);

    let tags = get_all_tags(&store, Some("folder_a")).expect("tags listing should succeed");
    assert!(tags.contains(&"tag_a".to_string()));
    assert!(!tags.contains(&"tag_b".to_string()));
}

#[test]
fn test_get_all_tags_validation() {
    let store = RecordStore::new();
    let long_name = "a".repeat(256);
    let response = get_all_tags(&store, Some(&long_name));
    assert_eq!(
        status_of(&response.unwrap_err()),
        422,
        "Expected 422 for length validation"
    );
}

#[test]
fn test_index_files_success() {
    let mut tm = ThreadManager::new();
    let (response, plan) = tm.index_files(None).expect("index request should succeed");

    assert_eq!(response.status, "success");
    assert!(!response.task_running);
    assert!(!response.message.is_empty());
    assert!(response.last_indexed.is_none());
    assert!(plan.is_some());
}

#[test]
fn test_index_files_with_force_parameter() {
    let mut tm = ThreadManager::new();
    let response = tm.index_files(Some("true"));
    assert!(response.is_ok());

    let response = tm.index_files(Some("false"));
    assert!(response.is_ok());
}

#[test]
fn test_index_files_invalid_force_parameter() {
    let mut tm = ThreadManager::new();
    let response = tm.index_files(Some("invalid"));
    assert_eq!(status_of(&response.unwrap_err()), 422);
}

#[test]
fn test_cancel_task_no_task_running() {
    let mut tm = ThreadManager::new();
    let response = tm.cancel_task();

    assert_eq!(response.status, "info");
    assert!(!response.task_running);
}

#[test]
fn test_hash_validation_min_length() {
    let mut store = RecordStore::new();
    let hash = "a".repeat(8);
    let response = assign_tag(
        &mut store,
        &TagAssign {
            image_hash: hash,
            tags: vec!["test".to_string()],
        },
    );
    assert_ne!(status_of(&response.unwrap_err()), 422);
}

#[test]
fn test_hash_validation_max_length() {
    let mut store = RecordStore::new();
    let hash = "a".repeat(128);
    let response = assign_tag(
        &mut store,
        &TagAssign {
            image_hash: hash,
            tags: vec!["test".to_string()],
        },
    );
    assert_ne!(status_of(&response.unwrap_err()), 422);
}

#[test]
fn test_folder_name_max_length_boundary() {
    let store = RecordStore::new();

    let valid_name = "a".repeat(255);
    let response = get_folder_by_name(&store, &valid_name);
    assert!(response.is_ok(), "255-character name should pass validation");

    let invalid_name = "a".repeat(256);
    let response = get_folder_by_name(&store, &invalid_name);
    assert_eq!(status_of(&response.unwrap_err()), 422);
}

#[test]
fn test_pagination_boundaries() {
    let store = RecordStore::new();

    let response = get_folders_json(&store, "test", Some(""), Some(1), Some(10));
    assert!(response.is_ok());

    let response = get_folders_json(&store, "test", Some(""), Some(0), Some(10));
    assert_eq!(status_of(&response.unwrap_err()), 422);

    let response = get_folders_json(&store, "test", Some(""), Some(1), Some(1000));
    assert!(response.is_ok());

    let response = get_folders_json(&store, "test", Some(""), Some(1), Some(1001));
    assert_eq!(status_of(&response.unwrap_err()), 422);
}

#[test]
fn test_directory_traversal_patterns() {
    let store = RecordStore::new();

    // Patterns without slashes reach the handler and return 400.
    let patterns_with_dots = vec!["..", "..secret", "folder.."];
    for pattern in patterns_with_dots {
        let segment = route_segment(pattern).expect("single segment");
        let response = get_folder_by_name(&store, &segment);
        assert_eq!(
            status_of(&response.unwrap_err()),
            400,
            "Pattern '{}' should be blocked with 400",
            pattern
        );
    }

    // Patterns with embedded slashes match no route.
    let patterns_with_embedded_slash = vec!["./../", "./../../", "folder/..", "folder/../secret"];
    for pattern in patterns_with_embedded_slash {
        assert!(
            route_segment(pattern).is_none(),
            "Pattern '{}' doesn't match route",
            pattern
        );
    }

    // Trailing slashes are stripped, so these reach the handler and are
    // blocked with 400.
    let patterns_reaching_handler = vec!["../", "..\\", "..\\..\\windows"];
    for pattern in patterns_reaching_handler {
        let segment = route_segment(pattern).expect("single segment");
        let response = get_folder_by_name(&store, &segment);
        assert_eq!(
            status_of(&response.unwrap_err()),
            400,
            "Pattern '{}' should be blocked with 400",
            pattern
        );
    }
}

#[test]
fn test_sql_injection_prevention() {
    let mut store = RecordStore::new();
    let image = create_test_image("photo.jpg", "normal_folder", "hash123");
    store.insert(image).expect("Insert failed");

    let injection_attempts = vec![
        "'; DROP TABLE files; --",
        "' OR '1'='1",
        "admin' --",
        "1' OR '1' = '1",
    ];
    for attempt in injection_attempts {
        let response = get_folders_json(&store, "test", Some(attempt), Some(1), Some(10));
        assert!(
            response.is_ok(),
            "Search attempt should be handled safely"
        );
    }

    let count = store.count_all();
    assert!(count > 0, "Store should still contain data");
}

#[test]
fn test_context_get_folders_sorted() {
    let mut store = RecordStore::new();
    store
        .insert(create_test_image("a.jpg", "Zebra", "hash001"))
        .unwrap();
    store
        .insert(create_test_image("b.jpg", "apple", "hash002"))
        .unwrap();
    store
        .insert(create_test_image("c.jpg", "Mango", "hash003"))
        .unwrap();

    let context = Context::get_folders(&store, None, "%", "test_root");
    assert_eq!(context.count_files, 3);
    // The store lowercases folder names on insert; the listing sorts them.
    let names: Vec<String> = context
        .folders
        .iter()
        .map(|f| f.folder_name.clone())
        .collect();
    assert_eq!(names, vec!["apple", "mango", "zebra"]);
    assert_eq!(context.roots, vec!["test_root"]);
}

#[test]
fn test_context_get_all_folders_memo() {
    let mut store = RecordStore::new();
    store
        .insert(create_test_image("a.jpg", "pics", "hash001"))
        .unwrap();
    let mut state = StateFiles::new();

    let first = Context::get_all_folders(&store, None, Some("pics"), &mut state);
    assert_eq!(first.files.len(), 1);

    // A later insert is not seen while the memo entry holds the folder.
    store
        .insert(create_test_image("b.jpg", "pics", "hash002"))
        .unwrap();
    let second = Context::get_all_folders(&store, None, Some("pics"), &mut state);
    assert_eq!(second.files.len(), 1);
}

#[test]
fn test_context_random_defaults() {
    let mut store = RecordStore::new();
    insert_test_images(&mut store, 12);
    let context = Context::random(&store, None, 4, None, None, None, None, false, 0, 11);
    assert_eq!(context.files.len(), 4);
    let equal = Context::random(&store, None, 6, None, None, None, None, true, 3, 11);
    assert!(equal.files.len() <= 6);
}
