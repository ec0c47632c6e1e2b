use music_catalog::model::{ReleaseType, Song};
use music_catalog::{
    filter_creator_friendly, is_bgml_p_license, is_commercial_cc_license, is_creator_friendly,
    is_creator_friendly_song,
};

fn song(id: &str, release_type: ReleaseType, license: &str) -> Song {
    Song {
        id: id.to_string(),
        title: "Test".to_string(),
        album_name: "Album".to_string(),
        release_type,
        has_content_id: false,
        streaming_link: "https://example.com".to_string(),
        license: license.to_string(),
    }
}

#[test]
fn test_is_commercial_cc_license() {
    assert!(is_commercial_cc_license("CC BY 4.0"));
    assert!(is_commercial_cc_license("CC BY"));
    assert!(is_commercial_cc_license("cc by 4.0")); // case insensitive
    assert!(is_commercial_cc_license("CC BY-SA 4.0"));
    assert!(is_commercial_cc_license("CC BY-SA"));
    assert!(is_commercial_cc_license("CC0 1.0"));
    assert!(is_commercial_cc_license("CC0"));

    assert!(!is_commercial_cc_license("CC BY-NC 4.0")); // Non-commercial
    assert!(!is_commercial_cc_license("All Rights Reserved"));
    assert!(!is_commercial_cc_license(""));
}

#[test]
fn test_is_bgml_p_license() {
    assert!(is_bgml_p_license("BGML-P"));
    assert!(is_bgml_p_license("bgml-p")); // case insensitive
    assert!(is_bgml_p_license(" BGML-P ")); // with whitespace

    assert!(!is_bgml_p_license("BGML"));
    assert!(!is_bgml_p_license("BGML-R"));
    assert!(!is_bgml_p_license(""));
}

#[test]
fn test_is_creator_friendly() {
    // Test CC license
    let song_cc = Song {
        id: "1".to_string(),
        title: "Test".to_string(),
        album_name: "Album".to_string(),
        release_type: ReleaseType::Independent,
        has_content_id: false,
        streaming_link: "https://example.com".to_string(),
        license: "CC BY 4.0".to_string(),
    };
    assert!(is_creator_friendly(&song_cc));

    // Test NCS release
    let song_ncs = Song {
        id: "2".to_string(),
        title: "Test".to_string(),
        album_name: "Album".to_string(),
        release_type: ReleaseType::NCS,
        has_content_id: false,
        streaming_link: "https://example.com".to_string(),
        license: "".to_string(),
    };
    assert!(is_creator_friendly(&song_ncs));

    // Test BGML-P license
    let song_bgml = Song {
        id: "3".to_string(),
        title: "Test".to_string(),
        album_name: "Album".to_string(),
        release_type: ReleaseType::Independent,
        has_content_id: false,
        streaming_link: "https://example.com".to_string(),
        license: "BGML-P".to_string(),
    };
    assert!(is_creator_friendly(&song_bgml));

    // Test non-creator-friendly
    let song_not_friendly = Song {
        id: "4".to_string(),
        title: "Test".to_string(),
        album_name: "Album".to_string(),
        release_type: ReleaseType::Independent,
        has_content_id: true,
        streaming_link: "https://example.com".to_string(),
        license: "All Rights Reserved".to_string(),
    };
    assert!(!is_creator_friendly(&song_not_friendly));
}

#[test]
fn test_version_forms_and_near_misses() {
    assert!(is_commercial_cc_license("  CC0 10.25  "));
    assert!(is_commercial_cc_license("cc by-sa 12.0"));
    assert!(!is_commercial_cc_license("CC BY 4")); // no minor part
    assert!(!is_commercial_cc_license("CC BY 4.")); // empty minor part
    assert!(!is_commercial_cc_license("CC BY .0")); // empty major part
    assert!(!is_commercial_cc_license("CC BY 4.0.1")); // too many parts
    assert!(!is_commercial_cc_license("CC BY  4.0")); // two spaces
    assert!(!is_commercial_cc_license("CC BY 4.0 extra"));
    assert!(!is_commercial_cc_license("XCC BY"));
}

#[test]
fn test_ncs_friendly_whatever_license_says() {
    assert!(is_creator_friendly(&song("a", ReleaseType::NCS, "All Rights Reserved")));
    assert!(is_creator_friendly(&song("b", ReleaseType::NCS, "")));
    assert!(is_creator_friendly(&song("c", ReleaseType::Independent, "  bGmL-p ")));
}

#[test]
fn test_is_creator_friendly_song_json() {
    let good = r#"{
        "id": "song-001",
        "title": "Test Song",
        "albumName": "Test Album",
        "releaseType": "Independent",
        "hasContentId": false,
        "streamingLink": "https://example.com",
        "license": "CC0"
    }"#;
    assert!(is_creator_friendly_song(good));

    let unfriendly = r#"{
        "id": "song-002",
        "title": "Test Song",
        "albumName": "Test Album",
        "releaseType": "Independent",
        "hasContentId": false,
        "streamingLink": "https://example.com",
        "license": "CC BY-NC 4.0"
    }"#;
    assert!(!is_creator_friendly_song(unfriendly));

    assert!(!is_creator_friendly_song("not json"));
    assert!(!is_creator_friendly_song("{\"id\": \"x\"}"));
}

#[test]
fn test_filter_creator_friendly_keeps_order() {
    let json = r#"[
        {"id": "s1", "title": "A", "albumName": "X", "releaseType": "NCS",
         "hasContentId": false, "streamingLink": "https://e.com", "license": ""},
        {"id": "s2", "title": "B", "albumName": "X", "releaseType": "Independent",
         "hasContentId": false, "streamingLink": "https://e.com", "license": "All Rights Reserved"},
        {"id": "s3", "title": "C", "albumName": "X", "releaseType": "Independent",
         "hasContentId": false, "streamingLink": "https://e.com", "license": "CC BY 4.0"}
    ]"#;
    let kept = filter_creator_friendly(json).unwrap();
    assert_eq!(kept.len(), 2);
    assert_eq!(kept[0].id, "s1");
    assert_eq!(kept[1].id, "s3");
}

#[test]
fn test_filter_creator_friendly_idempotent_on_values() {
    let json = r#"[
        {"id": "s1", "title": "A", "albumName": "X", "releaseType": "NCS",
         "hasContentId": false, "streamingLink": "https://e.com", "license": ""},
        {"id": "s2", "title": "B", "albumName": "X", "releaseType": "Monstercat",
         "hasContentId": true, "streamingLink": "https://e.com", "license": "All Rights Reserved"}
    ]"#;
    let once = filter_creator_friendly(json).unwrap();
    let ids: Vec<String> = once.iter().map(|s| s.id.clone()).collect();
    let twice: Vec<&Song> = once.iter().filter(|s| is_creator_friendly(s)).collect();
    assert_eq!(twice.len(), once.len());
    assert_eq!(ids, vec!["s1".to_string()]);
}

#[test]
fn test_filter_creator_friendly_malformed() {
    let err = filter_creator_friendly("not json").unwrap_err();
    assert!(err.contains("Invalid JSON"));

    let err = filter_creator_friendly("{\"songs\": []}").unwrap_err();
    assert!(err.contains("Invalid JSON"));

    let err = filter_creator_friendly("[{\"id\": \"x\"}]").unwrap_err();
    assert!(err.contains("Invalid JSON"));
    assert!(err.contains("song at index 0"));
}
