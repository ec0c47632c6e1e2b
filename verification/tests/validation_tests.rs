use music_catalog::{batch_validate_songs, validate_music_data, validate_song};

#[test]
fn test_validate_song_valid() {
    let json = r#"{
        "id": "song-001",
        "title": "Test Song",
        "albumName": "Test Album",
        "releaseType": "Independent",
        "hasContentId": false,
        "streamingLink": "https://example.com",
        "license": "CC BY 4.0"
    }"#;
    let result = validate_song(json);
    assert_eq!(result, ""); // Empty string means valid
}

#[test]
fn test_validate_song_missing_field() {
    let json = r#"{
        "id": "song-001",
        "title": "Test Song",
        "albumName": "Test Album",
        "releaseType": "Independent",
        "hasContentId": false,
        "streamingLink": "https://example.com"
    }"#;
    let result = validate_song(json);
    assert!(result.contains("Missing required field: license"));
}

#[test]
fn test_validate_song_invalid_release_type() {
    let json = r#"{
        "id": "song-001",
        "title": "Test Song",
        "albumName": "Test Album",
        "releaseType": "InvalidType",
        "hasContentId": false,
        "streamingLink": "https://example.com",
        "license": ""
    }"#;
    let result = validate_song(json);
    assert!(result.contains("releaseType' must be one of: Independent, NCS, Monstercat"));
}

#[test]
fn test_validate_song_invalid_type() {
    let json = r#"{
        "id": "song-001",
        "title": "Test Song",
        "albumName": "Test Album",
        "releaseType": "Independent",
        "hasContentId": "not_a_boolean",
        "streamingLink": "https://example.com",
        "license": ""
    }"#;
    let result = validate_song(json);
    assert!(result.contains("hasContentId' must be a boolean"));
}

#[test]
fn test_validate_song_empty_required_field() {
    let json = r#"{
        "id": "",
        "title": "Test Song",
        "albumName": "Test Album",
        "releaseType": "Independent",
        "hasContentId": false,
        "streamingLink": "https://example.com",
        "license": ""
    }"#;
    let result = validate_song(json);
    assert!(result.contains("Field 'id' cannot be empty"));
}

#[test]
fn test_validate_song_not_an_object() {
    assert!(validate_song("[1, 2]").contains("Song must be a JSON object"));
    assert!(validate_song("\"hello\"").contains("Song must be a JSON object"));
    assert!(validate_song("not json at all").contains("Invalid JSON syntax"));
}

#[test]
fn test_validate_song_type_checks_precede_emptiness() {
    // the id is empty and the title has the wrong type: every type check
    // runs before any emptiness check, so the title failure is reported
    let json = r#"{
        "id": "",
        "title": 7,
        "albumName": "Test Album",
        "releaseType": "Independent",
        "hasContentId": false,
        "streamingLink": "https://example.com",
        "license": ""
    }"#;
    let result = validate_song(json);
    assert!(result.contains("Field 'title' must be a string"));
}

#[test]
fn test_validate_song_emptiness_precedes_release_type() {
    // the id is empty and the release type unknown: emptiness is checked
    // before the release type value
    let json = r#"{
        "id": "",
        "title": "Test Song",
        "albumName": "Test Album",
        "releaseType": "InvalidType",
        "hasContentId": false,
        "streamingLink": "https://example.com",
        "license": ""
    }"#;
    let result = validate_song(json);
    assert!(result.contains("Field 'id' cannot be empty"));
}

#[test]
fn test_validate_song_wrong_string_type() {
    let json = r#"{
        "id": "song-001",
        "title": 7,
        "albumName": "Test Album",
        "releaseType": "Independent",
        "hasContentId": false,
        "streamingLink": "https://example.com",
        "license": ""
    }"#;
    let result = validate_song(json);
    assert!(result.contains("Field 'title' must be a string"));
}

#[test]
fn test_validate_song_license_may_be_empty() {
    let json = r#"{
        "id": "song-001",
        "title": "Test Song",
        "albumName": "Test Album",
        "releaseType": "NCS",
        "hasContentId": true,
        "streamingLink": "https://example.com",
        "license": ""
    }"#;
    assert_eq!(validate_song(json), "");
}

#[test]
fn test_validate_music_data_valid() {
    let json = r#"{
        "songs": [
            {
                "id": "song-001",
                "title": "Test Song",
                "albumName": "Test Album",
                "releaseType": "Independent",
                "hasContentId": false,
                "streamingLink": "https://example.com",
                "license": "CC BY 4.0"
            }
        ],
        "albums": [
            {
                "name": "Test Album",
                "songs": [
                    {
                        "id": "song-001",
                        "title": "Test Song",
                        "albumName": "Test Album",
                        "releaseType": "Independent",
                        "hasContentId": false,
                        "streamingLink": "https://example.com",
                        "license": "CC BY 4.0"
                    }
                ]
            }
        ]
    }"#;
    let result = validate_music_data(json);
    assert_eq!(result, "");
}

#[test]
fn test_validate_music_data_duplicate_ids() {
    let json = r#"{
        "songs": [
            {
                "id": "song-001",
                "title": "Test Song 1",
                "albumName": "Test Album",
                "releaseType": "Independent",
                "hasContentId": false,
                "streamingLink": "https://example.com",
                "license": ""
            },
            {
                "id": "song-001",
                "title": "Test Song 2",
                "albumName": "Test Album",
                "releaseType": "NCS",
                "hasContentId": false,
                "streamingLink": "https://example.com",
                "license": ""
            }
        ],
        "albums": []
    }"#;
    let result = validate_music_data(json);
    assert!(result.contains("Duplicate song ID"));
    assert!(result.contains("song-001"));
}

#[test]
fn test_validate_music_data_invalid_song() {
    let json = r#"{
        "songs": [
            {
                "id": "song-001",
                "title": "Test Song 1",
                "albumName": "Test Album",
                "releaseType": "InvalidType",
                "hasContentId": false,
                "streamingLink": "https://example.com",
                "license": ""
            }
        ],
        "albums": []
    }"#;
    let result = validate_music_data(json);
    println!("Actual result: {}", result);
    assert!(
        result.contains("Song at index 0 is invalid")
            || result.contains("Invalid music data structure")
    );
    assert!(result.contains("releaseType") || result.contains("InvalidType"));
}

#[test]
fn test_validate_music_data_missing_songs_field() {
    let json = r#"{
            "albums": []
        }"#;
    let result = validate_music_data(json);
    assert!(result.contains("Missing required field: songs"));
}

#[test]
fn test_validate_music_data_empty_song_field() {
    // shape is fine, but a required text field is empty
    let json = r#"{
        "songs": [
            {
                "id": "",
                "title": "Test Song 1",
                "albumName": "Test Album",
                "releaseType": "Independent",
                "hasContentId": false,
                "streamingLink": "https://example.com",
                "license": ""
            }
        ]
    }"#;
    let result = validate_music_data(json);
    assert!(result.contains("Song at index 0 is invalid"));
    assert!(result.contains("Field 'id' cannot be empty"));
}

#[test]
fn test_validate_music_data_shape_errors() {
    assert!(validate_music_data("nope").contains("Invalid JSON syntax"));
    assert!(validate_music_data("[]").contains("Music data must be a JSON object"));
    assert!(validate_music_data("{\"songs\": 3}").contains("Field 'songs' must be an array"));
    let result = validate_music_data("{\"songs\": [], \"albums\": 5}");
    assert!(result.contains("Invalid music data structure"));
    assert!(result.contains("field 'albums' must be an array"));
}

#[test]
fn test_validate_music_data_albums_without_songs() {
    let json = r#"{
        "songs": [],
        "albums": [
            {"name": "Ghost Album", "songs": []}
        ]
    }"#;
    let result = validate_music_data(json);
    assert_eq!(result, "Cannot have albums without songs");
}

#[test]
fn test_validate_music_data_malformed_album() {
    let json = r#"{
        "songs": [],
        "albums": [
            {"name": 5, "songs": []}
        ]
    }"#;
    let result = validate_music_data(json);
    assert!(result.contains("Invalid music data structure"));
    assert!(result.contains("album at index 0"));
    assert!(result.contains("Field 'name' must be a string"));
}

#[test]
fn test_batch_validate_songs_valid() {
    let json = r#"[
        {
            "id": "song-001",
            "title": "Test Song 1",
            "albumName": "Test Album",
            "releaseType": "Independent",
            "hasContentId": false,
            "streamingLink": "https://example.com",
            "license": ""
        },
        {
            "id": "song-002",
            "title": "Test Song 2",
            "albumName": "Test Album",
            "releaseType": "NCS",
            "hasContentId": false,
            "streamingLink": "https://example.com",
            "license": "CC BY 4.0"
        }
    ]"#;
    let results = batch_validate_songs(json).unwrap();
    assert_eq!(results.len(), 2);

    // Check first song result
    assert_eq!(results[0].index, 0);
    assert_eq!(results[0].valid, true);
    assert_eq!(results[0].song_id.as_deref(), Some("song-001"));

    // Check second song result
    assert_eq!(results[1].index, 1);
    assert_eq!(results[1].valid, true);
    assert_eq!(results[1].song_id.as_deref(), Some("song-002"));
}

#[test]
fn test_batch_validate_songs_with_duplicates() {
    let json = r#"[
        {
            "id": "song-001",
            "title": "Test Song 1",
            "albumName": "Test Album",
            "releaseType": "Independent",
            "hasContentId": false,
            "streamingLink": "https://example.com",
            "license": ""
        },
        {
            "id": "song-001",
            "title": "Test Song 2",
            "albumName": "Test Album",
            "releaseType": "NCS",
            "hasContentId": false,
            "streamingLink": "https://example.com",
            "license": ""
        }
    ]"#;
    let results = batch_validate_songs(json).unwrap();
    assert_eq!(results.len(), 2);

    // First song should be valid
    assert_eq!(results[0].valid, true);

    // Second song should be invalid due to duplicate ID
    assert_eq!(results[1].valid, false);
    assert!(results[1].errors[0].contains("Duplicate ID"));
}

#[test]
fn test_batch_validate_songs_invalid_json() {
    let json = "not valid json";
    let err = batch_validate_songs(json).unwrap_err();
    assert!(err.contains("Invalid JSON syntax"));
}

#[test]
fn test_batch_validate_songs_not_an_array() {
    let err = batch_validate_songs("{\"songs\": []}").unwrap_err();
    assert_eq!(err, "Input must be a JSON array of songs");

    // an element that is no object makes the whole input malformed
    let err = batch_validate_songs("[5]").unwrap_err();
    assert!(err.contains("Failed to parse songs array"));
    assert!(err.contains("song at index 0"));
}

#[test]
fn test_batch_validate_songs_unshaped_element() {
    // an object element missing fields still gets its own outcome
    let results = batch_validate_songs("[{\"id\": \"x\"}]").unwrap();
    assert_eq!(results.len(), 1);
    assert_eq!(results[0].index, 0);
    assert_eq!(results[0].valid, false);
    assert_eq!(results[0].song_id.as_deref(), Some("x"));
    assert!(results[0].errors[0].contains("Missing required field: title"));

    // an object element without a readable identifier carries none
    let results = batch_validate_songs("[{\"title\": \"T\"}]").unwrap();
    assert_eq!(results[0].valid, false);
    assert_eq!(results[0].song_id, None);
    assert!(results[0].errors[0].contains("Missing required field: id"));
}

#[test]
fn test_batch_validate_songs_collects_both_reasons() {
    // the second song repeats the identifier and carries an empty title:
    // both reasons are listed, the duplicate first
    let json = r#"[
        {
            "id": "x",
            "title": "Test Song 1",
            "albumName": "Test Album",
            "releaseType": "Independent",
            "hasContentId": false,
            "streamingLink": "https://example.com",
            "license": ""
        },
        {
            "id": "x",
            "title": "",
            "albumName": "Test Album",
            "releaseType": "NCS",
            "hasContentId": false,
            "streamingLink": "https://example.com",
            "license": ""
        }
    ]"#;
    let results = batch_validate_songs(json).unwrap();
    assert_eq!(results[0].valid, true);
    assert_eq!(results[1].valid, false);
    assert_eq!(results[1].errors.len(), 2);
    assert!(results[1].errors[0].contains("Duplicate ID 'x'"));
    assert!(results[1].errors[1].contains("Field 'title' cannot be empty"));
}

#[test]
fn test_comprehensive_validation_workflow() {
    // 1. Individual song validation
    let valid_song = r#"{
        "id": "song-001",
        "title": "Test Song",
        "albumName": "Test Album",
        "releaseType": "Independent",
        "hasContentId": false,
        "streamingLink": "https://example.com",
        "license": "CC BY 4.0"
    }"#;

    let song_result = validate_song(valid_song);
    assert_eq!(song_result, "");

    // 2. Music data validation
    let music_data = r#"{
        "songs": [
            {
                "id": "song-001",
                "title": "Test Song 1",
                "albumName": "Test Album",
                "releaseType": "Independent",
                "hasContentId": false,
                "streamingLink": "https://example.com",
                "license": "CC BY 4.0"
            },
            {
                "id": "song-002",
                "title": "Test Song 2",
                "albumName": "Another Album",
                "releaseType": "NCS",
                "hasContentId": true,
                "streamingLink": "https://example.com/2",
                "license": ""
            }
        ],
        "albums": []
    }"#;

    let data_result = validate_music_data(music_data);
    assert_eq!(data_result, "");

    // 3. Batch validation
    let songs_batch = r#"[
        {
            "id": "song-001",
            "title": "Test Song 1",
            "albumName": "Test Album",
            "releaseType": "Independent",
            "hasContentId": false,
            "streamingLink": "https://example.com",
            "license": "CC BY 4.0"
        },
        {
            "id": "song-002",
            "title": "Test Song 2",
            "albumName": "Another Album",
            "releaseType": "NCS",
            "hasContentId": true,
            "streamingLink": "https://example.com/2",
            "license": ""
        }
    ]"#;

    let results = batch_validate_songs(songs_batch).unwrap();
    assert_eq!(results.len(), 2);

    // Both songs should be valid
    for item in &results {
        assert_eq!(item.valid, true);
    }
}

#[test]
fn test_library_reports_ready() {
    assert!(music_catalog::is_initialized());
}

#[test]
fn test_get_version() {
    assert_eq!(music_catalog::get_version(), "0.1.0");
}
