use music_catalog::group_by_album;
use music_catalog::model::Album;

#[test]
fn test_group_by_album() {
    let json = r#"[
        {
            "id": "song-001",
            "title": "Song 1",
            "albumName": "Album A",
            "releaseType": "Independent",
            "hasContentId": false,
            "streamingLink": "https://example.com",
            "license": ""
        },
        {
            "id": "song-002",
            "title": "Song 2",
            "albumName": "Album B",
            "releaseType": "NCS",
            "hasContentId": false,
            "streamingLink": "https://example.com",
            "license": ""
        },
        {
            "id": "song-003",
            "title": "Song 3",
            "albumName": "Album A",
            "releaseType": "Independent",
            "hasContentId": false,
            "streamingLink": "https://example.com",
            "license": ""
        }
    ]"#;

    let result = group_by_album(json);
    assert!(result.is_ok());

    let albums: Vec<Album> = result.unwrap();
    assert_eq!(albums.len(), 2);

    // Find Album A
    let album_a = albums.iter().find(|a| a.name == "Album A").unwrap();
    assert_eq!(album_a.songs.len(), 2);

    // Find Album B
    let album_b = albums.iter().find(|a| a.name == "Album B").unwrap();
    assert_eq!(album_b.songs.len(), 1);
}

#[test]
fn test_group_by_album_preserves_songs() {
    let json = r#"[
        {
            "id": "song-001",
            "title": "Song 1",
            "albumName": "Album A",
            "releaseType": "Independent",
            "hasContentId": false,
            "streamingLink": "https://example.com",
            "license": ""
        },
        {
            "id": "song-002",
            "title": "Song 2",
            "albumName": "Album A",
            "releaseType": "NCS",
            "hasContentId": false,
            "streamingLink": "https://example.com",
            "license": ""
        }
    ]"#;

    let albums = group_by_album(json).unwrap();

    // Count total songs
    let total_songs: usize = albums.iter().map(|a| a.songs.len()).sum();
    assert_eq!(total_songs, 2);

    // Verify all songs are present
    let all_songs: Vec<&music_catalog::model::Song> =
        albums.iter().flat_map(|a| &a.songs).collect();
    assert!(all_songs.iter().any(|s| s.id == "song-001"));
    assert!(all_songs.iter().any(|s| s.id == "song-002"));
}

#[test]
fn test_group_by_album_comprehensive_demo() {
    println!("\n=== Album Grouping Functionality Demo ===");

    let json = r#"[
        {
            "id": "song-001",
            "title": "Song 1",
            "albumName": "Album A",
            "releaseType": "Independent",
            "hasContentId": false,
            "streamingLink": "https://example.com",
            "license": ""
        },
        {
            "id": "song-002",
            "title": "Song 2",
            "albumName": "Album B",
            "releaseType": "NCS",
            "hasContentId": false,
            "streamingLink": "https://example.com",
            "license": ""
        },
        {
            "id": "song-003",
            "title": "Song 3",
            "albumName": "Album A",
            "releaseType": "Independent",
            "hasContentId": false,
            "streamingLink": "https://example.com",
            "license": ""
        }
    ]"#;

    println!("Input songs JSON:");
    println!("{}", json);

    let albums = group_by_album(json).unwrap();

    println!("\nAnalysis:");
    println!("- Number of albums: {}", albums.len());

    for (i, album) in albums.iter().enumerate() {
        println!("- Album {}: '{}' with {} songs", i + 1, album.name, album.songs.len());
        for song in &album.songs {
            println!("  - {}: {}", song.id, song.title);
        }
    }

    // Verify sorting
    let is_sorted = albums.windows(2).all(|w| w[0].name <= w[1].name);
    println!("- Albums sorted by name: {}", is_sorted);

    // Count total songs
    let total_songs: usize = albums.iter().map(|a| a.songs.len()).sum();
    println!("- Total songs preserved: {}", total_songs);

    // Assertions
    assert_eq!(albums.len(), 2);
    assert!(is_sorted);
    assert_eq!(total_songs, 3);

    let album_a = albums.iter().find(|a| a.name == "Album A").unwrap();
    let album_b = albums.iter().find(|a| a.name == "Album B").unwrap();
    assert_eq!(album_a.songs.len(), 2);
    assert_eq!(album_b.songs.len(), 1);
}

#[test]
fn test_group_by_album_empty() {
    let json = r#"[]"#;
    let albums = group_by_album(json).unwrap();
    assert_eq!(albums.len(), 0);
}

#[test]
fn test_group_by_album_performance_optimization() {
    // Test with a larger dataset
    let mut songs = Vec::new();

    // Create 100 songs across 10 albums
    for album_num in 1..=10 {
        for song_num in 1..=10 {
            songs.push(format!(
                r#"{{
                "id": "song-{:03}",
                "title": "Song {} from Album {}",
                "albumName": "Album {}",
                "releaseType": "Independent",
                "hasContentId": false,
                "streamingLink": "https://example.com",
                "license": ""
            }}"#,
                album_num * 10 + song_num,
                song_num,
                album_num,
                album_num
            ));
        }
    }

    let json = format!("[{}]", songs.join(","));

    let start = std::time::Instant::now();
    let albums = group_by_album(&json).unwrap();
    let duration = start.elapsed();

    println!("Grouped 100 songs into albums in {:?}", duration);

    assert_eq!(albums.len(), 10);

    // Verify each album has 10 songs
    for album in &albums {
        assert_eq!(album.songs.len(), 10);
    }

    // Verify sorting
    let is_sorted = albums.windows(2).all(|w| w[0].name <= w[1].name);
    assert!(is_sorted);

    // Verify total song count
    let total_songs: usize = albums.iter().map(|a| a.songs.len()).sum();
    assert_eq!(total_songs, 100);
}

#[test]
fn test_group_by_album_exact_order() {
    let json = r#"[
        {"id": "1", "title": "T1", "albumName": "A", "releaseType": "Independent",
         "hasContentId": false, "streamingLink": "https://e.com", "license": ""},
        {"id": "2", "title": "T2", "albumName": "B", "releaseType": "Independent",
         "hasContentId": false, "streamingLink": "https://e.com", "license": ""},
        {"id": "3", "title": "T3", "albumName": "A", "releaseType": "Independent",
         "hasContentId": false, "streamingLink": "https://e.com", "license": ""}
    ]"#;
    let albums = group_by_album(json).unwrap();
    assert_eq!(albums.len(), 2);
    assert_eq!(albums[0].name, "A");
    assert_eq!(albums[0].songs.len(), 2);
    assert_eq!(albums[0].songs[0].id, "1");
    assert_eq!(albums[0].songs[1].id, "3");
    assert_eq!(albums[1].name, "B");
    assert_eq!(albums[1].songs.len(), 1);
    assert_eq!(albums[1].songs[0].id, "2");
}

#[test]
fn test_group_by_album_name_is_significant() {
    // grouping keys are exact: case and whitespace both matter
    let json = r#"[
        {"id": "1", "title": "T1", "albumName": "album", "releaseType": "Independent",
         "hasContentId": false, "streamingLink": "https://e.com", "license": ""},
        {"id": "2", "title": "T2", "albumName": "Album", "releaseType": "Independent",
         "hasContentId": false, "streamingLink": "https://e.com", "license": ""},
        {"id": "3", "title": "T3", "albumName": " Album", "releaseType": "Independent",
         "hasContentId": false, "streamingLink": "https://e.com", "license": ""}
    ]"#;
    let albums = group_by_album(json).unwrap();
    assert_eq!(albums.len(), 3);
    assert_eq!(albums[0].name, " Album");
    assert_eq!(albums[1].name, "Album");
    assert_eq!(albums[2].name, "album");
}

#[test]
fn test_group_by_album_malformed() {
    let err = group_by_album("not json").unwrap_err();
    assert!(err.contains("Invalid JSON"));

    let err = group_by_album("{}").unwrap_err();
    assert!(err.contains("Invalid JSON"));
}
