use music_library::library::Library;
use music_library::reconcile::diff_libraries;
use music_library::song::Song;

#[allow(clippy::too_many_arguments)]
fn song(
    id: &str,
    title: &str,
    artist: &str,
    album: &str,
    duration: u32,
    genre: &str,
    rating: u32,
    location: &str,
) -> Song {
    Song {
        id: id.to_string(),
        title: title.to_string(),
        genre: genre.to_string(),
        artist: artist.to_string(),
        album: album.to_string(),
        duration,
        rating,
        file_location: location.to_string(),
    }
}

fn is_alphanumeric_id(id: &str) -> bool {
    id.chars().count() == 16 && id.chars().all(|c| c.is_ascii_alphanumeric())
}

#[test]
fn new_track_into_empty_library() {
    let source = vec![song("", "A", "X", "Y", 100, "Rock", 5, "/a.mp3")];
    let canonical: Vec<Song> = Vec::new();
    let diff = diff_libraries(&source, &canonical);
    assert!(diff.matched.is_empty());
    assert!(diff.removed_songs.is_empty());
    assert_eq!(diff.new_songs, source);

    let combined = Library::combine_libraries(&diff.matched, &diff.new_songs);
    assert_eq!(combined.songs.len(), 1);
    let s = &combined.songs[0];
    assert_eq!(s.id.chars().count(), 16);
    assert!(is_alphanumeric_id(&s.id));
    assert_eq!(s.title, "A");
    assert_eq!(s.genre, "Rock");
    assert_eq!(s.rating, 5);
    assert_eq!(s.file_location, "/a.mp3");
}

#[test]
fn matched_track_takes_curated_fields_from_export() {
    let source = vec![song("", "A", "X", "Y", 100, "Pop", 3, "/local/a.mp3")];
    let canonical = vec![song("id1", "A", "X", "Y", 100, "Rock", 5, "/id1-a.mp3")];
    let diff = diff_libraries(&source, &canonical);
    assert_eq!(diff.matched.len(), 1);
    assert!(diff.new_songs.is_empty());
    assert!(diff.removed_songs.is_empty());
    assert_eq!(diff.matched[0].0, source[0]);
    assert_eq!(diff.matched[0].1, canonical[0]);

    let combined = Library::combine_libraries(&diff.matched, &diff.new_songs);
    assert_eq!(combined.songs.len(), 1);
    let merged = &combined.songs[0];
    assert_eq!(merged.genre, "Pop");
    assert_eq!(merged.rating, 3);
    assert_eq!(merged.id, "id1");
    assert_eq!(merged.file_location, "/id1-a.mp3");
    assert_eq!(merged.title, "A");
    assert_eq!(merged.artist, "X");
    assert_eq!(merged.album, "Y");
    assert_eq!(merged.duration, 100);
}

#[test]
fn diff_partitions_both_sides() {
    let source = vec![
        song("", "A", "X", "Y", 100, "g", 1, "/1"),
        song("", "B", "X", "Y", 200, "g", 1, "/2"),
        song("", "C", "X", "Y", 300, "g", 1, "/3"),
    ];
    let canonical = vec![
        song("c1", "A", "X", "Y", 100, "g", 1, "/c1"),
        song("c2", "D", "X", "Y", 400, "g", 1, "/c2"),
        song("c3", "C", "X", "Y", 300, "g", 1, "/c3"),
    ];
    let diff = diff_libraries(&source, &canonical);
    assert_eq!(diff.matched.len() + diff.new_songs.len(), source.len());
    let matched_canonical: Vec<String> = diff.matched.iter().map(|p| p.1.id.clone()).collect();
    assert_eq!(matched_canonical, vec!["c1".to_string(), "c3".to_string()]);
    assert_eq!(diff.new_songs.len(), 1);
    assert_eq!(diff.new_songs[0].title, "B");
    assert_eq!(diff.removed_songs.len(), 1);
    assert_eq!(diff.removed_songs[0].id, "c2");
}

#[test]
fn duration_mismatch_gives_new_and_removed() {
    let source = vec![song("", "A", "X", "Y", 101, "g", 1, "/1")];
    let canonical = vec![song("c1", "A", "X", "Y", 100, "g", 1, "/c1")];
    let diff = diff_libraries(&source, &canonical);
    assert!(diff.matched.is_empty());
    assert_eq!(diff.new_songs.len(), 1);
    assert_eq!(diff.removed_songs.len(), 1);
}

#[test]
fn empty_on_both_sides() {
    let diff = diff_libraries(&Vec::new(), &Vec::new());
    assert!(diff.matched.is_empty() && diff.new_songs.is_empty() && diff.removed_songs.is_empty());
    let combined = Library::combine_libraries(&diff.matched, &diff.new_songs);
    assert!(combined.songs.is_empty());
}

#[test]
fn combine_counts_and_distinct_ids() {
    let pairs = vec![
        (song("", "A", "X", "Y", 1, "p", 2, "/l1"), song("c1", "A", "X", "Y", 1, "q", 4, "/c1")),
        (song("", "B", "X", "Y", 2, "p", 3, "/l2"), song("c2", "B", "X", "Y", 2, "q", 4, "/c2")),
    ];
    let new_songs = vec![
        song("c1", "N1", "X", "Y", 5, "g", 1, "/n1"),
        song("", "N2", "X", "Y", 6, "g", 1, "/n2"),
        song("", "N3", "X", "Y", 7, "g", 1, "/n3"),
    ];
    let combined = Library::combine_libraries(&pairs, &new_songs);
    assert_eq!(combined.songs.len(), 5);
    assert_eq!(combined.songs[0].id, "c1");
    assert_eq!(combined.songs[0].rating, 2);
    assert_eq!(combined.songs[1].id, "c2");
    assert_eq!(combined.songs[1].genre, "p");
    for (k, s) in combined.songs[2..].iter().enumerate() {
        assert_eq!(s.title, new_songs[k].title);
        assert_eq!(s.file_location, new_songs[k].file_location);
        assert!(is_alphanumeric_id(&s.id));
    }
    for i in 0..combined.songs.len() {
        for j in (i + 1)..combined.songs.len() {
            assert_ne!(combined.songs[i].id, combined.songs[j].id);
        }
    }
}

#[test]
fn repeated_canonical_id_keeps_last_pair() {
    let canonical = song("c1", "A", "X", "Y", 1, "q", 4, "/c1");
    let pairs = vec![
        (song("", "A", "X", "Y", 1, "first", 1, "/l1"), canonical.clone()),
        (song("", "A", "X", "Y", 1, "second", 2, "/l2"), canonical.clone()),
    ];
    let combined = Library::combine_libraries(&pairs, &Vec::new());
    assert_eq!(combined.songs.len(), 1);
    assert_eq!(combined.songs[0].genre, "second");
    assert_eq!(combined.songs[0].rating, 2);
}

#[test]
fn new_song_id_is_fresh() {
    let library = Library {
        songs: vec![song("abc", "A", "X", "Y", 1, "g", 1, "/a"), song("def", "B", "X", "Y", 1, "g", 1, "/b")],
    };
    let id = library.new_song_id();
    assert_eq!(id.chars().count(), 16);
    assert!(is_alphanumeric_id(&id));
    assert!(library.songs.iter().all(|s| s.id != id));
}

#[test]
fn finds_song_by_id() {
    let library = Library {
        songs: vec![song("abc", "A", "X", "Y", 1, "g", 1, "/a"), song("def", "B", "X", "Y", 1, "g", 1, "/b")],
    };
    assert_eq!(library.song_with_id(&"def".to_string()).unwrap().title, "B");
    assert!(library.song_with_id(&"zzz".to_string()).is_none());
}

#[test]
fn distinct_ids_check() {
    let ok = Library { songs: vec![song("a", "A", "X", "Y", 1, "g", 1, "/a"), song("b", "B", "X", "Y", 1, "g", 1, "/b")] };
    assert!(ok.has_distinct_ids());
    let bad = Library { songs: vec![song("a", "A", "X", "Y", 1, "g", 1, "/a"), song("a", "B", "X", "Y", 1, "g", 1, "/b")] };
    assert!(!bad.has_distinct_ids());
    assert!(Library { songs: Vec::new() }.has_distinct_ids());
}
