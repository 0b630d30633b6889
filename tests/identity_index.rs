use music_library::index::LibraryHash;
use music_library::song::Song;

fn track(id: &str, title: &str, artist: &str, album: &str, duration: u32) -> Song {
    Song {
        id: id.to_string(),
        title: title.to_string(),
        genre: String::new(),
        artist: artist.to_string(),
        album: album.to_string(),
        duration,
        rating: 0,
        file_location: format!("/{}.mp3", id),
    }
}

#[test]
fn finds_every_member_of_its_collection() {
    let songs = vec![
        track("1", "A", "X", "Y", 100),
        track("2", "A", "Z", "Y", 100),
        track("3", "B", "X", "Y", 200),
        track("4", "C", "X", "W", 300),
    ];
    let index = LibraryHash::new(&songs);
    for s in &songs {
        let found = index.lookup(s).expect("member found");
        assert_eq!(found.title, s.title);
        assert_eq!(found.artist, s.artist);
        assert_eq!(found.album, s.album);
        assert_eq!(found.duration, s.duration);
    }
}

#[test]
fn same_identity_collapses_to_first() {
    let songs = vec![track("1", "A", "X", "Y", 100), track("2", "A", "X", "Y", 100)];
    let index = LibraryHash::new(&songs);
    let found = index.lookup(&songs[1]).unwrap();
    assert_eq!(found.id, "1");
}

#[test]
fn exact_match_only() {
    let songs = vec![track("1", "A", "X", "Y", 100)];
    let index = LibraryHash::new(&songs);
    assert!(index.lookup(&track("9", "A", "X", "Y", 101)).is_none());
    assert!(index.lookup(&track("9", "A", "X", "Q", 100)).is_none());
    assert!(index.lookup(&track("9", "B", "X", "Y", 100)).is_none());
    assert!(index.lookup(&track("9", "A", "x", "Y", 100)).is_none());
}

#[test]
fn id_takes_no_part_in_matching() {
    let songs = vec![track("1", "A", "X", "Y", 100)];
    let index = LibraryHash::new(&songs);
    assert_eq!(index.lookup(&track("other", "A", "X", "Y", 100)).unwrap().id, "1");
}

#[test]
fn empty_collection_finds_nothing() {
    let index = LibraryHash::new(&Vec::new());
    assert!(index.lookup(&track("1", "A", "X", "Y", 100)).is_none());
}
