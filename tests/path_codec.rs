use music_library::song::Song;

fn song(artist: &str, album: &str, title: &str, id: &str, location: &str) -> Song {
    Song {
        id: id.to_string(),
        title: title.to_string(),
        genre: "Rock".to_string(),
        artist: artist.to_string(),
        album: album.to_string(),
        duration: 100,
        rating: 5,
        file_location: location.to_string(),
    }
}

#[test]
fn derives_lowercase_example() {
    let s = song("x", "y", "a", "id1", "/wrong-name.mp3");
    assert_eq!(s.correct_file_location(), "/x-y-a-id1.mp3");
    assert!(!s.has_correct_file_location());
}

#[test]
fn collapses_runs_of_other_characters() {
    let s = song("AC/DC", "Back  in  Black!", "Hells -- Bells", "Ab12", "/music/track.flac");
    assert_eq!(s.correct_file_location(), "/AC-DC-Back-in-Black-Hells-Bells-Ab12.flac");
}

#[test]
fn replaces_non_ascii_characters() {
    let s = song("Björk", "Début", "Human Behaviour", "id9", "/x.ogg");
    assert_eq!(s.correct_file_location(), "/Bj-rk-D-but-Human-Behaviour-id9.ogg");
}

#[test]
fn location_without_dot_has_no_extension() {
    let s = song("A", "B", "C", "D", "/no_extension");
    assert_eq!(s.correct_file_location(), "/A-B-C-D");
}

#[test]
fn extension_starts_at_last_dot() {
    let s = song("A", "B", "C", "D", "/dir.v2/file.tar.gz");
    assert_eq!(s.correct_file_location(), "/A-B-C-D.gz");
    let t = song("A", "B", "C", "D", "/dir.v2/file");
    assert_eq!(t.correct_file_location(), "/A-B-C-D.v2/file");
}

#[test]
fn leading_and_trailing_specials_become_single_dashes() {
    let s = song("!Artist", "Album", "Title?", "", "/t.mp3");
    assert_eq!(s.correct_file_location(), "/-Artist-Album-Title-.mp3");
}

#[test]
fn empty_fields_collapse_separators() {
    let s = song("", "", "", "", "");
    assert_eq!(s.correct_file_location(), "/-");
}

#[test]
fn correct_location_is_valid() {
    let s = song("x", "y", "a", "id1", "/x-y-a-id1.mp3");
    assert!(s.has_correct_file_location());
}

#[test]
fn derivation_is_idempotent() {
    let mut s = song("Some Artist", "An Album", "A Title", "q1W2e3R4t5Y6u7I8", "/local/path/file.mp3");
    let first = s.correct_file_location();
    s.file_location = first.clone();
    assert_eq!(s.correct_file_location(), first);
    assert!(s.has_correct_file_location());
}

#[test]
fn derivation_ignores_genre_rating_and_duration() {
    let a = song("x", "y", "a", "id1", "/one.mp3");
    let mut b = song("x", "y", "a", "id1", "/other.mp3");
    b.genre = "Jazz".to_string();
    b.rating = 1;
    b.duration = 7;
    assert_eq!(a.correct_file_location(), b.correct_file_location());
}

#[test]
fn duplicate_copies_every_field() {
    let a = song("x", "y", "a", "id1", "/one.mp3");
    assert_eq!(a.duplicate(), a);
}
