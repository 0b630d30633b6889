use music_library::reconcile::diff_libraries;
use music_library::song::Song;
use music_library::sync::{SyncRun, SyncStage};
use music_library::validate::Action;

fn song(id: &str, title: &str, location: &str) -> Song {
    Song {
        id: id.to_string(),
        title: title.to_string(),
        genre: "g".to_string(),
        artist: "x".to_string(),
        album: "y".to_string(),
        duration: 100,
        rating: 1,
        file_location: location.to_string(),
    }
}

#[test]
fn uploads_new_saves_and_deletes_removed() {
    let source = vec![song("", "a", "/x/y/a.mp3"), song("", "b", "/x/y/b.mp3")];
    let canonical = vec![song("id1", "a", "/x-y-a-id1.mp3"), song("id2", "gone", "/x-y-gone-id2.mp3")];
    let diff = diff_libraries(&source, &canonical);
    let mut run = SyncRun::new(&diff, "/home/me/Music".to_string());
    assert_eq!(run.stage(), SyncStage::Uploading(0));
    let new_id;
    match run.next_action() {
        Action::Upload { local, to } => {
            assert_eq!(local, "/home/me/Music/x/y/b.mp3");
            new_id = run.library().songs[1].id.clone();
            assert_eq!(to, format!("/x-y-b-{}.mp3", new_id));
        }
        _ => panic!("expected an upload"),
    }
    run.complete(true);
    assert!(matches!(run.next_action(), Action::Save));
    assert_eq!(run.library().songs.len(), 2);
    assert_eq!(run.library().songs[1].file_location, format!("/x-y-b-{}.mp3", new_id));
    run.complete(true);
    match run.next_action() {
        Action::Delete { path } => assert_eq!(path, "/x-y-gone-id2.mp3"),
        _ => panic!("expected a delete"),
    }
    run.complete(false);
    assert!(matches!(run.next_action(), Action::Done));
}

#[test]
fn failed_upload_leaves_song_out() {
    let source = vec![song("", "b", "/b.mp3")];
    let diff = diff_libraries(&source, &Vec::new());
    let mut run = SyncRun::new(&diff, "/m".to_string());
    run.complete(false);
    assert_eq!(run.stage(), SyncStage::Save);
    assert!(run.library().songs.is_empty());
    run.complete(true);
    assert_eq!(run.stage(), SyncStage::Done);
}

#[test]
fn failed_save_stops_before_deletes() {
    let canonical = vec![song("id2", "gone", "/gone.mp3")];
    let diff = diff_libraries(&Vec::new(), &canonical);
    let mut run = SyncRun::new(&diff, "/m".to_string());
    assert_eq!(run.stage(), SyncStage::Save);
    run.complete(false);
    assert!(matches!(run.next_action(), Action::Done));
}
