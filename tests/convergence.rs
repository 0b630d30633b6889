use music_library::library::Library;
use music_library::song::Song;
use music_library::plan::plan_validation;
use music_library::validate::{Action, Convergence, Stage};

fn song(id: &str, artist: &str, album: &str, title: &str, location: &str) -> Song {
    Song {
        id: id.to_string(),
        title: title.to_string(),
        genre: "g".to_string(),
        artist: artist.to_string(),
        album: album.to_string(),
        duration: 100,
        rating: 1,
        file_location: location.to_string(),
    }
}

struct Outcome {
    copies: usize,
    deletes: usize,
    saves: usize,
    library: Library,
}

/// Drives a run against an in-memory store; `fail_copies` makes every copy fail.
fn run(library: Library, store: &mut Vec<String>, fail_copies: bool, fail_saves: bool) -> Outcome {
    let mut conv = Convergence::new(library, store);
    let mut copies = 0;
    let mut deletes = 0;
    let mut saves = 0;
    loop {
        let ok = match conv.next_action() {
            Action::Copy { from, to } => {
                copies += 1;
                if fail_copies || !store.contains(&from) {
                    false
                } else {
                    if !store.contains(&to) {
                        store.push(to);
                    }
                    true
                }
            }
            Action::Upload { .. } => panic!("a validation run uploads nothing"),
            Action::Save => {
                saves += 1;
                !fail_saves
            }
            Action::Delete { path } => {
                deletes += 1;
                match store.iter().position(|p| *p == path) {
                    Some(i) => {
                        store.remove(i);
                        true
                    }
                    None => false,
                }
            }
            Action::Done => break,
        };
        conv.complete(ok);
    }
    Outcome { copies, deletes, saves, library: Library { songs: conv.library().songs.clone() } }
}

#[test]
fn stray_object_is_deleted() {
    let library = Library { songs: vec![song("id1", "x", "y", "a", "/x-y-a-id1.mp3")] };
    let mut store = vec!["/x-y-a-id1.mp3".to_string(), "/stray.mp3".to_string()];
    let out = run(library, &mut store, false, false);
    assert_eq!(store, vec!["/x-y-a-id1.mp3".to_string()]);
    assert_eq!(out.copies, 0);
    assert_eq!(out.deletes, 1);
    assert_eq!(out.library.songs[0].file_location, "/x-y-a-id1.mp3");
}

#[test]
fn misplaced_track_is_moved() {
    let library = Library { songs: vec![song("id1", "x", "y", "a", "/wrong-name.mp3")] };
    let mut store = vec!["/wrong-name.mp3".to_string()];
    let out = run(library, &mut store, false, false);
    assert_eq!(out.library.songs[0].file_location, "/x-y-a-id1.mp3");
    assert_eq!(store, vec!["/x-y-a-id1.mp3".to_string()]);
    assert_eq!(out.copies, 1);
    assert_eq!(out.deletes, 1);
}

#[test]
fn second_run_is_idle() {
    let library = Library {
        songs: vec![
            song("id1", "x", "y", "a", "/wrong-name.mp3"),
            song("id2", "x", "y", "b", "/x-y-b-id2.mp3"),
            song("id3", "x", "y", "c", "/gone.mp3"),
        ],
    };
    let mut store = vec!["/wrong-name.mp3".to_string(), "/x-y-b-id2.mp3".to_string(), "/stray".to_string()];
    let first = run(library, &mut store, false, false);
    assert_eq!(first.library.songs.len(), 2);
    let second = run(first.library, &mut store, false, false);
    assert_eq!(second.copies, 0);
    assert_eq!(second.deletes, 0);
    assert_eq!(second.saves, 1);
    assert_eq!(second.library.songs.len(), 2);
}

#[test]
fn missing_track_is_dropped() {
    let library = Library {
        songs: vec![song("id1", "x", "y", "a", "/x-y-a-id1.mp3"), song("id2", "x", "y", "b", "/lost.mp3")],
    };
    let mut store = vec!["/x-y-a-id1.mp3".to_string()];
    let plan = plan_validation(&library, &store);
    assert_eq!(plan.missing, vec![1]);
    assert!(plan.misplaced.is_empty());
    let out = run(library, &mut store, false, false);
    assert_eq!(out.library.songs.len(), 1);
    assert_eq!(out.library.songs[0].id, "id1");
    assert_eq!(out.copies, 0);
}

#[test]
fn failed_copy_keeps_old_location() {
    let library = Library { songs: vec![song("id1", "x", "y", "a", "/wrong.mp3")] };
    let mut store = vec!["/wrong.mp3".to_string()];
    let out = run(library, &mut store, true, false);
    assert_eq!(out.library.songs[0].file_location, "/wrong.mp3");
    assert_eq!(out.deletes, 0);
    assert_eq!(store, vec!["/wrong.mp3".to_string()]);
}

#[test]
fn failed_final_save_deletes_nothing() {
    let library = Library { songs: vec![song("id1", "x", "y", "a", "/wrong.mp3")] };
    let mut store = vec!["/wrong.mp3".to_string(), "/stray".to_string()];
    let out = run(library, &mut store, false, true);
    assert_eq!(out.deletes, 0);
    assert_eq!(out.copies, 1);
    assert!(store.contains(&"/wrong.mp3".to_string()));
    assert!(store.contains(&"/stray".to_string()));
}

#[test]
fn leftover_copy_target_is_not_an_orphan() {
    let library = Library { songs: vec![song("id1", "x", "y", "a", "/wrong.mp3")] };
    let store = vec!["/wrong.mp3".to_string(), "/x-y-a-id1.mp3".to_string()];
    let plan = plan_validation(&library, &store);
    assert!(plan.orphans.is_empty());
    assert_eq!(plan.misplaced, vec![0]);
}

#[test]
fn orphans_are_listed_once() {
    let library = Library { songs: Vec::new() };
    let store = vec!["/a".to_string(), "/b".to_string(), "/a".to_string()];
    let plan = plan_validation(&library, &store);
    assert_eq!(plan.orphans, vec!["/a".to_string(), "/b".to_string()]);
}

#[test]
fn checkpoints_every_hundred_moves() {
    let mut songs = Vec::new();
    let mut store = Vec::new();
    for i in 0..250 {
        let location = format!("/old{}.mp3", i);
        songs.push(song(&format!("id{}", i), "x", "y", "t", &location));
        store.push(location);
    }
    let out = run(Library { songs }, &mut store, false, false);
    assert_eq!(out.copies, 250);
    assert_eq!(out.saves, 3);
    assert_eq!(out.deletes, 250);
    assert_eq!(store.len(), 250);
}

#[test]
fn empty_plan_goes_straight_to_final_save() {
    let conv = Convergence::new(Library { songs: Vec::new() }, &Vec::new());
    assert_eq!(conv.stage(), Stage::FinalSave);
    assert!(matches!(conv.next_action(), Action::Save));
}

#[test]
fn failed_checkpoint_stops_the_run() {
    let mut songs = Vec::new();
    let mut store = Vec::new();
    for i in 0..150 {
        let location = format!("/old{}.mp3", i);
        songs.push(song(&format!("id{}", i), "x", "y", "t", &location));
        store.push(location);
    }
    store.push("/stray".to_string());
    let mut conv = Convergence::new(Library { songs }, &store);
    let mut copies = 0;
    loop {
        match conv.next_action() {
            Action::Copy { .. } => {
                copies += 1;
                conv.complete(true);
            }
            Action::Save => {
                conv.complete(false);
            }
            Action::Delete { .. } => panic!("nothing may be deleted after a failed save"),
            Action::Upload { .. } => panic!("a validation run uploads nothing"),
            Action::Done => break,
        }
    }
    assert_eq!(copies, 100);
    assert_eq!(conv.stage(), Stage::Done);
}
