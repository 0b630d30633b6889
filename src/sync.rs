//! Applying a diff: uploads, the new collection, and deletes.

use vstd::prelude::*;

use crate::library::{is_combination, merged_songs, Library};
use crate::reconcile::{pair_views, Diff};
use crate::song::{derived_location, song_views, Song, SongView};
use crate::plan::{contains_position, positions, pruned, relocated, string_views};
use crate::validate::Action;

verus! {

/// Where a sync run stands.
#[derive(Clone, Copy, Debug, PartialEq, Eq, Structural)]
pub enum SyncStage {
    /// Uploading the new song with this rank.
    Uploading(usize),
    /// Saving the new collection.
    Save,
    /// Deleting the object of the removed song with this rank.
    Deleting(usize),
    /// Finished, or stopped because the save failed.
    Done,
}

/// Applies a diff: uploads each new song from the local export to its
/// canonical path, saves the new collection without the songs whose upload
/// failed, then deletes the objects of the removed songs.
pub struct SyncRun {
    library: Library,
    first_new: usize,
    prefix: String,
    removed: Vec<String>,
    failed: Vec<usize>,
    stage: SyncStage,
}

impl SyncRun {
    /// The collection as the run has changed it so far.
    pub closed spec fn songs(&self) -> Seq<SongView> {
        self.library@
    }

    /// Position of the first new song.
    pub closed spec fn first_new(&self) -> int {
        self.first_new as int
    }

    /// The local directory that export locations are relative to.
    pub closed spec fn prefix(&self) -> Seq<char> {
        self.prefix@
    }

    /// The locations of the removed songs.
    pub closed spec fn removed(&self) -> Seq<Seq<char>> {
        string_views(self.removed@)
    }

    /// Positions of the new songs whose upload failed.
    pub closed spec fn failed(&self) -> Seq<int> {
        positions(self.failed@)
    }

    /// Where the run stands.
    pub closed spec fn stage_of(&self) -> SyncStage {
        self.stage
    }

    /// Stage ranks lie inside the lists they index.
    pub closed spec fn wf(&self) -> bool {
        match self.stage {
            SyncStage::Uploading(k) => self.first_new + k < self.library.songs@.len(),
            SyncStage::Deleting(j) => j < self.removed@.len(),
            _ => true,
        }
    }

    /// Starts a sync run: combines the diff's matched and new songs, and
    /// notes the locations of the removed songs.
    pub fn new(diff: &Diff, prefix: String) -> (r: SyncRun)
        ensures
            r.wf(),
            is_combination(pair_views(diff.matched@), song_views(diff.new_songs@), r.songs()),
            r.first_new() == merged_songs(pair_views(diff.matched@)).len(),
            r.prefix() == prefix@,
            r.removed() == song_views(diff.removed_songs@).map_values(|s: SongView| s.file_location),
            r.failed().len() == 0,
            r.stage_of() == if diff.new_songs@.len() > 0 {
                SyncStage::Uploading(0)
            } else {
                SyncStage::Save
            },
    {
        let library = Library::combine_libraries(&diff.matched, &diff.new_songs);
        let first_new = library.songs.len() - diff.new_songs.len();
        let mut removed: Vec<String> = Vec::new();
        let mut i: usize = 0;
        while i < diff.removed_songs.len()
            invariant
                i <= diff.removed_songs.len(),
                string_views(removed@) == song_views(diff.removed_songs@).subrange(0, i as int).map_values(
                    |s: SongView| s.file_location,
                ),
            decreases diff.removed_songs.len() - i,
        {
            removed.push(diff.removed_songs[i].file_location.clone());
            assert(string_views(removed@) == string_views(removed@.drop_last()).push(
                diff.removed_songs@[i as int].file_location@,
            ));
            let ghost pre = song_views(diff.removed_songs@).subrange(0, i as int);
            let ghost x = diff.removed_songs@[i as int]@;
            assert(song_views(diff.removed_songs@).subrange(0, i + 1) == pre.push(x));
            assert(pre.push(x).map_values(|s: SongView| s.file_location) =~= pre.map_values(
                |s: SongView| s.file_location,
            ).push(x.file_location));
            i = i + 1;
        }
        assert(song_views(diff.removed_songs@).subrange(0, i as int) == song_views(
            diff.removed_songs@,
        ));
        let stage = if diff.new_songs.len() > 0 {
            SyncStage::Uploading(0)
        } else {
            SyncStage::Save
        };
        SyncRun { library, first_new, prefix, removed, failed: Vec::new(), stage }
    }

    /// The collection as the run has changed it so far.
    pub fn library(&self) -> (r: &Library)
        ensures
            r@ == self.songs(),
    {
        &self.library
    }

    /// Where the run stands.
    pub fn stage(&self) -> (r: SyncStage)
        ensures
            r == self.stage_of(),
    {
        self.stage
    }

    /// The operation the run needs next.
    pub fn next_action(&self) -> (r: Action)
        requires
            self.wf(),
        ensures
            match self.stage_of() {
                SyncStage::Uploading(k) => r matches Action::Upload { local, to } && local@
                    == self.prefix() + self.songs()[self.first_new() + k].file_location && to@
                    == derived_location(self.songs()[self.first_new() + k]),
                SyncStage::Save => r is Save,
                SyncStage::Deleting(j) => r matches Action::Delete { path } && path@ == self.removed()[j as int],
                SyncStage::Done => r is Done,
            },
    {
        match self.stage {
            SyncStage::Uploading(k) => {
                let n = self.library.songs.len();
                assert(self.first_new + k < n);
                let song = &self.library.songs[self.first_new + k];
                let mut local = self.prefix.clone();
                local.append(song.file_location.as_str());
                Action::Upload { local, to: song.correct_file_location() }
            },
            SyncStage::Save => Action::Save,
            SyncStage::Deleting(j) => Action::Delete { path: self.removed[j].clone() },
            SyncStage::Done => Action::Done,
        }
    }

    /// Records whether the operation `next_action` asked for succeeded, and
    /// moves on. A song whose upload failed leaves the collection before the
    /// save; a failed save ends the run before any delete; a failed delete is
    /// passed over.
    pub fn complete(&mut self, succeeded: bool)
        requires
            old(self).wf(),
        ensures
            final(self).wf(),
            final(self).first_new() == old(self).first_new(),
            final(self).prefix() == old(self).prefix(),
            final(self).removed() == old(self).removed(),
            match old(self).stage_of() {
                SyncStage::Uploading(k) => {
                    let i = old(self).first_new() + k;
                    let s = old(self).songs()[i];
                    let uploaded = if succeeded {
                        old(self).songs().update(i, relocated(s))
                    } else {
                        old(self).songs()
                    };
                    let failed = if succeeded {
                        old(self).failed()
                    } else {
                        old(self).failed().push(i)
                    };
                    &&& final(self).failed() == failed
                    &&& if i + 1 < old(self).songs().len() {
                        &&& final(self).songs() == uploaded
                        &&& final(self).stage_of() == SyncStage::Uploading((k + 1) as usize)
                    } else {
                        &&& final(self).songs() == pruned(uploaded, failed)
                        &&& final(self).stage_of() == SyncStage::Save
                    }
                },
                SyncStage::Save => {
                    &&& final(self).songs() == old(self).songs()
                    &&& final(self).stage_of() == if succeeded && old(self).removed().len() > 0 {
                        SyncStage::Deleting(0)
                    } else {
                        SyncStage::Done
                    }
                },
                SyncStage::Deleting(j) => {
                    &&& final(self).songs() == old(self).songs()
                    &&& final(self).stage_of() == if j + 1 < old(self).removed().len() {
                        SyncStage::Deleting((j + 1) as usize)
                    } else {
                        SyncStage::Done
                    }
                },
                SyncStage::Done => {
                    &&& final(self).songs() == old(self).songs()
                    &&& final(self).stage_of() == SyncStage::Done
                },
            },
    {
        match self.stage {
            SyncStage::Uploading(k) => {
                let n = self.library.songs.len();
                assert(self.first_new + k < n);
                let i = self.first_new + k;
                if succeeded {
                    let mut song = self.library.songs[i].duplicate();
                    song.file_location = song.correct_file_location();
                    let ghost before = self.library.songs@;
                    self.library.songs.set(i, song);
                    assert(song_views(self.library.songs@) == song_views(before).update(
                        i as int,
                        song@,
                    ));
                } else {
                    self.failed.push(i);
                    assert(positions(self.failed@) == positions(self.failed@.drop_last()).push(
                        i as int,
                    ));
                }
                if i + 1 < n {
                    self.stage = SyncStage::Uploading(k + 1);
                } else {
                    self.stage = SyncStage::Save;
                    self.drop_failed();
                }
            },
            SyncStage::Save => {
                if succeeded && self.removed.len() > 0 {
                    self.stage = SyncStage::Deleting(0);
                } else {
                    self.stage = SyncStage::Done;
                }
            },
            SyncStage::Deleting(j) => {
                let n = self.removed.len();
                assert(j < n);
                if j + 1 < n {
                    self.stage = SyncStage::Deleting(j + 1);
                } else {
                    self.stage = SyncStage::Done;
                }
            },
            SyncStage::Done => {},
        }
    }

    /// Removes the songs whose upload failed.
    fn drop_failed(&mut self)
        ensures
            final(self).library@ == pruned(old(self).library@, positions(old(self).failed@)),
            final(self).first_new == old(self).first_new,
            final(self).prefix == old(self).prefix,
            final(self).removed == old(self).removed,
            final(self).failed == old(self).failed,
            final(self).stage == old(self).stage,
    {
        let ghost before = self.library@;
        let ghost dropped = positions(self.failed@);
        let mut kept: Vec<Song> = Vec::new();
        let mut i: usize = 0;
        while i < self.library.songs.len()
            invariant
                i <= self.library.songs.len(),
                before == self.library@,
                dropped == positions(self.failed@),
                song_views(kept@) == pruned(before.subrange(0, i as int), dropped),
            decreases self.library.songs.len() - i,
        {
            let ghost pre = before.subrange(0, i + 1);
            assert(pre.drop_last() == before.subrange(0, i as int));
            assert(pre.last() == self.library.songs@[i as int]@);
            if !contains_position(&self.failed, i) {
                kept.push(self.library.songs[i].duplicate());
                assert(song_views(kept@) == song_views(kept@.drop_last()).push(
                    self.library.songs@[i as int]@,
                ));
            }
            i = i + 1;
        }
        assert(before.subrange(0, self.library.songs.len() as int) == before);
        self.library = Library { songs: kept };
    }
}

} // verus!
