//! The validation and repair run, as a machine stepped by its caller: the
//! caller performs each copy, save or delete and reports whether it succeeded.

use vstd::prelude::*;

use crate::library::Library;
use crate::plan::{
    contains_position, converged_remote, converged_songs, distinct_locations, is_move_source,
    is_move_target, is_moved, is_present, lemma_misplaced_ascending, lemma_misplaced_bounds,
    lemma_misplaced_contains, lemma_missing_contains, lemma_second_run_is_idle, misplaced_of,
    missing_of, orphans_of, plan_validation, positions, pruned, relocated, string_views,
    targets_are_free, ValidationPlan,
};
use crate::song::{derived_location, is_correctly_located, song_views, Song, SongView};

verus! {

/// After this many moves the collection is saved before the run goes on.
pub const CHECKPOINT_INTERVAL: usize = 100;

/// What the run asks of the outside world next.
pub enum Action {
    /// Copy the object at `from` to `to`.
    Copy { from: String, to: String },
    /// Upload the local file `local` to `to`.
    Upload { local: String, to: String },
    /// Persist the collection as it now stands.
    Save,
    /// Delete the object at `path`.
    Delete { path: String },
    /// Nothing is left to do.
    Done,
}

/// Where a validation run stands.
#[derive(Clone, Copy, Debug, PartialEq, Eq, Structural)]
pub enum Stage {
    /// Moving the misplaced song with this rank in the plan.
    Moving(usize),
    /// Saving a checkpoint; the move with this rank comes next.
    Checkpoint(usize),
    /// Saving the final collection.
    FinalSave,
    /// Deleting the old path with this rank.
    DeletingOld(usize),
    /// Deleting the orphan with this rank.
    DeletingOrphans(usize),
    /// Finished, or stopped because a save failed.
    Done,
}

/// The first deletion stage, or `Done` when there is nothing to delete.
pub open spec fn deletion_start(pending: nat, orphans: nat) -> Stage {
    if pending > 0 {
        Stage::DeletingOld(0)
    } else if orphans > 0 {
        Stage::DeletingOrphans(0)
    } else {
        Stage::Done
    }
}

/// A validation and repair run: the decisions between the outside operations.
pub struct Convergence {
    library: Library,
    plan: ValidationPlan,
    pending: Vec<String>,
    stage: Stage,
    initial: Ghost<Seq<SongView>>,
    listing: Ghost<Seq<Seq<char>>>,
    stored: Ghost<Set<Seq<char>>>,
    all_ok: Ghost<bool>,
    unsaved: Ghost<nat>,
}

impl Convergence {
    /// The collection as the run has changed it so far.
    pub closed spec fn songs(&self) -> Seq<SongView> {
        self.library@
    }

    /// The positions to move, as planned.
    pub closed spec fn moves(&self) -> Seq<int> {
        positions(self.plan.misplaced@)
    }

    /// The positions to drop, as planned.
    pub closed spec fn dropped(&self) -> Seq<int> {
        positions(self.plan.missing@)
    }

    /// The orphans to delete, as planned.
    pub closed spec fn orphans(&self) -> Seq<Seq<char>> {
        string_views(self.plan.orphans@)
    }

    /// The old paths of the songs moved so far.
    pub closed spec fn pending(&self) -> Seq<Seq<char>> {
        string_views(self.pending@)
    }

    /// Where the run stands.
    pub closed spec fn stage_of(&self) -> Stage {
        self.stage
    }

    /// The collection the run started from.
    pub closed spec fn initial(&self) -> Seq<SongView> {
        self.initial@
    }

    /// The remote listing the run started from.
    pub closed spec fn listing(&self) -> Seq<Seq<char>> {
        self.listing@
    }

    /// The stored paths, as the reported outcomes leave them.
    pub closed spec fn stored(&self) -> Set<Seq<char>> {
        self.stored@
    }

    /// Copies made since the last successful save, or since the start.
    pub closed spec fn unsaved_moves(&self) -> nat {
        self.unsaved@
    }

    /// Every operation so far succeeded.
    pub closed spec fn all_succeeded(&self) -> bool {
        self.all_ok@
    }

    /// While every operation succeeds, the collection, the stored paths and the
    /// old paths are what the steps taken so far make of the starting state.
    closed spec fn tracks_run(&self) -> bool {
        let l = self.initial@;
        let m = misplaced_of(l, self.listing@);
        let n = m.len() as int;
        let base = self.listing@.to_set();
        let pend = string_views(self.pending@);
        let done_songs = pruned(moved_prefix(l, m, n), missing_of(l, self.listing@));
        let copied = base.union(targets_before(l, m, n));
        match self.stage {
            Stage::Moving(k) => {
                &&& self.library@ == moved_prefix(l, m, k as int)
                &&& self.stored@ == base.union(targets_before(l, m, k as int))
                &&& pend == sources_before(l, m, k as int)
            },
            Stage::Checkpoint(k) => {
                &&& self.library@ == moved_prefix(l, m, k as int)
                &&& self.stored@ == base.union(targets_before(l, m, k as int))
                &&& pend == sources_before(l, m, k as int)
            },
            Stage::FinalSave => {
                &&& self.library@ == done_songs
                &&& self.stored@ == copied
                &&& pend == sources_before(l, m, n)
            },
            Stage::DeletingOld(j) => {
                &&& self.library@ == done_songs
                &&& pend == sources_before(l, m, n)
                &&& self.stored@ == copied.difference(pend.subrange(0, j as int).to_set())
            },
            Stage::DeletingOrphans(j) => {
                &&& self.library@ == done_songs
                &&& pend == sources_before(l, m, n)
                &&& self.stored@ == copied.difference(pend.to_set()).difference(
                    orphans_of(l, self.listing@).subrange(0, j as int).to_set(),
                )
            },
            Stage::Done => {
                &&& self.library@ == done_songs
                &&& pend == sources_before(l, m, n)
                &&& self.stored@ == copied.difference(pend.to_set()).difference(
                    orphans_of(l, self.listing@).to_set(),
                )
            },
        }
    }

    /// Stage ranks lie inside the lists they index; the plan is the one for
    /// the starting state; a run without failures is tracked.
    pub closed spec fn wf(&self) -> bool {
        &&& self.plan.is_plan_for(self.initial@, self.listing@)
        &&& self.all_ok@ ==> self.tracks_run()
        &&& self.unsaved@ <= CHECKPOINT_INTERVAL
        &&& match self.stage {
            Stage::Moving(k) => self.unsaved@ <= k % CHECKPOINT_INTERVAL,
            _ => true,
        }
        &&& match self.stage {
            Stage::Moving(k) => k < self.plan.misplaced@.len(),
            Stage::Checkpoint(k) => k < self.plan.misplaced@.len(),
            Stage::DeletingOld(j) => j < self.pending@.len(),
            Stage::DeletingOrphans(j) => j < self.plan.orphans@.len(),
            _ => true,
        }
        &&& (self.stage is Moving || self.stage is Checkpoint) ==> forall|k: int|
            0 <= k < self.plan.misplaced@.len() ==> #[trigger] self.plan.misplaced@[k]
                < self.library.songs@.len()
    }

    /// Starts a run over the collection and the remote listing.
    pub fn new(library: Library, remote: &Vec<String>) -> (r: Convergence)
        ensures
            r.wf(),
            r.moves() == misplaced_of(library@, string_views(remote@)),
            r.dropped() == missing_of(library@, string_views(remote@)),
            r.orphans() == orphans_of(library@, string_views(remote@)),
            r.pending().len() == 0,
            r.moves().len() > 0 ==> r.songs() == library@ && r.stage_of() == Stage::Moving(0),
            r.moves().len() == 0 ==> r.songs() == pruned(library@, r.dropped()) && r.stage_of()
                == Stage::FinalSave,
            r.initial() == library@,
            r.listing() == string_views(remote@),
            r.stored() == string_views(remote@).to_set(),
            r.all_succeeded(),
            r.unsaved_moves() == 0,
    {
        let plan = plan_validation(&library, remote);
        let ghost l = library@;
        let ghost rv = string_views(remote@);
        proof {
            lemma_misplaced_bounds(l, rv);
            lemma_moved_prefix_start(l, misplaced_of(l, rv));
        }
        let mut r = Convergence {
            library,
            plan,
            pending: Vec::new(),
            stage: Stage::FinalSave,
            initial: Ghost(l),
            listing: Ghost(rv),
            stored: Ghost(rv.to_set()),
            all_ok: Ghost(true),
            unsaved: Ghost(0),
        };
        assert(string_views(r.pending@) == sources_before(l, misplaced_of(l, rv), 0));
        assert(rv.to_set().union(targets_before(l, misplaced_of(l, rv), 0)) =~= rv.to_set());
        if r.plan.misplaced.len() > 0 {
            r.stage = Stage::Moving(0);
            assert forall|k: int| 0 <= k < r.plan.misplaced@.len() implies #[trigger] r.plan.misplaced@[k]
                < r.library.songs@.len() by {
                assert(positions(r.plan.misplaced@)[k] == r.plan.misplaced@[k] as int);
            }
        } else {
            r.drop_missing();
            assert(misplaced_of(l, rv).len() == 0);
        }
        r
    }

    /// Removes the songs whose object is gone.
    fn drop_missing(&mut self)
        ensures
            final(self).library@ == pruned(old(self).library@, positions(old(self).plan.missing@)),
            final(self).plan == old(self).plan,
            final(self).pending == old(self).pending,
            final(self).stage == old(self).stage,
            final(self).initial == old(self).initial,
            final(self).listing == old(self).listing,
            final(self).stored == old(self).stored,
            final(self).all_ok == old(self).all_ok,
            final(self).unsaved == old(self).unsaved,
    {
        let ghost before = self.library@;
        let ghost dropped = positions(self.plan.missing@);
        let mut kept: Vec<Song> = Vec::new();
        let mut i: usize = 0;
        while i < self.library.songs.len()
            invariant
                i <= self.library.songs.len(),
                before == self.library@,
                dropped == positions(self.plan.missing@),
                song_views(kept@) == pruned(before.subrange(0, i as int), dropped),
            decreases self.library.songs.len() - i,
        {
            let ghost pre = before.subrange(0, i + 1);
            assert(pre.drop_last() == before.subrange(0, i as int));
            assert(pre.last() == self.library.songs@[i as int]@);
            if !contains_position(&self.plan.missing, i) {
                kept.push(self.library.songs[i].duplicate());
                assert(song_views(kept@) == song_views(kept@.drop_last()).push(
                    self.library.songs@[i as int]@,
                ));
            }
            i = i + 1;
        }
        assert(before.subrange(0, self.library.songs.len() as int) == before);
        self.library = Library { songs: kept };
    }

    /// The collection as the run has changed it so far.
    pub fn library(&self) -> (r: &Library)
        ensures
            r@ == self.songs(),
    {
        &self.library
    }

    /// The plan fixed when the run started.
    pub fn plan(&self) -> (r: &ValidationPlan)
        ensures
            positions(r.misplaced@) == self.moves(),
            positions(r.missing@) == self.dropped(),
            string_views(r.orphans@) == self.orphans(),
    {
        &self.plan
    }

    /// Where the run stands.
    pub fn stage(&self) -> (r: Stage)
        ensures
            r == self.stage_of(),
    {
        self.stage
    }

    /// Records whether the operation `next_action` asked for succeeded, and
    /// moves on. A failed copy leaves the song where it was; a failed delete is
    /// passed over; a failed checkpoint or final save ends the run, so no more
    /// than `CHECKPOINT_INTERVAL` moves are ever made past the last save, and
    /// nothing is deleted that an unsaved collection still refers to.
    pub fn complete(&mut self, succeeded: bool)
        requires
            old(self).wf(),
        ensures
            final(self).wf(),
            final(self).moves() == old(self).moves(),
            final(self).dropped() == old(self).dropped(),
            final(self).orphans() == old(self).orphans(),
            final(self).initial() == old(self).initial(),
            final(self).listing() == old(self).listing(),
            final(self).unsaved_moves() <= CHECKPOINT_INTERVAL,
            final(self).unsaved_moves() == match old(self).stage_of() {
                Stage::Moving(_) => if succeeded {
                    old(self).unsaved_moves() + 1
                } else {
                    old(self).unsaved_moves()
                },
                Stage::Checkpoint(_) => if succeeded {
                    0
                } else {
                    old(self).unsaved_moves()
                },
                Stage::FinalSave => if succeeded {
                    0
                } else {
                    old(self).unsaved_moves()
                },
                _ => old(self).unsaved_moves(),
            },
            final(self).all_succeeded() == (old(self).all_succeeded() && (succeeded
                || old(self).stage_of() is Done)),
            final(self).stored() == match old(self).stage_of() {
                Stage::Moving(k) => if succeeded {
                    old(self).stored().insert(
                        derived_location(old(self).songs()[old(self).moves()[k as int]]),
                    )
                } else {
                    old(self).stored()
                },
                Stage::DeletingOld(j) => if succeeded {
                    old(self).stored().remove(old(self).pending()[j as int])
                } else {
                    old(self).stored()
                },
                Stage::DeletingOrphans(j) => if succeeded {
                    old(self).stored().remove(old(self).orphans()[j as int])
                } else {
                    old(self).stored()
                },
                _ => old(self).stored(),
            },
            match old(self).stage_of() {
                Stage::Moving(k) => {
                    let i = old(self).moves()[k as int];
                    let s = old(self).songs()[i];
                    let moved = if succeeded {
                        old(self).songs().update(i, relocated(s))
                    } else {
                        old(self).songs()
                    };
                    &&& final(self).pending() == if succeeded {
                        old(self).pending().push(s.file_location)
                    } else {
                        old(self).pending()
                    }
                    &&& if k + 1 < old(self).moves().len() {
                        &&& final(self).songs() == moved
                        &&& final(self).stage_of() == if (k + 1) % (CHECKPOINT_INTERVAL as int) == 0 {
                            Stage::Checkpoint((k + 1) as usize)
                        } else {
                            Stage::Moving((k + 1) as usize)
                        }
                    } else {
                        &&& final(self).songs() == pruned(moved, old(self).dropped())
                        &&& final(self).stage_of() == Stage::FinalSave
                    }
                },
                Stage::Checkpoint(k) => {
                    &&& final(self).songs() == old(self).songs()
                    &&& final(self).pending() == old(self).pending()
                    &&& final(self).stage_of() == if succeeded {
                    Stage::Moving(k)
                } else {
                    Stage::Done
                }
                },
                Stage::FinalSave => {
                    &&& final(self).songs() == old(self).songs()
                    &&& final(self).pending() == old(self).pending()
                    &&& final(self).stage_of() == if succeeded {
                        deletion_start(old(self).pending().len(), old(self).orphans().len())
                    } else {
                        Stage::Done
                    }
                },
                Stage::DeletingOld(j) => {
                    &&& final(self).songs() == old(self).songs()
                    &&& final(self).pending() == old(self).pending()
                    &&& final(self).stage_of() == if j + 1 < old(self).pending().len() {
                        Stage::DeletingOld((j + 1) as usize)
                    } else {
                        deletion_start(0, old(self).orphans().len())
                    }
                },
                Stage::DeletingOrphans(j) => {
                    &&& final(self).songs() == old(self).songs()
                    &&& final(self).pending() == old(self).pending()
                    &&& final(self).stage_of() == if j + 1 < old(self).orphans().len() {
                        Stage::DeletingOrphans((j + 1) as usize)
                    } else {
                        Stage::Done
                    }
                },
                Stage::Done => {
                    &&& final(self).songs() == old(self).songs()
                    &&& final(self).pending() == old(self).pending()
                    &&& final(self).stage_of() == Stage::Done
                },
            },
    {
        let ghost l = self.initial@;
        let ghost rv = self.listing@;
        let ghost m = misplaced_of(l, rv);
        let ghost n = m.len() as int;
        let ghost pend0 = string_views(self.pending@);
        let ghost ok0 = self.all_ok@;
        let ghost unsaved0 = self.unsaved@;
        if !succeeded && self.stage != Stage::Done {
            self.all_ok = Ghost(false);
        }
        match self.stage {
            Stage::Moving(k) => {
                assert(k < self.plan.misplaced@.len());
                let i = self.plan.misplaced[k];
                assert(positions(self.plan.misplaced@)[k as int] == i as int);
                let ghost current = self.library@;
                let ghost stored0 = self.stored@;
                if succeeded {
                    let mut song = self.library.songs[i].duplicate();
                    let old_location = song.file_location.clone();
                    song.file_location = song.correct_file_location();
                    let ghost before = self.library.songs@;
                    self.library.songs.set(i, song);
                    assert(song_views(self.library.songs@) == song_views(before).update(
                        i as int,
                        song@,
                    ));
                    let ghost pending_before = self.pending@;
                    assert(old_location@ == current[i as int].file_location);
                    self.pending.push(old_location);
                    assert(self.pending@.drop_last() == pending_before);
                    assert(string_views(self.pending@) == pend0.push(old_location@));
                    self.stored = Ghost(self.stored@.insert(song@.file_location));
                    self.unsaved = Ghost(unsaved0 + 1);
                    proof {
                        if ok0 {
                            lemma_move_step(l, rv, k as int, current, stored0, pend0);
                        }
                    }
                }
                let count = self.plan.misplaced.len();
                assert(k < count);
                if k + 1 < count {
                    if (k + 1) % CHECKPOINT_INTERVAL == 0 {
                        self.stage = Stage::Checkpoint(k + 1);
                    } else {
                        self.stage = Stage::Moving(k + 1);
                    }
                } else {
                    self.stage = Stage::FinalSave;
                    self.drop_missing();
                }
            },
            Stage::Checkpoint(k) => {
                if succeeded {
                    self.stage = Stage::Moving(k);
                    self.unsaved = Ghost(0);
                } else {
                    self.stage = Stage::Done;
                }
            },
            Stage::FinalSave => {
                if !succeeded {
                    self.stage = Stage::Done;
                } else {
                    self.unsaved = Ghost(0);
                    self.stage = self.first_deletion();
                    proof {
                        if ok0 {
                            let copied = rv.to_set().union(targets_before(l, m, n));
                            let orph = orphans_of(l, rv);
                            assert(pend0.subrange(0, 0).to_set() =~= Set::<Seq<char>>::empty());
                            assert(orph.subrange(0, 0).to_set() =~= Set::<Seq<char>>::empty());
                            assert(copied.difference(Set::<Seq<char>>::empty()) =~= copied);
                            if pend0.len() == 0 {
                                assert(pend0.to_set() =~= Set::<Seq<char>>::empty());
                                assert(copied.difference(pend0.to_set()).difference(
                                    Set::<Seq<char>>::empty(),
                                ) =~= copied);
                                if orph.len() == 0 {
                                    assert(orph.to_set() =~= Set::<Seq<char>>::empty());
                                }
                            }
                        }
                    }
                }
            },
            Stage::DeletingOld(j) => {
                let count = self.pending.len();
                assert(j < count);
                if succeeded {
                    let ghost gone = self.pending@[j as int]@;
                    self.stored = Ghost(self.stored@.remove(gone));
                    proof {
                        if ok0 {
                            let copied = rv.to_set().union(targets_before(l, m, n));
                            lemma_delete_step(copied, pend0, j as int);
                        }
                    }
                }
                if j + 1 < count {
                    self.stage = Stage::DeletingOld(j + 1);
                } else {
                    proof {
                        assert(pend0.subrange(0, count as int) == pend0);
                        let orph = orphans_of(l, rv);
                        assert(orph.subrange(0, 0).to_set() =~= Set::<Seq<char>>::empty());
                        let copied = rv.to_set().union(targets_before(l, m, n));
                        assert(copied.difference(pend0.to_set()).difference(Set::<Seq<char>>::empty())
                            =~= copied.difference(pend0.to_set()));
                        if orph.len() == 0 {
                            assert(orph.to_set() =~= Set::<Seq<char>>::empty());
                        }
                    }
                    if self.plan.orphans.len() > 0 {
                        self.stage = Stage::DeletingOrphans(0);
                    } else {
                        self.stage = Stage::Done;
                    }
                }
            },
            Stage::DeletingOrphans(j) => {
                let count = self.plan.orphans.len();
                assert(j < count);
                let ghost orph = orphans_of(l, rv);
                if succeeded {
                    let ghost gone = self.plan.orphans@[j as int]@;
                    self.stored = Ghost(self.stored@.remove(gone));
                    proof {
                        if ok0 {
                            let copied = rv.to_set().union(targets_before(l, m, n));
                            lemma_delete_step(copied.difference(pend0.to_set()), orph, j as int);
                        }
                    }
                }
                if j + 1 < count {
                    self.stage = Stage::DeletingOrphans(j + 1);
                } else {
                    assert(orph.subrange(0, count as int) == orph);
                    self.stage = Stage::Done;
                }
            },
            Stage::Done => {},
        }
    }

    /// A run in which every operation succeeded ends with each listed song at
    /// its canonical path, the unlisted songs dropped, and the stored paths
    /// those of `converged_remote`.
    pub proof fn lemma_successful_run(&self)
        requires
            self.wf(),
            self.stage_of() == Stage::Done,
            self.all_succeeded(),
        ensures
            self.songs() == converged_songs(self.initial(), self.listing()),
            self.stored() == converged_remote(self.initial(), self.listing()),
    {
        let l = self.initial@;
        let r = self.listing@;
        let m = misplaced_of(l, r);
        let n = m.len() as int;
        let d = missing_of(l, r);
        lemma_misplaced_bounds(l, r);
        assert(m.subrange(0, n) == m);
        let all = l.map_values(|s: SongView| relocated(s));
        assert forall|i: int| 0 <= i < l.len() && !d.contains(i) implies moved_prefix(l, m, n)[i]
            == all[i] by {
            lemma_misplaced_contains(l, r, i);
            lemma_missing_contains(l, r, i);
            if !m.contains(i) {
                assert(relocated(l[i]) == l[i]);
            }
        }
        lemma_pruned_agree(moved_prefix(l, m, n), all, d);
        let pend = string_views(self.pending@);
        let copied = r.to_set().union(targets_before(l, m, n));
        assert forall|p: Seq<char>| targets_before(l, m, n).contains(p) <==> is_move_target(l, r, p) by {
            if targets_before(l, m, n).contains(p) {
                let j = choose|j: int| 0 <= j < n && #[trigger] derived_location(l[m[j]]) == p;
                assert(m.contains(m[j]));
                lemma_misplaced_contains(l, r, m[j]);
            }
            if is_move_target(l, r, p) {
                let i = choose|i: int|
                    0 <= i < l.len() && !is_correctly_located(l[i]) && is_present(l[i], r)
                        && #[trigger] derived_location(l[i]) == p;
                lemma_misplaced_contains(l, r, i);
                let j = choose|j: int| 0 <= j < m.len() && m[j] == i;
                assert(derived_location(l[m[j]]) == p);
            }
        }
        assert forall|p: Seq<char>| pend.to_set().contains(p) <==> is_move_source(l, r, p) by {
            if pend.contains(p) {
                let j = choose|j: int| 0 <= j < pend.len() && pend[j] == p;
                assert(m.contains(m[j]));
                lemma_misplaced_contains(l, r, m[j]);
                assert(l[m[j]].file_location == p);
            }
            if is_move_source(l, r, p) {
                let i = choose|i: int|
                    0 <= i < l.len() && is_moved(l[i], r) && #[trigger] l[i].file_location == p;
                lemma_misplaced_contains(l, r, i);
                let j = choose|j: int| 0 <= j < m.len() && m[j] == i;
                assert(pend[j] == p);
            }
        }
        assert(self.stored@ =~= converged_remote(l, r));
    }

    /// After a run in which every operation succeeded, a second run over the
    /// resulting collection and stored paths, with no change in between, plans
    /// no copy, no delete and no removal. It needs the starting locations to be
    /// distinct and no song to be moved onto another song's location.
    pub proof fn lemma_rerun_is_idle(&self, listing: Seq<Seq<char>>)
        requires
            self.wf(),
            self.stage_of() == Stage::Done,
            self.all_succeeded(),
            distinct_locations(self.initial()),
            targets_are_free(self.initial(), self.listing()),
            listing.to_set() == self.stored(),
        ensures
            misplaced_of(self.songs(), listing).len() == 0,
            missing_of(self.songs(), listing).len() == 0,
            orphans_of(self.songs(), listing).len() == 0,
    {
        self.lemma_successful_run();
        lemma_second_run_is_idle(self.initial(), self.listing(), listing);
    }

    /// The first deletion stage.
    fn first_deletion(&self) -> (r: Stage)
        ensures
            r == deletion_start(self.pending@.len(), self.plan.orphans@.len()),
    {
        if self.pending.len() > 0 {
            Stage::DeletingOld(0)
        } else if self.plan.orphans.len() > 0 {
            Stage::DeletingOrphans(0)
        } else {
            Stage::Done
        }
    }

    /// The operation the run needs next.
    pub fn next_action(&self) -> (r: Action)
        requires
            self.wf(),
        ensures
            match self.stage_of() {
                Stage::Moving(k) => r matches Action::Copy { from, to } && from@ == self.songs()[self.moves()[k as int]].file_location
                    && to@ == derived_location(self.songs()[self.moves()[k as int]]),
                Stage::Checkpoint(_) => r is Save,
                Stage::FinalSave => r is Save,
                Stage::DeletingOld(j) => r matches Action::Delete { path } && path@ == self.pending()[j as int],
                Stage::DeletingOrphans(j) => r matches Action::Delete { path } && path@ == self.orphans()[j as int],
                Stage::Done => r is Done,
            },
    {
        match self.stage {
            Stage::Moving(k) => {
                let i = self.plan.misplaced[k];
                let song = &self.library.songs[i];
                Action::Copy { from: song.file_location.clone(), to: song.correct_file_location() }
            },
            Stage::Checkpoint(_) => Action::Save,
            Stage::FinalSave => Action::Save,
            Stage::DeletingOld(j) => Action::Delete { path: self.pending[j].clone() },
            Stage::DeletingOrphans(j) => Action::Delete { path: self.plan.orphans[j].clone() },
            Stage::Done => Action::Done,
        }
    }
}

/// The collection with the first `k` planned moves made.
pub open spec fn moved_prefix(songs: Seq<SongView>, moves: Seq<int>, k: int) -> Seq<SongView> {
    Seq::new(
        songs.len(),
        |i: int|
            if moves.subrange(0, k).contains(i) {
                relocated(songs[i])
            } else {
                songs[i]
            },
    )
}

/// The canonical paths of the first `k` planned moves.
pub open spec fn targets_before(songs: Seq<SongView>, moves: Seq<int>, k: int) -> Set<Seq<char>> {
    Set::new(|p: Seq<char>| exists|j: int| 0 <= j < k && #[trigger] derived_location(songs[moves[j]]) == p)
}

/// The old paths of the first `k` planned moves.
pub open spec fn sources_before(songs: Seq<SongView>, moves: Seq<int>, k: int) -> Seq<Seq<char>> {
    Seq::new(k as nat, |j: int| songs[moves[j]].file_location)
}

/// With no move made, the collection is unchanged and no path is a target.
proof fn lemma_moved_prefix_start(songs: Seq<SongView>, moves: Seq<int>)
    ensures
        moved_prefix(songs, moves, 0) == songs,
        targets_before(songs, moves, 0) == Set::<Seq<char>>::empty(),
        sources_before(songs, moves, 0) == Seq::<Seq<char>>::empty(),
{
    assert(moves.subrange(0, 0) == Seq::<int>::empty());
    assert(moved_prefix(songs, moves, 0) =~= songs);
    assert(targets_before(songs, moves, 0) =~= Set::<Seq<char>>::empty());
    assert(sources_before(songs, moves, 0) =~= Seq::<Seq<char>>::empty());
}

/// One successful move takes the tracked state from `k` moves to `k + 1`.
proof fn lemma_move_step(
    songs: Seq<SongView>,
    remote: Seq<Seq<char>>,
    k: int,
    current: Seq<SongView>,
    stored: Set<Seq<char>>,
    pend: Seq<Seq<char>>,
)
    requires
        0 <= k < misplaced_of(songs, remote).len(),
        current == moved_prefix(songs, misplaced_of(songs, remote), k),
        stored == remote.to_set().union(targets_before(songs, misplaced_of(songs, remote), k)),
        pend == sources_before(songs, misplaced_of(songs, remote), k),
    ensures
        ({
            let m = misplaced_of(songs, remote);
            let i = m[k];
            &&& 0 <= i < songs.len()
            &&& current[i] == songs[i]
            &&& current.update(i, relocated(current[i])) == moved_prefix(songs, m, k + 1)
            &&& stored.insert(derived_location(current[i])) == remote.to_set().union(
                targets_before(songs, m, k + 1),
            )
            &&& pend.push(current[i].file_location) == sources_before(songs, m, k + 1)
        }),
{
    let m = misplaced_of(songs, remote);
    let i = m[k];
    lemma_misplaced_bounds(songs, remote);
    lemma_misplaced_ascending(songs, remote);
    assert(m.subrange(0, k + 1) == m.subrange(0, k).push(i));
    if m.subrange(0, k).contains(i) {
        let w = choose|w: int| 0 <= w < k && m.subrange(0, k)[w] == i;
        assert(m[w] < m[k]);
    }
    assert(current[i] == songs[i]);
    assert forall|x: int| 0 <= x < songs.len() implies (m.subrange(0, k + 1).contains(x) <==> (
    m.subrange(0, k).contains(x) || x == i)) by {
        crate::reconcile::lemma_contains_push(m.subrange(0, k), i, x);
    }
    assert(current.update(i, relocated(current[i])) =~= moved_prefix(songs, m, k + 1));
    assert forall|p: Seq<char>| #[trigger] targets_before(songs, m, k + 1).contains(p) <==> (
    targets_before(songs, m, k).contains(p) || p == derived_location(songs[i])) by {
        if targets_before(songs, m, k + 1).contains(p) {
            let j = choose|j: int| 0 <= j < k + 1 && #[trigger] derived_location(songs[m[j]]) == p;
            if j < k {
                assert(targets_before(songs, m, k).contains(p));
            }
        }
        if targets_before(songs, m, k).contains(p) {
            let j = choose|j: int| 0 <= j < k && #[trigger] derived_location(songs[m[j]]) == p;
            assert(0 <= j < k + 1 && derived_location(songs[m[j]]) == p);
        }
        if p == derived_location(songs[i]) {
            assert(0 <= k < k + 1 && derived_location(songs[m[k]]) == p);
        }
    }
    assert(stored.insert(derived_location(current[i])) =~= remote.to_set().union(
        targets_before(songs, m, k + 1),
    ));
    assert(pend.push(current[i].file_location) =~= sources_before(songs, m, k + 1));
}

/// Deleting the next path of a list extends the deleted prefix by one.
proof fn lemma_delete_step(base: Set<Seq<char>>, removed: Seq<Seq<char>>, j: int)
    requires
        0 <= j < removed.len(),
    ensures
        base.difference(removed.subrange(0, j).to_set()).remove(removed[j]) == base.difference(
            removed.subrange(0, j + 1).to_set(),
        ),
{
    assert(removed.subrange(0, j + 1) == removed.subrange(0, j).push(removed[j]));
    assert forall|p: Seq<char>| removed.subrange(0, j + 1).contains(p) <==> (removed.subrange(
        0,
        j,
    ).contains(p) || p == removed[j]) by {
        crate::reconcile::lemma_contains_push(removed.subrange(0, j), removed[j], p);
    }
    assert(base.difference(removed.subrange(0, j).to_set()).remove(removed[j]) =~= base.difference(
        removed.subrange(0, j + 1).to_set(),
    ));
}

/// Pruning ignores the songs it drops.
proof fn lemma_pruned_agree(a: Seq<SongView>, b: Seq<SongView>, dropped: Seq<int>)
    requires
        a.len() == b.len(),
        forall|i: int| 0 <= i < a.len() && !dropped.contains(i) ==> a[i] == b[i],
    ensures
        pruned(a, dropped) == pruned(b, dropped),
    decreases a.len(),
{
    if a.len() > 0 {
        assert forall|i: int| 0 <= i < a.len() - 1 && !dropped.contains(i) implies a.drop_last()[i]
            == b.drop_last()[i] by {
            assert(a[i] == b[i]);
        }
        lemma_pruned_agree(a.drop_last(), b.drop_last(), dropped);
        if !dropped.contains(a.len() - 1) {
            assert(a.last() == b.last());
        }
    }
}

} // verus!
