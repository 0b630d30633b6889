//! What a validation run decides from the collection and the remote listing,
//! and what a fully successful run leaves behind.

use vstd::prelude::*;

use crate::library::Library;
use crate::song::{
    derived_location, is_correctly_located, lemma_derived_location_idempotent, song_views, Song,
    SongView,
};

verus! {

/// Some song of `songs` is stored at `path`.
pub open spec fn is_referenced(songs: Seq<SongView>, path: Seq<char>) -> bool {
    exists|i: int| 0 <= i < songs.len() && #[trigger] songs[i].file_location == path
}

/// The song's object is in the remote listing.
pub open spec fn is_present(s: SongView, remote: Seq<Seq<char>>) -> bool {
    remote.contains(s.file_location)
}

/// Positions of the songs whose object is listed but not at its canonical path:
/// these are moved.
pub open spec fn misplaced_of(songs: Seq<SongView>, remote: Seq<Seq<char>>) -> Seq<int>
    decreases songs.len(),
{
    if songs.len() == 0 {
        Seq::empty()
    } else {
        let rest = misplaced_of(songs.drop_last(), remote);
        if !is_correctly_located(songs.last()) && is_present(songs.last(), remote) {
            rest.push(songs.len() - 1)
        } else {
            rest
        }
    }
}

/// Positions of the songs whose object is not in the remote listing.
pub open spec fn missing_of(songs: Seq<SongView>, remote: Seq<Seq<char>>) -> Seq<int>
    decreases songs.len(),
{
    if songs.len() == 0 {
        Seq::empty()
    } else {
        let rest = missing_of(songs.drop_last(), remote);
        if !is_present(songs.last(), remote) {
            rest.push(songs.len() - 1)
        } else {
            rest
        }
    }
}

/// The canonical path of some song that is moved.
pub open spec fn is_move_target(songs: Seq<SongView>, remote: Seq<Seq<char>>, path: Seq<char>) -> bool {
    exists|i: int|
        0 <= i < songs.len() && !is_correctly_located(songs[i]) && is_present(songs[i], remote)
            && #[trigger] derived_location(songs[i]) == path
}

/// Listed paths that no song is stored at and no move targets, each once, in
/// listing order.
pub open spec fn orphans_of(songs: Seq<SongView>, remote: Seq<Seq<char>>) -> Seq<Seq<char>> {
    orphans_among(songs, remote, remote)
}

/// The orphans among the first paths of `listed`, judged against the whole listing.
pub open spec fn orphans_among(
    songs: Seq<SongView>,
    remote: Seq<Seq<char>>,
    listed: Seq<Seq<char>>,
) -> Seq<Seq<char>>
    decreases listed.len(),
{
    if listed.len() == 0 {
        Seq::empty()
    } else {
        let rest = orphans_among(songs, remote, listed.drop_last());
        let p = listed.last();
        if is_referenced(songs, p) || is_move_target(songs, remote, p) || rest.contains(p) {
            rest
        } else {
            rest.push(p)
        }
    }
}

/// What a validation run decides before it acts.
pub struct ValidationPlan {
    /// Positions of the songs to move to their canonical path, ascending.
    pub misplaced: Vec<usize>,
    /// Positions of the songs whose object is gone, ascending.
    pub missing: Vec<usize>,
    /// Listed paths that nothing refers to.
    pub orphans: Vec<String>,
}

/// The views of a sequence of strings.
pub open spec fn string_views(v: Seq<String>) -> Seq<Seq<char>> {
    v.map_values(|s: String| s@)
}

/// The views of a sequence of positions.
pub open spec fn positions(v: Seq<usize>) -> Seq<int> {
    v.map_values(|i: usize| i as int)
}

impl ValidationPlan {
    /// The plan is the one the collection and listing call for.
    pub open spec fn is_plan_for(&self, songs: Seq<SongView>, remote: Seq<Seq<char>>) -> bool {
        &&& positions(self.misplaced@) == misplaced_of(songs, remote)
        &&& positions(self.missing@) == missing_of(songs, remote)
        &&& string_views(self.orphans@) == orphans_of(songs, remote)
    }

    /// Whether the plan asks for no copy and no delete.
    pub open spec fn is_empty(&self) -> bool {
        self.misplaced@.len() == 0 && self.orphans@.len() == 0
    }
}

/// Whether `path` is among `paths`.
fn contains_path(paths: &Vec<String>, path: &String) -> (r: bool)
    ensures
        r == string_views(paths@).contains(path@),
{
    let mut i: usize = 0;
    while i < paths.len()
        invariant
            i <= paths.len(),
            forall|k: int| 0 <= k < i ==> paths@[k]@ != path@,
        decreases paths.len() - i,
    {
        if paths[i] == *path {
            assert(string_views(paths@)[i as int] == path@);
            return true;
        }
        i = i + 1;
    }
    assert forall|k: int| 0 <= k < paths.len() implies string_views(paths@)[k] != path@ by {}
    false
}

/// Whether some song is stored at `path`.
fn references(songs: &Vec<Song>, path: &String) -> (r: bool)
    ensures
        r == is_referenced(song_views(songs@), path@),
{
    let mut i: usize = 0;
    while i < songs.len()
        invariant
            i <= songs.len(),
            forall|k: int| 0 <= k < i ==> songs@[k]@.file_location != path@,
        decreases songs.len() - i,
    {
        if songs[i].file_location == *path {
            assert(song_views(songs@)[i as int].file_location == path@);
            return true;
        }
        i = i + 1;
    }
    assert forall|k: int| 0 <= k < songs.len() implies #[trigger] song_views(songs@)[k].file_location
        != path@ by {}
    false
}

/// Whether some song that is moved has `path` as its canonical path.
fn targets(songs: &Vec<Song>, remote: &Vec<String>, path: &String) -> (r: bool)
    ensures
        r == is_move_target(song_views(songs@), string_views(remote@), path@),
{
    let ghost sv = song_views(songs@);
    let ghost rv = string_views(remote@);
    let mut i: usize = 0;
    while i < songs.len()
        invariant
            i <= songs.len(),
            sv == song_views(songs@),
            rv == string_views(remote@),
            forall|k: int|
                0 <= k < i ==> !(!is_correctly_located(sv[k]) && is_present(sv[k], rv)
                    && #[trigger] derived_location(sv[k]) == path@),
        decreases songs.len() - i,
    {
        let song = &songs[i];
        assert(sv[i as int] == song@);
        if !song.has_correct_file_location() && contains_path(remote, &song.file_location) {
            let target = song.correct_file_location();
            if target == *path {
                return true;
            }
        }
        i = i + 1;
    }
    false
}

/// Decides what a validation run does: which songs move, which are dropped
/// from the collection, which listed paths are deleted.
pub fn plan_validation(library: &Library, remote: &Vec<String>) -> (r: ValidationPlan)
    ensures
        r.is_plan_for(library@, string_views(remote@)),
{
    let songs = &library.songs;
    let ghost sv = library@;
    let ghost rv = string_views(remote@);
    let mut misplaced: Vec<usize> = Vec::new();
    let mut missing: Vec<usize> = Vec::new();
    let mut i: usize = 0;
    while i < songs.len()
        invariant
            i <= songs.len(),
            sv == song_views(songs@),
            rv == string_views(remote@),
            positions(misplaced@) == misplaced_of(sv.subrange(0, i as int), rv),
            positions(missing@) == missing_of(sv.subrange(0, i as int), rv),
        decreases songs.len() - i,
    {
        let song = &songs[i];
        let ghost pre = sv.subrange(0, i + 1);
        assert(pre.drop_last() == sv.subrange(0, i as int));
        assert(pre.last() == song@);
        let present = contains_path(remote, &song.file_location);
        if !present {
            missing.push(i);
            assert(positions(missing@) == positions(missing@.drop_last()).push(i as int));
        } else if !song.has_correct_file_location() {
            misplaced.push(i);
            assert(positions(misplaced@) == positions(misplaced@.drop_last()).push(i as int));
        }
        i = i + 1;
    }
    assert(sv.subrange(0, songs.len() as int) == sv);
    let mut orphans: Vec<String> = Vec::new();
    let mut k: usize = 0;
    while k < remote.len()
        invariant
            k <= remote.len(),
            sv == song_views(songs@),
            rv == string_views(remote@),
            string_views(orphans@) == orphans_among(sv, rv, rv.subrange(0, k as int)),
        decreases remote.len() - k,
    {
        let path = &remote[k];
        let ghost pre = rv.subrange(0, k + 1);
        assert(pre.drop_last() == rv.subrange(0, k as int));
        assert(pre.last() == path@);
        if !references(songs, path) && !targets(songs, remote, path) && !contains_path(&orphans, path) {
            orphans.push(path.clone());
            assert(string_views(orphans@) == string_views(orphans@.drop_last()).push(path@));
        }
        k = k + 1;
    }
    assert(rv.subrange(0, remote.len() as int) == rv);
    ValidationPlan { misplaced, missing, orphans }
}

/// The song moved to its canonical path.
pub open spec fn relocated(s: SongView) -> SongView {
    SongView { file_location: derived_location(s), ..s }
}

/// The songs whose position is not in `dropped`, in order.
pub open spec fn pruned(songs: Seq<SongView>, dropped: Seq<int>) -> Seq<SongView>
    decreases songs.len(),
{
    if songs.len() == 0 {
        Seq::empty()
    } else {
        let rest = pruned(songs.drop_last(), dropped);
        if dropped.contains(songs.len() - 1) {
            rest
        } else {
            rest.push(songs.last())
        }
    }
}

/// Positions of `misplaced_of` lie inside the collection and ascend.
pub proof fn lemma_misplaced_bounds(songs: Seq<SongView>, remote: Seq<Seq<char>>)
    ensures
        forall|k: int|
            0 <= k < misplaced_of(songs, remote).len() ==> 0 <= #[trigger] misplaced_of(songs, remote)[k]
                < songs.len(),
    decreases songs.len(),
{
    if songs.len() > 0 {
        let rest = misplaced_of(songs.drop_last(), remote);
        lemma_misplaced_bounds(songs.drop_last(), remote);
        assert forall|k: int| 0 <= k < misplaced_of(songs, remote).len() implies 0
            <= #[trigger] misplaced_of(songs, remote)[k] < songs.len() by {
            if k < rest.len() {
                assert(misplaced_of(songs, remote)[k] == rest[k]);
            }
        }
    }
}

/// Whether `i` is among `v`.
pub(crate) fn contains_position(v: &Vec<usize>, i: usize) -> (r: bool)
    ensures
        r == positions(v@).contains(i as int),
{
    let mut k: usize = 0;
    while k < v.len()
        invariant
            k <= v.len(),
            forall|j: int| 0 <= j < k ==> v@[j] != i,
        decreases v.len() - k,
    {
        if v[k] == i {
            assert(positions(v@)[k as int] == i as int);
            return true;
        }
        k = k + 1;
    }
    assert forall|j: int| 0 <= j < v.len() implies positions(v@)[j] != i as int by {}
    false
}

/// The song is moved by a run over this listing.
pub open spec fn is_moved(s: SongView, remote: Seq<Seq<char>>) -> bool {
    !is_correctly_located(s) && is_present(s, remote)
}

/// The old location of some song that is moved.
pub open spec fn is_move_source(songs: Seq<SongView>, remote: Seq<Seq<char>>, path: Seq<char>) -> bool {
    exists|i: int|
        0 <= i < songs.len() && is_moved(songs[i], remote) && #[trigger] songs[i].file_location == path
}

/// The collection after a run in which every operation succeeds: each song
/// whose object is listed stands at its canonical path; the others are gone.
pub open spec fn converged_songs(songs: Seq<SongView>, remote: Seq<Seq<char>>) -> Seq<SongView> {
    pruned(songs.map_values(|s: SongView| relocated(s)), missing_of(songs, remote))
}

/// The stored paths after a run in which every operation succeeds: the
/// listing plus the copies, less the old paths and the orphans.
pub open spec fn converged_remote(songs: Seq<SongView>, remote: Seq<Seq<char>>) -> Set<Seq<char>> {
    Set::new(
        |p: Seq<char>|
            (remote.contains(p) || is_move_target(songs, remote, p)) && !is_move_source(songs, remote, p)
                && !orphans_of(songs, remote).contains(p),
    )
}

/// No two songs share a location.
pub open spec fn distinct_locations(songs: Seq<SongView>) -> bool {
    forall|i: int, j: int|
        0 <= i < songs.len() && 0 <= j < songs.len() && i != j ==> songs[i].file_location
            != songs[j].file_location
}

/// No song is moved onto the location of another song.
pub open spec fn targets_are_free(songs: Seq<SongView>, remote: Seq<Seq<char>>) -> bool {
    forall|i: int, j: int|
        0 <= i < songs.len() && 0 <= j < songs.len() && i != j && is_moved(songs[i], remote)
            ==> derived_location(songs[i]) != songs[j].file_location
}

/// A position is planned for removal exactly when its object is not listed.
pub proof fn lemma_missing_contains(songs: Seq<SongView>, remote: Seq<Seq<char>>, i: int)
    ensures
        missing_of(songs, remote).contains(i) <==> 0 <= i < songs.len() && !is_present(songs[i], remote),
    decreases songs.len(),
{
    if songs.len() > 0 {
        let rest = missing_of(songs.drop_last(), remote);
        lemma_missing_contains(songs.drop_last(), remote, i);
        if !is_present(songs.last(), remote) {
            let r = rest.push(songs.len() - 1);
            assert(r[rest.len() as int] == songs.len() - 1);
            if rest.contains(i) {
                let w = choose|w: int| 0 <= w < rest.len() && rest[w] == i;
                assert(r[w] == i);
            }
            if r.contains(i) && i != songs.len() - 1 {
                let w = choose|w: int| 0 <= w < r.len() && r[w] == i;
                assert(rest[w] == i);
            }
        }
    }
}

/// A song survives pruning exactly when its position is not dropped.
pub proof fn lemma_pruned_contains(songs: Seq<SongView>, dropped: Seq<int>, x: SongView)
    ensures
        pruned(songs, dropped).contains(x) <==> exists|i: int|
            0 <= i < songs.len() && !dropped.contains(i) && songs[i] == x,
    decreases songs.len(),
{
    if songs.len() > 0 {
        let t = songs.drop_last();
        let rest = pruned(t, dropped);
        lemma_pruned_contains(t, dropped, x);
        if rest.contains(x) {
            let i = choose|i: int| 0 <= i < t.len() && !dropped.contains(i) && t[i] == x;
            assert(songs[i] == x);
        }
        if !dropped.contains(songs.len() - 1) {
            let r = rest.push(songs.last());
            if rest.contains(x) {
                let w = choose|w: int| 0 <= w < rest.len() && rest[w] == x;
                assert(r[w] == x);
            }
            if songs.last() == x {
                assert(r[rest.len() as int] == x);
            }
            if r.contains(x) && songs.last() != x {
                let w = choose|w: int| 0 <= w < r.len() && r[w] == x;
                assert(rest[w] == x);
            }
        }
        if exists|i: int| 0 <= i < songs.len() && !dropped.contains(i) && songs[i] == x {
            let i = choose|i: int| 0 <= i < songs.len() && !dropped.contains(i) && songs[i] == x;
            if i < t.len() {
                assert(t[i] == x);
            }
        }
    }
}

/// A listed path is an orphan exactly when nothing refers to it and no move
/// targets it.
pub proof fn lemma_orphans_contains(
    songs: Seq<SongView>,
    remote: Seq<Seq<char>>,
    listed: Seq<Seq<char>>,
    p: Seq<char>,
)
    ensures
        orphans_among(songs, remote, listed).contains(p) <==> listed.contains(p) && !is_referenced(
            songs,
            p,
        ) && !is_move_target(songs, remote, p),
    decreases listed.len(),
{
    if listed.len() > 0 {
        let t = listed.drop_last();
        let rest = orphans_among(songs, remote, t);
        lemma_orphans_contains(songs, remote, t, p);
        let q = listed.last();
        lemma_orphans_contains(songs, remote, t, q);
        if t.contains(p) {
            let w = choose|w: int| 0 <= w < t.len() && t[w] == p;
            assert(listed[w] == p);
        }
        if listed.contains(p) && p != q {
            let w = choose|w: int| 0 <= w < listed.len() && listed[w] == p;
            assert(t[w] == p);
        }
        assert(listed[listed.len() - 1] == q);
        if !(is_referenced(songs, q) || is_move_target(songs, remote, q) || rest.contains(q)) {
            let r = rest.push(q);
            if rest.contains(p) {
                let w = choose|w: int| 0 <= w < rest.len() && rest[w] == p;
                assert(r[w] == p);
            }
            assert(r[rest.len() as int] == q);
            if r.contains(p) && p != q {
                let w = choose|w: int| 0 <= w < r.len() && r[w] == p;
                assert(rest[w] == p);
            }
        }
    }
}

/// A collection whose songs all stand at their canonical paths has nothing misplaced.
pub proof fn lemma_misplaced_none(songs: Seq<SongView>, remote: Seq<Seq<char>>)
    requires
        forall|i: int| 0 <= i < songs.len() ==> is_correctly_located(#[trigger] songs[i]),
    ensures
        misplaced_of(songs, remote).len() == 0,
    decreases songs.len(),
{
    if songs.len() > 0 {
        assert(songs[songs.len() - 1] == songs.last());
        lemma_misplaced_none(songs.drop_last(), remote);
    }
}

/// A collection whose objects are all listed has nothing missing.
pub proof fn lemma_missing_none(songs: Seq<SongView>, remote: Seq<Seq<char>>)
    requires
        forall|i: int| 0 <= i < songs.len() ==> is_present(#[trigger] songs[i], remote),
    ensures
        missing_of(songs, remote).len() == 0,
    decreases songs.len(),
{
    if songs.len() > 0 {
        assert(songs[songs.len() - 1] == songs.last());
        lemma_missing_none(songs.drop_last(), remote);
    }
}

/// A listing whose paths are all referred to has no orphans.
pub proof fn lemma_orphans_none(songs: Seq<SongView>, remote: Seq<Seq<char>>, listed: Seq<Seq<char>>)
    requires
        forall|k: int| 0 <= k < listed.len() ==> is_referenced(songs, #[trigger] listed[k]),
    ensures
        orphans_among(songs, remote, listed).len() == 0,
    decreases listed.len(),
{
    if listed.len() > 0 {
        assert(listed[listed.len() - 1] == listed.last());
        lemma_orphans_none(songs, remote, listed.drop_last());
    }
}

/// A second run, over the collection and the stored paths that a fully
/// successful run left and with no change in between, plans no copy, no
/// delete and no removal. It needs the locations to be distinct and no song
/// to be moved onto another song's location.
pub proof fn lemma_second_run_is_idle(
    songs: Seq<SongView>,
    remote: Seq<Seq<char>>,
    listing: Seq<Seq<char>>,
)
    requires
        distinct_locations(songs),
        targets_are_free(songs, remote),
        listing.to_set() == converged_remote(songs, remote),
    ensures
        misplaced_of(converged_songs(songs, remote), listing).len() == 0,
        missing_of(converged_songs(songs, remote), listing).len() == 0,
        orphans_of(converged_songs(songs, remote), listing).len() == 0,
{
    let relocated_all = songs.map_values(|s: SongView| relocated(s));
    let dropped = missing_of(songs, remote);
    let after = converged_songs(songs, remote);
    let stored = converged_remote(songs, remote);
    // Each surviving song is a listed song at its canonical path, and that path is stored.
    assert forall|k: int| 0 <= k < after.len() implies is_correctly_located(#[trigger] after[k])
        && is_present(after[k], listing) by {
        let x = after[k];
        assert(after.contains(x));
        lemma_pruned_contains(relocated_all, dropped, x);
        let i = choose|i: int| 0 <= i < relocated_all.len() && !dropped.contains(i) && relocated_all[i] == x;
        let s = songs[i];
        lemma_missing_contains(songs, remote, i);
        lemma_derived_location_idempotent(s);
        let p = derived_location(s);
        assert(x.file_location == p);
        if is_correctly_located(s) {
            assert(remote.contains(p));
            assert(is_referenced(songs, p));
            lemma_orphans_contains(songs, remote, remote, p);
            if is_move_source(songs, remote, p) {
                let j = choose|j: int|
                    0 <= j < songs.len() && is_moved(songs[j], remote) && #[trigger] songs[j].file_location == p;
                assert(j != i);
            }
        } else {
            assert(is_move_target(songs, remote, p));
            lemma_orphans_contains(songs, remote, remote, p);
            if is_move_source(songs, remote, p) {
                let j = choose|j: int|
                    0 <= j < songs.len() && is_moved(songs[j], remote) && #[trigger] songs[j].file_location == p;
                assert(j != i);
            }
        }
        assert(stored.contains(p));
        assert(listing.to_set().contains(p));
    }
    lemma_misplaced_none(after, listing);
    lemma_missing_none(after, listing);
    // Each stored path is the location of a surviving song.
    assert forall|k: int| 0 <= k < listing.len() implies is_referenced(after, #[trigger] listing[k]) by {
        let p = listing[k];
        assert(listing.to_set().contains(p));
        assert(stored.contains(p));
        lemma_orphans_contains(songs, remote, remote, p);
        let i = if is_move_target(songs, remote, p) {
            choose|i: int|
                0 <= i < songs.len() && !is_correctly_located(songs[i]) && is_present(songs[i], remote)
                    && #[trigger] derived_location(songs[i]) == p
        } else {
            choose|i: int| 0 <= i < songs.len() && #[trigger] songs[i].file_location == p
        };
        let s = songs[i];
        if !is_move_target(songs, remote, p) {
            if is_moved(s, remote) {
                assert(is_move_source(songs, remote, p));
            }
            if !is_present(s, remote) {
                assert(false);
            }
            assert(is_correctly_located(s));
        }
        assert(is_present(s, remote));
        lemma_missing_contains(songs, remote, i);
        lemma_pruned_contains(relocated_all, dropped, relocated(s));
        assert(relocated_all[i] == relocated(s));
        assert(after.contains(relocated(s)));
        let w = choose|w: int| 0 <= w < after.len() && after[w] == relocated(s);
        assert(after[w].file_location == p);
    }
    lemma_orphans_none(after, listing, listing);
}

/// Planned moves ascend, so each position is moved once.
pub proof fn lemma_misplaced_ascending(songs: Seq<SongView>, remote: Seq<Seq<char>>)
    ensures
        forall|a: int, b: int|
            0 <= a < b < misplaced_of(songs, remote).len() ==> #[trigger] misplaced_of(songs, remote)[a]
                < #[trigger] misplaced_of(songs, remote)[b],
    decreases songs.len(),
{
    if songs.len() > 0 {
        let rest = misplaced_of(songs.drop_last(), remote);
        lemma_misplaced_ascending(songs.drop_last(), remote);
        lemma_misplaced_bounds(songs.drop_last(), remote);
        let m = misplaced_of(songs, remote);
        assert forall|a: int, b: int| 0 <= a < b < m.len() implies #[trigger] m[a] < #[trigger] m[b] by {
            if b < rest.len() {
                assert(m[a] == rest[a] && m[b] == rest[b]);
            } else {
                assert(m[a] == rest[a]);
            }
        }
    }
}

/// A position is planned to move exactly when its song is moved.
pub proof fn lemma_misplaced_contains(songs: Seq<SongView>, remote: Seq<Seq<char>>, i: int)
    ensures
        misplaced_of(songs, remote).contains(i) <==> 0 <= i < songs.len() && is_moved(songs[i], remote),
    decreases songs.len(),
{
    if songs.len() > 0 {
        let rest = misplaced_of(songs.drop_last(), remote);
        lemma_misplaced_contains(songs.drop_last(), remote, i);
        if is_moved(songs.last(), remote) {
            crate::reconcile::lemma_contains_push(rest, songs.len() - 1, i);
        }
    }
}

} // verus!
