//! Comparing a fresh export with the canonical collection.

use vstd::prelude::*;

use crate::index::{
    first_match, lemma_first_match_complete, lemma_first_match_sound, same_identity, LibraryHash,
};
use crate::song::{song_views, Song, SongView};

verus! {

/// The views of a sequence of (source, canonical) pairs.
pub open spec fn pair_views(pairs: Seq<(Song, Song)>) -> Seq<(SongView, SongView)> {
    pairs.map_values(|p: (Song, Song)| (p.0@, p.1@))
}

/// Each source song that has a counterpart in `canonical`, paired with its
/// first counterpart, in source order.
pub open spec fn matched_pairs(source: Seq<SongView>, canonical: Seq<SongView>) -> Seq<
    (SongView, SongView),
>
    decreases source.len(),
{
    if source.len() == 0 {
        Seq::empty()
    } else {
        let rest = matched_pairs(source.drop_last(), canonical);
        match first_match(canonical, source.last()) {
            Some(c) => rest.push((source.last(), c)),
            None => rest,
        }
    }
}

/// The songs of `songs` that have no counterpart in `other`, in order.
pub open spec fn unmatched(songs: Seq<SongView>, other: Seq<SongView>) -> Seq<SongView>
    decreases songs.len(),
{
    if songs.len() == 0 {
        Seq::empty()
    } else {
        let rest = unmatched(songs.drop_last(), other);
        if first_match(other, songs.last()) is None {
            rest.push(songs.last())
        } else {
            rest
        }
    }
}

/// No two songs of the sequence are the same track.
pub open spec fn distinct_identities(songs: Seq<SongView>) -> bool {
    forall|i: int, j: int|
        0 <= i < songs.len() && 0 <= j < songs.len() && same_identity(songs[i], songs[j]) ==> i == j
}

/// The outcome of comparing a fresh export with the canonical collection.
pub struct Diff {
    /// (source, canonical) pairs that are the same track.
    pub matched: Vec<(Song, Song)>,
    /// Source songs without a canonical counterpart.
    pub new_songs: Vec<Song>,
    /// Canonical songs without a source counterpart.
    pub removed_songs: Vec<Song>,
}

/// Compares a fresh export (`source`) with the canonical collection.
pub fn diff_libraries(source: &Vec<Song>, canonical: &Vec<Song>) -> (r: Diff)
    ensures
        pair_views(r.matched@) == matched_pairs(song_views(source@), song_views(canonical@)),
        song_views(r.new_songs@) == unmatched(song_views(source@), song_views(canonical@)),
        song_views(r.removed_songs@) == unmatched(song_views(canonical@), song_views(source@)),
{
    let source_index = LibraryHash::new(source);
    let canonical_index = LibraryHash::new(canonical);
    let ghost src = song_views(source@);
    let ghost can = song_views(canonical@);
    let mut matched: Vec<(Song, Song)> = Vec::new();
    let mut new_songs: Vec<Song> = Vec::new();
    let mut i: usize = 0;
    while i < source.len()
        invariant
            i <= source.len(),
            src == song_views(source@),
            canonical_index.wf(),
            canonical_index@ == can,
            pair_views(matched@) == matched_pairs(src.subrange(0, i as int), can),
            song_views(new_songs@) == unmatched(src.subrange(0, i as int), can),
        decreases source.len() - i,
    {
        let song = &source[i];
        assert(src.subrange(0, i + 1).drop_last() == src.subrange(0, i as int));
        assert(src.subrange(0, i + 1).last() == song@);
        match canonical_index.lookup(song) {
            Some(c) => {
                matched.push((song.duplicate(), c));
                assert(pair_views(matched@) == pair_views(matched@.drop_last()).push(
                    (song@, c@),
                ));
            },
            None => {
                new_songs.push(song.duplicate());
                assert(song_views(new_songs@) == song_views(new_songs@.drop_last()).push(song@));
            },
        }
        i = i + 1;
    }
    assert(src.subrange(0, source.len() as int) == src);
    let mut removed_songs: Vec<Song> = Vec::new();
    let mut k: usize = 0;
    while k < canonical.len()
        invariant
            k <= canonical.len(),
            can == song_views(canonical@),
            source_index.wf(),
            source_index@ == src,
            song_views(removed_songs@) == unmatched(can.subrange(0, k as int), src),
        decreases canonical.len() - k,
    {
        let song = &canonical[k];
        assert(can.subrange(0, k + 1).drop_last() == can.subrange(0, k as int));
        assert(can.subrange(0, k + 1).last() == song@);
        if source_index.lookup(song).is_none() {
            removed_songs.push(song.duplicate());
            assert(song_views(removed_songs@) == song_views(removed_songs@.drop_last()).push(
                song@,
            ));
        }
        k = k + 1;
    }
    assert(can.subrange(0, canonical.len() as int) == can);
    Diff { matched, new_songs, removed_songs }
}

/// Every source song is either matched or new.
pub proof fn lemma_diff_counts(source: Seq<SongView>, canonical: Seq<SongView>)
    ensures
        matched_pairs(source, canonical).len() + unmatched(source, canonical).len() == source.len(),
    decreases source.len(),
{
    if source.len() > 0 {
        lemma_diff_counts(source.drop_last(), canonical);
    }
}

/// Pushing `x` adds exactly `x` to what a sequence contains.
pub proof fn lemma_contains_push<T>(s: Seq<T>, x: T, y: T)
    ensures
        s.push(x).contains(y) <==> s.contains(y) || x == y,
{
    if s.contains(y) {
        let j = choose|j: int| 0 <= j < s.len() && s[j] == y;
        assert(s.push(x)[j] == y);
    }
    if x == y {
        assert(s.push(x)[s.len() as int] == y);
    }
    if s.push(x).contains(y) && x != y {
        let j = choose|j: int| 0 <= j < s.push(x).len() && s.push(x)[j] == y;
        assert(s[j] == y);
    }
}

/// A non-empty sequence contains its prefix's elements and its last one.
pub proof fn lemma_contains_drop_last<T>(s: Seq<T>, y: T)
    requires
        s.len() > 0,
    ensures
        s.contains(y) <==> s.drop_last().contains(y) || s.last() == y,
{
    assert(s == s.drop_last().push(s.last()));
    lemma_contains_push(s.drop_last(), s.last(), y);
}

/// A pair is matched exactly when its source song is in the export and its
/// canonical song is that song's first counterpart.
pub proof fn lemma_matched_pairs_contains(
    source: Seq<SongView>,
    canonical: Seq<SongView>,
    p: (SongView, SongView),
)
    ensures
        matched_pairs(source, canonical).contains(p) <==> source.contains(p.0) && first_match(
            canonical,
            p.0,
        ) == Some(p.1),
    decreases source.len(),
{
    if source.len() > 0 {
        lemma_matched_pairs_contains(source.drop_last(), canonical, p);
        lemma_contains_drop_last(source, p.0);
        let rest = matched_pairs(source.drop_last(), canonical);
        if let Some(m) = first_match(canonical, source.last()) {
            lemma_contains_push(rest, (source.last(), m), p);
        }
    }
}

/// A song is unmatched exactly when it is in `songs` and has no counterpart in `other`.
pub proof fn lemma_unmatched_contains(songs: Seq<SongView>, other: Seq<SongView>, x: SongView)
    ensures
        unmatched(songs, other).contains(x) <==> songs.contains(x) && first_match(other, x) is None,
    decreases songs.len(),
{
    if songs.len() > 0 {
        lemma_unmatched_contains(songs.drop_last(), other, x);
        lemma_contains_drop_last(songs, x);
        let rest = unmatched(songs.drop_last(), other);
        if first_match(other, songs.last()) is None {
            lemma_contains_push(rest, songs.last(), x);
        }
    }
}

/// The diff classifies both sides: matched and new songs together are the
/// export; no song is both new and matched; no canonical song is both removed
/// and the counterpart of a match; and where no two canonical songs are the same
/// track, every canonical song is removed or the counterpart of a match.
pub proof fn lemma_diff_classifies(source: Seq<SongView>, canonical: Seq<SongView>)
    ensures
        matched_pairs(source, canonical).len() + unmatched(source, canonical).len() == source.len(),
        forall|x: SongView, p: (SongView, SongView)|
            #[trigger] unmatched(source, canonical).contains(x) && #[trigger] matched_pairs(
                source,
                canonical,
            ).contains(p) ==> p.0 != x,
        forall|x: SongView, p: (SongView, SongView)|
            #[trigger] unmatched(canonical, source).contains(x) && #[trigger] matched_pairs(
                source,
                canonical,
            ).contains(p) ==> p.1 != x,
        distinct_identities(canonical) ==> forall|k: int|
            0 <= k < canonical.len() ==> unmatched(canonical, source).contains(#[trigger] canonical[k])
                || exists|p: (SongView, SongView)|
                #[trigger] matched_pairs(source, canonical).contains(p) && p.1 == canonical[k],
{
    lemma_diff_counts(source, canonical);
    assert forall|x: SongView, p: (SongView, SongView)|
        #[trigger] unmatched(source, canonical).contains(x) && #[trigger] matched_pairs(
            source,
            canonical,
        ).contains(p) implies p.0 != x by {
        lemma_unmatched_contains(source, canonical, x);
        lemma_matched_pairs_contains(source, canonical, p);
    }
    assert forall|x: SongView, p: (SongView, SongView)|
        #[trigger] unmatched(canonical, source).contains(x) && #[trigger] matched_pairs(
            source,
            canonical,
        ).contains(p) implies p.1 != x by {
        lemma_unmatched_contains(canonical, source, x);
        lemma_matched_pairs_contains(source, canonical, p);
        lemma_first_match_sound(canonical, p.0);
        if p.1 == x {
            lemma_first_match_complete(source, p.0, x);
        }
    }
    if distinct_identities(canonical) {
        assert forall|k: int| 0 <= k < canonical.len() implies unmatched(canonical, source).contains(
            #[trigger] canonical[k],
        ) || exists|p: (SongView, SongView)|
            #[trigger] matched_pairs(source, canonical).contains(p) && p.1 == canonical[k] by {
            let x = canonical[k];
            assert(canonical.contains(x));
            lemma_unmatched_contains(canonical, source, x);
            lemma_first_match_sound(source, x);
            if let Some(y) = first_match(source, x) {
                lemma_first_match_complete(canonical, x, y);
                lemma_first_match_sound(canonical, y);
                let m = first_match(canonical, y)->0;
                let j = choose|j: int| 0 <= j < canonical.len() && canonical[j] == m;
                assert(same_identity(canonical[j], canonical[k]));
                lemma_matched_pairs_contains(source, canonical, (y, x));
                assert(matched_pairs(source, canonical).contains((y, x)));
            }
        }
    }
}

} // verus!
