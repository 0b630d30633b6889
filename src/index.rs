//! A title-bucketed index for finding the same track in another collection.

use vstd::prelude::*;

use crate::song::{song_views, Song, SongView};

verus! {

/// Two songs are the same track when title, artist, album and duration agree;
/// the id takes no part.
pub open spec fn same_identity(a: SongView, b: SongView) -> bool {
    a.title == b.title && a.artist == b.artist && a.album == b.album && a.duration == b.duration
}

/// The first song of `songs` that is the same track as `target`.
pub open spec fn first_match(songs: Seq<SongView>, target: SongView) -> Option<SongView>
    decreases songs.len(),
{
    if songs.len() == 0 {
        None
    } else {
        match first_match(songs.drop_last(), target) {
            Some(s) => Some(s),
            None => if same_identity(songs.last(), target) {
                Some(songs.last())
            } else {
                None
            },
        }
    }
}

/// The songs of `songs` with the given title, in their order.
pub open spec fn titled(songs: Seq<SongView>, title: Seq<char>) -> Seq<SongView>
    decreases songs.len(),
{
    if songs.len() == 0 {
        Seq::empty()
    } else if songs.last().title == title {
        titled(songs.drop_last(), title).push(songs.last())
    } else {
        titled(songs.drop_last(), title)
    }
}

/// The songs that share one title.
pub struct TitleBucket {
    pub title: String,
    pub songs: Vec<Song>,
}

/// A lookup structure over a collection, grouping its songs by title.
pub struct LibraryHash {
    buckets: Vec<TitleBucket>,
    source: Ghost<Seq<SongView>>,
}

impl View for LibraryHash {
    type V = Seq<SongView>;

    /// The collection the index was built from, in order.
    closed spec fn view(&self) -> Seq<SongView> {
        self.source@
    }
}

impl LibraryHash {
    /// Each bucket holds exactly the songs of its title, in collection order,
    /// and at least one; titles are distinct, and a title without a bucket has
    /// no song.
    pub closed spec fn wf(&self) -> bool {
        &&& forall|i: int|
            0 <= i < self.buckets.len() ==> song_views(#[trigger] self.buckets[i].songs@) == titled(
                self.source@,
                self.buckets[i].title@,
            ) && self.buckets[i].songs@.len() > 0
        &&& forall|i: int, j: int|
            0 <= i < j < self.buckets.len() ==> #[trigger] self.buckets[i].title@
                != #[trigger] self.buckets[j].title@
        &&& forall|t: Seq<char>|
            (forall|i: int| 0 <= i < self.buckets.len() ==> #[trigger] self.buckets[i].title@ != t)
                ==> #[trigger] titled(self.source@, t).len() == 0
    }

    /// Groups the songs by title.
    pub fn new(songs: &Vec<Song>) -> (r: LibraryHash)
        ensures
            r.wf(),
            r@ == song_views(songs@),
    {
        let mut r = LibraryHash { buckets: Vec::new(), source: Ghost(Seq::empty()) };
        let mut k: usize = 0;
        while k < songs.len()
            invariant
                k <= songs.len(),
                r.wf(),
                r@ == song_views(songs@.subrange(0, k as int)),
            decreases songs.len() - k,
        {
            let song = &songs[k];
            let ghost old_source = r.source@;
            let ghost new_source = old_source.push(song@);
            assert(song_views(songs@.subrange(0, k + 1)) == new_source);
            assert(new_source.drop_last() == old_source);
            assert forall|t: Seq<char>|
                #[trigger] titled(new_source, t) == if song@.title == t {
                    titled(old_source, t).push(song@)
                } else {
                    titled(old_source, t)
                } by {}
            let mut i: usize = 0;
            while i < r.buckets.len() && r.buckets[i].title != song.title
                invariant
                    i <= r.buckets.len(),
                    forall|j: int| 0 <= j < i ==> r.buckets[j].title@ != song.title@,
                decreases r.buckets.len() - i,
            {
                i = i + 1;
            }
            let ghost old_buckets = r.buckets@;
            if i < r.buckets.len() {
                r.buckets[i].songs.push(song.duplicate());
                r.source = Ghost(new_source);
                assert forall|j: int| 0 <= j < r.buckets.len() implies song_views(
                    #[trigger] r.buckets[j].songs@,
                ) == titled(r.source@, r.buckets[j].title@) by {
                    if j == i {
                        assert(song_views(r.buckets[j].songs@) == song_views(
                            old_buckets[j].songs@,
                        ).push(song@));
                    } else {
                        assert(r.buckets[j] == old_buckets[j]);
                    }
                }
                assert forall|t: Seq<char>|
                    (forall|j: int|
                        0 <= j < r.buckets.len() ==> #[trigger] r.buckets[j].title@ != t) implies #[trigger] titled(
                    r.source@,
                    t,
                ).len() == 0 by {
                    assert(r.buckets[i as int].title@ != t);
                    assert(old_buckets[i as int].title@ != t);
                    assert forall|j: int| 0 <= j < old_buckets.len() implies #[trigger] old_buckets[j].title@ != t by {
                        assert(r.buckets[j].title@ == old_buckets[j].title@);
                    }
                }
            } else {
                let mut first: Vec<Song> = Vec::new();
                first.push(song.duplicate());
                r.buckets.push(TitleBucket { title: song.title.clone(), songs: first });
                r.source = Ghost(new_source);
                assert(titled(old_source, song@.title).len() == 0);
                assert(titled(old_source, song@.title) == Seq::<SongView>::empty());
                assert forall|j: int| 0 <= j < r.buckets.len() implies song_views(
                    #[trigger] r.buckets[j].songs@,
                ) == titled(r.source@, r.buckets[j].title@) by {
                    if j == i {
                        assert(song_views(r.buckets[j].songs@) == seq![song@]);
                        assert(Seq::<SongView>::empty().push(song@) == seq![song@]);
                    } else {
                        assert(r.buckets[j] == old_buckets[j]);
                    }
                }
                assert forall|t: Seq<char>|
                    (forall|j: int|
                        0 <= j < r.buckets.len() ==> #[trigger] r.buckets[j].title@ != t) implies #[trigger] titled(
                    r.source@,
                    t,
                ).len() == 0 by {
                    assert(r.buckets[i as int].title@ != t);
                    assert forall|j: int| 0 <= j < old_buckets.len() implies #[trigger] old_buckets[j].title@ != t by {
                        assert(r.buckets[j].title@ == old_buckets[j].title@);
                    }
                }
            }
            k = k + 1;
        }
        assert(songs@.subrange(0, songs.len() as int) == songs@);
        r
    }

    /// The first song of the collection that is the same track as `target`.
    pub fn lookup(&self, target: &Song) -> (r: Option<Song>)
        requires
            self.wf(),
        ensures
            r matches Some(s) ==> first_match(self@, target@) == Some(s@),
            r is None ==> first_match(self@, target@) is None,
    {
        proof {
            lemma_first_match_titled(self@, target@);
        }
        let mut i: usize = 0;
        while i < self.buckets.len() && self.buckets[i].title != target.title
            invariant
                i <= self.buckets.len(),
                forall|j: int| 0 <= j < i ==> self.buckets[j].title@ != target.title@,
            decreases self.buckets.len() - i,
        {
            i = i + 1;
        }
        if i == self.buckets.len() {
            assert(titled(self@, target@.title).len() == 0);
            return None;
        }
        let bucket = &self.buckets[i];
        let ghost all = song_views(bucket.songs@);
        assert(all == titled(self@, target@.title));
        let mut k: usize = 0;
        while k < bucket.songs.len()
            invariant
                k <= bucket.songs.len(),
                all == song_views(bucket.songs@),
                first_match(self@, target@) == first_match(all, target@),
                first_match(all.subrange(0, k as int), target@) is None,
            decreases bucket.songs.len() - k,
        {
            let s = &bucket.songs[k];
            assert(all.subrange(0, k + 1).drop_last() == all.subrange(0, k as int));
            if s.artist == target.artist && s.album == target.album && s.duration == target.duration
                && s.title == target.title {
                proof {
                    let pre = all.subrange(0, k + 1);
                    assert(pre.last() == s@);
                    assert(same_identity(s@, target@));
                    assert(first_match(pre, target@) == Some(s@));
                    lemma_first_match_prefix(all, k + 1, target@);
                }
                return Some(s.duplicate());
            }
            k = k + 1;
        }
        assert(all.subrange(0, k as int) == all);
        None
    }
}

/// Once a prefix holds a match, the whole sequence has that same first match.
pub proof fn lemma_first_match_prefix(s: Seq<SongView>, k: int, target: SongView)
    requires
        0 <= k <= s.len(),
        first_match(s.subrange(0, k), target) is Some,
    ensures
        first_match(s, target) == first_match(s.subrange(0, k), target),
    decreases s.len(),
{
    if k < s.len() {
        assert(s.drop_last().subrange(0, k) == s.subrange(0, k));
        lemma_first_match_prefix(s.drop_last(), k, target);
    } else {
        assert(s.subrange(0, k) == s);
    }
}

/// Only the songs of the target's title can match it.
pub proof fn lemma_first_match_titled(s: Seq<SongView>, target: SongView)
    ensures
        first_match(s, target) == first_match(titled(s, target.title), target),
    decreases s.len(),
{
    if s.len() > 0 {
        lemma_first_match_titled(s.drop_last(), target);
        if s.last().title == target.title {
            let t = titled(s.drop_last(), target.title);
            assert(t.push(s.last()).drop_last() == t);
        }
    }
}

/// A match is a song of the sequence and the same track as the target.
pub proof fn lemma_first_match_sound(s: Seq<SongView>, target: SongView)
    ensures
        first_match(s, target) matches Some(m) ==> s.contains(m) && same_identity(m, target),
    decreases s.len(),
{
    if s.len() > 0 {
        lemma_first_match_sound(s.drop_last(), target);
        if let Some(m) = first_match(s.drop_last(), target) {
            let j = choose|j: int| 0 <= j < s.drop_last().len() && s.drop_last()[j] == m;
            assert(s[j] == m);
        } else if same_identity(s.last(), target) {
            assert(s[s.len() - 1] == s.last());
        }
    }
}

/// A sequence that holds the same track as the target has a match for it.
pub proof fn lemma_first_match_complete(s: Seq<SongView>, z: SongView, target: SongView)
    requires
        s.contains(z),
        same_identity(z, target),
    ensures
        first_match(s, target) is Some,
    decreases s.len(),
{
    if s.last() != z {
        let j = choose|j: int| 0 <= j < s.len() && s[j] == z;
        assert(s.drop_last()[j] == z);
        lemma_first_match_complete(s.drop_last(), z, target);
    }
}

/// Looking up any song of a collection in the index built over it finds the
/// same track: the index contains each of its songs.
pub proof fn lemma_index_contains_members(c: Seq<SongView>, k: int)
    requires
        0 <= k < c.len(),
    ensures
        first_match(c, c[k]) matches Some(m) && same_identity(m, c[k]),
{
    lemma_first_match_complete(c, c[k], c[k]);
    lemma_first_match_sound(c, c[k]);
}

} // verus!
