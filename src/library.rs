//! The canonical collection: merging matched and new songs, and minting ids.

use vstd::prelude::*;

use crate::reconcile::pair_views;
use crate::song::{song_views, Song, SongView};
use crate::text::{is_path_char, push_char};

verus! {

/// Length of a freshly drawn song id.
pub const SONG_ID_LENGTH: usize = 16;

/// How many random ids are drawn before the counter ids are searched instead.
pub const MAX_ID_DRAWS: usize = 64;

/// Relies on rand's `DistString::sample_string` for `Alphanumeric` with the
/// thread-local generator: `len` characters, each one of `A-Z`, `a-z`, `0-9`.
#[verifier::external_body]
fn random_alphanumeric(len: usize) -> (r: String)
    ensures
        r@.len() == len,
        forall|i: int| 0 <= i < len ==> is_path_char(#[trigger] r@[i]),
{
    rand::distributions::DistString::sample_string(
        &rand::distributions::Alphanumeric,
        &mut rand::thread_rng(),
        len,
    )
}

/// Whether some song of `songs` has the id `id`.
pub open spec fn has_id(songs: Seq<SongView>, id: Seq<char>) -> bool {
    exists|i: int| 0 <= i < songs.len() && #[trigger] songs[i].id == id
}

/// No two songs share an id.
pub open spec fn distinct_ids(songs: Seq<SongView>) -> bool {
    forall|i: int, j: int| 0 <= i < j < songs.len() ==> #[trigger] songs[i].id != #[trigger] songs[j].id
}

/// An id of `SONG_ID_LENGTH` ASCII letters and digits.
pub open spec fn is_song_id(id: Seq<char>) -> bool {
    id.len() == SONG_ID_LENGTH && forall|i: int| 0 <= i < id.len() ==> is_path_char(#[trigger] id[i])
}

/// A matched song: genre and rating from the export, everything else from the
/// canonical record.
pub open spec fn merged_song(source: SongView, canonical: SongView) -> SongView {
    SongView { genre: source.genre, rating: source.rating, ..canonical }
}

/// `s` with its id replaced by `id`.
pub open spec fn with_id(s: SongView, id: Seq<char>) -> SongView {
    SongView { id, ..s }
}

/// Position of the last song with id `id`, or -1.
pub open spec fn find_id(songs: Seq<SongView>, id: Seq<char>) -> int
    decreases songs.len(),
{
    if songs.len() == 0 {
        -1
    } else if songs.last().id == id {
        songs.len() - 1
    } else {
        find_id(songs.drop_last(), id)
    }
}

/// Puts `s` in place of the song with its id, or appends it.
pub open spec fn upsert(songs: Seq<SongView>, s: SongView) -> Seq<SongView> {
    if find_id(songs, s.id) < 0 {
        songs.push(s)
    } else {
        songs.update(find_id(songs, s.id), s)
    }
}

/// The merged songs of the matched pairs, one per canonical id; a later pair
/// replaces an earlier one with the same canonical id.
pub open spec fn merged_songs(pairs: Seq<(SongView, SongView)>) -> Seq<SongView>
    decreases pairs.len(),
{
    if pairs.len() == 0 {
        Seq::empty()
    } else {
        upsert(merged_songs(pairs.drop_last()), merged_song(pairs.last().0, pairs.last().1))
    }
}

/// `r` is a combination of the pairs and the new songs: the merged songs,
/// then each new song unchanged but for a fresh id; all ids distinct.
pub open spec fn is_combination(
    pairs: Seq<(SongView, SongView)>,
    new_songs: Seq<SongView>,
    r: Seq<SongView>,
) -> bool {
    let merged = merged_songs(pairs);
    &&& r.len() == merged.len() + new_songs.len()
    &&& r.subrange(0, merged.len() as int) == merged
    &&& forall|j: int|
        0 <= j < new_songs.len() ==> #[trigger] r[merged.len() + j] == with_id(
            new_songs[j],
            r[merged.len() + j].id,
        ) && is_song_id(r[merged.len() + j].id)
    &&& distinct_ids(r)
}

/// The canonical collection.
pub struct Library {
    pub songs: Vec<Song>,
}

impl View for Library {
    type V = Seq<SongView>;

    open spec fn view(&self) -> Seq<SongView> {
        song_views(self.songs@)
    }
}

/// Whether a song of `songs` has the id `id`.
fn contains_id(songs: &Vec<Song>, id: &String) -> (r: bool)
    ensures
        r == has_id(song_views(songs@), id@),
{
    let mut i: usize = 0;
    while i < songs.len()
        invariant
            i <= songs.len(),
            forall|k: int| 0 <= k < i ==> songs@[k]@.id != id@,
        decreases songs.len() - i,
    {
        if songs[i].id == *id {
            assert(song_views(songs@)[i as int].id == id@);
            return true;
        }
        i = i + 1;
    }
    false
}

/// The lowercase hexadecimal digit of `d`.
pub open spec fn hex_digit(d: u64) -> char {
    if d < 10 {
        ((48 + d) as u8) as char
    } else {
        ((87 + d) as u8) as char
    }
}

/// The hexadecimal digit of `k` at position `p`, most significant first.
pub open spec fn nibble(k: u64, p: int) -> u64 {
    (k >> ((60 - 4 * p) as u64)) & 15
}

/// The counter id `k`: `k` written as sixteen hexadecimal digits.
pub open spec fn counter_id(k: u64) -> Seq<char> {
    Seq::new(SONG_ID_LENGTH as nat, |p: int| hex_digit(nibble(k, p)))
}

/// A digit of a 64-bit number is below 16.
proof fn lemma_nibble_bound(k: u64, shift: u64)
    ensures
        (k >> shift) & 15 < 16,
{
    assert((k >> shift) & 15 < 16) by (bit_vector);
}

/// Distinct counters give distinct counter ids.
proof fn lemma_counter_id_injective(a: u64, b: u64)
    requires
        counter_id(a) == counter_id(b),
    ensures
        a == b,
{
    assert forall|p: int| 0 <= p < 16 implies #[trigger] nibble(a, p) == nibble(b, p) by {
        assert(counter_id(a)[p] == counter_id(b)[p]);
        assert(counter_id(a)[p] == hex_digit(nibble(a, p)));
        assert(counter_id(b)[p] == hex_digit(nibble(b, p)));
        lemma_nibble_bound(a, (60 - 4 * p) as u64);
        lemma_nibble_bound(b, (60 - 4 * p) as u64);
        lemma_hex_digit_injective(nibble(a, p), nibble(b, p));
    }
    assert(nibble(a, 0) == nibble(b, 0));
    assert(nibble(a, 1) == nibble(b, 1));
    assert(nibble(a, 2) == nibble(b, 2));
    assert(nibble(a, 3) == nibble(b, 3));
    assert(nibble(a, 4) == nibble(b, 4));
    assert(nibble(a, 5) == nibble(b, 5));
    assert(nibble(a, 6) == nibble(b, 6));
    assert(nibble(a, 7) == nibble(b, 7));
    assert(nibble(a, 8) == nibble(b, 8));
    assert(nibble(a, 9) == nibble(b, 9));
    assert(nibble(a, 10) == nibble(b, 10));
    assert(nibble(a, 11) == nibble(b, 11));
    assert(nibble(a, 12) == nibble(b, 12));
    assert(nibble(a, 13) == nibble(b, 13));
    assert(nibble(a, 14) == nibble(b, 14));
    assert(nibble(a, 15) == nibble(b, 15));
    assert(((a >> 60u64) & 15u64) == ((b >> 60u64) & 15u64) && ((a >> 56u64) & 15u64) == ((b >> 56u64) & 15u64)
        && ((a >> 52u64) & 15u64) == ((b >> 52u64) & 15u64) && ((a >> 48u64) & 15u64) == ((b >> 48u64) & 15u64)
        && ((a >> 44u64) & 15u64) == ((b >> 44u64) & 15u64) && ((a >> 40u64) & 15u64) == ((b >> 40u64) & 15u64)
        && ((a >> 36u64) & 15u64) == ((b >> 36u64) & 15u64) && ((a >> 32u64) & 15u64) == ((b >> 32u64) & 15u64)
        && ((a >> 28u64) & 15u64) == ((b >> 28u64) & 15u64) && ((a >> 24u64) & 15u64) == ((b >> 24u64) & 15u64)
        && ((a >> 20u64) & 15u64) == ((b >> 20u64) & 15u64) && ((a >> 16u64) & 15u64) == ((b >> 16u64) & 15u64)
        && ((a >> 12u64) & 15u64) == ((b >> 12u64) & 15u64) && ((a >> 8u64) & 15u64) == ((b >> 8u64) & 15u64)
        && ((a >> 4u64) & 15u64) == ((b >> 4u64) & 15u64) && ((a >> 0u64) & 15u64) == ((b >> 0u64) & 15u64)
        ==> a == b) by (bit_vector);
}

/// Distinct digits are written differently.
proof fn lemma_hex_digit_injective(x: u64, y: u64)
    requires
        x < 16,
        y < 16,
        hex_digit(x) == hex_digit(y),
    ensures
        x == y,
{
    let cx: u8 = if x < 10 { (48 + x) as u8 } else { (87 + x) as u8 };
    let cy: u8 = if y < 10 { (48 + y) as u8 } else { (87 + y) as u8 };
    assert(hex_digit(x) == cx as char);
    assert(hex_digit(y) == cy as char);
    assert(cx == cy);
}

/// The hexadecimal digit of `d`.
fn hex_char(d: u64) -> (c: char)
    requires
        d < 16,
    ensures
        c == hex_digit(d),
        is_path_char(c),
{
    if d < 10 {
        ((48 + d) as u8) as char
    } else {
        ((87 + d) as u8) as char
    }
}

/// Builds the counter id `k`.
fn make_counter_id(k: u64) -> (r: String)
    ensures
        r@ == counter_id(k),
        is_song_id(r@),
{
    let mut s = String::new();
    let mut p: u64 = 0;
    while p < 16
        invariant
            p <= 16,
            s@ == counter_id(k).subrange(0, p as int),
            forall|i: int| 0 <= i < p ==> is_path_char(#[trigger] s@[i]),
        decreases 16 - p,
    {
        proof {
            lemma_nibble_bound(k, (60 - 4 * p) as u64);
        }
        let d = (k >> (60 - 4 * p)) & 15;
        assert(d == nibble(k, p as int));
        let c = hex_char(d);
        push_char(&mut s, c);
        assert(counter_id(k).subrange(0, p + 1) == counter_id(k).subrange(0, p as int).push(c));
        p = p + 1;
    }
    assert(counter_id(k).subrange(0, 16) == counter_id(k));
    s
}

/// An id that no song of `songs` has: a random one of `SONG_ID_LENGTH` letters
/// and digits, drawn again on collision. Should every one of `MAX_ID_DRAWS`
/// draws collide, the counter ids 0, 1, ... are tried in turn; among the first
/// `songs.len() + 1` of them one is free.
pub fn fresh_song_id(songs: &Vec<Song>) -> (r: String)
    ensures
        !has_id(song_views(songs@), r@),
        r@.len() == SONG_ID_LENGTH,
        is_song_id(r@),
{
    let mut id = random_alphanumeric(SONG_ID_LENGTH);
    let mut draws: usize = 1;
    while contains_id(songs, &id) && draws < MAX_ID_DRAWS
        invariant
            is_song_id(id@),
            1 <= draws <= MAX_ID_DRAWS,
        decreases MAX_ID_DRAWS - draws,
    {
        id = random_alphanumeric(SONG_ID_LENGTH);
        draws = draws + 1;
    }
    if !contains_id(songs, &id) {
        return id;
    }
    let ghost all_ids = song_views(songs@).map_values(|s: SongView| s.id);
    let ghost taken = all_ids.to_set();
    proof {
        all_ids.lemma_cardinality_of_set();
        vstd::seq_lib::seq_to_set_is_finite(all_ids);
    }
    let n = songs.len() as u64;
    let mut k: u64 = 0;
    let ghost mut tried: Set<Seq<char>> = Set::empty();
    loop
        invariant
            n == songs@.len(),
            all_ids == song_views(songs@).map_values(|s: SongView| s.id),
            taken == all_ids.to_set(),
            taken.finite(),
            taken.len() <= n,
            k <= n,
            tried.finite(),
            tried.len() == k,
            tried.subset_of(taken),
            forall|x: Seq<char>| tried.contains(x) ==> exists|j: u64| j < k && #[trigger] counter_id(j) == x,
        decreases n - k,
    {
        let candidate = make_counter_id(k);
        if !contains_id(songs, &candidate) {
            return candidate;
        }
        proof {
            let i = choose|i: int| 0 <= i < song_views(songs@).len() && #[trigger] song_views(songs@)[i].id == candidate@;
            assert(all_ids[i] == candidate@);
            assert(taken.contains(candidate@));
            if tried.contains(candidate@) {
                let j = choose|j: u64| j < k && #[trigger] counter_id(j) == candidate@;
                lemma_counter_id_injective(j, k);
            }
            let next = tried.insert(candidate@);
            assert(next.len() == k + 1);
            vstd::set_lib::lemma_len_subset(next, taken);
            assert forall|x: Seq<char>| next.contains(x) implies exists|j: u64| j < k + 1 && #[trigger] counter_id(j) == x by {
                if x == candidate@ {
                    assert(counter_id(k) == x);
                } else {
                    let j = choose|j: u64| j < k && #[trigger] counter_id(j) == x;
                    assert(j < k + 1);
                }
            }
            tried = next;
        }
        k = k + 1;
    }
}

impl Library {
    /// No two songs share an id.
    pub open spec fn wf(&self) -> bool {
        distinct_ids(self@)
    }

    /// Whether no two songs share an id.
    pub fn has_distinct_ids(&self) -> (r: bool)
        ensures
            r == self.wf(),
    {
        let ghost v = self@;
        let mut j: usize = 0;
        while j < self.songs.len()
            invariant
                j <= self.songs.len(),
                v == self@,
                forall|a: int, b: int| 0 <= a < b < j ==> #[trigger] v[a].id != #[trigger] v[b].id,
            decreases self.songs.len() - j,
        {
            let mut i: usize = 0;
            while i < j
                invariant
                    i <= j < self.songs.len(),
                    v == self@,
                    forall|a: int| 0 <= a < i ==> #[trigger] v[a].id != v[j as int].id,
                decreases j - i,
            {
                assert(v[i as int] == self.songs@[i as int]@ && v[j as int] == self.songs@[j as int]@);
                if self.songs[i].id == self.songs[j].id {
                    assert(v[i as int].id == v[j as int].id);
                    assert(!distinct_ids(v));
                    return false;
                }
                i = i + 1;
            }
            j = j + 1;
        }
        true
    }

    /// The song with the given id, if any.
    pub fn song_with_id(&self, id: &String) -> (r: Option<&Song>)
        ensures
            r matches Some(s) ==> s@.id == id@ && self@.contains(s@),
            r is None ==> !has_id(self@, id@),
    {
        let mut i: usize = 0;
        while i < self.songs.len()
            invariant
                i <= self.songs.len(),
                forall|k: int| 0 <= k < i ==> self.songs@[k]@.id != id@,
            decreases self.songs.len() - i,
        {
            if self.songs[i].id == *id {
                assert(self@[i as int] == self.songs@[i as int]@);
                return Some(&self.songs[i]);
            }
            i = i + 1;
        }
        assert forall|k: int| 0 <= k < self@.len() implies #[trigger] self@[k].id != id@ by {
            assert(self@[k] == self.songs@[k]@);
        }
        None
    }

    /// An id that no song of the library has.
    pub fn new_song_id(&self) -> (r: String)
        ensures
            !has_id(self@, r@),
            r@.len() == SONG_ID_LENGTH,
            is_song_id(r@),
    {
        fresh_song_id(&self.songs)
    }

    /// Builds the next canonical collection from the matched pairs (export song,
    /// canonical song) and the songs that are new; each new song gets a fresh id.
    pub fn combine_libraries(matched_songs: &Vec<(Song, Song)>, new_songs: &Vec<Song>) -> (r: Library)
        ensures
            is_combination(pair_views(matched_songs@), song_views(new_songs@), r@),
            r.wf(),
    {
        let ghost pairs = pair_views(matched_songs@);
        let mut songs: Vec<Song> = Vec::new();
        let mut i: usize = 0;
        while i < matched_songs.len()
            invariant
                i <= matched_songs.len(),
                pairs == pair_views(matched_songs@),
                song_views(songs@) == merged_songs(pairs.subrange(0, i as int)),
                distinct_ids(song_views(songs@)),
            decreases matched_songs.len() - i,
        {
            let source = &matched_songs[i].0;
            let dest = &matched_songs[i].1;
            let merged = Song {
                id: dest.id.clone(),
                title: dest.title.clone(),
                genre: source.genre.clone(),
                artist: dest.artist.clone(),
                album: dest.album.clone(),
                duration: dest.duration,
                rating: source.rating,
                file_location: dest.file_location.clone(),
            };
            let ghost prefix = pairs.subrange(0, i + 1);
            assert(prefix.drop_last() == pairs.subrange(0, i as int));
            assert(prefix.last() == (source@, dest@));
            assert(merged@ == merged_song(source@, dest@));
            upsert_song(&mut songs, merged);
            i = i + 1;
        }
        assert(pairs.subrange(0, matched_songs.len() as int) == pairs);
        let ghost merged_len = songs@.len();
        let mut k: usize = 0;
        while k < new_songs.len()
            invariant
                k <= new_songs.len(),
                songs@.len() == merged_len + k,
                song_views(songs@).subrange(0, merged_len as int) == merged_songs(pairs),
                forall|j: int|
                    0 <= j < k ==> #[trigger] song_views(songs@)[merged_len + j] == with_id(
                        song_views(new_songs@)[j],
                        song_views(songs@)[merged_len + j].id,
                    ) && is_song_id(song_views(songs@)[merged_len + j].id),
                distinct_ids(song_views(songs@)),
            decreases new_songs.len() - k,
        {
            let id = fresh_song_id(&songs);
            let mut song = new_songs[k].duplicate();
            song.id = id;
            let ghost before = song_views(songs@);
            songs.push(song);
            assert(song_views(songs@) == before.push(song@));
            assert(before.push(song@).subrange(0, merged_len as int) == before.subrange(0, merged_len as int));
            assert forall|a: int, b: int|
                0 <= a < b < song_views(songs@).len() implies #[trigger] song_views(songs@)[a].id
                != #[trigger] song_views(songs@)[b].id by {
                if b == before.len() {
                    assert(before[a].id != song@.id);
                }
            }
            k = k + 1;
        }
        Library { songs }
    }
}

/// Puts `s` in place of the song with the same id, or appends it.
fn upsert_song(songs: &mut Vec<Song>, s: Song)
    requires
        distinct_ids(song_views(old(songs)@)),
    ensures
        song_views(final(songs)@) == upsert(song_views(old(songs)@), s@),
        distinct_ids(song_views(final(songs)@)),
{
    let ghost before = song_views(songs@);
    let mut j: usize = songs.len();
    assert(before.subrange(0, j as int) == before);
    while j > 0 && songs[j - 1].id != s.id
        invariant
            j <= songs.len(),
            before == song_views(songs@),
            find_id(before, s@.id) == find_id(before.subrange(0, j as int), s@.id),
            forall|k: int| j <= k < before.len() ==> before[k].id != s@.id,
        decreases j,
    {
        assert(before.subrange(0, j as int).drop_last() == before.subrange(0, j - 1));
        j = j - 1;
    }
    if j == 0 {
        assert(find_id(before.subrange(0, 0), s@.id) == -1);
        songs.push(s);
        let ghost after = song_views(songs@);
        assert(after == before.push(s@));
        assert forall|a: int, b: int| 0 <= a < b < after.len() implies #[trigger] after[a].id
            != #[trigger] after[b].id by {
            if b < before.len() {
                assert(after[a] == before[a] && after[b] == before[b]);
            }
        }
    } else {
        assert(before.subrange(0, j as int).last().id == s@.id);
        songs.set(j - 1, s);
        let ghost after = song_views(songs@);
        assert(after == before.update(j - 1, s@));
        assert forall|k: int| 0 <= k < after.len() implies #[trigger] after[k].id == before[k].id by {}
    }
}

/// `find_id` finds a song with the id, or reports -1.
pub proof fn lemma_find_id(songs: Seq<SongView>, id: Seq<char>)
    ensures
        -1 <= find_id(songs, id) < songs.len(),
        find_id(songs, id) >= 0 ==> songs[find_id(songs, id)].id == id,
    decreases songs.len(),
{
    if songs.len() > 0 && songs.last().id != id {
        lemma_find_id(songs.drop_last(), id);
    }
}

/// The canonical ids of the pairs are pairwise distinct.
pub open spec fn distinct_canonical_ids(pairs: Seq<(SongView, SongView)>) -> bool {
    forall|i: int, j: int| 0 <= i < j < pairs.len() ==> #[trigger] pairs[i].1.id != #[trigger] pairs[j].1.id
}

/// With distinct canonical ids, each pair gives its own merged song, in order.
pub proof fn lemma_merged_songs_each(pairs: Seq<(SongView, SongView)>)
    requires
        distinct_canonical_ids(pairs),
    ensures
        merged_songs(pairs).len() == pairs.len(),
        forall|i: int|
            0 <= i < pairs.len() ==> #[trigger] merged_songs(pairs)[i] == merged_song(pairs[i].0, pairs[i].1),
    decreases pairs.len(),
{
    if pairs.len() > 0 {
        let prefix = pairs.drop_last();
        lemma_merged_songs_each(prefix);
        let ms = merged_songs(prefix);
        let last = merged_song(pairs.last().0, pairs.last().1);
        lemma_find_id(ms, last.id);
        if find_id(ms, last.id) >= 0 {
            let f = find_id(ms, last.id);
            assert(ms[f] == merged_song(prefix[f].0, prefix[f].1));
            assert(pairs[f].1.id != pairs[pairs.len() - 1].1.id);
        }
        assert(merged_songs(pairs) == ms.push(last));
    }
}

/// Combining n matched pairs whose canonical ids are distinct with m new songs
/// gives exactly n + m songs with distinct ids: first each pair's merged song,
/// carrying the export's genre and rating and the canonical id, location, title,
/// artist, album and duration; then the new songs under fresh ids.
pub proof fn lemma_combination_counts(
    pairs: Seq<(SongView, SongView)>,
    new_songs: Seq<SongView>,
    r: Seq<SongView>,
)
    requires
        distinct_canonical_ids(pairs),
        is_combination(pairs, new_songs, r),
    ensures
        r.len() == pairs.len() + new_songs.len(),
        distinct_ids(r),
        forall|i: int| 0 <= i < pairs.len() ==> #[trigger] r[i] == merged_song(pairs[i].0, pairs[i].1),
        forall|j: int|
            0 <= j < new_songs.len() ==> #[trigger] r[pairs.len() + j] == with_id(
                new_songs[j],
                r[pairs.len() + j].id,
            ),
{
    lemma_merged_songs_each(pairs);
    let merged = merged_songs(pairs);
    assert forall|i: int| 0 <= i < pairs.len() implies #[trigger] r[i] == merged_song(pairs[i].0, pairs[i].1) by {
        assert(r.subrange(0, merged.len() as int)[i] == r[i]);
    }
}

} // verus!
