//! Songs and their canonical storage paths.

use vstd::prelude::*;
use vstd::string::*;

use crate::text::{is_path_char, path_char, push_char};

verus! {

/// The mathematical value of a [`Song`]: its strings as character sequences.
pub struct SongView {
    pub id: Seq<char>,
    pub title: Seq<char>,
    pub genre: Seq<char>,
    pub artist: Seq<char>,
    pub album: Seq<char>,
    pub duration: u32,
    pub rating: u32,
    pub file_location: Seq<char>,
}

/// One track of the collection.
#[derive(Clone, Debug, PartialEq, Eq, PartialOrd, Ord, Hash)]
pub struct Song {
    pub id: String,
    pub title: String,
    pub genre: String,
    pub artist: String,
    pub album: String,
    pub duration: u32,
    pub rating: u32,
    pub file_location: String,
}

impl View for Song {
    type V = SongView;

    open spec fn view(&self) -> SongView {
        SongView {
            id: self.id@,
            title: self.title@,
            genre: self.genre@,
            artist: self.artist@,
            album: self.album@,
            duration: self.duration,
            rating: self.rating,
            file_location: self.file_location@,
        }
    }
}

/// The views of a sequence of songs.
pub open spec fn song_views(songs: Seq<Song>) -> Seq<SongView> {
    songs.map_values(|s: Song| s@)
}

/// Replaces every maximal run of characters outside `[0-9a-zA-Z]` by a single `-`.
pub open spec fn slug(s: Seq<char>) -> Seq<char>
    decreases s.len(),
{
    if s.len() == 0 {
        Seq::empty()
    } else {
        let prefix = s.drop_last();
        let c = s.last();
        if is_path_char(c) {
            slug(prefix).push(c)
        } else if prefix.len() > 0 && !is_path_char(prefix.last()) {
            slug(prefix)
        } else {
            slug(prefix).push('-')
        }
    }
}

/// Position of the last `.` in `s`, or -1 when there is none.
pub open spec fn last_dot(s: Seq<char>) -> int
    decreases s.len(),
{
    if s.len() == 0 {
        -1
    } else if s.last() == '.' {
        s.len() - 1
    } else {
        last_dot(s.drop_last())
    }
}

/// The file extension of a location: from its last `.` to the end, or empty.
pub open spec fn extension(s: Seq<char>) -> Seq<char> {
    if last_dot(s) < 0 {
        Seq::empty()
    } else {
        s.subrange(last_dot(s), s.len() as int)
    }
}

/// `{artist}-{album}-{title}-{id}`, before it is made path-safe.
pub open spec fn location_stem(v: SongView) -> Seq<char> {
    v.artist + seq!['-'] + v.album + seq!['-'] + v.title + seq!['-'] + v.id
}

/// The canonical storage path of a song.
pub open spec fn derived_location(v: SongView) -> Seq<char> {
    seq!['/'] + slug(location_stem(v)) + extension(v.file_location)
}

/// A song is correctly placed when its location is its canonical path.
pub open spec fn is_correctly_located(v: SongView) -> bool {
    v.file_location == derived_location(v)
}

impl Song {
    /// A copy of this song.
    pub fn duplicate(&self) -> (r: Song)
        ensures
            r@ == self@,
    {
        Song {
            id: self.id.clone(),
            title: self.title.clone(),
            genre: self.genre.clone(),
            artist: self.artist.clone(),
            album: self.album.clone(),
            duration: self.duration,
            rating: self.rating,
            file_location: self.file_location.clone(),
        }
    }

    /// The canonical storage path of this song.
    pub fn correct_file_location(&self) -> (r: String)
        ensures
            r@ == derived_location(self@),
    {
        let mut stem = self.artist.clone();
        let dash = "-";
        proof {
            reveal_strlit("-");
        }
        stem.append(dash);
        stem.append(self.album.as_str());
        stem.append(dash);
        stem.append(self.title.as_str());
        stem.append(dash);
        stem.append(self.id.as_str());
        assert(stem@ == location_stem(self@));

        let mut out = String::new();
        push_char(&mut out, '/');
        let n = stem.as_str().unicode_len();
        let mut i: usize = 0;
        while i < n
            invariant
                n == stem@.len(),
                i <= n,
                out@ == seq!['/'] + slug(stem@.subrange(0, i as int)),
            decreases n - i,
        {
            let c = stem.as_str().get_char(i);
            let ghost before = stem@.subrange(0, i as int);
            let ghost after = stem@.subrange(0, i + 1);
            assert(after.drop_last() == before);
            assert(after.last() == c);
            if path_char(c) {
                push_char(&mut out, c);
            } else if i > 0 && !path_char(stem.as_str().get_char(i - 1)) {
            } else {
                push_char(&mut out, '-');
            }
            i = i + 1;
        }
        assert(stem@.subrange(0, n as int) == stem@);

        let loc = self.file_location.as_str();
        let m = loc.unicode_len();
        let mut j: usize = m;
        assert(loc@.subrange(0, m as int) == loc@);
        while j > 0 && loc.get_char(j - 1) != '.'
            invariant
                m == loc@.len(),
                j <= m,
                last_dot(loc@) == last_dot(loc@.subrange(0, j as int)),
            decreases j,
        {
            let ghost s = loc@.subrange(0, j as int);
            assert(s.drop_last() == loc@.subrange(0, j - 1));
            j = j - 1;
        }
        if j > 0 {
            let ghost s = loc@.subrange(0, j as int);
            assert(s.last() == '.');
            out.append(loc.substring_char(j - 1, m));
        } else {
            assert(loc@.subrange(0, 0) == Seq::<char>::empty());
            assert(out@ + Seq::<char>::empty() == out@);
        }
        out
    }

    /// Whether the song is stored at its canonical path.
    pub fn has_correct_file_location(&self) -> (r: bool)
        ensures
            r == is_correctly_located(self@),
    {
        self.file_location == self.correct_file_location()
    }
}

/// `last_dot` finds a `.`, and no `.` follows it.
pub proof fn lemma_last_dot_props(s: Seq<char>)
    ensures
        -1 <= last_dot(s) < s.len(),
        last_dot(s) >= 0 ==> s[last_dot(s)] == '.',
        forall|k: int| last_dot(s) < k < s.len() ==> s[k] != '.',
    decreases s.len(),
{
    if s.len() > 0 && s.last() != '.' {
        let t = s.drop_last();
        lemma_last_dot_props(t);
        assert forall|k: int| last_dot(s) < k < s.len() implies s[k] != '.' by {
            if k < t.len() {
                assert(s[k] == t[k]);
            }
        }
    }
}

/// A `.` with no `.` after it is the last one.
pub proof fn lemma_last_dot_at(s: Seq<char>, i: int)
    requires
        0 <= i < s.len(),
        s[i] == '.',
        forall|k: int| i < k < s.len() ==> s[k] != '.',
    ensures
        last_dot(s) == i,
{
    lemma_last_dot_props(s);
}

/// A sequence without `.` has no last dot.
pub proof fn lemma_last_dot_none(s: Seq<char>)
    requires
        forall|k: int| 0 <= k < s.len() ==> s[k] != '.',
    ensures
        last_dot(s) == -1,
{
    lemma_last_dot_props(s);
}

/// A slug holds only path characters and `-`.
pub proof fn lemma_slug_chars(s: Seq<char>)
    ensures
        forall|k: int| 0 <= k < slug(s).len() ==> is_path_char(#[trigger] slug(s)[k]) || slug(s)[k] == '-',
    decreases s.len(),
{
    if s.len() > 0 {
        let t = s.drop_last();
        lemma_slug_chars(t);
        let st = slug(t);
        assert forall|k: int| 0 <= k < slug(s).len() implies is_path_char(#[trigger] slug(s)[k])
            || slug(s)[k] == '-' by {
            if k < st.len() {
                assert(slug(s)[k] == st[k]);
            }
        }
    }
}

/// A slug never holds two `-` in a row: runs are already collapsed.
pub proof fn lemma_slug_no_double_dash(s: Seq<char>)
    ensures
        forall|k: int| 0 <= k < slug(s).len() - 1 ==> !(#[trigger] slug(s)[k] == '-' && slug(s)[k + 1] == '-'),
        s.len() > 0 && is_path_char(s.last()) ==> slug(s).len() > 0 && slug(s).last() == s.last(),
    decreases s.len(),
{
    if s.len() > 0 {
        let t = s.drop_last();
        let st = slug(t);
        lemma_slug_no_double_dash(t);
        if t.len() > 0 && is_path_char(t.last()) {
            assert(st.last() == t.last());
        }
        assert forall|k: int| 0 <= k < slug(s).len() - 1 implies !(#[trigger] slug(s)[k] == '-' && slug(s)[k + 1] == '-') by {
            if k + 1 < st.len() {
                assert(slug(s)[k] == st[k] && slug(s)[k + 1] == st[k + 1]);
            } else if slug(s) != st {
                assert(slug(s)[k] == st.last());
            }
        }
    }
}

/// The canonical path depends on artist, album, title, id and the extension
/// of the current location, and on nothing else.
pub proof fn lemma_derived_location_determined(a: SongView, b: SongView)
    requires
        a.artist == b.artist,
        a.album == b.album,
        a.title == b.title,
        a.id == b.id,
        extension(a.file_location) == extension(b.file_location),
    ensures
        derived_location(a) == derived_location(b),
{
}

/// A canonical path keeps the extension of the location it was derived from.
pub proof fn lemma_derived_location_extension(v: SongView)
    ensures
        extension(derived_location(v)) == extension(v.file_location),
{
    let p = seq!['/'] + slug(location_stem(v));
    let e = extension(v.file_location);
    let d = derived_location(v);
    assert(d == p + e);
    lemma_slug_chars(location_stem(v));
    assert forall|k: int| 0 <= k < p.len() implies p[k] != '.' by {
        if k > 0 {
            assert(p[k] == slug(location_stem(v))[k - 1]);
        }
    }
    lemma_last_dot_props(v.file_location);
    let i = last_dot(v.file_location);
    if i < 0 {
        assert(d == p);
        lemma_last_dot_none(d);
    } else {
        assert(d[p.len() as int] == '.');
        assert forall|k: int| p.len() < k < d.len() implies d[k] != '.' by {
            assert(d[k] == v.file_location[i + (k - p.len())]);
        }
        lemma_last_dot_at(d, p.len() as int);
        assert(d.subrange(p.len() as int, d.len() as int) == e);
    }
}

/// Moving a song to its canonical path leaves that path unchanged, and the
/// moved song is correctly placed.
pub proof fn lemma_derived_location_idempotent(v: SongView)
    ensures
        derived_location(SongView { file_location: derived_location(v), ..v }) == derived_location(v),
        is_correctly_located(SongView { file_location: derived_location(v), ..v }),
{
    lemma_derived_location_extension(v);
    lemma_derived_location_determined(SongView { file_location: derived_location(v), ..v }, v);
}

} // verus!
