//! Reading the songs out of a local music-player database export, line by line.

use vstd::prelude::*;
use vstd::string::*;

use crate::song::{song_views, Song, SongView};

verus! {

/// White space as `char::is_whitespace` has it: space, tab to carriage return,
/// next line, no-break space, and the Unicode space separators.
pub open spec fn is_blank(c: char) -> bool {
    c == ' ' || ('\t' <= c && c <= '\r') || c == '\u{85}' || c == '\u{a0}' || c == '\u{1680}'
        || ('\u{2000}' <= c && c <= '\u{200a}') || c == '\u{2028}' || c == '\u{2029}' || c == '\u{202f}'
        || c == '\u{205f}' || c == '\u{3000}'
}

/// `s` without its leading white space.
pub open spec fn trim_start(s: Seq<char>) -> Seq<char>
    decreases s.len(),
{
    if s.len() > 0 && is_blank(s[0]) {
        trim_start(s.drop_first())
    } else {
        s
    }
}

/// `s` without its trailing white space.
pub open spec fn trim_end(s: Seq<char>) -> Seq<char>
    decreases s.len(),
{
    if s.len() > 0 && is_blank(s.last()) {
        trim_end(s.drop_last())
    } else {
        s
    }
}

/// `s` without leading and trailing white space.
pub open spec fn trim(s: Seq<char>) -> Seq<char> {
    trim_end(trim_start(s))
}

/// What lies between `open` and `close` when `line` starts with the one and
/// ends with the other.
pub open spec fn inner(line: Seq<char>, open: Seq<char>, close: Seq<char>) -> Option<Seq<char>> {
    if line.len() >= open.len() + close.len() && line.subrange(0, open.len() as int) == open
        && line.subrange(line.len() - close.len(), line.len() as int) == close {
        Some(line.subrange(open.len() as int, line.len() - close.len()))
    } else {
        None
    }
}

/// The value of a sequence of decimal digits.
pub open spec fn digits_value(s: Seq<char>) -> int
    decreases s.len(),
{
    if s.len() == 0 {
        0
    } else {
        digits_value(s.drop_last()) * 10 + (s.last() as int - '0' as int)
    }
}

/// Every character is a decimal digit.
pub open spec fn all_digits(s: Seq<char>) -> bool {
    forall|i: int| 0 <= i < s.len() ==> '0' <= #[trigger] s[i] && s[i] <= '9'
}

/// The number a text field holds: empty is zero; otherwise an optional `+`
/// and at least one digit, with a value that fits in `u32`.
pub open spec fn number_of(s: Seq<char>) -> Option<u32> {
    if s.len() == 0 {
        Some(0)
    } else {
        let d = if s[0] == '+' {
            s.drop_first()
        } else {
            s
        };
        if d.len() > 0 && all_digits(d) && digits_value(d) <= u32::MAX {
            Some(digits_value(d) as u32)
        } else {
            None
        }
    }
}

/// Index of the first character that is not white space, from `i` on.
fn skip_blanks(s: &str, i: usize) -> (r: usize)
    requires
        i <= s@.len(),
    ensures
        i <= r <= s@.len(),
        trim_start(s@.subrange(i as int, s@.len() as int)) == s@.subrange(r as int, s@.len() as int),
{
    let n = s.unicode_len();
    let mut j = i;
    while j < n && is_blank_char(s.get_char(j))
        invariant
            n == s@.len(),
            i <= j <= n,
            trim_start(s@.subrange(i as int, n as int)) == trim_start(s@.subrange(j as int, n as int)),
        decreases n - j,
    {
        assert(s@.subrange(j as int, n as int).drop_first() == s@.subrange(j + 1, n as int));
        j = j + 1;
    }
    j
}

/// Tests a character against `is_blank`.
fn is_blank_char(c: char) -> (r: bool)
    ensures
        r == is_blank(c),
{
    c == ' ' || ('\t' <= c && c <= '\r') || c == '\u{85}' || c == '\u{a0}' || c == '\u{1680}'
        || ('\u{2000}' <= c && c <= '\u{200a}') || c == '\u{2028}' || c == '\u{2029}' || c == '\u{202f}'
        || c == '\u{205f}' || c == '\u{3000}'
}

/// The line without leading and trailing white space.
pub fn trim_line(line: &str) -> (r: String)
    ensures
        r@ == trim(line@),
{
    let n = line.unicode_len();
    assert(line@.subrange(0, n as int) == line@);
    let start = skip_blanks(line, 0);
    let mut end = n;
    let ghost rest = line@.subrange(start as int, n as int);
    assert(rest.subrange(0, (end - start) as int) == rest);
    while end > start && is_blank_char(line.get_char(end - 1))
        invariant
            n == line@.len(),
            start <= end <= n,
            rest == line@.subrange(start as int, n as int),
            trim_end(rest) == trim_end(line@.subrange(start as int, end as int)),
        decreases end,
    {
        assert(line@.subrange(start as int, end as int).drop_last() == line@.subrange(
            start as int,
            end - 1,
        ));
        end = end - 1;
    }
    let t = line.substring_char(start, end);
    let ghost kept = line@.subrange(start as int, end as int);
    assert(end > start ==> kept.last() == line@[end - 1]);
    assert(trim_end(kept) == kept);
    t.to_string()
}

/// Whether `line` begins with `lit`.
fn starts_with_lit(line: &str, lit: &str) -> (r: bool)
    ensures
        r == (line@.len() >= lit@.len() && line@.subrange(0, lit@.len() as int) == lit@),
{
    let n = lit.unicode_len();
    if line.unicode_len() < n {
        return false;
    }
    let mut i: usize = 0;
    while i < n
        invariant
            n == lit@.len(),
            n <= line@.len(),
            i <= n,
            forall|k: int| 0 <= k < i ==> line@[k] == lit@[k],
        decreases n - i,
    {
        if line.get_char(i) != lit.get_char(i) {
            assert(line@.subrange(0, n as int)[i as int] != lit@[i as int]);
            return false;
        }
        i = i + 1;
    }
    assert(line@.subrange(0, n as int) == lit@);
    true
}

/// Whether `line` ends with `lit`.
fn ends_with_lit(line: &str, lit: &str) -> (r: bool)
    ensures
        r == (line@.len() >= lit@.len() && line@.subrange(line@.len() - lit@.len(), line@.len() as int)
            == lit@),
{
    let n = lit.unicode_len();
    let m = line.unicode_len();
    if m < n {
        return false;
    }
    let off = m - n;
    let mut i: usize = 0;
    while i < n
        invariant
            n == lit@.len(),
            m == line@.len(),
            off == m - n,
            i <= n,
            forall|k: int| 0 <= k < i ==> line@[off + k] == lit@[k],
        decreases n - i,
    {
        if line.get_char(off + i) != lit.get_char(i) {
            assert(line@.subrange(off as int, m as int)[i as int] != lit@[i as int]);
            return false;
        }
        i = i + 1;
    }
    assert(line@.subrange(off as int, m as int) == lit@);
    true
}

/// What lies between `open` and `close`, when the line has both.
fn inner_text(line: &str, open: &str, close: &str) -> (r: Option<String>)
    ensures
        r matches Some(t) ==> inner(line@, open@, close@) == Some(t@),
        r is None ==> inner(line@, open@, close@) is None,
{
    let m = line.unicode_len();
    let a = open.unicode_len();
    let b = close.unicode_len();
    if m < a || m - a < b {
        return None;
    }
    if !starts_with_lit(line, open) || !ends_with_lit(line, close) {
        return None;
    }
    Some(line.substring_char(a, m - b).to_string())
}

/// Reads a number field.
pub fn parse_number(s: &str) -> (r: Option<u32>)
    ensures
        r == number_of(s@),
{
    let n = s.unicode_len();
    if n == 0 {
        return Some(0);
    }
    let start: usize = if s.get_char(0) == '+' {
        1
    } else {
        0
    };
    let ghost d = if s@[0] == '+' {
        s@.drop_first()
    } else {
        s@
    };
    assert(d == s@.subrange(start as int, n as int));
    if start == n {
        return None;
    }
    let mut value: u64 = 0;
    let mut i: usize = start;
    while i < n
        invariant
            n == s@.len(),
            n > 0,
            start <= i <= n,
            d == s@.subrange(start as int, n as int),
            d == (if s@[0] == '+' {
                s@.drop_first()
            } else {
                s@
            }),
            d.len() > 0,
            all_digits(s@.subrange(start as int, i as int)),
            value == digits_value(s@.subrange(start as int, i as int)),
            value <= u32::MAX,
        decreases n - i,
    {
        let c = s.get_char(i);
        let ghost pre = s@.subrange(start as int, i + 1);
        assert(pre.drop_last() == s@.subrange(start as int, i as int));
        assert(pre.last() == c);
        if c < '0' || c > '9' {
            assert(d[i - start] == c);
            assert(!all_digits(d));
            return None;
        }
        let digit = (c as u32 - '0' as u32) as u64;
        value = value * 10 + digit;
        if value > u32::MAX as u64 {
            proof {
                if all_digits(d) {
                    lemma_digits_grow(s@, start as int, i + 1, n as int);
                }
            }
            return None;
        }
        i = i + 1;
    }
    assert(s@.subrange(start as int, n as int) == d);
    Some(value as u32)
}

/// Appending digits never lowers the value.
proof fn lemma_digits_grow(s: Seq<char>, start: int, i: int, end: int)
    requires
        0 <= start <= i <= end <= s.len(),
        all_digits(s.subrange(start, end)),
    ensures
        digits_value(s.subrange(start, i)) <= digits_value(s.subrange(start, end)),
    decreases end - i,
{
    if end > i {
        lemma_digits_grow(s, start, i, end - 1);
        let t = s.subrange(start, end);
        assert(t.drop_last() == s.subrange(start, end - 1));
        assert(all_digits(t.drop_last()));
        lemma_digits_nonneg(t.drop_last());
        assert('0' <= t.last() && t.last() <= '9') by {
            assert(t.last() == t[t.len() - 1]);
        }
    }
}

/// A sequence of digits has a non-negative value.
proof fn lemma_digits_nonneg(s: Seq<char>)
    requires
        all_digits(s),
    ensures
        digits_value(s) >= 0,
    decreases s.len(),
{
    if s.len() > 0 {
        assert(all_digits(s.drop_last()));
        assert(s.last() == s[s.len() - 1]);
        lemma_digits_nonneg(s.drop_last());
    }
}

/// Why an export cannot be read.
#[derive(Clone, Copy, Debug, PartialEq, Eq, Structural)]
pub enum ExportError {
    /// A duration or rating is not a number that fits in `u32`.
    BadNumber,
    /// A field is not valid percent-encoded UTF-8 or holds a bad HTML entity.
    BadEncoding,
    /// A location lies outside the library directory.
    LocationOutsidePrefix,
    /// The export ends inside an entry.
    UnclosedEntry,
}

/// One line of the export.
#[derive(Clone, Debug, PartialEq, Eq)]
pub enum Element {
    Entry,
    CloseEntry,
    Title(String),
    Genre(String),
    Artist(String),
    Album(String),
    Duration(u32),
    Rating(u32),
    Location(String),
    Unknown,
}

/// The mathematical value of an [`Element`].
pub enum ElementView {
    Entry,
    CloseEntry,
    Title(Seq<char>),
    Genre(Seq<char>),
    Artist(Seq<char>),
    Album(Seq<char>),
    Duration(u32),
    Rating(u32),
    Location(Seq<char>),
    Unknown,
}

impl View for Element {
    type V = ElementView;

    open spec fn view(&self) -> ElementView {
        match self {
            Element::Entry => ElementView::Entry,
            Element::CloseEntry => ElementView::CloseEntry,
            Element::Title(t) => ElementView::Title(t@),
            Element::Genre(t) => ElementView::Genre(t@),
            Element::Artist(t) => ElementView::Artist(t@),
            Element::Album(t) => ElementView::Album(t@),
            Element::Duration(n) => ElementView::Duration(*n),
            Element::Rating(n) => ElementView::Rating(*n),
            Element::Location(t) => ElementView::Location(t@),
            Element::Unknown => ElementView::Unknown,
        }
    }
}

/// What a trimmed line of the export is.
pub open spec fn element_of(line: Seq<char>) -> Result<ElementView, ExportError> {
    if line == "<entry type=\"song\">"@ {
        Ok(ElementView::Entry)
    } else if line == "</entry>"@ {
        Ok(ElementView::CloseEntry)
    } else if inner(line, "<title>"@, "</title>"@) is Some {
        Ok(ElementView::Title(inner(line, "<title>"@, "</title>"@)->0))
    } else if inner(line, "<genre>"@, "</genre>"@) is Some {
        Ok(ElementView::Genre(inner(line, "<genre>"@, "</genre>"@)->0))
    } else if inner(line, "<artist>"@, "</artist>"@) is Some {
        Ok(ElementView::Artist(inner(line, "<artist>"@, "</artist>"@)->0))
    } else if inner(line, "<album>"@, "</album>"@) is Some {
        Ok(ElementView::Album(inner(line, "<album>"@, "</album>"@)->0))
    } else if inner(line, "<duration>"@, "</duration>"@) is Some {
        match number_of(inner(line, "<duration>"@, "</duration>"@)->0) {
            Some(n) => Ok(ElementView::Duration(n)),
            None => Err(ExportError::BadNumber),
        }
    } else if inner(line, "<rating>"@, "</rating>"@) is Some {
        match number_of(inner(line, "<rating>"@, "</rating>"@)->0) {
            Some(n) => Ok(ElementView::Rating(n)),
            None => Err(ExportError::BadNumber),
        }
    } else if inner(line, "<location>"@, "</location>"@) is Some {
        Ok(ElementView::Location(inner(line, "<location>"@, "</location>"@)->0))
    } else {
        Ok(ElementView::Unknown)
    }
}

/// Whether `line` is exactly `lit`.
fn equals_lit(line: &str, lit: &str) -> (r: bool)
    ensures
        r == (line@ == lit@),
{
    if line.unicode_len() != lit.unicode_len() {
        return false;
    }
    let r = starts_with_lit(line, lit);
    assert(line@.subrange(0, line@.len() as int) == line@);
    r
}

/// Classifies a trimmed line of the export.
pub fn classify_line(line: &str) -> (r: Result<Element, ExportError>)
    ensures
        match r {
            Ok(e) => element_of(line@) == Ok::<ElementView, ExportError>(e@),
            Err(x) => element_of(line@) == Err::<ElementView, ExportError>(x),
        },
{
    if equals_lit(line, "<entry type=\"song\">") {
        return Ok(Element::Entry);
    }
    if equals_lit(line, "</entry>") {
        return Ok(Element::CloseEntry);
    }
    if let Some(t) = inner_text(line, "<title>", "</title>") {
        return Ok(Element::Title(t));
    }
    if let Some(t) = inner_text(line, "<genre>", "</genre>") {
        return Ok(Element::Genre(t));
    }
    if let Some(t) = inner_text(line, "<artist>", "</artist>") {
        return Ok(Element::Artist(t));
    }
    if let Some(t) = inner_text(line, "<album>", "</album>") {
        return Ok(Element::Album(t));
    }
    if let Some(t) = inner_text(line, "<duration>", "</duration>") {
        return match parse_number(t.as_str()) {
            Some(n) => Ok(Element::Duration(n)),
            None => Err(ExportError::BadNumber),
        };
    }
    if let Some(t) = inner_text(line, "<rating>", "</rating>") {
        return match parse_number(t.as_str()) {
            Some(n) => Ok(Element::Rating(n)),
            None => Err(ExportError::BadNumber),
        };
    }
    if let Some(t) = inner_text(line, "<location>", "</location>") {
        return Ok(Element::Location(t));
    }
    Ok(Element::Unknown)
}

/// htmlescape's error for a malformed entity, carried opaquely.
#[verifier::external_type_specification]
#[verifier::external_body]
pub struct ExDecodeErr(htmlescape::DecodeErr);

/// The error for bytes that are not UTF-8, carried opaquely.
#[verifier::external_type_specification]
#[verifier::external_body]
pub struct ExUtf8Error(core::str::Utf8Error);

/// The text that percent-decoding `s` gives, or `None` when the decoded bytes
/// are not UTF-8.
pub uninterp spec fn percent_decoded(s: Seq<char>) -> Option<Seq<char>>;

/// The text with its HTML entities replaced, or `None` when an entity is malformed.
pub uninterp spec fn html_decoded(s: Seq<char>) -> Option<Seq<char>>;

/// Relies on percent_encoding's `percent_decode` followed by `decode_utf8`:
/// `%XX` sequences become bytes, and the bytes are read as UTF-8, failing when
/// they are not; the outcome depends on the input alone.
#[verifier::external_body]
fn percent_decode_utf8(s: &str) -> (r: Result<String, core::str::Utf8Error>)
    ensures
        match r {
            Ok(v) => percent_decoded(s@) == Some(v@),
            Err(_) => percent_decoded(s@) is None,
        },
{
    match percent_encoding::percent_decode(s.as_bytes()).decode_utf8() {
        Ok(v) => Ok(v.into_owned()),
        Err(e) => Err(e),
    }
}

/// Relies on htmlescape's `decode_html`: entities such as `&amp;` or `&#20;`
/// are replaced by their characters, failing on a malformed entity; the
/// outcome depends on the input alone.
#[verifier::external_body]
fn decode_html_text(s: &str) -> (r: Result<String, htmlescape::DecodeErr>)
    ensures
        match r {
            Ok(v) => html_decoded(s@) == Some(v@),
            Err(_) => html_decoded(s@) is None,
        },
{
    htmlescape::decode_html(s)
}

/// A text field of the export: percent-decoded, then HTML-unescaped.
pub open spec fn decoded(s: Seq<char>) -> Option<Seq<char>> {
    match percent_decoded(s) {
        Some(p) => html_decoded(p),
        None => None,
    }
}

/// Decodes a text field of the export.
pub fn decode(value: &str) -> (r: Result<String, ExportError>)
    ensures
        match r {
            Ok(v) => decoded(value@) == Some(v@),
            Err(e) => decoded(value@) is None && e == ExportError::BadEncoding,
        },
{
    match percent_decode_utf8(value) {
        Ok(p) => match decode_html_text(p.as_str()) {
            Ok(v) => Ok(v),
            Err(_) => Err(ExportError::BadEncoding),
        },
        Err(_) => Err(ExportError::BadEncoding),
    }
}

/// The song an entry starts from: every field empty or zero.
pub open spec fn blank_song() -> SongView {
    SongView {
        id: Seq::empty(),
        title: Seq::empty(),
        genre: Seq::empty(),
        artist: Seq::empty(),
        album: Seq::empty(),
        duration: 0,
        rating: 0,
        file_location: Seq::empty(),
    }
}

/// The scheme and directory that every location of the export starts with.
pub open spec fn location_prefix(prefix: Seq<char>) -> Seq<char> {
    "file://"@ + prefix
}

/// The song after one line of its entry.
pub open spec fn apply_element(song: SongView, e: ElementView, prefix: Seq<char>) -> Result<
    SongView,
    ExportError,
> {
    match e {
        ElementView::Title(t) => match decoded(t) {
            Some(v) => Ok(SongView { title: v, ..song }),
            None => Err(ExportError::BadEncoding),
        },
        ElementView::Genre(t) => match decoded(t) {
            Some(v) => Ok(SongView { genre: v, ..song }),
            None => Err(ExportError::BadEncoding),
        },
        ElementView::Artist(t) => match decoded(t) {
            Some(v) => Ok(SongView { artist: v, ..song }),
            None => Err(ExportError::BadEncoding),
        },
        ElementView::Album(t) => match decoded(t) {
            Some(v) => Ok(SongView { album: v, ..song }),
            None => Err(ExportError::BadEncoding),
        },
        ElementView::Duration(n) => Ok(SongView { duration: n, ..song }),
        ElementView::Rating(n) => Ok(SongView { rating: n, ..song }),
        ElementView::Location(l) => {
            let p = location_prefix(prefix);
            if l.len() >= p.len() && l.subrange(0, p.len() as int) == p {
                match decoded(l.subrange(p.len() as int, l.len() as int)) {
                    Some(v) => Ok(SongView { file_location: v, ..song }),
                    None => Err(ExportError::BadEncoding),
                }
            } else {
                Err(ExportError::LocationOutsidePrefix)
            }
        },
        _ => Ok(song),
    }
}

/// Reads lines in turn: the songs of the closed entries, and the song of the
/// entry still open, if any.
pub open spec fn scan(lines: Seq<Seq<char>>, prefix: Seq<char>) -> Result<
    (Seq<SongView>, Option<SongView>),
    ExportError,
>
    decreases lines.len(),
{
    if lines.len() == 0 {
        Ok((Seq::empty(), None))
    } else {
        match scan(lines.drop_last(), prefix) {
            Err(x) => Err(x),
            Ok(state) => match element_of(trim(lines.last())) {
                Err(x) => Err(x),
                Ok(e) => match state.1 {
                    None => if e is Entry {
                        Ok((state.0, Some(blank_song())))
                    } else {
                        Ok((state.0, None))
                    },
                    Some(song) => if e is CloseEntry {
                        Ok((state.0.push(song), None))
                    } else {
                        match apply_element(song, e, prefix) {
                            Ok(next) => Ok((state.0, Some(next))),
                            Err(x) => Err(x),
                        }
                    },
                },
            },
        }
    }
}

/// The songs of an export: its first two lines are the document header; an
/// entry left open at the end makes the export malformed.
pub open spec fn export_songs(lines: Seq<Seq<char>>, prefix: Seq<char>) -> Result<
    Seq<SongView>,
    ExportError,
> {
    match scan(lines.subrange(if lines.len() < 2 { lines.len() as int } else { 2 }, lines.len() as int), prefix) {
        Ok(state) => if state.1 is Some {
            Err(ExportError::UnclosedEntry)
        } else {
            Ok(state.0)
        },
        Err(x) => Err(x),
    }
}

/// The views of the lines.
pub open spec fn line_views(lines: Seq<String>) -> Seq<Seq<char>> {
    lines.map_values(|s: String| s@)
}

/// The view of an optional song.
pub open spec fn open_view(o: Option<Song>) -> Option<SongView> {
    match o {
        Some(s) => Some(s@),
        None => None,
    }
}

/// Applies one line of an entry to its song.
fn apply_line(song: Song, e: Element, prefix: &String) -> (r: Result<Song, ExportError>)
    ensures
        match apply_element(song@, e@, prefix@) {
            Ok(v) => r matches Ok(s) && s@ == v,
            Err(x) => r == Err::<Song, ExportError>(x),
        },
{
    let mut song = song;
    match e {
        Element::Title(t) => {
            song.title = decode(t.as_str())?;
        },
        Element::Genre(t) => {
            song.genre = decode(t.as_str())?;
        },
        Element::Artist(t) => {
            song.artist = decode(t.as_str())?;
        },
        Element::Album(t) => {
            song.album = decode(t.as_str())?;
        },
        Element::Duration(n) => {
            song.duration = n;
        },
        Element::Rating(n) => {
            song.rating = n;
        },
        Element::Location(l) => {
            let mut p = String::from_str("file://");
            proof {
                reveal_strlit("file://");
            }
            p.append(prefix.as_str());
            let pl = p.as_str().unicode_len();
            let ll = l.as_str().unicode_len();
            if ll < pl || !starts_with_lit(l.as_str(), p.as_str()) {
                return Err(ExportError::LocationOutsidePrefix);
            }
            let rest = l.as_str().substring_char(pl, ll);
            song.file_location = decode(rest)?;
        },
        _ => {},
    }
    Ok(song)
}

/// Reads the songs of an export, given as its lines, whose locations lie under
/// the directory `prefix`. The first error met ends the reading.
pub fn read_export(lines: &Vec<String>, prefix: &String) -> (r: Result<Vec<Song>, ExportError>)
    ensures
        match export_songs(line_views(lines@), prefix@) {
            Ok(v) => r matches Ok(songs) && song_views(songs@) == v,
            Err(x) => r == Err::<Vec<Song>, ExportError>(x),
        },
{
    let ghost all = line_views(lines@);
    let start: usize = if lines.len() < 2 {
        lines.len()
    } else {
        2
    };
    let mut songs: Vec<Song> = Vec::new();
    let mut open: Option<Song> = None;
    let mut i: usize = start;
    assert(all.subrange(start as int, start as int) == Seq::<Seq<char>>::empty());
    assert(song_views(songs@) == Seq::<SongView>::empty());
    while i < lines.len()
        invariant
            start <= i <= lines.len(),
            all == line_views(lines@),
            start == (if lines.len() < 2 { lines.len() as int } else { 2 }),
            scan(all.subrange(start as int, i as int), prefix@) == Ok::<
                (Seq<SongView>, Option<SongView>),
                ExportError,
            >((song_views(songs@), open_view(open))),
        decreases lines.len() - i,
    {
        let ghost pre = all.subrange(start as int, i + 1);
        assert(pre.drop_last() == all.subrange(start as int, i as int));
        assert(pre.last() == lines@[i as int]@);
        let line = trim_line(lines[i].as_str());
        let e = match classify_line(line.as_str()) {
            Ok(e) => e,
            Err(x) => {
                proof {
                    lemma_scan_error_persists(all, start as int, i + 1, all.len() as int, prefix@);
                }
                return Err(x);
            },
        };
        let ghost before = song_views(songs@);
        assert(trim(pre.last()) == line@);
        assert(element_of(trim(pre.last())) == Ok::<ElementView, ExportError>(e@));
        assert(scan(pre, prefix@) == match open_view(open) {
            None => if e@ is Entry {
                Ok::<(Seq<SongView>, Option<SongView>), ExportError>((before, Some(blank_song())))
            } else {
                Ok((before, None))
            },
            Some(song) => if e@ is CloseEntry {
                Ok((before.push(song), None))
            } else {
                match apply_element(song, e@, prefix@) {
                    Ok(next) => Ok((before, Some(next))),
                    Err(x) => Err(x),
                }
            },
        });
        match open {
            None => {
                if matches!(e, Element::Entry) {
                    open = Some(blank());
                }
            },
            Some(song) => {
                if matches!(e, Element::CloseEntry) {
                    let ghost sv = song@;
                    songs.push(song);
                    assert(song_views(songs@) == before.push(sv));
                    open = None;
                } else {
                    match apply_line(song, e, prefix) {
                        Ok(next) => {
                            open = Some(next);
                        },
                        Err(x) => {
                            proof {
                                lemma_scan_error_persists(
                                    all,
                                    start as int,
                                    i + 1,
                                    all.len() as int,
                                    prefix@,
                                );
                            }
                            return Err(x);
                        },
                    }
                }
            },
        }
        i = i + 1;
    }
    assert(all.subrange(start as int, lines.len() as int) == all.subrange(
        start as int,
        all.len() as int,
    ));
    if open.is_some() {
        return Err(ExportError::UnclosedEntry);
    }
    Ok(songs)
}

/// A song with every field empty or zero.
fn blank() -> (r: Song)
    ensures
        r@ == blank_song(),
{
    Song {
        id: String::new(),
        title: String::new(),
        genre: String::new(),
        artist: String::new(),
        album: String::new(),
        duration: 0,
        rating: 0,
        file_location: String::new(),
    }
}

/// Once reading fails, reading more lines fails the same way.
proof fn lemma_scan_error_persists(all: Seq<Seq<char>>, start: int, i: int, end: int, prefix: Seq<char>)
    requires
        0 <= start <= i <= end <= all.len(),
        scan(all.subrange(start, i), prefix) is Err,
    ensures
        scan(all.subrange(start, end), prefix) == scan(all.subrange(start, i), prefix),
    decreases end - i,
{
    if end > i {
        lemma_scan_error_persists(all, start, i, end - 1, prefix);
        assert(all.subrange(start, end).drop_last() == all.subrange(start, end - 1));
    }
}

} // verus!
