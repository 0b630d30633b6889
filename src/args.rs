//! The command line: which mode to run and its switches.

use vstd::prelude::*;

verus! {

/// What the program is asked to do.
#[derive(Clone, Copy, Debug, PartialEq, Eq, Structural)]
pub enum Mode {
    Serve,
    SyncRhythmdb,
    ValidateLibrary,
    TestAzure,
}

/// The mode a command-line word names.
pub open spec fn mode_of(word: Seq<char>) -> Option<Mode> {
    if word == "serve"@ {
        Some(Mode::Serve)
    } else if word == "sync-rhythmdb"@ {
        Some(Mode::SyncRhythmdb)
    } else if word == "validate-library"@ {
        Some(Mode::ValidateLibrary)
    } else if word == "test-azure"@ {
        Some(Mode::TestAzure)
    } else {
        None
    }
}

/// Whether `s` holds exactly the characters of the literal `lit`.
fn is_word(s: &String, lit: &str) -> (r: bool)
    ensures
        r == (s@ == lit@),
{
    let n = lit.unicode_len();
    if s.as_str().unicode_len() != n {
        return false;
    }
    let mut i: usize = 0;
    while i < n
        invariant
            n == lit@.len(),
            n == s@.len(),
            i <= n,
            forall|k: int| 0 <= k < i ==> s@[k] == lit@[k],
        decreases n - i,
    {
        if s.as_str().get_char(i) != lit.get_char(i) {
            return false;
        }
        i = i + 1;
    }
    assert(s@ == lit@);
    true
}

impl Mode {
    /// The mode a command-line word names, if any.
    pub fn parse(val: String) -> (r: Option<Mode>)
        ensures
            r == mode_of(val@),
    {
        if is_word(&val, "serve") {
            return Some(Mode::Serve);
        }
        if is_word(&val, "sync-rhythmdb") {
            return Some(Mode::SyncRhythmdb);
        }
        if is_word(&val, "validate-library") {
            return Some(Mode::ValidateLibrary);
        }
        if is_word(&val, "test-azure") {
            return Some(Mode::TestAzure);
        }
        None
    }
}

/// Settings of a sync run.
#[derive(Clone, Debug)]
pub struct SyncRhythmdbArgs {
    pub rhythmdb_file: String,
    pub library_location_prefix: String,
    pub dry_run: bool,
    pub verbose: bool,
}

/// Settings of a validation run.
#[derive(Clone, Debug)]
pub struct ValidateLibraryArgs {
    pub dry_run: bool,
    pub verbose: bool,
}

/// The parsed command line.
#[derive(Clone, Debug)]
pub struct Args {
    pub mode: Mode,
    pub sync_rhythmdb: Option<SyncRhythmdbArgs>,
    pub validate_library: Option<ValidateLibraryArgs>,
}

/// The (dry run, verbose) switches the words set, or `None` when a word is
/// neither `--dry-run` nor `--verbose`.
pub open spec fn flags_of(words: Seq<Seq<char>>) -> Option<(bool, bool)>
    decreases words.len(),
{
    if words.len() == 0 {
        Some((false, false))
    } else {
        match flags_of(words.drop_last()) {
            None => None,
            Some(f) => if words.last() == "--dry-run"@ {
                Some((true, f.1))
            } else if words.last() == "--verbose"@ {
                Some((f.0, true))
            } else {
                None
            },
        }
    }
}

/// Whether the words (program name first) form a valid command line.
pub open spec fn accepts(words: Seq<Seq<char>>) -> bool {
    words.len() >= 2 && match mode_of(words[1]) {
        None => false,
        Some(Mode::Serve) => words.len() == 2,
        Some(Mode::SyncRhythmdb) => words.len() >= 4 && flags_of(words.subrange(4, words.len() as int)) is Some,
        Some(Mode::ValidateLibrary) => flags_of(words.subrange(2, words.len() as int)) is Some,
        Some(Mode::TestAzure) => true,
    }
}

/// The views of a sequence of strings.
pub open spec fn words_of(v: Seq<String>) -> Seq<Seq<char>> {
    v.map_values(|s: String| s@)
}

/// Reads the switches from position `start` on.
fn parse_flags(words: &Vec<String>, start: usize) -> (r: Option<(bool, bool)>)
    requires
        start <= words.len(),
    ensures
        r == flags_of(words_of(words@).subrange(start as int, words.len() as int)),
{
    let ghost all = words_of(words@);
    let mut dry_run = false;
    let mut verbose = false;
    let mut i: usize = start;
    while i < words.len()
        invariant
            start <= i <= words.len(),
            all == words_of(words@),
            flags_of(all.subrange(start as int, i as int)) == Some((dry_run, verbose)),
        decreases words.len() - i,
    {
        let ghost pre = all.subrange(start as int, i + 1);
        assert(pre.drop_last() == all.subrange(start as int, i as int));
        assert(pre.last() == words@[i as int]@);
        if is_word(&words[i], "--dry-run") {
            dry_run = true;
        } else if is_word(&words[i], "--verbose") {
            verbose = true;
        } else {
            proof {
                lemma_flags_rejected(all, start as int, i as int, words.len() as int);
            }
            return None;
        }
        i = i + 1;
    }
    Some((dry_run, verbose))
}

/// Once a word is rejected, every longer run of words is rejected too.
proof fn lemma_flags_rejected(all: Seq<Seq<char>>, start: int, i: int, end: int)
    requires
        0 <= start <= i < end <= all.len(),
        flags_of(all.subrange(start, i + 1)) is None,
    ensures
        flags_of(all.subrange(start, end)) is None,
    decreases end - i,
{
    if end > i + 1 {
        lemma_flags_rejected(all, start, i, end - 1);
        assert(all.subrange(start, end).drop_last() == all.subrange(start, end - 1));
    }
}

impl Args {
    /// Reads the command line (program name first); `None` when it is not valid.
    pub fn parse(words: &Vec<String>) -> (r: Option<Args>)
        ensures
            r is Some <==> accepts(words_of(words@)),
            r matches Some(a) ==> ({
                let w = words_of(words@);
                &&& Some(a.mode) == mode_of(w[1])
                &&& a.mode == Mode::SyncRhythmdb <==> a.sync_rhythmdb is Some
                &&& a.mode == Mode::ValidateLibrary <==> a.validate_library is Some
                &&& a.sync_rhythmdb matches Some(s) ==> s.rhythmdb_file@ == w[2]
                    && s.library_location_prefix@ == w[3] && flags_of(w.subrange(4, w.len() as int))
                    == Some((s.dry_run, s.verbose))
                &&& a.validate_library matches Some(v) ==> flags_of(w.subrange(2, w.len() as int))
                    == Some((v.dry_run, v.verbose))
            }),
    {
        let ghost w = words_of(words@);
        if words.len() < 2 {
            return None;
        }
        assert(w[1] == words@[1]@);
        match Mode::parse(words[1].clone()) {
            Some(Mode::Serve) => {
                if words.len() != 2 {
                    return None;
                }
                Some(Args { mode: Mode::Serve, sync_rhythmdb: None, validate_library: None })
            },
            Some(Mode::SyncRhythmdb) => {
                if words.len() < 4 {
                    return None;
                }
                match parse_flags(words, 4) {
                    None => None,
                    Some((dry_run, verbose)) => {
                        assert(w[2] == words@[2]@ && w[3] == words@[3]@);
                        Some(
                            Args {
                                mode: Mode::SyncRhythmdb,
                                sync_rhythmdb: Some(
                                    SyncRhythmdbArgs {
                                        rhythmdb_file: words[2].clone(),
                                        library_location_prefix: words[3].clone(),
                                        dry_run,
                                        verbose,
                                    },
                                ),
                                validate_library: None,
                            },
                        )
                    },
                }
            },
            Some(Mode::ValidateLibrary) => {
                match parse_flags(words, 2) {
                    None => None,
                    Some((dry_run, verbose)) => Some(
                        Args {
                            mode: Mode::ValidateLibrary,
                            sync_rhythmdb: None,
                            validate_library: Some(ValidateLibraryArgs { dry_run, verbose }),
                        },
                    ),
                }
            },
            Some(Mode::TestAzure) => Some(
                Args { mode: Mode::TestAzure, sync_rhythmdb: None, validate_library: None },
            ),
            None => None,
        }
    }
}

} // verus!
