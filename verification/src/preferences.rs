//! User preferences and their best-effort configuration text.
//!
//! The configuration file is a small `key: value` text. Recognized keys are
//! `sync_frequency` (`never` or `after_every_modification`) and
//! `bulk_commit_strategy` (`single` or `per_task`). Unknown keys are ignored
//! and absent keys take their field defaults; any malformed content makes the
//! whole record fall back to [`Preferences::default`]. Reading the file and
//! locating the configuration directory are the caller's business: this
//! module only decodes text.

use vstd::prelude::*;

use crate::lines::{lines_of, split_lines, str_eq, str_starts_with, str_suffix_from};

verus! {

/// When task changes are synchronized.
#[derive(Clone, Copy, PartialEq, Eq, Structural, Debug)]
pub enum SyncFrequency {
    Never,
    AfterEveryModification,
}

impl Default for SyncFrequency {
    /// The field default used when the key is absent from the file.
    fn default() -> (r: Self)
        ensures
            r == SyncFrequency::Never,
    {
        SyncFrequency::Never
    }
}

/// How a bulk change is turned into commits.
#[derive(Clone, Copy, PartialEq, Eq, Structural, Debug)]
pub enum BulkCommitStrategy {
    Single,
    PerTask,
}

impl Default for BulkCommitStrategy {
    /// The field default used when the key is absent from the file.
    fn default() -> (r: Self)
        ensures
            r == BulkCommitStrategy::Single,
    {
        BulkCommitStrategy::Single
    }
}

/// The two user preferences.
#[derive(Clone, Copy, PartialEq, Eq, Structural, Debug)]
pub struct Preferences {
    pub sync_frequency: SyncFrequency,
    pub bulk_commit_strategy: BulkCommitStrategy,
}

/// The record-level default: what every failure path falls back to.
pub open spec fn default_preferences() -> Preferences {
    Preferences {
        sync_frequency: SyncFrequency::Never,
        bulk_commit_strategy: BulkCommitStrategy::PerTask,
    }
}

impl Default for Preferences {
    /// The record default, used whenever the file is missing or malformed.
    /// Note that its `bulk_commit_strategy` differs from that field's own
    /// default for an absent key.
    fn default() -> (r: Self)
        ensures
            r == default_preferences(),
    {
        Preferences {
            sync_frequency: SyncFrequency::Never,
            bulk_commit_strategy: BulkCommitStrategy::PerTask,
        }
    }
}

pub open spec fn sync_key() -> Seq<char> {
    "sync_frequency: "@
}

pub open spec fn bulk_key() -> Seq<char> {
    "bulk_commit_strategy: "@
}

/// Whether a line carries some `key: value` entry.
pub open spec fn has_colon(l: Seq<char>) -> bool {
    exists|k: int| 0 <= k < l.len() && l[k] == ':'
}

/// Walks the configuration lines from position `i` with the values seen so
/// far. A blank line or an unrecognized `key: value` line is skipped; a
/// recognized key takes its value, at most once; anything else fails.
pub open spec fn parse_pref_lines(
    ls: Seq<Seq<char>>,
    i: int,
    sf: Option<SyncFrequency>,
    bc: Option<BulkCommitStrategy>,
) -> Option<Preferences>
    decreases ls.len() - i,
{
    if i < 0 || i >= ls.len() {
        Option::Some(
            Preferences {
                sync_frequency: match sf {
                    Option::Some(x) => x,
                    Option::None => SyncFrequency::Never,
                },
                bulk_commit_strategy: match bc {
                    Option::Some(x) => x,
                    Option::None => BulkCommitStrategy::Single,
                },
            },
        )
    } else {
        let l = ls[i];
        if l.len() == 0 {
            parse_pref_lines(ls, i + 1, sf, bc)
        } else if crate::header::starts_with(l, sync_key()) {
            if sf is Some {
                Option::None
            } else {
                let v = l.skip(sync_key().len() as int);
                if v == "never"@ {
                    parse_pref_lines(ls, i + 1, Option::Some(SyncFrequency::Never), bc)
                } else if v == "after_every_modification"@ {
                    parse_pref_lines(
                        ls,
                        i + 1,
                        Option::Some(SyncFrequency::AfterEveryModification),
                        bc,
                    )
                } else {
                    Option::None
                }
            }
        } else if crate::header::starts_with(l, bulk_key()) {
            if bc is Some {
                Option::None
            } else {
                let v = l.skip(bulk_key().len() as int);
                if v == "single"@ {
                    parse_pref_lines(ls, i + 1, sf, Option::Some(BulkCommitStrategy::Single))
                } else if v == "per_task"@ {
                    parse_pref_lines(ls, i + 1, sf, Option::Some(BulkCommitStrategy::PerTask))
                } else {
                    Option::None
                }
            }
        } else if has_colon(l) {
            parse_pref_lines(ls, i + 1, sf, bc)
        } else {
            Option::None
        }
    }
}

/// What decoding a configuration text yields, or nothing when it is
/// malformed.
pub open spec fn parse_prefs(s: Seq<char>) -> Option<Preferences> {
    parse_pref_lines(lines_of(s), 0, Option::None, Option::None)
}

fn has_colon_exec(l: &str) -> (r: bool)
    ensures
        r == has_colon(l@),
{
    let n = l.unicode_len();
    let mut i: usize = 0;
    while i < n
        invariant
            i <= n,
            n == l@.len(),
            forall|j: int| 0 <= j < i ==> l@[j] != ':',
        decreases n - i,
    {
        if l.get_char(i) == ':' {
            return true;
        }
        i = i + 1;
    }
    false
}

impl Preferences {
    /// Decodes a configuration text, falling back to the record default on
    /// any malformed content.
    pub fn from_config_text(text: &str) -> (r: Preferences)
        ensures
            r == (match parse_prefs(text@) {
                Option::Some(p) => p,
                Option::None => default_preferences(),
            }),
    {
        let lines = split_lines(text);
        let ghost ls = lines_of(text@);
        let mut sf: Option<SyncFrequency> = Option::None;
        let mut bc: Option<BulkCommitStrategy> = Option::None;
        let mut i: usize = 0;
        while i < lines.len()
            invariant
                i <= lines.len(),
                ls == lines.deep_view(),
                ls.len() == lines.len(),
                parse_prefs(text@) == parse_pref_lines(ls, i as int, sf, bc),
            decreases lines.len() - i,
        {
            let line = lines[i];
            proof {
                assert(ls[i as int] == lines@[i as int]@);
            }
            if line.is_empty() {
            } else if str_starts_with(line, "sync_frequency: ") {
                if sf.is_some() {
                    return Preferences::default();
                }
                proof {
                    reveal_strlit("sync_frequency: ");
                    assert(sync_key().len() == 16);
                }
                let v = str_suffix_from(line, 16);
                if str_eq(v, "never") {
                    sf = Option::Some(SyncFrequency::Never);
                } else if str_eq(v, "after_every_modification") {
                    sf = Option::Some(SyncFrequency::AfterEveryModification);
                } else {
                    return Preferences::default();
                }
            } else if str_starts_with(line, "bulk_commit_strategy: ") {
                if bc.is_some() {
                    return Preferences::default();
                }
                proof {
                    reveal_strlit("bulk_commit_strategy: ");
                    assert(bulk_key().len() == 22);
                }
                let v = str_suffix_from(line, 22);
                if str_eq(v, "single") {
                    bc = Option::Some(BulkCommitStrategy::Single);
                } else if str_eq(v, "per_task") {
                    bc = Option::Some(BulkCommitStrategy::PerTask);
                } else {
                    return Preferences::default();
                }
            } else if has_colon_exec(line) {
            } else {
                return Preferences::default();
            }
            i = i + 1;
        }
        Preferences {
            sync_frequency: match sf {
                Option::Some(x) => x,
                Option::None => SyncFrequency::Never,
            },
            bulk_commit_strategy: match bc {
                Option::Some(x) => x,
                Option::None => BulkCommitStrategy::Single,
            },
        }
    }
}

} // verus!
