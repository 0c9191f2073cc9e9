//! Decisions of the ingester: which files it takes in, and what its watch loop does
//! on each file-system event.
use vstd::prelude::*;
use crate::text::chars_of;

verus! {

/// `p` is a prefix of `s`.
pub open spec fn has_prefix(s: Seq<char>, p: Seq<char>) -> bool {
    p.len() <= s.len() && s.subrange(0, p.len() as int) == p
}

/// `p` is a suffix of `s`.
pub open spec fn has_suffix(s: Seq<char>, p: Seq<char>) -> bool {
    p.len() <= s.len() && s.subrange(s.len() - p.len(), s.len() as int) == p
}

fn starts_with(s: &Vec<char>, p: &Vec<char>) -> (r: bool)
    ensures
        r == has_prefix(s@, p@),
{
    if p.len() > s.len() {
        return false;
    }
    let mut i: usize = 0;
    while i < p.len()
        invariant
            p@.len() <= s@.len(),
            i <= p@.len(),
            forall|j: int| 0 <= j < i ==> s@[j] == p@[j],
        decreases p@.len() - i,
    {
        if s[i] != p[i] {
            assert(s@.subrange(0, p@.len() as int)[i as int] != p@[i as int]);
            return false;
        }
        i = i + 1;
    }
    assert(s@.subrange(0, p@.len() as int) =~= p@);
    true
}

fn ends_with(s: &Vec<char>, p: &Vec<char>) -> (r: bool)
    ensures
        r == has_suffix(s@, p@),
{
    if p.len() > s.len() {
        return false;
    }
    let slen: usize = s.len();
    let off: usize = slen - p.len();
    let mut i: usize = 0;
    while i < p.len()
        invariant
            p@.len() <= s@.len(),
            off == s@.len() - p@.len(),
            off + p@.len() == s@.len(),
            slen == s@.len(),
            i <= p@.len(),
            forall|j: int| 0 <= j < i ==> s@[off + j] == p@[j],
        decreases p@.len() - i,
    {
        assert(off + i < s@.len());
        if s[off + i] != p[i] {
            assert(s@.subrange(off as int, s@.len() as int)[i as int] != p@[i as int]);
            return false;
        }
        i = i + 1;
    }
    assert(s@.subrange(off as int, s@.len() as int) =~= p@);
    true
}

/// Whether a file in the schema directory is a schema document: its name starts with
/// `event_schema_` and ends with `.json`.
pub fn is_schema_file_name(name: &str) -> (r: bool)
    ensures
        r == (has_prefix(name@, "event_schema_"@) && has_suffix(name@, ".json"@)),
{
    let s = chars_of(name);
    let p = chars_of("event_schema_");
    let q = chars_of(".json");
    starts_with(&s, &p) && ends_with(&s, &q)
}

/// The extension of a file name as `Path::extension` reads it: what follows the last
/// `'.'`, provided something precedes that dot and the name is not `..`.
pub open spec fn file_extension(name: Seq<char>) -> Option<Seq<char>> {
    if name == ".."@ {
        None
    } else if exists|i: int| 0 < i < name.len() && name[i] == '.' {
        let i = choose|i: int|
            0 < i < name.len() && name[i] == '.' && forall|j: int| i < j < name.len() ==> name[j] != '.';
        Some(name.subrange(i + 1, name.len() as int))
    } else {
        None
    }
}

/// Whether a file in the raw directory is a trace file: its extension is `bin`.
pub fn is_trace_file_name(name: &str) -> (r: bool)
    ensures
        r == (file_extension(name@) == Some("bin"@)),
{
    let s = chars_of(name);
    let dots = chars_of("..");
    let bin = chars_of("bin");
    let n: usize = s.len();
    if s.len() == dots.len() && starts_with(&s, &dots) {
        assert(s@ =~= dots@);
        return false;
    }
    assert(s@ != ".."@) by {
        if s@ == ".."@ {
            assert(s@.subrange(0, dots@.len() as int) =~= dots@);
        }
    }
    let mut i: usize = n;
    while i > 0 && s[i - 1] != '.'
        invariant
            i <= n == s@.len(),
            forall|j: int| i <= j < n ==> s@[j] != '.',
        decreases i,
    {
        i = i - 1;
    }
    if i <= 1 {
        assert(!exists|k: int| 0 < k < s@.len() && s@[k] == '.') by {
            if exists|k: int| 0 < k < s@.len() && s@[k] == '.' {
                let k = choose|k: int| 0 < k < s@.len() && s@[k] == '.';
                assert(k >= i);
            }
        }
        return false;
    }
    let dot: usize = i - 1;
    proof {
        assert(0 < dot < s@.len() && s@[dot as int] == '.');
        let c = choose|k: int|
            0 < k < s@.len() && s@[k] == '.' && forall|j: int| k < j < s@.len() ==> s@[j] != '.';
        assert(forall|j: int| dot < j < s@.len() ==> s@[j] != '.');
        assert(c == dot) by {
            if c < dot {
                assert(s@[dot as int] != '.');
            }
            if c > dot {
                assert(s@[c] != '.');
            }
        }
        assert(file_extension(s@) == Some(s@.subrange(i as int, n as int)));
    }
    let rest: usize = n - i;
    if rest != bin.len() {
        assert(s@.subrange(i as int, n as int).len() != "bin"@.len());
        assert(s@.subrange(i as int, n as int) != "bin"@);
        return false;
    }
    let mut k: usize = 0;
    while k < rest
        invariant
            rest == bin@.len(),
            bin@ == "bin"@,
            s@ == name@,
            file_extension(s@) == Some(s@.subrange(i as int, n as int)),
            i + rest == n == s@.len(),
            k <= rest,
            forall|j: int| 0 <= j < k ==> s@[i + j] == bin@[j],
        decreases rest - k,
    {
        if s[i + k] != bin[k] {
            assert(s@.subrange(i as int, n as int)[k as int] != bin@[k as int]);
            return false;
        }
        k = k + 1;
    }
    assert(s@.subrange(i as int, n as int) =~= bin@);
    true
}

/// Whether a snapshot export is due: none was made yet, or the last one was at least
/// ten seconds ago.
pub fn snapshot_due(secs_since_last: Option<u64>) -> (r: bool)
    ensures
        r == match secs_since_last {
            None => true,
            Some(s) => s >= 10,
        },
{
    match secs_since_last {
        None => true,
        Some(s) => s >= 10,
    }
}

/// What the ingester's watch loop receives in one round.
#[derive(Debug, Clone, Copy, PartialEq, Eq)]
pub enum WatchEvent {
    /// A watched directory changed.
    Changed,
    /// The file watcher reported an error.
    WatchError,
    /// Nothing happened for five seconds.
    Timeout,
    /// The file watcher went away.
    Disconnected,
}

/// What the watch loop does in one round.
#[derive(Debug, Clone, Copy, PartialEq, Eq)]
pub struct WatchStep {
    /// Ingest new schema and trace files.
    pub ingest: bool,
    /// Report the watcher's error.
    pub report_error: bool,
    /// Leave the loop.
    pub stop: bool,
    /// Export a snapshot after the round.
    pub snapshot: bool,
}

/// Whether the round for `event` exports a snapshot: every round that goes on does,
/// when none was made yet or the last one is at least ten seconds old.
pub open spec fn snapshot_in_round(event: WatchEvent, secs_since_last_snapshot: Option<u64>) -> bool {
    event != WatchEvent::Disconnected && match secs_since_last_snapshot {
        None => true,
        Some(s) => s >= 10,
    }
}

/// Snapshots are at least ten seconds apart and the first comes in the first round:
/// a round exports one only when none was made yet or the last is ten seconds old,
/// every round that goes on does then, and the round that ends the watch never does.
pub proof fn lemma_snapshot_cadence(event: WatchEvent, secs_since_last_snapshot: Option<u64>)
    ensures
        snapshot_in_round(event, secs_since_last_snapshot) ==> match secs_since_last_snapshot {
            None => true,
            Some(s) => s >= 10,
        },
        event != WatchEvent::Disconnected && secs_since_last_snapshot is None ==> snapshot_in_round(
            event,
            secs_since_last_snapshot,
        ),
        event == WatchEvent::Disconnected ==> !snapshot_in_round(event, secs_since_last_snapshot),
{
}

/// The round of the watch loop for the event: ingest on a change, report a watcher
/// error, stop when the watcher is gone; every round that goes on exports a snapshot
/// when one is due.
pub fn watch_step(event: WatchEvent, secs_since_last_snapshot: Option<u64>) -> (r: WatchStep)
    ensures
        r.ingest == (event == WatchEvent::Changed),
        r.report_error == (event == WatchEvent::WatchError),
        r.stop == (event == WatchEvent::Disconnected),
        r.snapshot == snapshot_in_round(event, secs_since_last_snapshot),
{
    let stop = match event {
        WatchEvent::Disconnected => true,
        _ => false,
    };
    WatchStep {
        ingest: match event {
            WatchEvent::Changed => true,
            _ => false,
        },
        report_error: match event {
            WatchEvent::WatchError => true,
            _ => false,
        },
        stop,
        snapshot: !stop && snapshot_due(secs_since_last_snapshot),
    }
}

/// The cleanup age in seconds for a number of days.
pub fn cleanup_age_secs(days: Option<u64>) -> (r: Option<u64>)
    requires
        days matches Some(d) ==> d * 86400 <= u64::MAX,
    ensures
        r == match days {
            None => None::<u64>,
            Some(d) => Some((d * 86400) as u64),
        },
{
    match days {
        None => None,
        Some(d) => Some(d * 24 * 60 * 60),
    }
}

/// Whether a round exports a snapshot does not depend on what the round brought,
/// as long as the watch goes on: a file change, a watcher error and a quiet round
/// all export one exactly when none was made yet or the last is ten seconds old.
pub proof fn lemma_snapshot_independent_of_event(e1: WatchEvent, e2: WatchEvent, secs: Option<u64>, s: u64)
    requires
        e1 != WatchEvent::Disconnected,
        e2 != WatchEvent::Disconnected,
    ensures
        snapshot_in_round(e1, secs) == snapshot_in_round(e2, secs),
        snapshot_in_round(e1, Some(s)) <==> s >= 10,
        snapshot_in_round(e1, None),
{
}

} // verus!
