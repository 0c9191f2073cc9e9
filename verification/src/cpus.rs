//! Reading the kernel's list of possible CPUs (`/sys/devices/system/cpu/possible`),
//! such as `0-7` or `0,2-3`, as a CPU count.
use vstd::prelude::*;
use crate::text::is_unicode_whitespace;
use crate::text::parse_unsigned;
use crate::text::parse_unsigned_range;
use crate::text::chars_of;

verus! {

/// `s` without its leading whitespace.
pub open spec fn trim_start(s: Seq<char>) -> Seq<char>
    decreases s.len(),
{
    if s.len() > 0 && is_unicode_whitespace(s[0]) {
        trim_start(s.drop_first())
    } else {
        s
    }
}

/// `s` without its trailing whitespace.
pub open spec fn trim_end(s: Seq<char>) -> Seq<char>
    decreases s.len(),
{
    if s.len() > 0 && is_unicode_whitespace(s.last()) {
        trim_end(s.drop_last())
    } else {
        s
    }
}

/// What `str::trim` leaves of `s`.
pub open spec fn trim(s: Seq<char>) -> Seq<char> {
    trim_end(trim_start(s))
}

/// The pieces `str::split(',')` yields, in order (always at least one).
pub open spec fn split_commas(s: Seq<char>) -> Seq<Seq<char>>
    decreases s.len(),
{
    if s.len() == 0 {
        seq![Seq::<char>::empty()]
    } else if s.last() == ',' {
        split_commas(s.drop_last()).push(Seq::empty())
    } else {
        let p = split_commas(s.drop_last());
        p.update(p.len() - 1, p.last().push(s.last()))
    }
}

/// What follows the first `'-'` of `s`, if `s` has one.
pub open spec fn after_first_dash(s: Seq<char>) -> Option<Seq<char>>
    decreases s.len(),
{
    if s.len() == 0 {
        None
    } else if s[0] == '-' {
        Some(s.drop_first())
    } else {
        after_first_dash(s.drop_first())
    }
}

/// The CPU number an entry stands for: the end of a range `a-b`, or the entry itself;
/// zero when that does not parse as a `usize`.
pub open spec fn entry_value(p: Seq<char>) -> int {
    let body = match after_first_dash(p) {
        Some(end) => end,
        None => p,
    };
    match parse_unsigned(body, usize::MAX as int) {
        Some(v) => v,
        None => 0,
    }
}

/// The largest entry value among the pieces (zero for none).
pub open spec fn max_entry(pieces: Seq<Seq<char>>) -> int
    decreases pieces.len(),
{
    if pieces.len() == 0 {
        0
    } else {
        let rest = max_entry(pieces.drop_last());
        let v = entry_value(pieces.last());
        if v > rest {
            v
        } else {
            rest
        }
    }
}

/// The highest CPU number the list names.
pub open spec fn max_cpu(content: Seq<char>) -> int {
    max_entry(split_commas(trim(content)))
}

/// Index of the first character of `chars[lo..hi]` that is not whitespace (or `hi`).
fn skip_leading_ws(chars: &Vec<char>, lo: usize, hi: usize) -> (k: usize)
    requires
        lo <= hi <= chars@.len(),
    ensures
        lo <= k <= hi,
        trim_start(chars@.subrange(lo as int, hi as int)) == chars@.subrange(k as int, hi as int),
    decreases hi - lo,
{
    if lo < hi && is_ws(chars[lo]) {
        let k = skip_leading_ws(chars, lo + 1, hi);
        assert(chars@.subrange(lo as int, hi as int).drop_first() =~= chars@.subrange(lo + 1, hi as int));
        k
    } else {
        lo
    }
}

/// Index just past the last character of `chars[lo..hi]` that is not whitespace (or `lo`).
fn skip_trailing_ws(chars: &Vec<char>, lo: usize, hi: usize) -> (k: usize)
    requires
        lo <= hi <= chars@.len(),
    ensures
        lo <= k <= hi,
        trim_end(chars@.subrange(lo as int, hi as int)) == chars@.subrange(lo as int, k as int),
    decreases hi - lo,
{
    if lo < hi && is_ws(chars[hi - 1]) {
        let k = skip_trailing_ws(chars, lo, hi - 1);
        assert(chars@.subrange(lo as int, hi as int).drop_last() =~= chars@.subrange(lo as int, hi - 1));
        k
    } else {
        hi
    }
}

fn is_ws(c: char) -> (b: bool)
    ensures
        b == is_unicode_whitespace(c),
{
    ('\u{9}' <= c && c <= '\u{d}') || c == ' ' || c == '\u{85}' || c == '\u{a0}' || c == '\u{1680}'
        || ('\u{2000}' <= c && c <= '\u{200a}') || c == '\u{2028}' || c == '\u{2029}'
        || c == '\u{202f}' || c == '\u{205f}' || c == '\u{3000}'
}

/// The value of the entry `chars[lo..hi]`.
fn entry_value_of(chars: &Vec<char>, lo: usize, hi: usize) -> (v: usize)
    requires
        lo <= hi <= chars@.len(),
    ensures
        v as int == entry_value(chars@.subrange(lo as int, hi as int)),
{
    let mut i: usize = lo;
    while i < hi && chars[i] != '-'
        invariant
            lo <= i <= hi <= chars@.len(),
            after_first_dash(chars@.subrange(lo as int, hi as int)) == after_first_dash(
                chars@.subrange(i as int, hi as int),
            ),
        decreases hi - i,
    {
        assert(chars@.subrange(i as int, hi as int).drop_first() =~= chars@.subrange(i + 1, hi as int));
        i = i + 1;
    }
    let body_lo: usize = if i < hi {
        assert(chars@.subrange(i as int, hi as int).drop_first() =~= chars@.subrange(i + 1, hi as int));
        assert(chars@.subrange(i as int, hi as int)[0] == '-');
        assert(after_first_dash(chars@.subrange(lo as int, hi as int)) == Some(chars@.subrange(i + 1, hi as int)));
        i + 1
    } else {
        lo
    };
    proof {
        if i == hi {
            assert(chars@.subrange(i as int, hi as int).len() == 0);
            assert(after_first_dash(chars@.subrange(lo as int, hi as int)) is None);
        }
        assert(usize::MAX as u64 as int == usize::MAX as int);
    }
    let r = parse_unsigned_range(chars, body_lo, hi, usize::MAX as u64);
    let ghost body = chars@.subrange(body_lo as int, hi as int);
    assert(entry_value(chars@.subrange(lo as int, hi as int)) == match parse_unsigned(body, usize::MAX as int) {
        Some(v) => v,
        None => 0,
    });
    match r {
        Some(v) => {
            proof {
                let p = parse_unsigned(body, (usize::MAX as u64) as int);
                assert(p is Some);
                assert(p->0 <= usize::MAX);
                assert(v as int == p->0);
            }
            v as usize
        },
        None => 0,
    }
}

/// The number of possible CPUs that the kernel's list names: the highest CPU number
/// plus one. Entries that do not parse count as CPU 0. `None` when the highest CPU
/// number is `usize::MAX`, whose successor does not fit.
pub fn parse_possible_cpus(content: &str) -> (n: Option<usize>)
    ensures
        max_cpu(content@) < usize::MAX ==> n == Some((max_cpu(content@) + 1) as usize),
        max_cpu(content@) >= usize::MAX ==> n is None,
{
    let chars = chars_of(content);
    let len: usize = chars.len();
    let lo = skip_leading_ws(&chars, 0, len);
    let hi = skip_trailing_ws(&chars, lo, len);
    let ghost t = chars@.subrange(lo as int, hi as int);
    proof {
        assert(chars@.subrange(0, len as int) =~= content@);
        assert(trim(content@) == t);
    }
    let mut best: usize = 0;
    let mut start: usize = lo;
    let mut i: usize = lo;
    let ghost mut done: Seq<Seq<char>> = Seq::empty();
    assert(chars@.subrange(lo as int, lo as int) =~= Seq::<char>::empty());
    assert(done.push(chars@.subrange(lo as int, lo as int)) =~= seq![Seq::<char>::empty()]);
    while i < hi
        invariant
            lo <= start <= i <= hi <= chars@.len(),
            t == chars@.subrange(lo as int, hi as int),
            split_commas(chars@.subrange(lo as int, i as int)) == done.push(
                chars@.subrange(start as int, i as int),
            ),
            best as int == max_entry(done),
        decreases hi - i,
    {
        let ghost prefix = chars@.subrange(lo as int, i + 1);
        assert(prefix.drop_last() =~= chars@.subrange(lo as int, i as int));
        if chars[i] == ',' {
            let v = entry_value_of(&chars, start, i);
            proof {
                let d2 = done.push(chars@.subrange(start as int, i as int));
                assert(d2.drop_last() =~= done);
                assert(split_commas(prefix) == d2.push(Seq::<char>::empty()));
                assert(chars@.subrange((i + 1) as int, (i + 1) as int) =~= Seq::<char>::empty());
                done = d2;
            }
            if v > best {
                best = v;
            }
            start = i + 1;
        } else {
            proof {
                let p = split_commas(chars@.subrange(lo as int, i as int));
                assert(chars@.subrange(start as int, i + 1) =~= chars@.subrange(start as int, i as int).push(chars[i as int]));
                assert(p.update(p.len() - 1, p.last().push(chars[i as int])) =~= done.push(
                    chars@.subrange(start as int, i + 1),
                ));
            }
        }
        i = i + 1;
    }
    let v = entry_value_of(&chars, start, hi);
    proof {
        let d2 = done.push(chars@.subrange(start as int, hi as int));
        assert(d2.drop_last() =~= done);
    }
    if v > best {
        best = v;
    }
    if best == usize::MAX {
        None
    } else {
        Some(best + 1)
    }
}

/// The pieces joined back, one comma between every two.
pub open spec fn join_commas(pieces: Seq<Seq<char>>) -> Seq<char>
    decreases pieces.len(),
{
    if pieces.len() == 0 {
        Seq::empty()
    } else if pieces.len() == 1 {
        pieces[0]
    } else {
        join_commas(pieces.drop_last()) + seq![','] + pieces.last()
    }
}

/// Splitting at commas cuts the text into the runs between its commas: there is at
/// least one piece, no piece holds a comma, and the pieces joined with commas give
/// the text back.
pub proof fn lemma_split_commas_rejoins(s: Seq<char>)
    ensures
        split_commas(s).len() >= 1,
        join_commas(split_commas(s)) == s,
        forall|k: int, i: int|
            0 <= k < split_commas(s).len() && 0 <= i < split_commas(s)[k].len() ==> #[trigger] split_commas(
                s,
            )[k][i] != ',',
    decreases s.len(),
{
    if s.len() == 0 {
        assert(join_commas(split_commas(s)) =~= s);
    } else {
        let init = s.drop_last();
        let c = s.last();
        lemma_split_commas_rejoins(init);
        let p = split_commas(init);
        if c == ',' {
            let q = p.push(Seq::<char>::empty());
            assert(split_commas(s) == q);
            assert(q.drop_last() =~= p);
            assert(join_commas(q) =~= s);
            assert forall|k: int, i: int| 0 <= k < q.len() && 0 <= i < q[k].len() implies #[trigger] q[k][i]
                != ',' by {
                assert(k < p.len());
                assert(q[k] == p[k]);
            }
        } else {
            let n = p.len() - 1;
            let q = p.update(n, p.last().push(c));
            assert(split_commas(s) == q);
            if p.len() == 1 {
                assert(join_commas(p) == p[0]);
                assert(join_commas(q) == q[0]);
                assert(join_commas(q) =~= s);
            } else {
                assert(q.drop_last() =~= p.drop_last());
                assert(q.last() == p.last().push(c));
                assert(join_commas(p) == join_commas(p.drop_last()) + seq![','] + p.last());
                assert(join_commas(q) == join_commas(p.drop_last()) + seq![','] + p.last().push(c));
                assert(init == join_commas(p));
                assert(join_commas(q) =~= init.push(c));
                assert(init.push(c) =~= s);
            }
            assert forall|k: int, i: int| 0 <= k < q.len() && 0 <= i < q[k].len() implies #[trigger] q[k][i]
                != ',' by {
                if k < n {
                    assert(q[k] == p[k]);
                } else {
                    assert(q[k] == p[n].push(c));
                    if i < p[n].len() {
                        assert(q[k][i] == p[n][i]);
                    }
                }
            }
        }
    }
}

/// The highest entry value is at least the value of every piece, and is the value
/// of one of them unless it is zero.
pub proof fn lemma_max_entry_is_max(pieces: Seq<Seq<char>>)
    ensures
        forall|k: int| 0 <= k < pieces.len() ==> entry_value(#[trigger] pieces[k]) <= max_entry(pieces),
        max_entry(pieces) == 0 || exists|k: int|
            0 <= k < pieces.len() && entry_value(#[trigger] pieces[k]) == max_entry(pieces),
    decreases pieces.len(),
{
    if pieces.len() > 0 {
        let init = pieces.drop_last();
        lemma_max_entry_is_max(init);
        assert forall|k: int| 0 <= k < pieces.len() implies entry_value(#[trigger] pieces[k]) <= max_entry(
            pieces,
        ) by {
            if k < init.len() {
                assert(pieces[k] == init[k]);
            }
        }
        if max_entry(pieces) != 0 {
            if max_entry(pieces) == max_entry(init) && max_entry(init) != 0 {
                let k = choose|k: int| 0 <= k < init.len() && entry_value(#[trigger] init[k]) == max_entry(init);
                assert(pieces[k] == init[k]);
            } else {
                assert(entry_value(pieces[pieces.len() - 1]) == max_entry(pieces));
            }
        }
    }
}

/// The highest CPU number of a list is at least that of each of its comma-separated
/// entries, and is the number of one of them unless it is zero.
pub proof fn lemma_max_cpu_bounds(content: Seq<char>)
    ensures
        forall|k: int|
            0 <= k < split_commas(trim(content)).len() ==> entry_value(#[trigger] split_commas(trim(content))[k])
                <= max_cpu(content),
        max_cpu(content) == 0 || exists|k: int|
            0 <= k < split_commas(trim(content)).len() && entry_value(#[trigger] split_commas(trim(content))[k])
                == max_cpu(content),
{
    lemma_max_entry_is_max(split_commas(trim(content)));
}

} // verus!
