//! A blob pair diffed the way `git diff` shows it: gix's histogram diff,
//! rendered as unified text with three lines of context, read back into
//! hunks, capped, and given git's function context.

use gix::diff::blob::unified_diff::{ConsumeBinaryHunk, ContextSize};
use gix::diff::blob::{sources, Algorithm, Diff, InternedInput, UnifiedDiff};
use vstd::prelude::*;

use crate::hunks::{
    entry_seq, func_context_spec, header_with_context, hunk_built, line_views, same_but_header, start_of, start_spec, with_context,
    Collector, Content, HunkHeader, LineKind,
};
use crate::model::Hunk;
use crate::text::{chars_of, string_of};

verus! {

/// The lines of a byte string as git splits them: each ends after its
/// `\n`, and a last line without one is kept as it is.
pub open spec fn lines_of(bytes: Seq<u8>) -> Seq<Seq<u8>>
    decreases bytes.len(),
{
    if bytes.len() == 0 {
        Seq::empty()
    } else {
        let prev = lines_of(bytes.drop_last());
        if prev.len() > 0 && !(prev.last().len() > 0 && prev.last().last() == 10u8) {
            prev.update(prev.len() - 1, prev.last().push(bytes.last()))
        } else {
            prev.push(seq![bytes.last()])
        }
    }
}

pub open spec fn slice_views(lines: Seq<&[u8]>) -> Seq<Seq<u8>> {
    lines.map_values(|line: &[u8]| line@)
}

/// Splits bytes into lines, each keeping its `\n`.
pub fn split_lines(bytes: &[u8]) -> (lines: Vec<&[u8]>)
    ensures
        slice_views(lines@) == lines_of(bytes@),
{
    let mut lines: Vec<&[u8]> = Vec::new();
    let mut start: usize = 0;
    let mut i: usize = 0;
    while i < bytes.len()
        invariant
            start <= i <= bytes@.len(),
            forall|j: int| start <= j < i ==> bytes@[j] != 10u8,
            forall|k: int| 0 <= k < lines@.len() ==> (#[trigger] lines@[k])@.len() > 0 && lines@[k]@.last() == 10u8,
            lines_of(bytes@.take(i as int)) == slice_views(lines@) + (if start < i {
                seq![bytes@.subrange(start as int, i as int)]
            } else {
                Seq::<Seq<u8>>::empty()
            }),
        decreases bytes@.len() - i,
    {
        let ghost before = slice_views(lines@);
        assert(bytes@.take(i + 1).drop_last() == bytes@.take(i as int));
        assert(bytes@.take(i + 1).last() == bytes@[i as int]);
        assert(bytes@.subrange(start as int, i + 1) == bytes@.subrange(start as int, i as int).push(bytes@[i as int]));
        if start == i {
            assert(before.len() > 0 ==> before.last() == lines@.last()@);
            assert(seq![bytes@[i as int]] == bytes@.subrange(start as int, i + 1));
        }
        if bytes[i] == 10u8 {
            let line = &bytes[start..i + 1];
            lines.push(line);
            assert(slice_views(lines@) == before.push(line@));
            start = i + 1;
        }
        i += 1;
    }
    if start < i {
        let line = &bytes[start..i];
        let ghost before = slice_views(lines@);
        lines.push(line);
        assert(slice_views(lines@) == before.push(line@));
    }
    assert(bytes@.take(bytes@.len() as int) == bytes@);
    lines
}

/// What gix renders for a pair of blobs: the unified text of its histogram
/// diff (slider heuristics applied, three lines of context, each line
/// ending in `\n`), and the whole-file counts of added and removed lines.
pub uninterp spec fn histogram_diff_of(old: Seq<u8>, new: Seq<u8>) -> (Seq<u8>, u32, u32);

/// Calls gix's blob diff on the two byte strings, split into lines with their
/// terminators (`sources::byte_lines`, `InternedInput::new`): `Diff::compute`
/// with the histogram algorithm, `Diff::postprocess_lines`, then
/// `UnifiedDiff::consume` into a `ConsumeBinaryHunk` over a byte buffer with
/// `\n` as newline, and `Diff::count_additions` / `Diff::count_removals`.
/// The algorithm is pinned rather than read from the user's configuration:
/// gix's histogram matches git's exactly, its Myers does not.
/// The contract claims that the call succeeds (the sink writes into a byte
/// buffer, which cannot fail), that the result is `histogram_diff_of` the
/// inputs (the tokens are numbered by first occurrence, so the outcome
/// depends on the bytes alone), and that the text reads back as unified text:
/// every hunk is a `@@ -a,b +c,d @@` header line followed by its lines, each
/// a ` `, `+` or `-` and a line of the blob ending in `\n` (one is added
/// where the blob's last line has none). `Diff::compute` panics from
/// `i32::MAX` lines on, so `requires` stays below that.
#[verifier::external_body]
fn histogram_diff(old: &[u8], new: &[u8]) -> (out: Result<(Vec<u8>, u32, u32), String>)
    requires
        lines_of(old@).len() < 0x7fff_ffff,
        lines_of(new@).len() < 0x7fff_ffff,
    ensures
        out is Ok,
        out matches Ok(t) ==> (t.0@, t.1, t.2) == histogram_diff_of(old@, new@),
        out matches Ok(t) ==> unified_hunks(t.0@) is Some,
{
    let input = InternedInput::new(sources::byte_lines(old), sources::byte_lines(new));
    let mut diff = Diff::compute(Algorithm::Histogram, &input);
    diff.postprocess_lines(&input);
    let sink = ConsumeBinaryHunk::new(Vec::<u8>::new(), "\n");
    match UnifiedDiff::new(&diff, &input, sink, ContextSize::symmetrical(3)).consume() {
        Ok(text) => Ok((text, diff.count_additions(), diff.count_removals())),
        Err(error) => Err(error.to_string()),
    }
}

pub open spec fn is_digit(b: u8) -> bool {
    48u8 <= b <= 57u8
}

/// How many ASCII digits follow from `i` on.
pub open spec fn digit_run(s: Seq<u8>, i: int) -> nat
    decreases s.len() - i,
{
    if 0 <= i < s.len() && is_digit(s[i]) {
        1 + digit_run(s, i + 1)
    } else {
        0
    }
}

/// The number ASCII digits spell.
pub open spec fn digits_value(d: Seq<u8>) -> nat
    decreases d.len(),
{
    if d.len() == 0 {
        0
    } else {
        digits_value(d.drop_last()) * 10 + (d.last() - 48u8) as nat
    }
}

/// The number whose digits start at `i`, and where they end; none without
/// a digit there or past `u32::MAX`.
pub open spec fn number_at(s: Seq<u8>, i: int) -> Option<(u32, int)> {
    let n = digit_run(s, i);
    let value = digits_value(s.subrange(i, i + n));
    if n == 0 || value > u32::MAX {
        None
    } else {
        Some((value as u32, i + n))
    }
}

pub open spec fn at(s: Seq<u8>, i: int, b: u8) -> bool {
    0 <= i < s.len() && s[i] == b
}

/// A header line as gix writes it, `@@ -a,b +c,d @@` and a `\n`.
pub open spec fn header_of(line: Seq<u8>) -> Option<HunkHeader> {
    if !(at(line, 0, 64u8) && at(line, 1, 64u8) && at(line, 2, 32u8) && at(line, 3, 45u8)) {
        None
    } else {
        match number_at(line, 4) {
            None => None,
            Some((a, i)) => if !at(line, i, 44u8) {
                None
            } else {
                match number_at(line, i + 1) {
                    None => None,
                    Some((b, j)) => if !(at(line, j, 32u8) && at(line, j + 1, 43u8)) {
                        None
                    } else {
                        match number_at(line, j + 2) {
                            None => None,
                            Some((c, k)) => if !at(line, k, 44u8) {
                                None
                            } else {
                                match number_at(line, k + 1) {
                                    None => None,
                                    Some((d, m)) => if at(line, m, 32u8) && at(line, m + 1, 64u8) && at(line, m + 2, 64u8)
                                        && at(line, m + 3, 10u8) && line.len() == m + 4 {
                                        Some(HunkHeader { before_hunk_start: a, before_hunk_len: b, after_hunk_start: c, after_hunk_len: d })
                                    } else {
                                        None
                                    },
                                }
                            },
                        }
                    },
                }
            },
        }
    }
}

/// A hunk line: its prefix (` `, `+` or `-`) gives the kind, the rest is
/// the line.
pub open spec fn entry_of(line: Seq<u8>) -> Option<(LineKind, Seq<u8>)> {
    if line.len() == 0 {
        None
    } else if line[0] == 32u8 {
        Some((LineKind::Context, line.skip(1)))
    } else if line[0] == 43u8 {
        Some((LineKind::Add, line.skip(1)))
    } else if line[0] == 45u8 {
        Some((LineKind::Remove, line.skip(1)))
    } else {
        None
    }
}

/// A hunk read back: its header and its lines.
pub type RawView = (HunkHeader, Seq<(LineKind, Seq<u8>)>);

/// One more line of unified text: a header opens a hunk, a hunk line joins
/// the open one, anything else (or a hunk line before any header) spoils
/// the text.
pub open spec fn read_step(read: Option<Seq<RawView>>, line: Seq<u8>) -> Option<Seq<RawView>> {
    match read {
        None => None,
        Some(hunks) => match header_of(line) {
            Some(header) => Some(hunks.push((header, Seq::empty()))),
            None => match entry_of(line) {
                Some(entry) => if hunks.len() > 0 {
                    Some(hunks.update(hunks.len() - 1, (hunks.last().0, hunks.last().1.push(entry))))
                } else {
                    None
                },
                None => None,
            },
        },
    }
}

pub open spec fn read_lines(lines: Seq<Seq<u8>>) -> Option<Seq<RawView>>
    decreases lines.len(),
{
    if lines.len() == 0 {
        Some(Seq::empty())
    } else {
        read_step(read_lines(lines.drop_last()), lines.last())
    }
}

/// The hunks a unified text holds, or none when it is not one.
pub open spec fn unified_hunks(text: Seq<u8>) -> Option<Seq<RawView>> {
    read_lines(lines_of(text))
}

/// A hunk as read from unified text.
pub struct RawHunk {
    pub header: HunkHeader,
    pub lines: Vec<(LineKind, Vec<u8>)>,
}

pub open spec fn entry_views(lines: Seq<(LineKind, Vec<u8>)>) -> Seq<(LineKind, Seq<u8>)> {
    lines.map_values(|e: (LineKind, Vec<u8>)| (e.0, e.1@))
}

pub open spec fn raw_views(hunks: Seq<RawHunk>) -> Seq<RawView> {
    hunks.map_values(|h: RawHunk| (h.header, entry_views(h.lines@)))
}

proof fn lemma_digits_grow(d: Seq<u8>, x: u8)
    ensures
        digits_value(d.push(x)) >= digits_value(d),
{
    assert(d.push(x).drop_last() == d);
    assert(digits_value(d) * 10 >= digits_value(d)) by (nonlinear_arith);
}

proof fn lemma_digits_monotone(s: Seq<u8>, i: int, j: int, k: int)
    requires
        0 <= i <= j <= k <= s.len(),
    ensures
        digits_value(s.subrange(i, j)) <= digits_value(s.subrange(i, k)),
    decreases k - j,
{
    if j < k {
        lemma_digits_monotone(s, i, j, k - 1);
        assert(s.subrange(i, k) == s.subrange(i, k - 1).push(s[k - 1]));
        lemma_digits_grow(s.subrange(i, k - 1), s[k - 1]);
    }
}

proof fn lemma_run_bound(s: Seq<u8>, i: int)
    requires
        0 <= i <= s.len(),
    ensures
        i + digit_run(s, i) <= s.len(),
    decreases s.len() - i,
{
    if i < s.len() && is_digit(s[i]) {
        lemma_run_bound(s, i + 1);
    }
}

/// Reads the number whose digits start at `i`.
fn read_number(s: &[u8], i: usize) -> (r: Option<(u32, usize)>)
    requires
        i <= s@.len(),
    ensures
        match number_at(s@, i as int) {
            Some((v, e)) => r matches Some((rv, re)) && rv == v && re as int == e,
            None => r is None,
        },
        r matches Some((_, e)) ==> e <= s@.len(),
        number_at(s@, i as int) matches Some((_, e)) ==> i <= e <= s@.len(),
{
    proof { lemma_run_bound(s@, i as int); }
    let mut j: usize = i;
    let mut value: u64 = 0;
    while j < s.len() && 48u8 <= s[j] && s[j] <= 57u8
        invariant
            i <= j <= s@.len(),
            i + digit_run(s@, i as int) <= s@.len(),
            digit_run(s@, i as int) == (j - i) + digit_run(s@, j as int),
            value == digits_value(s@.subrange(i as int, j as int)),
            value <= u32::MAX,
        decreases s@.len() - j,
    {
        assert(s@.subrange(i as int, j + 1) == s@.subrange(i as int, j as int).push(s@[j as int]));
        assert(s@.subrange(i as int, j + 1).drop_last() == s@.subrange(i as int, j as int));
        assert(digit_run(s@, j as int) == 1 + digit_run(s@, j + 1));
        value = value * 10 + (s[j] - 48u8) as u64;
        if value > 0xffff_ffffu64 {
            proof {
                let n = digit_run(s@, i as int);
                lemma_digits_monotone(s@, i as int, j + 1, i + n);
            }
            return None;
        }
        j += 1;
    }
    if j == i {
        return None;
    }
    Some((value as u32, j))
}

/// Whether `s[i]` is the byte `b`.
fn byte_is(s: &[u8], i: usize, b: u8) -> (r: bool)
    ensures
        r == at(s@, i as int, b),
{
    i < s.len() && s[i] == b
}

/// Reads a header line.
fn read_header(line: &[u8]) -> (r: Option<HunkHeader>)
    ensures
        r == header_of(line@),
{
    if !(byte_is(line, 0, 64u8) && byte_is(line, 1, 64u8) && byte_is(line, 2, 32u8) && byte_is(line, 3, 45u8)) {
        return None;
    }
    let first = read_number(line, 4);
    if first.is_none() {
        return None;
    }
    let (a, i) = first.unwrap();
    if !(i < line.len() && byte_is(line, i, 44u8)) {
        return None;
    }
    let second = read_number(line, i + 1);
    if second.is_none() {
        return None;
    }
    let (b, j) = second.unwrap();
    if !(j < line.len() && byte_is(line, j, 32u8) && byte_is(line, j + 1, 43u8)) {
        return None;
    }
    let third = read_number(line, j + 2);
    if third.is_none() {
        return None;
    }
    let (c, k) = third.unwrap();
    if !(k < line.len() && byte_is(line, k, 44u8)) {
        return None;
    }
    let fourth = read_number(line, k + 1);
    if fourth.is_none() {
        return None;
    }
    let (d, m) = fourth.unwrap();
    if m < line.len() && line.len() - m == 4 && byte_is(line, m, 32u8) && byte_is(line, m + 1, 64u8) && byte_is(line, m + 2, 64u8)
        && byte_is(line, m + 3, 10u8) && line.len() == m + 4 {
        Some(HunkHeader { before_hunk_start: a, before_hunk_len: b, after_hunk_start: c, after_hunk_len: d })
    } else {
        None
    }
}

/// Reads a hunk line.
fn read_entry(line: &[u8]) -> (r: Option<(LineKind, Vec<u8>)>)
    ensures
        match entry_of(line@) {
            Some((kind, text)) => r matches Some((rk, rt)) && rk == kind && rt@ == text,
            None => r is None,
        },
{
    if line.len() == 0 {
        return None;
    }
    let kind = if line[0] == 32u8 {
        LineKind::Context
    } else if line[0] == 43u8 {
        LineKind::Add
    } else if line[0] == 45u8 {
        LineKind::Remove
    } else {
        return None;
    };
    let mut rest: Vec<u8> = Vec::new();
    let mut i: usize = 1;
    while i < line.len()
        invariant
            1 <= i <= line@.len(),
            rest@ == line@.subrange(1, i as int),
        decreases line@.len() - i,
    {
        rest.push(line[i]);
        i += 1;
        assert(rest@ == line@.subrange(1, i as int));
    }
    assert(line@.skip(1) == line@.subrange(1, line@.len() as int));
    Some((kind, rest))
}

proof fn lemma_spoilt_stays(lines: Seq<Seq<u8>>, k: int)
    requires
        0 <= k <= lines.len(),
        read_lines(lines.take(k)) is None,
    ensures
        read_lines(lines) is None,
    decreases lines.len() - k,
{
    if k == lines.len() {
        assert(lines.take(k) == lines);
    } else {
        assert(lines.take(k + 1).drop_last() == lines.take(k));
        lemma_spoilt_stays(lines, k + 1);
    }
}

/// Reads unified text back into hunks; none when it is not unified text.
pub fn read_unified(text: &[u8]) -> (r: Option<Vec<RawHunk>>)
    ensures
        match unified_hunks(text@) {
            Some(hunks) => r matches Some(v) && raw_views(v@) == hunks,
            None => r is None,
        },
{
    let lines = split_lines(text);
    let ghost all = slice_views(lines@);
    let mut hunks: Vec<RawHunk> = Vec::new();
    let mut k: usize = 0;
    assert(all.take(0) == Seq::<Seq<u8>>::empty());
    assert(raw_views(hunks@) == Seq::<RawView>::empty());
    while k < lines.len()
        invariant
            k <= lines@.len(),
            all == slice_views(lines@),
            all == lines_of(text@),
            read_lines(all.take(k as int)) == Some(raw_views(hunks@)),
        decreases lines@.len() - k,
    {
        let line = lines[k];
        let ghost before = raw_views(hunks@);
        assert(all.take(k + 1).drop_last() == all.take(k as int));
        assert(all.take(k + 1).last() == line@);
        match read_header(line) {
            Some(header) => {
                hunks.push(RawHunk { header, lines: Vec::new() });
                assert(entry_views(Seq::<(LineKind, Vec<u8>)>::empty()) == Seq::<(LineKind, Seq<u8>)>::empty());
                assert(raw_views(hunks@) == before.push((header, Seq::<(LineKind, Seq<u8>)>::empty())));
            },
            None => match read_entry(line) {
                Some(entry) => {
                    if hunks.len() == 0 {
                        proof { lemma_spoilt_stays(all, k + 1); }
                        return None;
                    }
                    let ghost entry_view = (entry.0, entry.1@);
                    let mut last = hunks.pop().unwrap();
                    let ghost last_lines = last.lines@;
                    last.lines.push(entry);
                    assert(entry_views(last.lines@) == entry_views(last_lines).push(entry_view));
                    hunks.push(last);
                    assert(raw_views(hunks@) == before.update(before.len() - 1, (before.last().0, before.last().1.push(entry_view))));
                },
                None => {
                    proof { lemma_spoilt_stays(all, k + 1); }
                    return None;
                },
            },
        }
        k += 1;
    }
    assert(all.take(lines@.len() as int) == all);
    Some(hunks)
}

/// After the given hunks went through a collector with room for `cap`
/// lines: the lines kept, whether any were cut, and how many hunks were kept.
/// A hunk that finds no room is dropped and marks the cut.
pub open spec fn collect_state(hunks: Seq<RawView>, cap: nat) -> (nat, bool, nat)
    decreases hunks.len(),
{
    if hunks.len() == 0 {
        (0, false, 0)
    } else {
        let (used, truncated, count) = collect_state(hunks.drop_last(), cap);
        let n = hunks.last().1.len();
        if used >= cap {
            (used, true, count)
        } else {
            let room = (cap - used) as nat;
            let kept = if n <= room { n } else { room };
            (used + kept, truncated || n > room, count + 1)
        }
    }
}

/// How many lines of hunk `i` the cap keeps.
pub open spec fn kept_lines(hunks: Seq<RawView>, cap: nat, i: int) -> int {
    collect_state(hunks.take(i + 1), cap).0 - collect_state(hunks.take(i), cap).0
}

/// Every hunk's line numbers stay within `u32` to its last line.
pub open spec fn numbers_fit(hunks: Seq<RawView>) -> bool {
    forall|i: int| 0 <= i < hunks.len() ==> {
        &&& (#[trigger] hunks[i]).0.before_hunk_start + hunks[i].1.len() <= u32::MAX
        &&& hunks[i].0.after_hunk_start + hunks[i].1.len() <= u32::MAX
    }
}

/// What the collector makes of the hunks: the kept ones, in order, each
/// built from its header and the lines the cap leaves it.
pub open spec fn collected(hunks: Seq<RawView>, cap: nat, out: Seq<Hunk>, truncated: bool) -> bool {
    &&& out.len() == collect_state(hunks, cap).2
    &&& truncated == collect_state(hunks, cap).1
    &&& forall|i: int| 0 <= i < out.len() ==> hunk_built(#[trigger] out[i], hunks[i].0, hunks[i].1.take(kept_lines(hunks, cap, i)))
}

/// Runs the hunks through a collector with room for `cap` lines.
fn collect(raws: &Vec<RawHunk>, cap: usize) -> (out: (Vec<Hunk>, bool))
    requires
        numbers_fit(raw_views(raws@)),
    ensures
        collected(raw_views(raws@), cap as nat, out.0@, out.1),
{
    let ghost views = raw_views(raws@);
    let mut collector = Collector::new(cap);
    let mut i: usize = 0;
    assert(views.take(0) == Seq::<RawView>::empty());
    while i < raws.len()
        invariant
            i <= raws@.len(),
            views == raw_views(raws@),
            numbers_fit(views),
            collector.cap == cap,
            collector.used <= cap,
            collect_state(views.take(i as int), cap as nat) == (collector.used as nat, collector.truncated, collector.hunks@.len()),
            collector.used < cap ==> collector.hunks@.len() == i,
            collector.hunks@.len() <= i,
            forall|j: int| 0 <= j < collector.hunks@.len() ==> hunk_built(#[trigger] collector.hunks@[j], views[j].0, views[j].1.take(kept_lines(views, cap as nat, j))),
        decreases raws@.len() - i,
    {
        let raw = &raws[i];
        let ghost view = views[i as int];
        assert(view == (raw.header, entry_views(raw.lines@)));
        let mut entries: Vec<(LineKind, &[u8])> = Vec::new();
        let mut j: usize = 0;
        while j < raw.lines.len()
            invariant
                j <= raw.lines@.len(),
                view == (raw.header, entry_views(raw.lines@)),
                entry_seq(entries@) == view.1.take(j as int),
            decreases raw.lines@.len() - j,
        {
            let entry = (raw.lines[j].0, raw.lines[j].1.as_slice());
            let ghost before = entry_seq(entries@);
            entries.push(entry);
            assert(entry_seq(entries@) == before.push((entry.0, entry.1@)));
            j += 1;
            assert(view.1.take(j as int) == view.1.take(j - 1).push(view.1[j - 1]));
        }
        assert(view.1.take(raw.lines@.len() as int) == view.1);
        let ghost prev = collector.hunks@;
        let ghost used0 = collector.used;
        proof {
            assert(views.take(i + 1).drop_last() == views.take(i as int));
            assert(views.take(i + 1).last() == view);
            assert(views.take(i + 1).take(i as int) == views.take(i as int));
            assert(numbers_fit(views));
            assert(views[i as int].0.before_hunk_start + views[i as int].1.len() <= u32::MAX);
        }
        collector.consume_hunk(raw.header, entries.as_slice());
        proof {
            if used0 < cap {
                assert(kept_lines(views, cap as nat, i as int) == collector.used - used0);
                assert(collector.hunks@.len() == i + 1);
                assert forall|k: int| 0 <= k < collector.hunks@.len() implies hunk_built(#[trigger] collector.hunks@[k], views[k].0, views[k].1.take(kept_lines(views, cap as nat, k))) by {
                    if k < i {
                        assert(collector.hunks@[k] == prev[k]);
                    }
                }
            }
        }
        i += 1;
    }
    assert(views.take(raws@.len() as int) == views);
    collector.finish()
}

/// Each hunk starts at an old line the old file has, as the function
/// context needs.
pub open spec fn starts_within(hunks: Seq<RawView>, old_lines: nat) -> bool {
    forall|i: int| 0 <= i < hunks.len() ==>
        start_spec((#[trigger] hunks[i]).0.before_hunk_start, hunks[i].0.before_hunk_len) as int - 2 < old_lines
}

proof fn lemma_kept_count_bound(hunks: Seq<RawView>, cap: nat)
    ensures
        collect_state(hunks, cap).2 <= hunks.len(),
    decreases hunks.len(),
{
    if hunks.len() > 0 {
        lemma_kept_count_bound(hunks.drop_last(), cap);
    }
}

/// A hunk as shown: built from its header and kept lines, with git's
/// function context from the old file's lines after its header.
pub open spec fn shown_hunk(hunk: Hunk, header: HunkHeader, lines: Seq<(LineKind, Seq<u8>)>, old_lines: Seq<Seq<u8>>) -> bool {
    exists|plain: Hunk| {
        &&& hunk_built(plain, header, lines)
        &&& same_but_header(hunk, plain)
        &&& hunk.header@ == header_with_context(plain.header@, func_context_spec(old_lines, plain.old_start))
    }
}

/// What a file's content is, given gix's unified text and counts for it:
/// the text read back into hunks, capped at `cap` lines, with function
/// context; an error when the text is no unified diff, when a hunk's line
/// numbers would pass `u32::MAX`, or when a hunk starts past the end of the
/// old file. Whether it succeeds does not depend on the cap.
pub open spec fn content_outcome(r: Result<Content, String>, text: Seq<u8>, additions: u32, removals: u32, old: Seq<u8>, cap: nat) -> bool {
    match unified_hunks(text) {
        None => r matches Err(m) && m@ == "the diff is not a unified diff"@,
        Some(hunks) => if !numbers_fit(hunks) {
            r matches Err(m) && m@ == "hunk line numbers overflow"@
        } else if !starts_within(hunks, lines_of(old).len()) {
            r matches Err(m) && m@ == "a hunk starts past the end of the old file"@
        } else {
            r matches Ok(c) && {
                &&& c.hunks@.len() == collect_state(hunks, cap).2
                &&& c.truncated == collect_state(hunks, cap).1
                &&& forall|i: int| 0 <= i < c.hunks@.len() ==> shown_hunk(#[trigger] c.hunks@[i], hunks[i].0,
                    hunks[i].1.take(kept_lines(hunks, cap, i)), lines_of(old))
                &&& c.additions == additions
                &&& c.deletions == removals
                &&& !c.binary
            }
        },
    }
}

/// A file's content from gix's unified text and counts for it, and the old
/// file's bytes.
pub fn content_from_diff(text: &[u8], additions: u32, removals: u32, old: &[u8], cap: usize) -> (r: Result<Content, String>)
    ensures
        content_outcome(r, text@, additions, removals, old@, cap as nat),
{
    let raws = match read_unified(text) {
        Some(raws) => raws,
        None => return Err(string_of(&chars_of("the diff is not a unified diff"))),
    };
    let ghost hunks = raw_views(raws@);
    let mut k: usize = 0;
    while k < raws.len()
        invariant
            k <= raws@.len(),
            hunks == raw_views(raws@),
            unified_hunks(text@) == Some(hunks),
            forall|i: int| 0 <= i < k ==> {
                &&& (#[trigger] hunks[i]).0.before_hunk_start + hunks[i].1.len() <= u32::MAX
                &&& hunks[i].0.after_hunk_start + hunks[i].1.len() <= u32::MAX
            },
        decreases raws@.len() - k,
    {
        let count = raws[k].lines.len();
        assert(hunks[k as int].1.len() == count);
        if count > 0xffff_ffffusize || raws[k].header.before_hunk_start as usize > 0xffff_ffffusize - count
            || raws[k].header.after_hunk_start as usize > 0xffff_ffffusize - count {
            proof {
                let h = hunks[k as int];
                assert(!(h.0.before_hunk_start + h.1.len() <= u32::MAX && h.0.after_hunk_start + h.1.len() <= u32::MAX));
            }
            return Err(string_of(&chars_of("hunk line numbers overflow")));
        }
        k += 1;
    }
    assert(numbers_fit(hunks));
    let before = split_lines(old);
    assert(line_views(before@) == lines_of(old@));
    let mut m: usize = 0;
    while m < raws.len()
        invariant
            m <= raws@.len(),
            hunks == raw_views(raws@),
            unified_hunks(text@) == Some(hunks),
            numbers_fit(hunks),
            line_views(before@) == lines_of(old@),
            forall|i: int| 0 <= i < m ==>
                start_spec((#[trigger] hunks[i]).0.before_hunk_start, hunks[i].0.before_hunk_len) as int - 2 < before@.len(),
        decreases raws@.len() - m,
    {
        let start = start_of(raws[m].header.before_hunk_start, raws[m].header.before_hunk_len);
        if start >= 2 && start as usize - 2 >= before.len() {
            proof {
                assert(lines_of(old@).len() == before@.len());
                let h = hunks[m as int];
                assert(!(start_spec(h.0.before_hunk_start, h.0.before_hunk_len) as int - 2 < lines_of(old@).len()));
            }
            return Err(string_of(&chars_of("a hunk starts past the end of the old file")));
        }
        m += 1;
    }
    assert(lines_of(old@).len() == before@.len());
    assert(starts_within(hunks, lines_of(old@).len()));
    let (plain, truncated) = collect(&raws, cap);
    proof {
        lemma_kept_count_bound(hunks, cap as nat);
        assert forall|i: int| 0 <= i < plain@.len() implies (#[trigger] plain@[i]).old_start as int - 2 < before@.len() by {
            assert(hunk_built(plain@[i], hunks[i].0, hunks[i].1.take(kept_lines(hunks, cap as nat, i))));
        }
    }
    let shown = with_context(plain, before.as_slice());
    proof {
        assert forall|i: int| 0 <= i < shown@.len() implies shown_hunk(#[trigger] shown@[i], hunks[i].0,
            hunks[i].1.take(kept_lines(hunks, cap as nat, i)), lines_of(old@)) by {
            assert(hunk_built(plain@[i], hunks[i].0, hunks[i].1.take(kept_lines(hunks, cap as nat, i))));
        }
    }
    Ok(Content { hunks: shown, additions: additions as usize, deletions: removals as usize, truncated, binary: false })
}

/// One file's hunks and whole-file line counts from its old and new bytes:
/// gix's histogram diff, read back, capped at `cap` lines, with function
/// context. The counts are the whole file's, as `git diff --numstat` gives
/// them: the cap drops lines from the hunks, not from the counts.
pub fn diff_content(old: &[u8], new: &[u8], cap: usize) -> (r: Result<Content, String>)
    requires
        lines_of(old@).len() < 0x7fff_ffff,
        lines_of(new@).len() < 0x7fff_ffff,
    ensures
        ({
            let (text, additions, removals) = histogram_diff_of(old@, new@);
            content_outcome(r, text, additions, removals, old@, cap as nat)
        }),
{
    let (text, additions, removals) = histogram_diff(old, new)?;
    content_from_diff(text.as_slice(), additions, removals, old, cap)
}

/// The line cap never changes whether a file's diff succeeds, nor its
/// whole-file counts: diffing the same blobs under two caps succeeds both
/// times, with the same additions and deletions (gix's counts), or fails
/// both times with the same error.
pub proof fn the_cap_leaves_the_counts_alone(text: Seq<u8>, additions: u32, removals: u32, old: Seq<u8>, cap1: nat, cap2: nat,
    first: Result<Content, String>, second: Result<Content, String>)
    requires
        content_outcome(first, text, additions, removals, old, cap1),
        content_outcome(second, text, additions, removals, old, cap2),
    ensures
        first is Ok <==> second is Ok,
        first matches Ok(c) ==> c.additions == additions && c.deletions == removals && !c.binary,
        second matches Ok(c) ==> c.additions == additions && c.deletions == removals && !c.binary,
        first matches Err(a) ==> second matches Err(b) && a@ == b@,
{
}

} // verus!

