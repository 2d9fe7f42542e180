//! Blob content to hunks, matching what `git diff` would have printed: line
//! numbering, the `@@` header with git's function context, the per-file line
//! cap, and the hunk and file ids the narrative refers to.

use gix::bstr::ByteSlice;
use vstd::prelude::*;

use crate::changes::Change;
use crate::model::{DiffLine, FileDiff, FileStatus, Hunk, LineType};
use crate::text::{chars_of, decimal, decimal_of, push_chars, push_str, string_of};
use crate::classify::{is_noise, language_of, noise_path, language_spec};

verus! {

/// A hunk's position in the old and new file, as the differ reports it:
/// 1-based starts and line counts.
#[derive(Debug, Clone, Copy, PartialEq, Eq, Structural)]
pub struct HunkHeader {
    pub before_hunk_start: u32,
    pub before_hunk_len: u32,
    pub after_hunk_start: u32,
    pub after_hunk_len: u32,
}

/// What the differ says a hunk line is.
#[derive(Debug, Clone, Copy, PartialEq, Eq, Structural)]
pub enum LineKind {
    Context,
    Add,
    Remove,
}

/// What bytes lossily decoded as UTF-8 read as, the way `bstr`'s
/// `to_str_lossy` decodes them.
pub uninterp spec fn lossy_text(bytes: Seq<u8>) -> Seq<char>;

/// What bytes lossily decoded as UTF-8 read as, the way std's
/// `String::from_utf8_lossy` decodes them.
pub uninterp spec fn utf8_lossy(bytes: Seq<u8>) -> Seq<char>;

/// Calls `bstr::ByteSlice::to_str_lossy`: invalid UTF-8 sequences become
/// U+FFFD. The contract claims the result is `lossy_text` of the bytes, and,
/// as `bstr` documents, that valid UTF-8 decodes to exactly its characters.
#[verifier::external_body]
fn bstr_lossy(bytes: &[u8]) -> (text: String)
    ensures
        text@ == lossy_text(bytes@),
        vstd::utf8::valid_utf8(bytes@) ==> text@ == vstd::utf8::decode_utf8(bytes@),
{
    bytes.to_str_lossy().into_owned()
}

/// Calls `String::from_utf8_lossy`: invalid UTF-8 sequences become U+FFFD. The
/// contract claims the result is `utf8_lossy` of the bytes, and, as std
/// documents, that valid UTF-8 decodes to exactly its characters.
#[verifier::external_body]
fn std_lossy(bytes: &[u8]) -> (text: String)
    ensures
        text@ == utf8_lossy(bytes@),
        vstd::utf8::valid_utf8(bytes@) ==> text@ == vstd::utf8::decode_utf8(bytes@),
{
    String::from_utf8_lossy(bytes).into_owned()
}

/// A line without its `\n`, and without the `\r` before it: the UI renders
/// the text itself, and a kept `\r` shows as a stray glyph on CRLF files.
pub open spec fn stripped(line: Seq<u8>) -> Seq<u8> {
    let no_newline = if line.len() > 0 && line.last() == 10u8 { line.drop_last() } else { line };
    if no_newline.len() > 0 && no_newline.last() == 13u8 {
        no_newline.drop_last()
    } else {
        no_newline
    }
}

/// Drops a trailing `\n`, then a trailing `\r`.
pub fn strip_terminator(line: &[u8]) -> (rest: &[u8])
    ensures
        rest@ == stripped(line@),
{
    let mut end = line.len();
    if end > 0 && line[end - 1] == 10u8 {
        end -= 1;
    }
    if end > 0 && line[end - 1] == 13u8 {
        end -= 1;
    }
    let rest = &line[0..end];
    assert(line@.subrange(0, line@.len() as int) == line@);
    assert(line@.subrange(0, line@.len() - 1) == line@.drop_last());
    assert(end >= 1 ==> line@.subrange(0, end - 1) == line@.subrange(0, end as int).drop_last());
    rest
}

/// An empty side is reported at the line before the hunk, so a wholly
/// deleted file is `@@ -1,6 +0,0 @@`.
pub open spec fn start_spec(start: u32, len: u32) -> u32 {
    if len == 0 {
        if start == 0 { 0 } else { (start - 1) as u32 }
    } else {
        start
    }
}

pub fn start_of(start: u32, len: u32) -> (shown: u32)
    ensures
        shown == start_spec(start, len),
{
    if len == 0 {
        start.saturating_sub(1)
    } else {
        start
    }
}

/// One side of the header: git omits the count when it is 1.
pub open spec fn header_part(start: u32, len: u32) -> Seq<char> {
    if len == 1 {
        decimal_of(start_spec(start, len) as nat)
    } else {
        decimal_of(start_spec(start, len) as nat) + seq![','] + decimal_of(len as nat)
    }
}

pub open spec fn header_text(header: HunkHeader) -> Seq<char> {
    "@@ -"@ + header_part(header.before_hunk_start, header.before_hunk_len) + " +"@
        + header_part(header.after_hunk_start, header.after_hunk_len) + " @@"@
}

fn push_part(out: &mut Vec<char>, start: u32, len: u32)
    ensures
        final(out)@ == old(out)@ + header_part(start, len),
{
    let shown = start_of(start, len);
    push_chars(out, &decimal(shown as u64));
    if len != 1 {
        out.push(',');
        push_chars(out, &decimal(len as u64));
    }
}

/// The `@@ -a,b +c,d @@` line.
pub fn render_header(header: HunkHeader) -> (text: String)
    ensures
        text@ == header_text(header),
{
    let mut out: Vec<char> = Vec::new();
    push_str(&mut out, "@@ -");
    push_part(&mut out, header.before_hunk_start, header.before_hunk_len);
    push_str(&mut out, " +");
    push_part(&mut out, header.after_hunk_start, header.after_hunk_len);
    push_str(&mut out, " @@");
    string_of(&out)
}

/// git's default `xfuncname`: a line starting with an ASCII letter, `_` or `$`.
pub open spec fn names_a_function(line: Seq<u8>) -> bool {
    line.len() > 0 && {
        let b = line[0];
        (65 <= b && b <= 90) || (97 <= b && b <= 122) || b == 95u8 || b == 36u8
    }
}

/// The nearest line at or above `index` that names a function.
pub open spec fn nearest_function(before: Seq<Seq<u8>>, index: int) -> Option<int>
    decreases index + 1,
{
    if index < 0 || index >= before.len() {
        None
    } else if names_a_function(before[index]) {
        Some(index)
    } else {
        nearest_function(before, index - 1)
    }
}

/// ASCII whitespace as `u8::is_ascii_whitespace` sees it, or a vertical tab.
pub open spec fn is_trimmed_byte(b: u8) -> bool {
    b == 32u8 || b == 9u8 || b == 10u8 || b == 12u8 || b == 13u8 || b == 11u8
}

/// The number of bytes kept once trailing whitespace is trimmed.
pub open spec fn kept_len(s: Seq<u8>) -> nat
    decreases s.len(),
{
    if s.len() == 0 {
        0
    } else if is_trimmed_byte(s.last()) {
        kept_len(s.drop_last())
    } else {
        s.len()
    }
}

fn trimmed_byte(b: u8) -> (r: bool)
    ensures
        r == is_trimmed_byte(b),
{
    b == 32u8 || b == 9u8 || b == 10u8 || b == 12u8 || b == 13u8 || b == 11u8
}

pub open spec fn clamp80(line: Seq<u8>) -> Seq<u8> {
    if line.len() <= 80 { line } else { line.take(80) }
}

/// The function context for a hunk starting at old line `hunk_start`: the
/// nearest qualifying line above it, clamped to 80 bytes and right-trimmed;
/// none when no line qualifies or the qualifying line trims to nothing.
pub open spec fn func_context_spec(before: Seq<Seq<u8>>, hunk_start: u32) -> Option<Seq<char>> {
    match nearest_function(before, hunk_start - 2) {
        None => None,
        Some(index) => {
            let clamped = clamp80(before[index]);
            if kept_len(clamped) == 0 {
                None
            } else {
                Some(utf8_lossy(clamped.take(kept_len(clamped) as int)))
            }
        },
    }
}

proof fn lemma_kept_len_bound(s: Seq<u8>)
    ensures
        kept_len(s) <= s.len(),
        kept_len(s) > 0 ==> !is_trimmed_byte(s[kept_len(s) - 1]),
    decreases s.len(),
{
    if s.len() > 0 {
        lemma_kept_len_bound(s.drop_last());
    }
}

proof fn lemma_nothing_kept_means_blank_start(s: Seq<u8>)
    requires
        s.len() > 0,
        kept_len(s) == 0,
    ensures
        is_trimmed_byte(s[0]),
    decreases s.len(),
{
    if !is_trimmed_byte(s.last()) {
        assert(kept_len(s) == s.len());
    } else if s.len() > 1 {
        assert(s.drop_last()[0] == s[0]);
        lemma_nothing_kept_means_blank_start(s.drop_last());
    } else {
        assert(s.last() == s[0]);
    }
}

proof fn lemma_nearest_at_or_below(before: Seq<Seq<u8>>, index: int, k: int)
    requires
        0 <= k <= index < before.len(),
        names_a_function(before[k]),
    ensures
        nearest_function(before, index) matches Some(j) && k <= j <= index && names_a_function(before[j]),
    decreases index - k,
{
    if !names_a_function(before[index]) {
        lemma_nearest_at_or_below(before, index - 1, k);
    }
}

/// git's default function lines are those that start with an ASCII letter
/// (upper or lower case), `_` or `$`. A hunk below such a line always gets a
/// function context, taken from that line or from one between it and the
/// hunk, never from higher up; a hunk right below it gets that very line,
/// cut to 80 bytes and right-trimmed.
pub proof fn letters_underscore_and_dollar_start_function_lines(before: Seq<Seq<u8>>, hunk_start: u32, k: int)
    requires
        0 <= k <= hunk_start - 2 < before.len(),
        before[k].len() > 0,
        ({
            let b = before[k][0];
            (65u8 <= b && b <= 90u8) || (97u8 <= b && b <= 122u8) || b == 95u8 || b == 36u8
        }),
    ensures
        nearest_function(before, hunk_start - 2) matches Some(j) && k <= j <= hunk_start - 2,
        func_context_spec(before, hunk_start) is Some,
        k == hunk_start - 2 ==> func_context_spec(before, hunk_start)
            == Some(utf8_lossy(clamp80(before[k]).take(kept_len(clamp80(before[k])) as int))),
{
    lemma_nearest_at_or_below(before, hunk_start - 2, k);
    let j = nearest_function(before, hunk_start - 2)->0;
    let clamped = clamp80(before[j]);
    assert(clamped[0] == before[j][0]);
    if kept_len(clamped) == 0 {
        lemma_nothing_kept_means_blank_start(clamped);
    }
}

pub open spec fn line_views(before: Seq<&[u8]>) -> Seq<Seq<u8>> {
    Seq::new(before.len(), |i: int| before[i]@)
}

/// git's default function context for a hunk starting at old line
/// `hunk_start`.
pub fn func_context(before: &[&[u8]], hunk_start: u32) -> (context: Option<String>)
    requires
        hunk_start as int - 2 < before@.len(),
    ensures
        match context {
            Some(text) => func_context_spec(line_views(before@), hunk_start) == Some(text@),
            None => func_context_spec(line_views(before@), hunk_start) is None,
        },
{
    let ghost lines = line_views(before@);
    if hunk_start < 2 {
        return None;
    }
    let mut index: usize = (hunk_start - 2) as usize;
    loop
        invariant
            index < before@.len(),
            lines == line_views(before@),
            nearest_function(lines, hunk_start - 2) == nearest_function(lines, index as int),
        decreases index,
    {
        let line = before[index];
        let qualifies = line.len() > 0 && {
            let b = line[0];
            (65 <= b && b <= 90) || (97 <= b && b <= 122) || b == 95u8 || b == 36u8
        };
        if qualifies {
            assert(lines[index as int] == line@);
            assert(names_a_function(lines[index as int]));
            assert(nearest_function(lines, index as int) == Some(index as int));
            let width = if line.len() <= 80 { line.len() } else { 80 };
            let clamped = &line[0..width];
            let ghost clamped_s = clamp80(lines[index as int]);
            assert(clamped@ == clamped_s);
            let mut end = width;
            assert(clamped@.take(width as int) == clamped@);
            while end > 0 && trimmed_byte(clamped[end - 1])
                invariant
                    end <= clamped@.len(),
                    kept_len(clamped@) == kept_len(clamped@.take(end as int)),
                decreases end,
            {
                assert(clamped@.take(end as int).drop_last() == clamped@.take(end - 1));
                end -= 1;
            }
            assert(end > 0 ==> kept_len(clamped@.take(end as int)) == end);
            if end == 0 {
                assert(clamped@.take(0) == Seq::<u8>::empty());
                assert(kept_len(clamped_s) == 0);
                assert(nearest_function(lines, hunk_start - 2) == Some(index as int));
                assert(clamp80(lines[index as int]) == clamped_s);
                assert(func_context_spec(lines, hunk_start) is None);
                return None;
            }
            let kept = &clamped[0..end];
            assert(kept@ == clamped_s.take(kept_len(clamped_s) as int));
            return Some(std_lossy(kept));
        }
        assert(lines[index as int] == line@);
        assert(nearest_function(lines, index as int) == nearest_function(lines, index - 1));
        if index == 0 {
            return None;
        }
        index -= 1;
    }
}

pub open spec fn line_type_of(kind: LineKind) -> LineType {
    match kind {
        LineKind::Context => LineType::Context,
        LineKind::Add => LineType::Add,
        LineKind::Remove => LineType::Del,
    }
}

/// Hunk lines by their kinds and bytes.
pub open spec fn entry_seq(lines: Seq<(LineKind, &[u8])>) -> Seq<(LineKind, Seq<u8>)> {
    lines.map_values(|e: (LineKind, &[u8])| (e.0, e.1@))
}

/// Lines that take up a line number on the old side: all but additions.
pub open spec fn old_steps(lines: Seq<(LineKind, Seq<u8>)>) -> nat
    decreases lines.len(),
{
    if lines.len() == 0 {
        0
    } else {
        old_steps(lines.drop_last()) + if lines.last().0 == LineKind::Add { 0nat } else { 1nat }
    }
}

/// Lines that take up a line number on the new side: all but removals.
pub open spec fn new_steps(lines: Seq<(LineKind, Seq<u8>)>) -> nat
    decreases lines.len(),
{
    if lines.len() == 0 {
        0
    } else {
        new_steps(lines.drop_last()) + if lines.last().0 == LineKind::Remove { 0nat } else { 1nat }
    }
}

pub open spec fn count_kind(lines: Seq<(LineKind, Seq<u8>)>, kind: LineKind) -> nat
    decreases lines.len(),
{
    if lines.len() == 0 {
        0
    } else {
        count_kind(lines.drop_last(), kind) + if lines.last().0 == kind { 1nat } else { 0nat }
    }
}

proof fn lemma_steps_bounded(lines: Seq<(LineKind, Seq<u8>)>)
    ensures
        old_steps(lines) <= lines.len(),
        new_steps(lines) <= lines.len(),
        count_kind(lines, LineKind::Add) <= lines.len(),
        count_kind(lines, LineKind::Remove) <= lines.len(),
    decreases lines.len(),
{
    if lines.len() > 0 {
        lemma_steps_bounded(lines.drop_last());
    }
}

/// Line `j` of a hunk: numbered from the header's starts by the lines before
/// it on each side, with its text stripped of the terminator and decoded.
pub open spec fn line_built(line: DiffLine, j: int, lines: Seq<(LineKind, Seq<u8>)>, header: HunkHeader) -> bool {
    let kind = lines[j].0;
    let old_no = header.before_hunk_start + old_steps(lines.take(j));
    let new_no = header.after_hunk_start + new_steps(lines.take(j));
    &&& line.i == j
    &&& line.kind == line_type_of(kind)
    &&& line.old == if kind == LineKind::Add { None } else { Some(old_no as u32) }
    &&& line.new == if kind == LineKind::Remove { None } else { Some(new_no as u32) }
    &&& line.text@ == lossy_text(stripped(lines[j].1))
}

/// A hunk made from a header and the lines it keeps.
pub open spec fn hunk_built(hunk: Hunk, header: HunkHeader, lines: Seq<(LineKind, Seq<u8>)>) -> bool {
    &&& hunk.id@ == Seq::<char>::empty()
    &&& hunk.header@ == header_text(header)
    &&& hunk.old_start == start_spec(header.before_hunk_start, header.before_hunk_len)
    &&& hunk.old_count == header.before_hunk_len
    &&& hunk.new_start == start_spec(header.after_hunk_start, header.after_hunk_len)
    &&& hunk.new_count == header.after_hunk_len
    &&& hunk.additions == count_kind(lines, LineKind::Add)
    &&& hunk.deletions == count_kind(lines, LineKind::Remove)
    &&& hunk.lines@.len() == lines.len()
    &&& forall|j: int| 0 <= j < lines.len() ==> line_built(#[trigger] hunk.lines@[j], j, lines, header)
}

/// Collects hunks, stopping after `cap` lines so one enormous file cannot
/// bury the review; `used` counts the lines kept so far.
pub struct Collector {
    pub cap: usize,
    pub used: usize,
    pub truncated: bool,
    pub hunks: Vec<Hunk>,
}

impl Collector {
    pub fn new(cap: usize) -> (collector: Collector)
        ensures
            collector.cap == cap,
            collector.used == 0,
            !collector.truncated,
            collector.hunks@.len() == 0,
    {
        Collector { cap, used: 0, truncated: false, hunks: Vec::new() }
    }

    /// Takes one hunk: as many of its lines as the cap leaves room for. A
    /// hunk that arrives with no room left is dropped; either way a cut marks
    /// the file truncated.
    pub fn consume_hunk(&mut self, header: HunkHeader, lines: &[(LineKind, &[u8])])
        requires
            old(self).used <= old(self).cap,
            header.before_hunk_start + lines@.len() <= u32::MAX,
            header.after_hunk_start + lines@.len() <= u32::MAX,
        ensures
            final(self).cap == old(self).cap,
            final(self).used <= final(self).cap,
            old(self).used >= old(self).cap ==> {
                &&& final(self).hunks@ == old(self).hunks@
                &&& final(self).used == old(self).used
                &&& final(self).truncated
            },
            old(self).used < old(self).cap ==> {
                let room = old(self).cap - old(self).used;
                let kept = if lines@.len() <= room { lines@.len() as int } else { room as int };
                &&& final(self).used == old(self).used + kept
                &&& final(self).truncated == (old(self).truncated || lines@.len() > room)
                &&& final(self).hunks@.len() == old(self).hunks@.len() + 1
                &&& final(self).hunks@.drop_last() == old(self).hunks@
                &&& hunk_built(final(self).hunks@.last(), header, entry_seq(lines@).take(kept))
            },
    {
        if self.used >= self.cap {
            self.truncated = true;
            return;
        }
        let ghost ls = entry_seq(lines@);
        let ghost used0 = self.used;
        let ghost cap0 = self.cap;
        let ghost hunks0 = self.hunks@;
        let ghost truncated0 = self.truncated;
        let mut old_no = header.before_hunk_start;
        let mut new_no = header.after_hunk_start;
        let mut additions: usize = 0;
        let mut deletions: usize = 0;
        let mut out: Vec<DiffLine> = Vec::new();
        let mut k: usize = 0;
        while k < lines.len() && self.used < self.cap
            invariant
                k <= lines@.len(),
                ls == entry_seq(lines@),
                self.used == used0 + k,
                self.used <= self.cap,
                self.cap == cap0,
                self.hunks@ == hunks0,
                self.truncated == truncated0,
                header.before_hunk_start + lines@.len() <= u32::MAX,
                header.after_hunk_start + lines@.len() <= u32::MAX,
                old_no == header.before_hunk_start + old_steps(ls.take(k as int)),
                new_no == header.after_hunk_start + new_steps(ls.take(k as int)),
                additions == count_kind(ls.take(k as int), LineKind::Add),
                deletions == count_kind(ls.take(k as int), LineKind::Remove),
                out@.len() == k,
                forall|j: int| 0 <= j < k ==> line_built(#[trigger] out@[j], j, ls, header),
            decreases lines@.len() - k,
        {
            let (kind, content) = lines[k];
            proof {
                assert(ls.take(k + 1).drop_last() == ls.take(k as int));
                assert(ls.take(k + 1).last() == ls[k as int]);
                lemma_steps_bounded(ls.take(k as int));
            }
            let text = bstr_lossy(strip_terminator(content));
            let line = match kind {
                LineKind::Context => {
                    let line = DiffLine { i: k, kind: LineType::Context, old: Some(old_no), new: Some(new_no), text };
                    old_no += 1;
                    new_no += 1;
                    line
                },
                LineKind::Add => {
                    additions += 1;
                    let line = DiffLine { i: k, kind: LineType::Add, old: None, new: Some(new_no), text };
                    new_no += 1;
                    line
                },
                LineKind::Remove => {
                    deletions += 1;
                    let line = DiffLine { i: k, kind: LineType::Del, old: Some(old_no), new: None, text };
                    old_no += 1;
                    line
                },
            };
            out.push(line);
            self.used += 1;
            k += 1;
        }
        if k < lines.len() {
            self.truncated = true;
        }
        let ghost kept = ls.take(k as int);
        assert forall|j: int| 0 <= j < k implies line_built(#[trigger] out@[j], j, kept, header) by {
            assert(kept.take(j) == ls.take(j));
            assert(line_built(out@[j], j, ls, header));
        }
        let hunk = Hunk {
            id: String::new(),
            header: render_header(header),
            old_start: start_of(header.before_hunk_start, header.before_hunk_len),
            old_count: header.before_hunk_len,
            new_start: start_of(header.after_hunk_start, header.after_hunk_len),
            new_count: header.after_hunk_len,
            additions,
            deletions,
            lines: out,
        };
        let ghost before = self.hunks@;
        self.hunks.push(hunk);
        assert(self.hunks@.drop_last() == before);
    }

    /// The hunks collected and whether any were cut short.
    pub fn finish(self) -> (out: (Vec<Hunk>, bool))
        ensures
            out.0 == self.hunks,
            out.1 == self.truncated,
    {
        (self.hunks, self.truncated)
    }
}

/// Hunks, whole-file line counts, truncation flag, binary flag.
pub struct Content {
    pub hunks: Vec<Hunk>,
    pub additions: usize,
    pub deletions: usize,
    pub truncated: bool,
    pub binary: bool,
}

impl Content {
    /// Nothing to show: a binary file, or one an external driver diffs.
    pub fn empty(binary: bool) -> (content: Content)
        ensures
            content.hunks@.len() == 0,
            content.additions == 0,
            content.deletions == 0,
            !content.truncated,
            content.binary == binary,
    {
        Content { hunks: Vec::new(), additions: 0, deletions: 0, truncated: false, binary }
    }
}

/// Everything about a hunk but its header.
pub open spec fn same_but_header(a: Hunk, b: Hunk) -> bool {
    &&& a.id == b.id
    &&& a.old_start == b.old_start
    &&& a.old_count == b.old_count
    &&& a.new_start == b.new_start
    &&& a.new_count == b.new_count
    &&& a.additions == b.additions
    &&& a.deletions == b.deletions
    &&& a.lines == b.lines
}

/// A header followed by its function context, when there is one.
pub open spec fn header_with_context(header: Seq<char>, context: Option<Seq<char>>) -> Seq<char> {
    match context {
        Some(text) => header + seq![' '] + text,
        None => header,
    }
}

/// Appends git's function context to each hunk header.
pub fn with_context(hunks: Vec<Hunk>, before: &[&[u8]]) -> (out: Vec<Hunk>)
    requires
        forall|i: int| 0 <= i < hunks@.len() ==> (#[trigger] hunks@[i]).old_start as int - 2 < before@.len(),
    ensures
        out@.len() == hunks@.len(),
        forall|i: int| 0 <= i < out@.len() ==> {
            &&& same_but_header(#[trigger] out@[i], hunks@[i])
            &&& out@[i].header@ == header_with_context(hunks@[i].header@, func_context_spec(line_views(before@), hunks@[i].old_start))
        },
{
    let ghost all = hunks@;
    let mut rest = hunks;
    let mut out: Vec<Hunk> = Vec::new();
    while rest.len() > 0
        invariant
            out@.len() + rest@.len() == all.len(),
            rest@ == all.skip(out@.len() as int),
            forall|i: int| 0 <= i < all.len() ==> (#[trigger] all[i]).old_start as int - 2 < before@.len(),
            forall|i: int| 0 <= i < out@.len() ==> {
                &&& same_but_header(#[trigger] out@[i], all[i])
                &&& out@[i].header@ == header_with_context(all[i].header@, func_context_spec(line_views(before@), all[i].old_start))
            },
        decreases rest@.len(),
    {
        let ghost prev = rest@;
        let mut hunk = rest.remove(0);
        assert(rest@ =~= all.skip(out@.len() as int + 1));
        assert(hunk == all[out@.len() as int]);
        match func_context(before, hunk.old_start) {
            Some(context) => {
                let mut header = chars_of(hunk.header.as_str());
                header.push(' ');
                push_str(&mut header, context.as_str());
                hunk.header = string_of(&header);
            },
            None => {},
        }
        out.push(hunk);
    }
    out
}

/// Noise files get a tighter line cap.
pub open spec fn cap_for(path: Seq<char>) -> usize {
    if noise_path(path) { 40 } else { 2000 }
}

/// How many diff lines of a file are kept.
pub fn line_cap(path: &str) -> (cap: usize)
    ensures
        cap == cap_for(path@),
{
    if is_noise(path) { 40 } else { 2000 }
}

/// A changed path as text, decoded as `bstr` decodes it.
pub fn decoded_path(path: &[u8]) -> (text: String)
    ensures
        text@ == lossy_text(path@),
{
    bstr_lossy(path)
}

pub open spec fn file_id(index: nat) -> Seq<char> {
    "f"@ + decimal_of(index)
}

/// Hunk ids are positional, `f<file>h<hunk>`: the narrative refers to them.
pub open spec fn hunk_id(index: nat, hunk: nat) -> Seq<char> {
    "f"@ + decimal_of(index) + "h"@ + decimal_of(hunk)
}

fn id_chars(index: usize, hunk: Option<usize>) -> (id: Vec<char>)
    ensures
        match hunk {
            Some(h) => id@ == hunk_id(index as nat, h as nat),
            None => id@ == file_id(index as nat),
        },
{
    let mut id: Vec<char> = Vec::new();
    push_str(&mut id, "f");
    push_chars(&mut id, &decimal(index as u64));
    match hunk {
        Some(h) => {
            push_str(&mut id, "h");
            push_chars(&mut id, &decimal(h as u64));
            assert(id@ =~= hunk_id(index as nat, h as nat));
        },
        None => {
            assert(id@ =~= file_id(index as nat));
        },
    }
    id
}

/// The file entry of `hunks.json` for the `index`-th changed file.
pub open spec fn file_built(file: FileDiff, index: nat, path: Seq<u8>, old_path: Option<Seq<u8>>, status: FileStatus, content: Content) -> bool {
    let text = lossy_text(path);
    &&& file.id@ == file_id(index)
    &&& file.path@ == text
    &&& file.old_path@ == match old_path {
        Some(old) => lossy_text(old),
        None => text,
    }
    &&& file.status == status
    &&& file.additions == content.additions
    &&& file.deletions == content.deletions
    &&& file.binary == content.binary
    &&& file.noise == noise_path(text)
    &&& match file.language {
        Some(language) => language_spec(text) == Some(language@),
        None => language_spec(text) is None,
    }
    &&& file.truncated == content.truncated
    &&& if content.binary {
        file.hunks@.len() == 0
    } else {
        &&& file.hunks@.len() == content.hunks@.len()
        &&& forall|j: int| 0 <= j < file.hunks@.len() ==> {
            &&& (#[trigger] file.hunks@[j]).id@ == hunk_id(index, j as nat)
            &&& file.hunks@[j].header == content.hunks@[j].header
            &&& file.hunks@[j].old_start == content.hunks@[j].old_start
            &&& file.hunks@[j].old_count == content.hunks@[j].old_count
            &&& file.hunks@[j].new_start == content.hunks@[j].new_start
            &&& file.hunks@[j].new_count == content.hunks@[j].new_count
            &&& file.hunks@[j].additions == content.hunks@[j].additions
            &&& file.hunks@[j].deletions == content.hunks@[j].deletions
            &&& file.hunks@[j].lines == content.hunks@[j].lines
        }
    }
}

/// Assembles the `index`-th changed file: ids, classification, language, and
/// the diffed content (no hunks for a binary file).
pub fn assemble_file(index: usize, path: &[u8], old_path: Option<&[u8]>, status: FileStatus, content: Content) -> (file: FileDiff)
    ensures
        file_built(file, index as nat, path@, match old_path { Some(old) => Some(old@), None => None }, status, content),
{
    let text = bstr_lossy(path);
    let old_text = match old_path {
        Some(old) => bstr_lossy(old),
        None => text.clone(),
    };
    let noise = is_noise(text.as_str());
    let language = match language_of(text.as_str()) {
        Some(language) => Some(string_of(&chars_of(language))),
        None => None,
    };
    let ghost source = content.hunks@;
    let mut rest = content.hunks;
    let mut hunks: Vec<Hunk> = Vec::new();
    if !content.binary {
        while rest.len() > 0
            invariant
                hunks@.len() + rest@.len() == source.len(),
                rest@ == source.skip(hunks@.len() as int),
                forall|j: int| 0 <= j < hunks@.len() ==> {
                    &&& (#[trigger] hunks@[j]).id@ == hunk_id(index as nat, j as nat)
                    &&& hunks@[j].header == source[j].header
                    &&& hunks@[j].old_start == source[j].old_start
                    &&& hunks@[j].old_count == source[j].old_count
                    &&& hunks@[j].new_start == source[j].new_start
                    &&& hunks@[j].new_count == source[j].new_count
                    &&& hunks@[j].additions == source[j].additions
                    &&& hunks@[j].deletions == source[j].deletions
                    &&& hunks@[j].lines == source[j].lines
                },
            decreases rest@.len(),
        {
            let mut hunk = rest.remove(0);
            assert(rest@ =~= source.skip(hunks@.len() as int + 1));
            assert(hunk == source[hunks@.len() as int]);
            hunk.id = string_of(&id_chars(index, Some(hunks.len())));
            hunks.push(hunk);
        }
    }
    FileDiff {
        id: string_of(&id_chars(index, None)),
        path: text,
        old_path: old_text,
        status,
        additions: content.additions,
        deletions: content.deletions,
        binary: content.binary,
        noise,
        language,
        truncated: content.truncated,
        hunks,
    }
}

/// The paths of a list of changes.
pub open spec fn paths_of(changes: Seq<Change>) -> Seq<Seq<u8>> {
    Seq::new(changes.len(), |i: int| changes[i].path@)
}

pub open spec fn old_path_view(change: Change) -> Option<Seq<u8>> {
    match change.old_path {
        Some(old) => Some(old@),
        None => None,
    }
}

/// The changed files as the review lists them: the changes in path order
/// (`order`, as `order_by_path` gives it), the `i`-th assembled with its
/// content `contents[i]` under id `f<i>`, its hunks under `f<i>h<j>`.
pub fn assemble_files(changes: &Vec<Change>, order: &Vec<usize>, contents: Vec<Content>) -> (files: Vec<FileDiff>)
    requires
        sorted_stably(paths_of(changes@), order@),
        contents@.len() == order@.len(),
    ensures
        files@.len() == changes@.len(),
        forall|i: int| 0 <= i < files@.len() ==> {
            let change = changes@[order@[i] as int];
            file_built(#[trigger] files@[i], i as nat, change.path@, old_path_view(change), change.status, contents@[i])
        },
        forall|i: int, j: int| 0 <= i < j < files@.len() ==>
            !bytes_lt(#[trigger] changes@[order@[j] as int].path@, #[trigger] changes@[order@[i] as int].path@),
{
    let ghost source = contents@;
    let mut rest = contents;
    let mut files: Vec<FileDiff> = Vec::new();
    while rest.len() > 0
        invariant
            files@.len() + rest@.len() == source.len(),
            source.len() == order@.len(),
            sorted_stably(paths_of(changes@), order@),
            rest@ == source.skip(files@.len() as int),
            forall|i: int| 0 <= i < files@.len() ==> {
                let change = changes@[order@[i] as int];
                file_built(#[trigger] files@[i], i as nat, change.path@, old_path_view(change), change.status, source[i])
            },
        decreases rest@.len(),
    {
        let k = files.len();
        let content = rest.remove(0);
        assert(rest@ =~= source.skip(k as int + 1));
        assert(content == source[k as int]);
        let change = &changes[order[k]];
        let old_path = match &change.old_path {
            Some(old) => Some(old.as_slice()),
            None => None,
        };
        let file = assemble_file(k, change.path.as_slice(), old_path, change.status, content);
        files.push(file);
    }
    proof {
        assert forall|i: int, j: int| 0 <= i < j < files@.len() implies
            !bytes_lt(#[trigger] changes@[order@[j] as int].path@, #[trigger] changes@[order@[i] as int].path@) by {
            assert(paths_of(changes@)[order@[j] as int] == changes@[order@[j] as int].path@);
            assert(paths_of(changes@)[order@[i] as int] == changes@[order@[i] as int].path@);
        }
    }
    files
}

/// Byte-wise lexicographic order from position `from` on, as `[u8]`'s `Ord`.
pub open spec fn bytes_lt_from(a: Seq<u8>, b: Seq<u8>, from: int) -> bool
    decreases b.len() - from,
{
    if from < 0 || from >= b.len() {
        false
    } else if from >= a.len() {
        true
    } else if a[from] != b[from] {
        a[from] < b[from]
    } else {
        bytes_lt_from(a, b, from + 1)
    }
}

/// `a` sorts strictly before `b`.
pub open spec fn bytes_lt(a: Seq<u8>, b: Seq<u8>) -> bool {
    bytes_lt_from(a, b, 0)
}

proof fn lemma_lt_irreflexive(a: Seq<u8>, from: int)
    requires
        0 <= from,
    ensures
        !bytes_lt_from(a, a, from),
    decreases a.len() - from,
{
    if from < a.len() {
        lemma_lt_irreflexive(a, from + 1);
    }
}

proof fn lemma_lt_total(a: Seq<u8>, b: Seq<u8>, from: int)
    requires
        0 <= from,
        from <= a.len(),
        from <= b.len(),
        a.skip(from) != b.skip(from),
    ensures
        bytes_lt_from(a, b, from) || bytes_lt_from(b, a, from),
    decreases a.len() + b.len() - 2 * from,
{
    if from < a.len() && from < b.len() && a[from] == b[from] {
        if a.skip(from + 1) == b.skip(from + 1) {
            assert(a.skip(from) =~= seq![a[from]] + a.skip(from + 1));
            assert(b.skip(from) =~= seq![b[from]] + b.skip(from + 1));
        }
        lemma_lt_total(a, b, from + 1);
    } else if from >= a.len() && from >= b.len() {
        assert(a.skip(from) =~= b.skip(from));
    }
}

proof fn lemma_lt_trichotomy(a: Seq<u8>, b: Seq<u8>)
    requires
        a != b,
    ensures
        bytes_lt(a, b) || bytes_lt(b, a),
{
    assert(a.skip(0) == a);
    assert(b.skip(0) == b);
    lemma_lt_total(a, b, 0);
}

proof fn lemma_lt_asymmetric(a: Seq<u8>, b: Seq<u8>, from: int)
    requires
        0 <= from,
        bytes_lt_from(a, b, from),
    ensures
        !bytes_lt_from(b, a, from),
    decreases b.len() - from,
{
    if from < a.len() && from < b.len() && a[from] == b[from] {
        lemma_lt_asymmetric(a, b, from + 1);
    }
}

proof fn lemma_lt_transitive(a: Seq<u8>, b: Seq<u8>, c: Seq<u8>, from: int)
    requires
        0 <= from,
        bytes_lt_from(a, b, from),
        bytes_lt_from(b, c, from),
    ensures
        bytes_lt_from(a, c, from),
    decreases c.len() - from,
{
    if from < a.len() && from < b.len() && from < c.len() && a[from] == b[from] && b[from] == c[from] {
        lemma_lt_transitive(a, b, c, from + 1);
    }
}

fn bytes_less(a: &Vec<u8>, b: &Vec<u8>) -> (less: bool)
    ensures
        less == bytes_lt(a@, b@),
{
    let mut i: usize = 0;
    while i < a.len() && i < b.len() && a[i] == b[i]
        invariant
            i <= a@.len(),
            i <= b@.len(),
            bytes_lt(a@, b@) == bytes_lt_from(a@, b@, i as int),
        decreases a@.len() - i,
    {
        i += 1;
    }
    if i >= b.len() {
        false
    } else if i >= a.len() {
        true
    } else {
        a[i] < b[i]
    }
}

/// `order` lists every index of `paths` once, sorted by path with ties kept in
/// index order: what a stable sort by path does to the list.
pub open spec fn sorted_stably(paths: Seq<Seq<u8>>, order: Seq<usize>) -> bool {
    &&& order.len() == paths.len()
    &&& order.no_duplicates()
    &&& forall|i: int| 0 <= i < order.len() ==> #[trigger] order[i] < paths.len()
    &&& forall|i: int, j: int| 0 <= i < j < order.len() ==> {
        &&& !bytes_lt(paths[order[j] as int], paths[order[i] as int])
        &&& (paths[#[trigger] order[i] as int] == paths[#[trigger] order[j] as int] ==> order[i] < order[j])
    }
}

/// The order to list changed files in: by path, as git lists them. Hunk ids
/// are positional, so this order is part of the contract.
pub fn order_by_path(paths: &Vec<Vec<u8>>) -> (order: Vec<usize>)
    ensures
        sorted_stably(paths.deep_view(), order@),
{
    let ghost ps = paths.deep_view();
    let mut order: Vec<usize> = Vec::new();
    let mut k: usize = 0;
    while k < paths.len()
        invariant
            k <= paths@.len(),
            ps == paths.deep_view(),
            ps.len() == paths@.len(),
            order@.len() == k,
            order@.no_duplicates(),
            forall|i: int| 0 <= i < order@.len() ==> #[trigger] order@[i] < k,
            forall|i: int, j: int| 0 <= i < j < order@.len() ==> {
                &&& !bytes_lt(ps[order@[j] as int], ps[order@[i] as int])
                &&& (ps[#[trigger] order@[i] as int] == ps[#[trigger] order@[j] as int] ==> order@[i] < order@[j])
            },
        decreases paths@.len() - k,
    {
        assert(paths@[k as int]@ == ps[k as int]);
        let mut p: usize = 0;
        while p < order.len() && !bytes_less(&paths[k], &paths[order[p]])
            invariant
                p <= order@.len(),
                forall|i: int| 0 <= i < order@.len() ==> #[trigger] order@[i] < k,
                k < paths@.len(),
                ps == paths.deep_view(),
                paths@[k as int]@ == ps[k as int],
                forall|i: int| 0 <= i < p ==> !bytes_lt(ps[k as int], ps[#[trigger] order@[i] as int]),
            decreases order@.len() - p,
        {
            assert(paths@[order@[p as int] as int]@ == ps[order@[p as int] as int]);
            assert(!bytes_lt(ps[k as int], ps[order@[p as int] as int]));
            p += 1;
        }
        if p < order.len() {
            assert(paths@[order@[p as int] as int]@ == ps[order@[p as int] as int]);
        }
        let ghost before = order@;
        order.insert(p, k);
        proof {
            let key = ps[k as int];
            assert forall|i: int, j: int| 0 <= i < j < order@.len() implies {
                &&& !bytes_lt(ps[order@[j] as int], ps[order@[i] as int])
                &&& (ps[#[trigger] order@[i] as int] == ps[#[trigger] order@[j] as int] ==> order@[i] < order@[j])
            } by {
                if j < p {
                    assert(order@[i] == before[i] && order@[j] == before[j]);
                } else if j == p {
                    assert(order@[i] == before[i]);
                    let other = ps[before[i] as int];
                    assert(!bytes_lt(key, other));
                    if other != key {
                        lemma_lt_trichotomy(other, key);
                    }
                    lemma_lt_irreflexive(key, 0);
                } else if i > p {
                    assert(order@[i] == before[i - 1] && order@[j] == before[j - 1]);
                } else if i == p {
                    assert(order@[j] == before[j - 1]);
                    let first = ps[before[p as int] as int];
                    let other = ps[before[j - 1] as int];
                    assert(bytes_lt(key, first));
                    if j - 1 > p {
                        assert(!bytes_lt(other, first));
                        if other != first {
                            lemma_lt_trichotomy(other, first);
                            lemma_lt_transitive(key, first, other, 0);
                        }
                    }
                    lemma_lt_asymmetric(key, other, 0);
                    lemma_lt_irreflexive(key, 0);
                } else {
                    assert(order@[i] == before[i] && order@[j] == before[j - 1]);
                }
            }
            assert forall|i: int| 0 <= i < order@.len() implies #[trigger] order@[i] < k + 1 by {
                if i < p {
                    assert(order@[i] == before[i]);
                } else if i > p {
                    assert(order@[i] == before[i - 1]);
                }
            }
            assert(order@.no_duplicates()) by {
                assert forall|i: int, j: int| 0 <= i < order@.len() && 0 <= j < order@.len() && i != j implies order@[i] != order@[j] by {
                    if i != p && j != p {
                        let bi = if i < p { i } else { i - 1 };
                        let bj = if j < p { j } else { j - 1 };
                        assert(order@[i] == before[bi] && order@[j] == before[bj]);
                    } else if i == p {
                        let bj = if j < p { j } else { j - 1 };
                        assert(order@[j] == before[bj]);
                    } else {
                        let bi = if i < p { i } else { i - 1 };
                        assert(order@[i] == before[bi]);
                    }
                }
            }
        }
        k += 1;
    }
    order
}

} // verus!
