//! The report the agent reads back: markdown by default, JSON on request. The
//! JSON shape and the exit code are both part of the contract.

use vstd::prelude::*;

use crate::model::{
    opt_text, Anchor, AnchorKind, Comment, FileDiff, Hunk, DiffLine, LineType, Meta, Overall,
    ProgressState, Review, ReviewState, Side, Totals, Verdict,
};
use crate::text::{views, chars_of, string_of, push_str, push_chars, same_chars, decimal, decimal_of, split_chars, split_on, lemma_split_nonempty, joined, join_lines, starts_with};

verus! {

#[derive(Debug, Clone, Copy, PartialEq, Eq, Structural)]
pub enum Outcome {
    Approved,
    ChangesRequested,
    Abandoned,
}

pub open spec fn exit_code_of(outcome: Outcome) -> i32 {
    match outcome {
        Outcome::Approved => 0,
        Outcome::ChangesRequested => 1,
        Outcome::Abandoned => 2,
    }
}

impl Outcome {
    /// 0 approved, 1 changes requested, 2 abandoned.
    pub fn exit_code(self) -> (code: i32)
        ensures
            code == exit_code_of(self),
    {
        match self {
            Outcome::Approved => 0,
            Outcome::ChangesRequested => 1,
            Outcome::Abandoned => 2,
        }
    }

    /// The outcome's name on the wire: kebab-case.
    pub fn name(self) -> (name: &'static str)
        ensures
            name@ == outcome_name_of(self),
    {
        match self {
            Outcome::Approved => "approved",
            Outcome::ChangesRequested => "changes-requested",
            Outcome::Abandoned => "abandoned",
        }
    }
}

pub open spec fn outcome_name_of(outcome: Outcome) -> Seq<char> {
    match outcome {
        Outcome::Approved => "approved"@,
        Outcome::ChangesRequested => "changes-requested"@,
        Outcome::Abandoned => "abandoned"@,
    }
}

/// What a report is rendered from.
pub struct ReportInput<'a> {
    pub meta: &'a Meta,
    pub files: &'a [FileDiff],
    pub review: Option<&'a Review>,
    pub state: &'a ReviewState,
}

pub open spec fn verdict_mark_of(verdict: Verdict) -> Seq<char> {
    match verdict {
        Verdict::Okay => "[ok]"@,
        Verdict::Fix => "[FIX]"@,
        Verdict::Question => "[?]"@,
    }
}

pub open spec fn verdict_word_of(verdict: Verdict) -> Seq<char> {
    match verdict {
        Verdict::Okay => "ok"@,
        Verdict::Fix => "fix"@,
        Verdict::Question => "question"@,
    }
}

pub fn verdict_mark(verdict: Verdict) -> (mark: &'static str)
    ensures
        mark@ == verdict_mark_of(verdict),
{
    match verdict {
        Verdict::Okay => "[ok]",
        Verdict::Fix => "[FIX]",
        Verdict::Question => "[?]",
    }
}

/// A verdict's name on the wire.
pub fn verdict_word(verdict: Verdict) -> (word: &'static str)
    ensures
        word@ == verdict_word_of(verdict),
{
    match verdict {
        Verdict::Okay => "ok",
        Verdict::Fix => "fix",
        Verdict::Question => "question",
    }
}

pub open spec fn is_open() -> spec_fn(Comment) -> bool {
    |comment: Comment| !comment.resolved
}

/// The comments that are not resolved, in the order they were made.
pub open spec fn open_of(comments: Seq<Comment>) -> Seq<Comment> {
    comments.filter(is_open())
}

/// The comments that are still open, in order.
pub fn open_comments(state: &ReviewState) -> (open: Vec<&Comment>)
    ensures
        open@.len() == open_of(state.comments@).len(),
        forall|i: int| 0 <= i < open@.len() ==> *#[trigger] open@[i] == open_of(state.comments@)[i],
{
    let mut open: Vec<&Comment> = Vec::new();
    let mut k: usize = 0;
    while k < state.comments.len()
        invariant
            k <= state.comments@.len(),
            open@.len() == open_of(state.comments@.take(k as int)).len(),
            forall|i: int| 0 <= i < open@.len() ==> *#[trigger] open@[i] == open_of(state.comments@.take(k as int))[i],
        decreases state.comments@.len() - k,
    {
        let comment = &state.comments[k];
        proof {
            assert(state.comments@.take(k + 1) == state.comments@.take(k as int).push(*comment));
            state.comments@.take(k as int).lemma_filter_push(*comment, is_open());
        }
        if !comment.resolved {
            open.push(comment);
        }
        k += 1;
    }
    assert(state.comments@.take(state.comments@.len() as int) == state.comments@);
    open
}

/// Whether any open comment asks for a fix.
pub open spec fn has_open_fix(comments: Seq<Comment>) -> bool {
    exists|i: int| 0 <= i < comments.len() && !comments[i].resolved && comments[i].verdict == Verdict::Fix
}

/// Unsubmitted is abandoned; submitted with an open fix comment, or with an
/// overall fix verdict, requests changes; anything else submitted is approved.
pub open spec fn outcome_spec(state: ReviewState) -> Outcome {
    if !state.submitted {
        Outcome::Abandoned
    } else if has_open_fix(state.comments@) || state.overall.verdict == Some(Verdict::Fix) {
        Outcome::ChangesRequested
    } else {
        Outcome::Approved
    }
}

/// Only an unsubmitted review is abandoned: a submitted one is approved or
/// has changes requested.
pub proof fn only_unsubmitted_is_abandoned(state: ReviewState)
    ensures
        (outcome_spec(state) == Outcome::Abandoned) <==> !state.submitted,
{
}

/// The outcome a review state earned.
pub fn outcome_of(state: &ReviewState) -> (outcome: Outcome)
    ensures
        outcome == outcome_spec(*state),
{
    if !state.submitted {
        return Outcome::Abandoned;
    }
    let mut blocking = false;
    let mut k: usize = 0;
    while k < state.comments.len()
        invariant
            k <= state.comments@.len(),
            blocking == exists|i: int| 0 <= i < k && !state.comments@[i].resolved && state.comments@[i].verdict == Verdict::Fix,
        decreases state.comments@.len() - k,
    {
        if !state.comments[k].resolved && state.comments[k].verdict == Verdict::Fix {
            blocking = true;
        }
        k += 1;
    }
    let overall_fix = match state.overall.verdict {
        Some(Verdict::Fix) => true,
        _ => false,
    };
    if blocking || overall_fix {
        Outcome::ChangesRequested
    } else {
        Outcome::Approved
    }
}

/// The line number an anchor reads on a diff line: the old side when the
/// anchor says old, the new side otherwise.
pub open spec fn side_line(line: DiffLine, anchor: Anchor) -> Option<u32> {
    if anchor.side == Some(Side::Old) {
        line.old
    } else {
        line.new
    }
}

pub open spec fn line_hits(line: DiffLine, anchor: Anchor) -> bool {
    anchor.line is Some && side_line(line, anchor) == anchor.line
}

/// A hunk the anchor may point into: any hunk when it names none.
pub open spec fn hunk_allowed(hunk: Hunk, anchor: Anchor) -> bool {
    match anchor.hunk {
        Some(id) => id@ == hunk.id@,
        None => true,
    }
}

/// The first line at or after `from` that the anchor points at.
pub open spec fn first_line_from(lines: Seq<DiffLine>, anchor: Anchor, from: int) -> Option<DiffLine>
    decreases lines.len() - from,
{
    if from < 0 || from >= lines.len() {
        None
    } else if line_hits(lines[from], anchor) {
        Some(lines[from])
    } else {
        first_line_from(lines, anchor, from + 1)
    }
}

/// The first pointed-at line in the allowed hunks at or after `from`.
pub open spec fn first_in_hunks(hunks: Seq<Hunk>, anchor: Anchor, from: int) -> Option<DiffLine>
    decreases hunks.len() - from,
{
    if from < 0 || from >= hunks.len() {
        None
    } else if hunk_allowed(hunks[from], anchor) && first_line_from(hunks[from].lines@, anchor, 0) is Some {
        first_line_from(hunks[from].lines@, anchor, 0)
    } else {
        first_in_hunks(hunks, anchor, from + 1)
    }
}

/// The first pointed-at line in the files at `path`, at or after `from`.
pub open spec fn first_in_files(files: Seq<FileDiff>, path: Seq<char>, anchor: Anchor, from: int) -> Option<DiffLine>
    decreases files.len() - from,
{
    if from < 0 || from >= files.len() {
        None
    } else if files[from].path@ == path && first_in_hunks(files[from].hunks@, anchor, 0) is Some {
        first_in_hunks(files[from].hunks@, anchor, 0)
    } else {
        first_in_files(files, path, anchor, from + 1)
    }
}

pub open spec fn marker_of(kind: LineType) -> char {
    match kind {
        LineType::Add => '+',
        LineType::Del => '-',
        LineType::Context => ' ',
    }
}

/// A diff line as `git diff` prints it: its marker, then its text.
pub open spec fn quoted(line: DiffLine) -> Seq<char> {
    seq![marker_of(line.kind)] + line.text@
}

/// The diff line a comment is pinned to, quoted; `None` when the anchor names
/// no file or points at nothing.
pub open spec fn line_text_spec(files: Seq<FileDiff>, anchor: Anchor) -> Option<Seq<char>> {
    match anchor.file {
        None => None,
        Some(path) => match first_in_files(files, path@, anchor, 0) {
            Some(line) => Some(quoted(line)),
            None => None,
        },
    }
}

fn find_in_lines<'a>(lines: &'a Vec<DiffLine>, anchor: &Anchor) -> (found: Option<&'a DiffLine>)
    ensures
        match found {
            Some(line) => first_line_from(lines@, *anchor, 0) == Some(*line),
            None => first_line_from(lines@, *anchor, 0) is None,
        },
{
    let want = match anchor.line {
        Some(want) => want,
        None => {
            proof {
                assert forall|from: int| 0 <= from <= lines@.len() implies first_line_from(lines@, *anchor, from) is None by {
                    lemma_no_hit_without_line(lines@, *anchor, from);
                }
            }
            return None;
        },
    };
    let old_side = match anchor.side {
        Some(Side::Old) => true,
        _ => false,
    };
    let mut k: usize = 0;
    while k < lines.len()
        invariant
            k <= lines@.len(),
            anchor.line == Some(want),
            old_side == (anchor.side == Some(Side::Old)),
            first_line_from(lines@, *anchor, 0) == first_line_from(lines@, *anchor, k as int),
        decreases lines@.len() - k,
    {
        let line = &lines[k];
        let side = if old_side { line.old } else { line.new };
        let hit = match side {
            Some(n) => n == want,
            None => false,
        };
        if hit {
            return Some(line);
        }
        k += 1;
    }
    None
}

proof fn lemma_no_hit_without_line(lines: Seq<DiffLine>, anchor: Anchor, from: int)
    requires
        anchor.line is None,
    ensures
        first_line_from(lines, anchor, from) is None,
    decreases lines.len() - from,
{
    if 0 <= from < lines.len() {
        lemma_no_hit_without_line(lines, anchor, from + 1);
    }
}

fn find_in_hunks<'a>(hunks: &'a Vec<Hunk>, anchor: &Anchor) -> (found: Option<&'a DiffLine>)
    ensures
        match found {
            Some(line) => first_in_hunks(hunks@, *anchor, 0) == Some(*line),
            None => first_in_hunks(hunks@, *anchor, 0) is None,
        },
{
    let mut k: usize = 0;
    while k < hunks.len()
        invariant
            k <= hunks@.len(),
            first_in_hunks(hunks@, *anchor, 0) == first_in_hunks(hunks@, *anchor, k as int),
        decreases hunks@.len() - k,
    {
        let hunk = &hunks[k];
        let allowed = match &anchor.hunk {
            Some(id) => *id == hunk.id,
            None => true,
        };
        if allowed {
            match find_in_lines(&hunk.lines, anchor) {
                Some(line) => {
                    return Some(line);
                },
                None => {},
            }
        }
        k += 1;
    }
    None
}

/// The diff line a comment is pinned to, for quoting back in the report.
pub fn line_text(files: &[FileDiff], anchor: &Anchor) -> (text: Option<String>)
    ensures
        match text {
            Some(t) => line_text_spec(files@, *anchor) == Some(t@),
            None => line_text_spec(files@, *anchor) is None,
        },
{
    let path = match &anchor.file {
        Some(path) => path,
        None => {
            return None;
        },
    };
    let mut k: usize = 0;
    while k < files.len()
        invariant
            k <= files@.len(),
            anchor.file == Some(*path),
            first_in_files(files@, path@, *anchor, 0) == first_in_files(files@, path@, *anchor, k as int),
        decreases files@.len() - k,
    {
        let file = &files[k];
        if file.path == *path {
            match find_in_hunks(&file.hunks, anchor) {
                Some(line) => {
                    let marker = match line.kind {
                        LineType::Add => '+',
                        LineType::Del => '-',
                        LineType::Context => ' ',
                    };
                    let mut out: Vec<char> = Vec::new();
                    out.push(marker);
                    let text = chars_of(line.text.as_str());
                    let mut t: usize = 0;
                    while t < text.len()
                        invariant
                            t <= text@.len(),
                            out@ == seq![marker] + text@.take(t as int),
                        decreases text@.len() - t,
                    {
                        out.push(text[t]);
                        t += 1;
                        assert(out@ =~= seq![marker] + text@.take(t as int));
                    }
                    assert(text@.take(text@.len() as int) == text@);
                    return Some(string_of(&out));
                },
                None => {},
            }
        }
        k += 1;
    }
    None
}

/// The length of the run of backticks that ends `s`.
pub open spec fn trailing_ticks(s: Seq<char>) -> nat
    decreases s.len(),
{
    if s.len() == 0 {
        0
    } else if s.last() == '`' {
        trailing_ticks(s.drop_last()) + 1
    } else {
        0
    }
}

/// The longest run of backticks anywhere in `s`.
pub open spec fn longest_ticks(s: Seq<char>) -> nat
    decreases s.len(),
{
    if s.len() == 0 {
        0
    } else {
        let before = longest_ticks(s.drop_last());
        let here = trailing_ticks(s);
        if before >= here { before } else { here }
    }
}

/// A code fence one backtick longer than any run inside `s`, and at least three.
pub open spec fn fence_of(s: Seq<char>) -> Seq<char> {
    let width: nat = if longest_ticks(s) + 1 > 3 { (longest_ticks(s) + 1) as nat } else { 3 };
    Seq::new(width, |i: int| '`')
}

proof fn lemma_ticks_bounded(s: Seq<char>)
    ensures
        trailing_ticks(s) <= s.len(),
        longest_ticks(s) <= s.len(),
    decreases s.len(),
{
    if s.len() > 0 {
        lemma_ticks_bounded(s.drop_last());
    }
}

fn fence_chars(content: &Vec<char>) -> (fence: Vec<char>)
    requires
        content@.len() < usize::MAX,
    ensures
        fence@ == fence_of(content@),
{
    let mut longest: usize = 0;
    let mut run: usize = 0;
    let mut k: usize = 0;
    while k < content.len()
        invariant
            k <= content@.len(),
            content@.len() < usize::MAX,
            run == trailing_ticks(content@.take(k as int)),
            longest == longest_ticks(content@.take(k as int)),
        decreases content@.len() - k,
    {
        proof {
            lemma_ticks_bounded(content@.take(k as int));
            assert(content@.take(k + 1).drop_last() == content@.take(k as int));
        }
        run = if content[k] == '`' { run + 1 } else { 0 };
        if run > longest {
            longest = run;
        }
        k += 1;
    }
    assert(content@.take(content@.len() as int) == content@);
    proof { lemma_ticks_bounded(content@); }
    let width = if longest + 1 > 3 { longest + 1 } else { 3 };
    let mut fence: Vec<char> = Vec::new();
    let mut w: usize = 0;
    while w < width
        invariant
            w <= width,
            fence@ == Seq::new(w as nat, |i: int| '`'),
        decreases width - w,
    {
        fence.push('`');
        w += 1;
        assert(fence@ =~= Seq::new(w as nat, |i: int| '`'));
    }
    fence
}

/// A fence longer than any backtick run inside the content it wraps.
pub fn fence_for(content: &str) -> (fence: String)
    requires
        content@.len() < usize::MAX,
    ensures
        fence@ == fence_of(content@),
{
    let chars = chars_of(content);
    string_of(&fence_chars(&chars))
}

/// The title of the last chapter with this id, as a map built from the
/// chapters in order would hold it.
pub open spec fn title_for(chapters: Seq<crate::model::Chapter>, id: Seq<char>) -> Option<Seq<char>>
    decreases chapters.len(),
{
    if chapters.len() == 0 {
        None
    } else if chapters.last().id@ == id {
        Some(chapters.last().title@)
    } else {
        title_for(chapters.drop_last(), id)
    }
}

/// The heading a comment is grouped under: its file, else its chapter's title
/// (or id, if no chapter has it) for a chapter comment, else `general`.
pub open spec fn group_key_of(comment: Comment, review: Option<Review>) -> Seq<char> {
    match comment.anchor.file {
        Some(file) => file@,
        None => if comment.anchor.kind == AnchorKind::Chapter && comment.anchor.chapter is Some {
            let id = comment.anchor.chapter.unwrap()@;
            let title = match review {
                Some(r) => match title_for(r.chapters@, id) {
                    Some(t) => t,
                    None => id,
                },
                None => id,
            };
            "chapter: "@ + title
        } else {
            "general"@
        },
    }
}

fn chapter_title<'a>(chapters: &'a Vec<crate::model::Chapter>, id: &String) -> (title: Option<&'a String>)
    ensures
        match title {
            Some(t) => title_for(chapters@, id@) == Some(t@),
            None => title_for(chapters@, id@) is None,
        },
{
    let mut k = chapters.len();
    assert(chapters@.take(k as int) == chapters@);
    while k > 0
        invariant
            k <= chapters@.len(),
            title_for(chapters@, id@) == title_for(chapters@.take(k as int), id@),
        decreases k,
    {
        assert(chapters@.take(k as int).drop_last() == chapters@.take(k - 1));
        if chapters[k - 1].id == *id {
            return Some(&chapters[k - 1].title);
        }
        k -= 1;
    }
    None
}

fn group_key(comment: &Comment, review: Option<&Review>) -> (key: Vec<char>)
    ensures
        key@ == group_key_of(*comment, match review { Some(r) => Some(*r), None => None }),
{
    match &comment.anchor.file {
        Some(file) => {
            return chars_of(file.as_str());
        },
        None => {},
    }
    if comment.anchor.kind == AnchorKind::Chapter {
        match &comment.anchor.chapter {
            Some(id) => {
                let mut key: Vec<char> = Vec::new();
                push_str(&mut key, "chapter: ");
                let title = match review {
                    Some(r) => match chapter_title(&r.chapters, id) {
                        Some(t) => t,
                        None => id,
                    },
                    None => id,
                };
                push_str(&mut key, title.as_str());
                return key;
            },
            None => {},
        }
    }
    chars_of("general")
}

pub open spec fn review_of(review: Option<&Review>) -> Option<Review> {
    match review {
        Some(r) => Some(*r),
        None => None,
    }
}

/// The comments behind a vector of references.
pub open spec fn derefs(s: Seq<&Comment>) -> Seq<Comment> {
    Seq::new(s.len(), |i: int| *s[i])
}

pub open spec fn keyed(review: Option<Review>, key: Seq<char>) -> spec_fn(Comment) -> bool {
    |comment: Comment| group_key_of(comment, review) == key
}

/// The distinct group keys, in the order their first comment was made.
pub open spec fn keys_of(comments: Seq<Comment>, review: Option<Review>) -> Seq<Seq<char>>
    decreases comments.len(),
{
    if comments.len() == 0 {
        Seq::empty()
    } else {
        let keys = keys_of(comments.drop_last(), review);
        let key = group_key_of(comments.last(), review);
        if keys.contains(key) {
            keys
        } else {
            keys.push(key)
        }
    }
}

proof fn lemma_keys_distinct(comments: Seq<Comment>, review: Option<Review>)
    ensures
        keys_of(comments, review).no_duplicates(),
    decreases comments.len(),
{
    if comments.len() > 0 {
        lemma_keys_distinct(comments.drop_last(), review);
    }
}

/// A comment's line, or 0 for a comment without one.
pub open spec fn line_key(comment: Comment) -> u32 {
    match comment.anchor.line {
        Some(line) => line,
        None => 0,
    }
}

/// Where a comment with line `key` goes in a line-sorted sequence to keep the
/// sort stable: before the first comment with a greater line.
pub open spec fn insertion_point(s: Seq<Comment>, key: u32, from: int) -> int
    decreases s.len() - from,
{
    if from < 0 || from >= s.len() {
        s.len() as int
    } else if line_key(s[from]) > key {
        from
    } else {
        insertion_point(s, key, from + 1)
    }
}

proof fn lemma_insertion_point_bounds(s: Seq<Comment>, key: u32, from: int)
    requires
        0 <= from <= s.len(),
    ensures
        from <= insertion_point(s, key, from) <= s.len(),
    decreases s.len() - from,
{
    if from < s.len() {
        lemma_insertion_point_bounds(s, key, from + 1);
    }
}

/// Stable sort by line: each comment is placed after every earlier comment
/// whose line is not greater than its own.
pub open spec fn by_line(s: Seq<Comment>) -> Seq<Comment>
    decreases s.len(),
{
    if s.len() == 0 {
        s
    } else {
        let sorted = by_line(s.drop_last());
        sorted.insert(insertion_point(sorted, line_key(s.last()), 0), s.last())
    }
}

proof fn lemma_by_line_len(s: Seq<Comment>)
    ensures
        by_line(s).len() == s.len(),
    decreases s.len(),
{
    if s.len() > 0 {
        lemma_by_line_len(s.drop_last());
        let sorted = by_line(s.drop_last());
        lemma_insertion_point_bounds(sorted, line_key(s.last()), 0);
    }
}

fn line_of(comment: &Comment) -> (line: u32)
    ensures
        line == line_key(*comment),
{
    match comment.anchor.line {
        Some(line) => line,
        None => 0,
    }
}

fn sort_by_line<'a>(v: Vec<&'a Comment>) -> (sorted: Vec<&'a Comment>)
    ensures
        derefs(sorted@) == by_line(derefs(v@)),
{
    let mut sorted: Vec<&Comment> = Vec::new();
    let mut k: usize = 0;
    while k < v.len()
        invariant
            k <= v@.len(),
            derefs(sorted@) == by_line(derefs(v@).take(k as int)),
        decreases v@.len() - k,
    {
        let comment = v[k];
        let key = match comment.anchor.line {
            Some(line) => line,
            None => 0,
        };
        let ghost before = derefs(sorted@);
        proof {
            lemma_by_line_len(derefs(v@).take(k as int));
        }
        let mut p: usize = 0;
        while p < sorted.len() && line_of(sorted[p]) <= key
            invariant
                p <= sorted@.len(),
                derefs(sorted@) == before,
                insertion_point(before, key, 0) == insertion_point(before, key, p as int),
            decreases sorted@.len() - p,
        {
            p += 1;
        }
        proof {
            lemma_insertion_point_bounds(before, key, p as int);
        }
        sorted.insert(p, comment);
        proof {
            let s = derefs(v@).take(k + 1);
            assert(s.drop_last() == derefs(v@).take(k as int));
            assert(s.last() == *comment);
            assert(derefs(sorted@) =~= before.insert(p as int, *comment));
        }
        k += 1;
    }
    assert(derefs(v@).take(v@.len() as int) == derefs(v@));
    sorted
}

/// Comments grouped under their keys, groups in first-appearance order, each
/// group in line order (stably).
pub fn group_comments<'a>(comments: &Vec<&'a Comment>, review: Option<&Review>) -> (groups: Vec<(Vec<char>, Vec<&'a Comment>)>)
    ensures
        groups@.len() == keys_of(derefs(comments@), review_of(review)).len(),
        forall|i: int| 0 <= i < groups@.len() ==> {
            &&& (#[trigger] groups@[i]).0@ == keys_of(derefs(comments@), review_of(review))[i]
            &&& derefs(groups@[i].1@) == by_line(derefs(comments@).filter(keyed(review_of(review), keys_of(derefs(comments@), review_of(review))[i])))
        },
{
    let ghost r = review_of(review);
    let ghost all = derefs(comments@);
    let mut keys: Vec<Vec<char>> = Vec::new();
    let mut buckets: Vec<Vec<&Comment>> = Vec::new();
    let mut k: usize = 0;
    while k < comments.len()
        invariant
            k <= comments@.len(),
            r == review_of(review),
            all == derefs(comments@),
            keys@.len() == keys_of(all.take(k as int), r).len(),
            buckets@.len() == keys@.len(),
            forall|i: int| 0 <= i < keys@.len() ==> (#[trigger] keys@[i])@ == keys_of(all.take(k as int), r)[i],
            forall|i: int| 0 <= i < buckets@.len() ==> derefs((#[trigger] buckets@[i])@) == all.take(k as int).filter(keyed(r, keys_of(all.take(k as int), r)[i])),
        decreases comments@.len() - k,
    {
        let comment = comments[k];
        let key = group_key(comment, review);
        let ghost prefix = all.take(k as int);
        let ghost next = all.take(k + 1);
        proof {
            assert(next.drop_last() == prefix);
            assert(next.last() == *comment);
            assert(next == prefix.push(*comment));
            lemma_keys_distinct(prefix, r);
        }
        let mut g: usize = 0;
        while g < keys.len() && !same_chars(&keys[g], &key)
            invariant
                g <= keys@.len(),
                forall|i: int| 0 <= i < g ==> (#[trigger] keys@[i])@ != key@,
            decreases keys@.len() - g,
        {
            g += 1;
        }
        let found = g < keys.len();
        let ghost old_buckets = buckets@;
        let ghost old_keys = keys@;
        if found {
            let mut bucket = buckets.remove(g);
            bucket.push(comment);
            buckets.insert(g, bucket);
            proof {
                assert(keys_of(prefix, r)[g as int] == key@);
                assert(keys_of(prefix, r).contains(key@));
                assert(keys_of(next, r) == keys_of(prefix, r));
                assert forall|i: int| 0 <= i < buckets@.len() implies derefs((#[trigger] buckets@[i])@) == next.filter(keyed(r, keys_of(next, r)[i])) by {
                    prefix.lemma_filter_push(*comment, keyed(r, keys_of(next, r)[i]));
                    if i == g {
                        assert(derefs(buckets@[i]@) =~= derefs(old_buckets[i]@).push(*comment));
                    } else {
                        assert(buckets@[i] == old_buckets[i]);
                        assert(keys_of(prefix, r)[i] != keys_of(prefix, r)[g as int]);
                    }
                }
            }
        } else {
            keys.push(key);
            let mut bucket: Vec<&Comment> = Vec::new();
            bucket.push(comment);
            buckets.push(bucket);
            proof {
                assert(!keys_of(prefix, r).contains(key@)) by {
                    if keys_of(prefix, r).contains(key@) {
                        let j = choose|j: int| 0 <= j < keys_of(prefix, r).len() && keys_of(prefix, r)[j] == key@;
                        assert(old_keys[j]@ == key@);
                    }
                }
                assert(keys_of(next, r) == keys_of(prefix, r).push(key@));
                lemma_unkeyed_filter_empty(prefix, r, key@);
                assert forall|i: int| 0 <= i < buckets@.len() implies derefs((#[trigger] buckets@[i])@) == next.filter(keyed(r, keys_of(next, r)[i])) by {
                    prefix.lemma_filter_push(*comment, keyed(r, keys_of(next, r)[i]));
                    if i == old_buckets.len() {
                        assert(derefs(buckets@[i]@) =~= seq![*comment]);
                        assert(prefix.filter(keyed(r, key@)).push(*comment) =~= seq![*comment]);
                    } else {
                        assert(buckets@[i] == old_buckets[i]);
                        assert(keys_of(prefix, r).contains(keys_of(prefix, r)[i]));
                    }
                }
                assert forall|i: int| 0 <= i < keys@.len() implies (#[trigger] keys@[i])@ == keys_of(next, r)[i] by {
                    if i < old_keys.len() {
                        assert(keys@[i] == old_keys[i]);
                    }
                }
            }
        }
        k += 1;
    }
    assert(all.take(comments@.len() as int) == all);
    let ghost final_keys = keys@;
    let ghost final_buckets = buckets@;
    let mut groups: Vec<(Vec<char>, Vec<&Comment>)> = Vec::new();
    while keys.len() > 0
        invariant
            keys@.len() == buckets@.len(),
            keys@.len() + groups@.len() == final_keys.len(),
            final_keys.len() == final_buckets.len(),
            keys@ == final_keys.skip(groups@.len() as int),
            buckets@ == final_buckets.skip(groups@.len() as int),
            forall|i: int| 0 <= i < groups@.len() ==> {
                &&& (#[trigger] groups@[i]).0 == final_keys[i]
                &&& derefs(groups@[i].1@) == by_line(derefs(final_buckets[i]@))
            },
        decreases keys@.len(),
    {
        let key = keys.remove(0);
        let bucket = buckets.remove(0);
        let sorted = sort_by_line(bucket);
        groups.push((key, sorted));
        assert(keys@ =~= final_keys.skip(groups@.len() as int));
        assert(buckets@ =~= final_buckets.skip(groups@.len() as int));
    }
    groups
}

/// A key no comment carries has no comments.
proof fn lemma_unkeyed_filter_empty(comments: Seq<Comment>, review: Option<Review>, key: Seq<char>)
    requires
        !keys_of(comments, review).contains(key),
    ensures
        comments.filter(keyed(review, key)) == Seq::<Comment>::empty(),
    decreases comments.len(),
{
    if comments.len() > 0 {
        let rest = comments.drop_last();
        assert(comments == rest.push(comments.last()));
        rest.lemma_filter_push(comments.last(), keyed(review, key));
        let rest_keys = keys_of(rest, review);
        if rest_keys.contains(key) {
            let j = choose|j: int| 0 <= j < rest_keys.len() && rest_keys[j] == key;
            assert(keys_of(comments, review).contains(key)) by {
                let last_key = group_key_of(comments.last(), review);
                if !rest_keys.contains(last_key) {
                    assert(keys_of(comments, review)[j] == key);
                }
            }
        }
        lemma_unkeyed_filter_empty(rest, review, key);
        if group_key_of(comments.last(), review) == key {
            let last_key = group_key_of(comments.last(), review);
            if !rest_keys.contains(last_key) {
                assert(keys_of(comments, review).last() == key);
            }
        }
    }
}

/// Every diff line's text is short enough to quote and fence in memory.
pub open spec fn texts_fit(files: Seq<FileDiff>) -> bool {
    forall|f: int, h: int, l: int|
        0 <= f < files.len() && 0 <= h < files[f].hunks@.len() && 0 <= l < files[f].hunks@[h].lines@.len()
            ==> #[trigger] files[f].hunks@[h].lines@[l].text@.len() + 2 < usize::MAX
}

proof fn lemma_found_line_from(lines: Seq<DiffLine>, anchor: Anchor, from: int)
    requires
        first_line_from(lines, anchor, from) is Some,
    ensures
        exists|j: int| 0 <= j < lines.len() && lines[j] == first_line_from(lines, anchor, from).unwrap(),
    decreases lines.len() - from,
{
    if 0 <= from < lines.len() && !line_hits(lines[from], anchor) {
        lemma_found_line_from(lines, anchor, from + 1);
    }
}

proof fn lemma_found_in_hunks(hunks: Seq<Hunk>, anchor: Anchor, from: int)
    requires
        first_in_hunks(hunks, anchor, from) is Some,
    ensures
        exists|h: int, j: int| 0 <= h < hunks.len() && 0 <= j < hunks[h].lines@.len()
            && hunks[h].lines@[j] == first_in_hunks(hunks, anchor, from).unwrap(),
    decreases hunks.len() - from,
{
    if 0 <= from < hunks.len() {
        if hunk_allowed(hunks[from], anchor) && first_line_from(hunks[from].lines@, anchor, 0) is Some {
            lemma_found_line_from(hunks[from].lines@, anchor, 0);
            let j = choose|j: int| 0 <= j < hunks[from].lines@.len() && hunks[from].lines@[j] == first_line_from(hunks[from].lines@, anchor, 0).unwrap();
            assert(0 <= from < hunks.len() && 0 <= j < hunks[from].lines@.len());
        } else {
            lemma_found_in_hunks(hunks, anchor, from + 1);
        }
    }
}

proof fn lemma_found_in_files(files: Seq<FileDiff>, path: Seq<char>, anchor: Anchor, from: int)
    requires
        first_in_files(files, path, anchor, from) is Some,
        texts_fit(files),
    ensures
        first_in_files(files, path, anchor, from).unwrap().text@.len() + 2 < usize::MAX,
    decreases files.len() - from,
{
    if 0 <= from < files.len() {
        if files[from].path@ == path && first_in_hunks(files[from].hunks@, anchor, 0) is Some {
            lemma_found_in_hunks(files[from].hunks@, anchor, 0);
            let (h, j) = choose|h: int, j: int| 0 <= h < files[from].hunks@.len() && 0 <= j < files[from].hunks@[h].lines@.len()
                && files[from].hunks@[h].lines@[j] == first_in_hunks(files[from].hunks@, anchor, 0).unwrap();
            assert(files[from].hunks@[h].lines@[j].text@.len() + 2 < usize::MAX);
        } else {
            lemma_found_in_files(files, path, anchor, from + 1);
        }
    }
}

pub open spec fn blank() -> Seq<char> {
    Seq::<char>::empty()
}

/// `:<line>` for a comment pinned to a line, nothing otherwise.
pub open spec fn where_of(comment: Comment) -> Seq<char> {
    match comment.anchor.line {
        Some(line) => seq![':'] + decimal_of(line as nat),
        None => Seq::<char>::empty(),
    }
}

/// Continuation lines indented two spaces, so they stay in the list item.
pub open spec fn indented(lines: Seq<Seq<char>>) -> Seq<Seq<char>>
    decreases lines.len(),
{
    if lines.len() == 0 {
        lines
    } else {
        indented(lines.drop_last()).push("  "@ + lines.last())
    }
}

/// The quoted diff line under a line comment, fenced.
pub open spec fn snippet_lines(files: Seq<FileDiff>, comment: Comment) -> Seq<Seq<char>> {
    if comment.anchor.kind == AnchorKind::Line {
        match line_text_spec(files, comment.anchor) {
            Some(snippet) => seq!["  "@ + fence_of(snippet), "  "@ + snippet, "  "@ + fence_of(snippet)],
            None => Seq::empty(),
        }
    } else {
        Seq::empty()
    }
}

/// A comment as a list item: mark, key and line, the first line of the body,
/// its other lines indented, then the quoted code for a line comment.
pub open spec fn comment_lines_of(files: Seq<FileDiff>, comment: Comment, key: Seq<char>) -> Seq<Seq<char>> {
    let pieces = split_on(comment.body@, '\n');
    seq![
        blank(),
        "- **"@ + verdict_mark_of(comment.verdict) + " "@ + key + where_of(comment) + "** — "@ + pieces[0],
    ] + indented(pieces.drop_first()) + snippet_lines(files, comment)
}

pub open spec fn bucket_lines(files: Seq<FileDiff>, key: Seq<char>, bucket: Seq<Comment>) -> Seq<Seq<char>>
    decreases bucket.len(),
{
    if bucket.len() == 0 {
        Seq::empty()
    } else {
        bucket_lines(files, key, bucket.drop_last()) + comment_lines_of(files, bucket.last(), key)
    }
}

/// Each group: a heading with its key, then its comments in line order.
pub open spec fn group_lines(files: Seq<FileDiff>, open: Seq<Comment>, review: Option<Review>, keys: Seq<Seq<char>>) -> Seq<Seq<char>>
    decreases keys.len(),
{
    if keys.len() == 0 {
        Seq::empty()
    } else {
        group_lines(files, open, review, keys.drop_last()) + seq![blank(), "## "@ + keys.last()]
            + bucket_lines(files, keys.last(), by_line(open.filter(keyed(review, keys.last()))))
    }
}

fn push_snippet(files: &[FileDiff], comment: &Comment, lines: &mut Vec<Vec<char>>)
    requires
        texts_fit(files@),
    ensures
        views(final(lines)@) == views(old(lines)@) + snippet_lines(files@, *comment),
{
    let ghost before = views(lines@);
    if comment.anchor.kind == AnchorKind::Line {
        match line_text(files, &comment.anchor) {
            Some(snippet) => {
                proof {
                    let path = comment.anchor.file.unwrap()@;
                    lemma_found_in_files(files@, path, comment.anchor, 0);
                }
                let text = chars_of(snippet.as_str());
                let fence = fence_chars(&text);
                let mut first: Vec<char> = Vec::new();
                push_str(&mut first, "  ");
                push_chars(&mut first, &fence);
                let mut middle: Vec<char> = Vec::new();
                push_str(&mut middle, "  ");
                push_chars(&mut middle, &text);
                let mut last: Vec<char> = Vec::new();
                push_str(&mut last, "  ");
                push_chars(&mut last, &fence);
                lines.push(first);
                lines.push(middle);
                lines.push(last);
                assert(views(lines@) =~= before + snippet_lines(files@, *comment));
            },
            None => {
                assert(views(lines@) =~= before + snippet_lines(files@, *comment));
            },
        }
    } else {
        assert(views(lines@) =~= before + snippet_lines(files@, *comment));
    }
}

fn push_comment(files: &[FileDiff], comment: &Comment, key: &Vec<char>, lines: &mut Vec<Vec<char>>)
    requires
        texts_fit(files@),
    ensures
        views(final(lines)@) == views(old(lines)@) + comment_lines_of(files@, *comment, key@),
{
    let ghost before = views(lines@);
    let body = chars_of(comment.body.as_str());
    let pieces = split_chars(&body, '\n');
    proof { lemma_split_nonempty(body@, '\n'); }
    lines.push(Vec::new());
    let mut head: Vec<char> = Vec::new();
    push_str(&mut head, "- **");
    push_str(&mut head, verdict_mark(comment.verdict));
    push_str(&mut head, " ");
    push_chars(&mut head, key);
    match comment.anchor.line {
        Some(line) => {
            head.push(':');
            let digits = decimal(line as u64);
            push_chars(&mut head, &digits);
        },
        None => {},
    }
    assert(head@ =~= "- **"@ + verdict_mark_of(comment.verdict) + " "@ + key@ + where_of(*comment));
    push_str(&mut head, "** — ");
    push_chars(&mut head, &pieces[0]);
    let ghost pieces_s = split_on(comment.body@, '\n');
    assert(head@ =~= "- **"@ + verdict_mark_of(comment.verdict) + " "@ + key@ + where_of(*comment) + "** — "@ + pieces_s[0]);
    lines.push(head);
    let ghost start = before + seq![blank(), "- **"@ + verdict_mark_of(comment.verdict) + " "@ + key@ + where_of(*comment) + "** — "@ + pieces_s[0]];
    assert(views(lines@) =~= start);
    let ghost rest = pieces_s.drop_first();
    let mut k: usize = 1;
    while k < pieces.len()
        invariant
            1 <= k <= pieces@.len(),
            pieces@.len() == pieces_s.len(),
            rest == pieces_s.drop_first(),
            forall|i: int| 0 <= i < pieces@.len() ==> #[trigger] pieces@[i]@ == pieces_s[i],
            views(lines@) == start + indented(rest.take(k - 1)),
        decreases pieces@.len() - k,
    {
        let mut line: Vec<char> = Vec::new();
        push_str(&mut line, "  ");
        push_chars(&mut line, &pieces[k]);
        let ghost prev = views(lines@);
        lines.push(line);
        assert(rest.take(k as int).drop_last() == rest.take(k - 1));
        assert(rest.take(k as int).last() == pieces_s[k as int]);
        assert(views(lines@) =~= prev.push("  "@ + pieces_s[k as int]));
        assert(indented(rest.take(k as int)) == indented(rest.take(k - 1)).push("  "@ + pieces_s[k as int]));
        assert(views(lines@) =~= start + indented(rest.take(k as int)));
        k += 1;
    }
    assert(rest.take(pieces@.len() - 1) == rest);
    push_snippet(files, comment, lines);
}

pub open spec fn status_of(state: ReviewState) -> Seq<char> {
    if state.submitted {
        "submitted"@
    } else {
        "IN PROGRESS (not submitted)"@
    }
}

/// The overall verdict and notes, when the user gave either.
pub open spec fn overall_lines(state: ReviewState) -> Seq<Seq<char>> {
    if state.overall.verdict is Some || state.overall.body@.len() > 0 {
        let word = match state.overall.verdict {
            Some(verdict) => verdict_word_of(verdict),
            None => "n/a"@,
        };
        seq![blank(), "**Overall ["@ + word + "]** "@ + state.overall.body@]
    } else {
        Seq::empty()
    }
}

/// The recorded progress of a chapter: the first entry with its id.
pub open spec fn progress_of(progress: Seq<(String, ProgressState)>, id: Seq<char>, from: int) -> Option<ProgressState>
    decreases progress.len() - from,
{
    if from < 0 || from >= progress.len() {
        None
    } else if progress[from].0@ == id {
        Some(progress[from].1)
    } else {
        progress_of(progress, id, from + 1)
    }
}

/// Titles of the chapters not marked reviewed, in chapter order.
pub open spec fn unreviewed_titles(chapters: Seq<crate::model::Chapter>, progress: Seq<(String, ProgressState)>) -> Seq<Seq<char>>
    decreases chapters.len(),
{
    if chapters.len() == 0 {
        Seq::empty()
    } else {
        let rest = unreviewed_titles(chapters.drop_last(), progress);
        if progress_of(progress, chapters.last().id@, 0) == Some(ProgressState::Reviewed) {
            rest
        } else {
            rest.push(chapters.last().title@)
        }
    }
}

pub open spec fn unreviewed_lines(review: Option<Review>, state: ReviewState) -> Seq<Seq<char>> {
    let titles = match review {
        Some(r) => unreviewed_titles(r.chapters@, state.progress@),
        None => Seq::empty(),
    };
    if titles.len() > 0 {
        seq![blank(), "Chapters not marked reviewed: "@ + joined(titles, ", "@)]
    } else {
        Seq::empty()
    }
}

/// The markdown report, line by line: title, scope and status; the overall
/// verdict if any; the open and resolved counts; the open comments grouped by
/// key; and the chapters nobody marked reviewed.
pub open spec fn markdown_lines(meta: Meta, files: Seq<FileDiff>, review: Option<Review>, state: ReviewState) -> Seq<Seq<char>> {
    let open = open_of(state.comments@);
    let resolved = state.comments@.len() - open.len();
    seq![
        "# Review feedback — "@ + meta.title@,
        blank(),
        "Scope: `"@ + meta.diff_cmd@ + "` · "@ + status_of(state),
    ] + overall_lines(state) + seq![
        blank(),
        decimal_of(open.len()) + " open comment(s), "@ + decimal_of(resolved as nat) + " resolved."@,
    ] + group_lines(files, open, review, keys_of(open, review)) + unreviewed_lines(review, state)
}

/// The markdown report: its lines joined by newlines, with a final newline.
pub open spec fn markdown_of(meta: Meta, files: Seq<FileDiff>, review: Option<Review>, state: ReviewState) -> Seq<char> {
    joined(markdown_lines(meta, files, review, state), "\n"@).push('\n')
}

/// Joining two non-empty runs of lines puts one separator between them.
proof fn lemma_joined_concat(a: Seq<Seq<char>>, b: Seq<Seq<char>>, sep: Seq<char>)
    requires
        a.len() > 0,
        b.len() > 0,
    ensures
        joined(a + b, sep) == joined(a, sep) + sep + joined(b, sep),
    decreases b.len(),
{
    assert((a + b).drop_last() == a + b.drop_last());
    assert((a + b).last() == b.last());
    if b.len() == 1 {
        assert(a + b.drop_last() == a);
        assert(b.last() == b[0]);
    } else {
        lemma_joined_concat(a, b.drop_last(), sep);
    }
}

/// The report opens with its title line, a blank line and the scope line
/// with the review's status; then the overall verdict, when there is one,
/// after a blank line; then, after a blank line, the open and resolved
/// counts. Its text ends with a newline.
pub proof fn markdown_opens_with_title_scope_and_counts(meta: Meta, files: Seq<FileDiff>, review: Option<Review>, state: ReviewState)
    ensures
        ({
            let m = markdown_of(meta, files, review, state);
            let nl = seq!['\n'];
            let open = open_of(state.comments@).len();
            let head = "# Review feedback — "@ + meta.title@ + nl + nl + "Scope: `"@ + meta.diff_cmd@ + "` · "@ + status_of(state);
            let counts = decimal_of(open) + " open comment(s), "@ + decimal_of((state.comments@.len() - open) as nat) + " resolved."@;
            let overall = if overall_lines(state).len() > 0 { nl + nl + overall_lines(state)[1] } else { Seq::<char>::empty() };
            &&& starts_with(m, head + overall + nl + nl + counts + nl)
            &&& m.len() > 0
            &&& m.last() == '\n'
        }),
{
    reveal_strlit("\n");
    let nl = seq!['\n'];
    assert("\n"@ == nl);
    let open_s = open_of(state.comments@);
    let title = "# Review feedback — "@ + meta.title@;
    let scope = "Scope: `"@ + meta.diff_cmd@ + "` · "@ + status_of(state);
    let counts = decimal_of(open_s.len()) + " open comment(s), "@ + decimal_of((state.comments@.len() - open_s.len()) as nat) + " resolved."@;
    let top = seq![title, blank(), scope];
    let tail = seq![blank(), counts];
    let rest = group_lines(files, open_s, review, keys_of(open_s, review)) + unreviewed_lines(review, state);
    let lines = markdown_lines(meta, files, review, state);
    assert(lines == top + overall_lines(state) + tail + rest);
    assert(joined(seq![title], nl) == title);
    assert(seq![title, blank()].drop_last() == seq![title]);
    assert(top.drop_last() == seq![title, blank()]);
    assert(seq![title, blank()].last() == blank());
    assert(joined(seq![title, blank()], nl) == title + nl + blank());
    assert(top.last() == scope);
    assert(joined(top, nl) =~= title + nl + nl + scope);
    assert(tail.drop_last() == seq![blank()]);
    assert(joined(seq![blank()], nl) == blank());
    assert(joined(tail, nl) =~= nl + counts);
    let first = top + overall_lines(state) + tail;
    let head = "# Review feedback — "@ + meta.title@ + nl + nl + "Scope: `"@ + meta.diff_cmd@ + "` · "@ + status_of(state);
    assert(head =~= title + nl + nl + scope);
    if overall_lines(state).len() > 0 {
        let ov = overall_lines(state);
        assert(ov.drop_last() == seq![blank()]);
        assert(joined(ov, nl) =~= nl + ov[1]);
        lemma_joined_concat(top, ov, nl);
        lemma_joined_concat(top + ov, tail, nl);
        assert(joined(first, nl) =~= head + (nl + nl + ov[1]) + nl + nl + counts);
    } else {
        assert(top + overall_lines(state) == top);
        lemma_joined_concat(top, tail, nl);
        assert(joined(first, nl) =~= head + Seq::<char>::empty() + nl + nl + counts);
    }
    let prefix = joined(first, nl);
    if rest.len() > 0 {
        lemma_joined_concat(first, rest, nl);
        assert(lines == first + rest);
    } else {
        assert(lines == first);
    }
    let m = markdown_of(meta, files, review, state);
    assert(m.take((prefix + nl).len() as int) == prefix + nl);
}

/// How many of the comments fall under the given keys, key by key.
pub open spec fn keyed_total(comments: Seq<Comment>, review: Option<Review>, keys: Seq<Seq<char>>) -> nat
    decreases keys.len(),
{
    if keys.len() == 0 {
        0
    } else {
        keyed_total(comments, review, keys.drop_last()) + comments.filter(keyed(review, keys.last())).len()
    }
}

proof fn lemma_keyed_total_push(comments: Seq<Comment>, review: Option<Review>, keys: Seq<Seq<char>>, c: Comment)
    requires
        keys.no_duplicates(),
    ensures
        keyed_total(comments.push(c), review, keys) == keyed_total(comments, review, keys)
            + if keys.contains(group_key_of(c, review)) { 1nat } else { 0nat },
    decreases keys.len(),
{
    if keys.len() > 0 {
        let rest = keys.drop_last();
        assert(rest.no_duplicates()) by {
            assert forall|i: int, j: int| 0 <= i < rest.len() && 0 <= j < rest.len() && i != j implies rest[i] != rest[j] by {
                assert(rest[i] == keys[i] && rest[j] == keys[j]);
            }
        }
        lemma_keyed_total_push(comments, review, rest, c);
        comments.lemma_filter_push(c, keyed(review, keys.last()));
        let key = group_key_of(c, review);
        if keys.contains(key) {
            let i = choose|i: int| 0 <= i < keys.len() && keys[i] == key;
            if i < keys.len() - 1 {
                assert(rest[i] == key);
                assert(keys.last() != key) by {
                    assert(keys[keys.len() - 1] == keys.last());
                }
            } else {
                assert(!rest.contains(key)) by {
                    if rest.contains(key) {
                        let j = choose|j: int| 0 <= j < rest.len() && rest[j] == key;
                        assert(keys[j] == keys[keys.len() - 1]);
                    }
                }
            }
        } else {
            assert(!rest.contains(key)) by {
                if rest.contains(key) {
                    let j = choose|j: int| 0 <= j < rest.len() && rest[j] == key;
                    assert(keys[j] == key);
                }
            }
            assert(keys.last() != key) by {
                assert(keys[keys.len() - 1] == keys.last());
            }
        }
    }
}

/// The groups' keys take in every open comment exactly once.
proof fn lemma_keys_cover(comments: Seq<Comment>, review: Option<Review>)
    ensures
        keyed_total(comments, review, keys_of(comments, review)) == comments.len(),
    decreases comments.len(),
{
    if comments.len() > 0 {
        let rest = comments.drop_last();
        let c = comments.last();
        let key = group_key_of(c, review);
        let rest_keys = keys_of(rest, review);
        assert(comments == rest.push(c));
        lemma_keys_cover(rest, review);
        lemma_keys_distinct(rest, review);
        lemma_keyed_total_push(rest, review, rest_keys, c);
        if !rest_keys.contains(key) {
            lemma_unkeyed_filter_empty(rest, review, key);
            rest.lemma_filter_push(c, keyed(review, key));
            assert(rest_keys.push(key).drop_last() == rest_keys);
        }
    }
}

/// A list item of the report: a line that starts with `- **`.
pub open spec fn is_item(line: Seq<char>) -> bool {
    line.len() >= 4 && line.take(4) == "- **"@
}

/// How many lines are list items.
pub open spec fn item_count(lines: Seq<Seq<char>>) -> nat
    decreases lines.len(),
{
    if lines.len() == 0 {
        0
    } else {
        item_count(lines.drop_last()) + if is_item(lines.last()) { 1nat } else { 0nat }
    }
}

proof fn lemma_item_count_concat(a: Seq<Seq<char>>, b: Seq<Seq<char>>)
    ensures
        item_count(a + b) == item_count(a) + item_count(b),
    decreases b.len(),
{
    if b.len() > 0 {
        assert((a + b).drop_last() == a + b.drop_last());
        assert((a + b).last() == b.last());
        lemma_item_count_concat(a, b.drop_last());
    }
}

proof fn lemma_items_two(a: Seq<char>, b: Seq<char>)
    ensures
        item_count(seq![a, b]) == (if is_item(a) { 1nat } else { 0nat }) + (if is_item(b) { 1nat } else { 0nat }),
{
    assert(seq![a, b].drop_last() == seq![a]);
    assert(seq![a].drop_last() == Seq::<Seq<char>>::empty());
    assert(item_count(Seq::<Seq<char>>::empty()) == 0);
    assert(item_count(seq![a]) == if is_item(a) { 1nat } else { 0nat });
}

proof fn lemma_items_three(a: Seq<char>, b: Seq<char>, c: Seq<char>)
    ensures
        item_count(seq![a, b, c]) == (if is_item(a) { 1nat } else { 0nat }) + (if is_item(b) { 1nat } else { 0nat })
            + (if is_item(c) { 1nat } else { 0nat }),
{
    assert(seq![a, b, c].drop_last() == seq![a, b]);
    lemma_items_two(a, b);
}

/// A line whose first character is not `-` is no list item.
proof fn lemma_not_item(line: Seq<char>)
    requires
        line.len() == 0 || line[0] != '-',
    ensures
        !is_item(line),
{
    reveal_strlit("- **");
    if line.len() >= 4 && line.take(4) == "- **"@ {
        assert(line[0] == line.take(4)[0]);
    }
}

proof fn lemma_indented_no_items(lines: Seq<Seq<char>>)
    ensures
        item_count(indented(lines)) == 0,
    decreases lines.len(),
{
    reveal_strlit("  ");
    if lines.len() > 0 {
        lemma_indented_no_items(lines.drop_last());
        assert(indented(lines).drop_last() == indented(lines.drop_last()));
        lemma_not_item("  "@ + lines.last());
    }
}

proof fn lemma_comment_one_item(files: Seq<FileDiff>, comment: Comment, key: Seq<char>)
    ensures
        item_count(comment_lines_of(files, comment, key)) == 1,
{
    reveal_strlit("- **");
    reveal_strlit("  ");
    let pieces = split_on(comment.body@, '\n');
    let item = "- **"@ + verdict_mark_of(comment.verdict) + " "@ + key + where_of(comment) + "** — "@ + pieces[0];
    let head = seq![blank(), item];
    assert(item.take(4) == "- **"@);
    lemma_not_item(blank());
    lemma_items_two(blank(), item);
    lemma_split_nonempty(comment.body@, '\n');
    lemma_indented_no_items(pieces.drop_first());
    let snippet = snippet_lines(files, comment);
    assert(item_count(snippet) == 0) by {
        if snippet.len() > 0 {
            lemma_not_item(snippet[0]);
            lemma_not_item(snippet[1]);
            lemma_not_item(snippet[2]);
            assert(snippet == seq![snippet[0], snippet[1], snippet[2]]);
            lemma_items_three(snippet[0], snippet[1], snippet[2]);
        }
    }
    lemma_item_count_concat(head, indented(pieces.drop_first()));
    lemma_item_count_concat(head + indented(pieces.drop_first()), snippet);
}

proof fn lemma_bucket_items(files: Seq<FileDiff>, key: Seq<char>, bucket: Seq<Comment>)
    ensures
        item_count(bucket_lines(files, key, bucket)) == bucket.len(),
    decreases bucket.len(),
{
    if bucket.len() > 0 {
        lemma_bucket_items(files, key, bucket.drop_last());
        lemma_comment_one_item(files, bucket.last(), key);
        lemma_item_count_concat(bucket_lines(files, key, bucket.drop_last()), comment_lines_of(files, bucket.last(), key));
    }
}

proof fn lemma_group_items(files: Seq<FileDiff>, open: Seq<Comment>, review: Option<Review>, keys: Seq<Seq<char>>)
    ensures
        item_count(group_lines(files, open, review, keys)) == keyed_total(open, review, keys),
    decreases keys.len(),
{
    reveal_strlit("## ");
    if keys.len() > 0 {
        let k = keys.last();
        let heading = seq![blank(), "## "@ + k];
        let bucket = by_line(open.filter(keyed(review, k)));
        lemma_group_items(files, open, review, keys.drop_last());
        lemma_not_item(blank());
        lemma_not_item("## "@ + k);
        lemma_items_two(blank(), "## "@ + k);
        lemma_bucket_items(files, k, bucket);
        lemma_by_line_len(open.filter(keyed(review, k)));
        let before = group_lines(files, open, review, keys.drop_last());
        lemma_item_count_concat(before, heading);
        lemma_item_count_concat(before + heading, bucket_lines(files, k, bucket));
    }
}

proof fn lemma_decimal_head(n: nat)
    ensures
        decimal_of(n).len() > 0,
        decimal_of(n)[0] != '-',
    decreases n,
{
    if n >= 10 {
        lemma_decimal_head(n / 10);
        assert(decimal_of(n)[0] == decimal_of(n / 10)[0]);
    } else {
        assert(('0' as u32) + n <= 57);
    }
}

/// The report lists each open comment as exactly one item: its lines that
/// start with `- **` are as many as there are open comments.
pub proof fn one_item_per_open_comment(meta: Meta, files: Seq<FileDiff>, review: Option<Review>, state: ReviewState)
    ensures
        item_count(markdown_lines(meta, files, review, state)) == open_of(state.comments@).len(),
{
    reveal_strlit("# Review feedback — ");
    reveal_strlit("Scope: `");
    reveal_strlit("**Overall [");
    reveal_strlit("Chapters not marked reviewed: ");
    let open_s = open_of(state.comments@);
    let title = "# Review feedback — "@ + meta.title@;
    let scope = "Scope: `"@ + meta.diff_cmd@ + "` · "@ + status_of(state);
    let counts = decimal_of(open_s.len()) + " open comment(s), "@ + decimal_of((state.comments@.len() - open_s.len()) as nat) + " resolved."@;
    let top = seq![title, blank(), scope];
    let tail = seq![blank(), counts];
    let groups = group_lines(files, open_s, review, keys_of(open_s, review));
    let unreviewed = unreviewed_lines(review, state);
    assert(markdown_lines(meta, files, review, state) == top + overall_lines(state) + tail + groups + unreviewed);
    lemma_not_item(title);
    lemma_not_item(blank());
    lemma_not_item(scope);
    lemma_items_three(title, blank(), scope);
    assert(item_count(overall_lines(state)) == 0) by {
        let ov = overall_lines(state);
        if ov.len() > 0 {
            lemma_not_item(ov[1]);
            assert(ov == seq![blank(), ov[1]]);
            lemma_items_two(blank(), ov[1]);
        } else {
            assert(ov == Seq::<Seq<char>>::empty());
        }
    }
    lemma_decimal_head(open_s.len());
    lemma_not_item(counts);
    lemma_items_two(blank(), counts);
    assert(item_count(unreviewed) == 0) by {
        if unreviewed.len() > 0 {
            lemma_not_item(unreviewed[1]);
            assert(unreviewed == seq![blank(), unreviewed[1]]);
            lemma_items_two(blank(), unreviewed[1]);
        } else {
            assert(unreviewed == Seq::<Seq<char>>::empty());
        }
    }
    lemma_group_items(files, open_s, review, keys_of(open_s, review));
    lemma_keys_cover(open_s, review);
    lemma_item_count_concat(top, overall_lines(state));
    lemma_item_count_concat(top + overall_lines(state), tail);
    lemma_item_count_concat(top + overall_lines(state) + tail, groups);
    lemma_item_count_concat(top + overall_lines(state) + tail + groups, unreviewed);
}

/// Splitting after a separator: the pieces before it, then what follows,
/// when that holds no separator.
proof fn lemma_split_after(head: Seq<char>, tail: Seq<char>, sep: char)
    requires
        !tail.contains(sep),
    ensures
        split_on(head + seq![sep] + tail, sep) == split_on(head, sep).push(tail),
    decreases tail.len(),
{
    let s = head + seq![sep] + tail;
    if tail.len() == 0 {
        assert(tail == Seq::<char>::empty());
        assert(s =~= head.push(sep));
        assert(s.drop_last() =~= head);
        assert(s.last() == sep);
    } else {
        let shorter = tail.drop_last();
        assert(!shorter.contains(sep)) by {
            if shorter.contains(sep) {
                let i = choose|i: int| 0 <= i < shorter.len() && shorter[i] == sep;
                assert(tail[i] == sep);
            }
        }
        lemma_split_after(head, shorter, sep);
        assert(s.drop_last() == head + seq![sep] + shorter);
        assert(tail.last() != sep) by {
            assert(tail[tail.len() - 1] == tail.last());
        }
        assert(s.last() == tail.last());
        let pieces = split_on(head, sep).push(shorter);
        assert(pieces.last() == shorter);
        assert(shorter.push(tail.last()) =~= tail);
        assert(pieces.update(pieces.len() - 1, shorter.push(tail.last())) =~= split_on(head, sep).push(tail));
    }
}

/// A string with no separator is one piece.
proof fn lemma_split_whole(s: Seq<char>, sep: char)
    requires
        !s.contains(sep),
    ensures
        split_on(s, sep) == seq![s],
    decreases s.len(),
{
    if s.len() > 0 {
        let shorter = s.drop_last();
        assert(!shorter.contains(sep)) by {
            if shorter.contains(sep) {
                let i = choose|i: int| 0 <= i < shorter.len() && shorter[i] == sep;
                assert(s[i] == sep);
            }
        }
        lemma_split_whole(shorter, sep);
        assert(s.last() != sep) by {
            assert(s[s.len() - 1] == s.last());
        }
        assert(shorter.push(s.last()) =~= s);
        assert(seq![shorter].update(0, shorter.push(s.last())) =~= seq![s]);
    } else {
        assert(s == Seq::<char>::empty());
    }
}

/// Lines joined by a separator they do not hold split back into themselves.
proof fn lemma_split_joined(lines: Seq<Seq<char>>, sep: char)
    requires
        lines.len() > 0,
        forall|i: int| 0 <= i < lines.len() ==> !(#[trigger] lines[i]).contains(sep),
    ensures
        split_on(joined(lines, seq![sep]), sep) == lines,
    decreases lines.len(),
{
    if lines.len() == 1 {
        lemma_split_whole(lines[0], sep);
        assert(seq![lines[0]] == lines);
    } else {
        let rest = lines.drop_last();
        assert forall|i: int| 0 <= i < rest.len() implies !(#[trigger] rest[i]).contains(sep) by {
            assert(rest[i] == lines[i]);
        }
        lemma_split_joined(rest, sep);
        assert(!lines.last().contains(sep)) by {
            assert(lines[lines.len() - 1] == lines.last());
        }
        lemma_split_after(joined(rest, seq![sep]), lines.last(), sep);
        assert(rest.push(lines.last()) == lines);
    }
}

/// Read line by line, the report text gives back the report's lines, and
/// the empty rest after its final newline, when no line holds a line break.
pub proof fn markdown_reads_back_as_its_lines(meta: Meta, files: Seq<FileDiff>, review: Option<Review>, state: ReviewState)
    requires
        forall|i: int| 0 <= i < markdown_lines(meta, files, review, state).len()
            ==> !(#[trigger] markdown_lines(meta, files, review, state)[i]).contains('\n'),
    ensures
        split_on(markdown_of(meta, files, review, state), '\n') == markdown_lines(meta, files, review, state).push(Seq::<char>::empty()),
{
    reveal_strlit("\n");
    let lines = markdown_lines(meta, files, review, state);
    assert("\n"@ == seq!['\n']);
    lemma_split_joined(lines, '\n');
    let text = joined(lines, seq!['\n']);
    lemma_split_after(text, Seq::<char>::empty(), '\n');
    assert(text + seq!['\n'] + Seq::<char>::empty() == text.push('\n'));
    assert(!Seq::<char>::empty().contains('\n'));
}

proof fn lemma_title_of_last_match(chapters: Seq<crate::model::Chapter>, id: Seq<char>, i: int)
    requires
        0 <= i < chapters.len(),
        chapters[i].id@ == id,
        forall|j: int| i < j < chapters.len() ==> (#[trigger] chapters[j]).id@ != id,
    ensures
        title_for(chapters, id) == Some(chapters[i].title@),
    decreases chapters.len(),
{
    if i < chapters.len() - 1 {
        assert(chapters.last().id@ != id) by {
            assert(chapters[chapters.len() - 1] == chapters.last());
        }
        let rest = chapters.drop_last();
        assert forall|j: int| i < j < rest.len() implies (#[trigger] rest[j]).id@ != id by {
            assert(rest[j] == chapters[j]);
        }
        lemma_title_of_last_match(rest, id, i);
    } else {
        assert(chapters.last() == chapters[i]);
    }
}

proof fn lemma_no_title(chapters: Seq<crate::model::Chapter>, id: Seq<char>)
    requires
        forall|j: int| 0 <= j < chapters.len() ==> (#[trigger] chapters[j]).id@ != id,
    ensures
        title_for(chapters, id) is None,
    decreases chapters.len(),
{
    if chapters.len() > 0 {
        assert(chapters.last() == chapters[chapters.len() - 1]);
        let rest = chapters.drop_last();
        assert forall|j: int| 0 <= j < rest.len() implies (#[trigger] rest[j]).id@ != id by {
            assert(rest[j] == chapters[j]);
        }
        lemma_no_title(rest, id);
    }
}

/// A chapter comment without a file is grouped under `chapter: ` and the
/// title the review gives that chapter (the last chapter with its id, as a
/// map from ids to titles keeps it); only a chapter id the review does not
/// know, or a report without a review, shows the raw id.
pub proof fn chapter_comments_group_under_the_chapter_title(comment: Comment, review: Option<Review>)
    requires
        comment.anchor.file is None,
        comment.anchor.kind == AnchorKind::Chapter,
        comment.anchor.chapter is Some,
    ensures
        ({
            let id = comment.anchor.chapter.unwrap()@;
            &&& forall|r: Review, i: int| review == Some(r) && 0 <= i < r.chapters@.len() && (#[trigger] r.chapters@[i]).id@ == id
                && (forall|j: int| i < j < r.chapters@.len() ==> (#[trigger] r.chapters@[j]).id@ != id)
                ==> group_key_of(comment, review) == "chapter: "@ + r.chapters@[i].title@
            &&& (forall|r: Review| review == Some(r) ==> forall|j: int| 0 <= j < r.chapters@.len() ==> (#[trigger] r.chapters@[j]).id@ != id)
                ==> group_key_of(comment, review) == "chapter: "@ + id
        }),
{
    let id = comment.anchor.chapter.unwrap()@;
    assert forall|r: Review, i: int| review == Some(r) && 0 <= i < r.chapters@.len() && (#[trigger] r.chapters@[i]).id@ == id
        && (forall|j: int| i < j < r.chapters@.len() ==> (#[trigger] r.chapters@[j]).id@ != id)
        implies group_key_of(comment, review) == "chapter: "@ + r.chapters@[i].title@ by {
        lemma_title_of_last_match(r.chapters@, id, i);
    }
    if (forall|r: Review| review == Some(r) ==> forall|j: int| 0 <= j < r.chapters@.len() ==> (#[trigger] r.chapters@[j]).id@ != id) {
        if let Some(r) = review {
            lemma_no_title(r.chapters@, id);
        }
    }
}

/// An overall verdict always shows in the report, even without a note: after
/// the title, blank and scope lines come a blank line and
/// `**Overall [<verdict>]** <note>`. With neither a verdict nor a note the
/// counts follow the scope directly.
pub proof fn an_overall_verdict_is_always_reported(meta: Meta, files: Seq<FileDiff>, review: Option<Review>, state: ReviewState)
    ensures
        state.overall.verdict matches Some(v) ==> {
            let lines = markdown_lines(meta, files, review, state);
            let word = match v {
                Verdict::Okay => "ok"@,
                Verdict::Fix => "fix"@,
                Verdict::Question => "question"@,
            };
            &&& lines[3] == Seq::<char>::empty()
            &&& lines[4] == "**Overall ["@ + word + "]** "@ + state.overall.body@
        },
        (state.overall.verdict is None && state.overall.body@.len() == 0) ==> {
            let lines = markdown_lines(meta, files, review, state);
            let open = open_of(state.comments@).len();
            lines[4] == decimal_of(open) + " open comment(s), "@ + decimal_of((state.comments@.len() - open) as nat) + " resolved."@
        },
{
}

fn progress_entry(progress: &Vec<(String, ProgressState)>, id: &String) -> (entry: Option<ProgressState>)
    ensures
        entry == progress_of(progress@, id@, 0),
{
    let mut k: usize = 0;
    while k < progress.len()
        invariant
            k <= progress@.len(),
            progress_of(progress@, id@, 0) == progress_of(progress@, id@, k as int),
        decreases progress@.len() - k,
    {
        if progress[k].0 == *id {
            return Some(progress[k].1);
        }
        k += 1;
    }
    None
}

fn push_unreviewed(review: Option<&Review>, state: &ReviewState, lines: &mut Vec<Vec<char>>)
    ensures
        views(final(lines)@) == views(old(lines)@) + unreviewed_lines(review_of(review), *state),
{
    let ghost before = views(lines@);
    let mut titles: Vec<Vec<char>> = Vec::new();
    match review {
        Some(r) => {
            let mut k: usize = 0;
            while k < r.chapters.len()
                invariant
                    k <= r.chapters@.len(),
                    views(titles@) == unreviewed_titles(r.chapters@.take(k as int), state.progress@),
                decreases r.chapters@.len() - k,
            {
                let chapter = &r.chapters[k];
                assert(r.chapters@.take(k + 1).drop_last() == r.chapters@.take(k as int));
                let reviewed = match progress_entry(&state.progress, &chapter.id) {
                    Some(ProgressState::Reviewed) => true,
                    _ => false,
                };
                if !reviewed {
                    titles.push(chars_of(chapter.title.as_str()));
                }
                k += 1;
                assert(views(titles@) =~= unreviewed_titles(r.chapters@.take(k as int), state.progress@));
            }
            assert(r.chapters@.take(r.chapters@.len() as int) == r.chapters@);
        },
        None => {
            assert(views(titles@) =~= Seq::<Seq<char>>::empty());
        },
    }
    if titles.len() > 0 {
        let mut line: Vec<char> = Vec::new();
        push_str(&mut line, "Chapters not marked reviewed: ");
        let list = join_lines(&titles, ", ");
        push_chars(&mut line, &list);
        lines.push(Vec::new());
        lines.push(line);
    }
    assert(views(lines@) =~= before + unreviewed_lines(review_of(review), *state));
}

fn push_groups(files: &[FileDiff], open: &Vec<&Comment>, review: Option<&Review>, lines: &mut Vec<Vec<char>>)
    requires
        texts_fit(files@),
    ensures
        views(final(lines)@) == views(old(lines)@) + group_lines(files@, derefs(open@), review_of(review), keys_of(derefs(open@), review_of(review))),
{
    let ghost before = views(lines@);
    let ghost r = review_of(review);
    let ghost all = derefs(open@);
    let ghost keys = keys_of(all, r);
    let groups = group_comments(open, review);
    let mut g: usize = 0;
    while g < groups.len()
        invariant
            g <= groups@.len(),
            texts_fit(files@),
            groups@.len() == keys.len(),
            forall|i: int| 0 <= i < groups@.len() ==> {
                &&& (#[trigger] groups@[i]).0@ == keys[i]
                &&& derefs(groups@[i].1@) == by_line(all.filter(keyed(r, keys[i])))
            },
            views(lines@) == before + group_lines(files@, all, r, keys.take(g as int)),
        decreases groups@.len() - g,
    {
        let key = &groups[g].0;
        let bucket = &groups[g].1;
        let ghost sorted = derefs(bucket@);
        assert(keys.take(g + 1).drop_last() == keys.take(g as int));
        assert(keys.take(g + 1).last() == keys[g as int]);
        let mut heading: Vec<char> = Vec::new();
        push_str(&mut heading, "## ");
        push_chars(&mut heading, key);
        lines.push(Vec::new());
        lines.push(heading);
        let ghost start = before + group_lines(files@, all, r, keys.take(g as int)) + seq![blank(), "## "@ + keys[g as int]];
        assert(views(lines@) =~= start);
        let mut c: usize = 0;
        while c < bucket.len()
            invariant
                c <= bucket@.len(),
                texts_fit(files@),
                key@ == keys[g as int],
                sorted == derefs(bucket@),
                views(lines@) == start + bucket_lines(files@, key@, sorted.take(c as int)),
            decreases bucket@.len() - c,
        {
            assert(sorted.take(c + 1).drop_last() == sorted.take(c as int));
            assert(sorted.take(c + 1).last() == *bucket@[c as int]);
            push_comment(files, bucket[c], key, lines);
            c += 1;
        }
        assert(sorted.take(bucket@.len() as int) == sorted);
        g += 1;
    }
    assert(keys.take(groups@.len() as int) == keys);
}

/// The markdown report.
pub fn build_markdown(input: &ReportInput) -> (markdown: String)
    requires
        texts_fit(input.files@),
    ensures
        markdown@ == markdown_of(*input.meta, input.files@, review_of(input.review), *input.state),
{
    let meta = input.meta;
    let files = input.files;
    let review = input.review;
    let state = input.state;
    let open = open_comments(state);
    let ghost open_s = open_of(state.comments@);
    assert(derefs(open@) =~= open_s);
    proof {
        state.comments@.lemma_filter_len(is_open());
    }
    let resolved = state.comments.len() - open.len();
    let mut lines: Vec<Vec<char>> = Vec::new();
    let mut title: Vec<char> = Vec::new();
    push_str(&mut title, "# Review feedback — ");
    push_str(&mut title, meta.title.as_str());
    lines.push(title);
    lines.push(Vec::new());
    let mut scope: Vec<char> = Vec::new();
    push_str(&mut scope, "Scope: `");
    push_str(&mut scope, meta.diff_cmd.as_str());
    push_str(&mut scope, "` · ");
    push_str(&mut scope, if state.submitted { "submitted" } else { "IN PROGRESS (not submitted)" });
    lines.push(scope);
    let has_overall = match state.overall.verdict {
        Some(_) => true,
        None => false,
    } || chars_of(state.overall.body.as_str()).len() > 0;
    if has_overall {
        let word = match state.overall.verdict {
            Some(verdict) => verdict_word(verdict),
            None => "n/a",
        };
        let mut line: Vec<char> = Vec::new();
        push_str(&mut line, "**Overall [");
        push_str(&mut line, word);
        push_str(&mut line, "]** ");
        push_str(&mut line, state.overall.body.as_str());
        lines.push(Vec::new());
        lines.push(line);
    }
    let mut counts: Vec<char> = Vec::new();
    push_chars(&mut counts, &decimal(open.len() as u64));
    push_str(&mut counts, " open comment(s), ");
    push_chars(&mut counts, &decimal(resolved as u64));
    push_str(&mut counts, " resolved.");
    lines.push(Vec::new());
    lines.push(counts);
    assert(views(lines@) =~= seq![
        "# Review feedback — "@ + meta.title@,
        blank(),
        "Scope: `"@ + meta.diff_cmd@ + "` · "@ + status_of(*state),
    ] + overall_lines(*state) + seq![
        blank(),
        decimal_of(open_s.len()) + " open comment(s), "@ + decimal_of((state.comments@.len() - open_s.len()) as nat) + " resolved."@,
    ]);
    push_groups(files, &open, review, &mut lines);
    push_unreviewed(review, state, &mut lines);
    assert(views(lines@) =~= markdown_lines(*meta, files@, review_of(review), *state));
    let mut out = join_lines(&lines, "\n");
    out.push('\n');
    string_of(&out)
}

/// One open comment in the JSON report.
pub struct JsonComment<'a> {
    pub verdict: Verdict,
    pub body: &'a str,
    pub file: Option<&'a str>,
    pub line: Option<u32>,
    pub kind: AnchorKind,
    pub chapter: Option<&'a str>,
    pub code: Option<String>,
}

/// The machine-readable report the skill parses.
pub struct JsonReport<'a> {
    pub outcome: Outcome,
    pub submitted: bool,
    pub submitted_at: Option<&'a str>,
    pub scope: &'a str,
    pub totals: Totals,
    pub overall: &'a Overall,
    pub progress: &'a Vec<(String, ProgressState)>,
    pub comments: Vec<JsonComment<'a>>,
}

pub open spec fn slice_text_of(s: Option<&str>) -> Option<Seq<char>> {
    match s {
        Some(t) => Some(t@),
        None => None,
    }
}

/// The quoted code under a line comment; nothing for other kinds.
pub open spec fn code_of(files: Seq<FileDiff>, comment: Comment) -> Option<Seq<char>> {
    if comment.anchor.kind == AnchorKind::Line {
        line_text_spec(files, comment.anchor)
    } else {
        None
    }
}

/// A JSON comment carries its comment's verdict, body, location and kind,
/// plus the code it is pinned to.
pub open spec fn json_comment_matches(json: JsonComment, comment: Comment, files: Seq<FileDiff>) -> bool {
    &&& json.verdict == comment.verdict
    &&& json.body@ == comment.body@
    &&& slice_text_of(json.file) == opt_text(comment.anchor.file)
    &&& json.line == comment.anchor.line
    &&& json.kind == comment.anchor.kind
    &&& slice_text_of(json.chapter) == opt_text(comment.anchor.chapter)
    &&& opt_text(json.code) == code_of(files, comment)
}

fn as_text<'a>(s: &'a Option<String>) -> (r: Option<&'a str>)
    ensures
        slice_text_of(r) == opt_text(*s),
{
    match s {
        Some(t) => Some(t.as_str()),
        None => None,
    }
}

/// The JSON report: the outcome, submission, scope, totals, overall verdict,
/// progress, and every open comment in order with the code it points at.
pub fn build_json<'a>(input: &ReportInput<'a>) -> (report: JsonReport<'a>)
    ensures
        report.outcome == outcome_spec(*input.state),
        report.submitted == input.state.submitted,
        slice_text_of(report.submitted_at) == opt_text(input.state.submitted_at),
        report.scope@ == input.meta.diff_cmd@,
        report.totals == input.meta.totals,
        *report.overall == input.state.overall,
        *report.progress == input.state.progress,
        report.comments@.len() == open_of(input.state.comments@).len(),
        forall|i: int| 0 <= i < report.comments@.len() ==> json_comment_matches(
            #[trigger] report.comments@[i],
            open_of(input.state.comments@)[i],
            input.files@,
        ),
{
    let meta = input.meta;
    let files = input.files;
    let state = input.state;
    let open = open_comments(state);
    let mut comments: Vec<JsonComment<'a>> = Vec::new();
    let mut k: usize = 0;
    while k < open.len()
        invariant
            k <= open@.len(),
            open@.len() == open_of(state.comments@).len(),
            forall|i: int| 0 <= i < open@.len() ==> *#[trigger] open@[i] == open_of(state.comments@)[i],
            comments@.len() == k,
            forall|i: int| 0 <= i < k ==> json_comment_matches(#[trigger] comments@[i], open_of(state.comments@)[i], files@),
        decreases open@.len() - k,
    {
        let comment: &'a Comment = open[k];
        let code = if comment.anchor.kind == AnchorKind::Line {
            line_text(files, &comment.anchor)
        } else {
            None
        };
        comments.push(JsonComment {
            verdict: comment.verdict,
            body: comment.body.as_str(),
            file: as_text(&comment.anchor.file),
            line: comment.anchor.line,
            kind: comment.anchor.kind,
            chapter: as_text(&comment.anchor.chapter),
            code,
        });
        k += 1;
    }
    JsonReport {
        outcome: outcome_of(state),
        submitted: state.submitted,
        submitted_at: as_text(&state.submitted_at),
        scope: meta.diff_cmd.as_str(),
        totals: meta.totals,
        overall: &state.overall,
        progress: &state.progress,
        comments,
    }
}

} // verus!
