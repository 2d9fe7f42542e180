//! The wire model the browser UI reads: files, hunks and lines of the diff,
//! the agent's narrative, and the user's comments and progress.

use vstd::prelude::*;

verus! {

#[derive(Debug, Clone, Copy, PartialEq, Eq, Structural)]
pub enum FileStatus {
    Added,
    Modified,
    Deleted,
    Renamed,
    Copied,
}

#[derive(Debug, Clone, Copy, PartialEq, Eq, Structural)]
pub enum LineType {
    Context,
    Add,
    Del,
}

#[derive(Debug, Clone, Copy, PartialEq, Eq, Structural)]
pub enum Side {
    Old,
    New,
}

#[derive(Debug, Clone, Copy, PartialEq, Eq, Structural)]
pub enum Verdict {
    Okay,
    Fix,
    Question,
}

#[derive(Debug, Clone, Copy, PartialEq, Eq, Structural)]
pub enum AnchorKind {
    Line,
    File,
    Chapter,
    Overall,
}

#[derive(Debug, Clone, Copy, PartialEq, Eq, Structural)]
pub enum ProgressState {
    Unreviewed,
    Reviewed,
}

#[derive(Debug, Clone, Copy, PartialEq, Eq, Structural)]
pub enum Scope {
    Branch,
    Working,
    Staged,
    Range,
    Commit,
}

impl Default for Scope {
    fn default() -> (scope: Self)
        ensures
            scope == Scope::Branch,
    {
        Scope::Branch
    }
}

/// One line of a hunk. `old`/`new` are 1-based line numbers on each side, or
/// `None` on the side the line does not exist on.
#[derive(Debug, Clone, PartialEq, Eq)]
pub struct DiffLine {
    pub i: usize,
    pub kind: LineType,
    pub old: Option<u32>,
    pub new: Option<u32>,
    pub text: String,
}

#[derive(Debug, Clone, PartialEq, Eq)]
pub struct Hunk {
    pub id: String,
    pub header: String,
    pub old_start: u32,
    pub old_count: u32,
    pub new_start: u32,
    pub new_count: u32,
    pub additions: usize,
    pub deletions: usize,
    pub lines: Vec<DiffLine>,
}

#[derive(Debug, Clone, PartialEq, Eq)]
pub struct FileDiff {
    pub id: String,
    pub path: String,
    pub old_path: String,
    pub status: FileStatus,
    pub additions: usize,
    pub deletions: usize,
    pub binary: bool,
    pub noise: bool,
    pub language: Option<String>,
    pub truncated: bool,
    pub hunks: Vec<Hunk>,
}

/// `hunks.json` in full.
#[derive(Debug, Clone, PartialEq, Eq)]
pub struct Hunks {
    pub files: Vec<FileDiff>,
}

#[derive(Debug, Clone, Copy, PartialEq, Eq, Structural)]
pub struct Totals {
    pub files: usize,
    pub additions: usize,
    pub deletions: usize,
}

#[derive(Debug, Clone, PartialEq, Eq)]
pub struct Meta {
    pub repo: String,
    pub repo_root: String,
    pub slug: String,
    pub title: String,
    pub scope: Scope,
    pub base: String,
    pub head: String,
    pub diff_cmd: String,
    pub generated_at: String,
    pub totals: Totals,
}

#[derive(Debug, Clone, PartialEq, Eq)]
pub struct Chapter {
    pub id: String,
    pub title: String,
    pub intent: Option<String>,
    pub why: Option<String>,
    pub hunks: Vec<String>,
    pub size: Option<String>,
    pub flags: Option<Vec<String>>,
}

/// Authored by the agent: everything in it is optional, and a chapter may
/// reference a hunk id that no longer exists. `file_notes` maps a file path to
/// a note, one entry per path.
#[derive(Debug, Clone, PartialEq, Eq)]
pub struct Review {
    pub title: Option<String>,
    pub story: Option<String>,
    pub chapters: Vec<Chapter>,
    pub file_notes: Option<Vec<(String, String)>>,
}

#[derive(Debug, Clone, PartialEq, Eq)]
pub struct Anchor {
    pub kind: AnchorKind,
    pub file: Option<String>,
    pub hunk: Option<String>,
    pub side: Option<Side>,
    pub line: Option<u32>,
    pub chapter: Option<String>,
}

/// An anchor with its texts as character sequences.
pub struct AnchorView {
    pub kind: AnchorKind,
    pub file: Option<Seq<char>>,
    pub hunk: Option<Seq<char>>,
    pub side: Option<Side>,
    pub line: Option<u32>,
    pub chapter: Option<Seq<char>>,
}

/// The text of an optional string.
pub open spec fn opt_text(s: Option<String>) -> Option<Seq<char>> {
    match s {
        Some(t) => Some(t@),
        None => None,
    }
}

impl View for Anchor {
    type V = AnchorView;

    open spec fn view(&self) -> AnchorView {
        AnchorView {
            kind: self.kind,
            file: opt_text(self.file),
            hunk: opt_text(self.hunk),
            side: self.side,
            line: self.line,
            chapter: opt_text(self.chapter),
        }
    }
}

#[derive(Debug, Clone, PartialEq, Eq)]
pub struct Comment {
    pub id: String,
    pub anchor: Anchor,
    pub verdict: Verdict,
    pub body: String,
    pub created_at: String,
    pub updated_at: String,
    pub resolved: bool,
}

#[derive(Debug, Clone, PartialEq, Eq)]
pub struct Overall {
    pub verdict: Option<Verdict>,
    pub body: String,
}

/// `comments.json`. `progress` maps a chapter id to its state, one entry per
/// chapter id.
#[derive(Debug, Clone, PartialEq, Eq)]
pub struct ReviewState {
    pub comments: Vec<Comment>,
    pub progress: Vec<(String, ProgressState)>,
    pub overall: Overall,
    pub submitted: bool,
    pub submitted_at: Option<String>,
}

impl Default for Overall {
    fn default() -> (overall: Self)
        ensures
            overall.verdict is None,
            overall.body@ == Seq::<char>::empty(),
    {
        Overall { verdict: None, body: String::new() }
    }
}

impl Default for ReviewState {
    fn default() -> (state: Self)
        ensures
            state.comments@.len() == 0,
            state.progress@.len() == 0,
            state.overall.verdict is None,
            state.overall.body@ == Seq::<char>::empty(),
            !state.submitted,
            state.submitted_at is None,
    {
        ReviewState {
            comments: Vec::new(),
            progress: Vec::new(),
            overall: Overall { verdict: None, body: String::new() },
            submitted: false,
            submitted_at: None,
        }
    }
}

impl Default for Totals {
    fn default() -> (totals: Self)
        ensures
            totals == (Totals { files: 0, additions: 0, deletions: 0 }),
    {
        Totals { files: 0, additions: 0, deletions: 0 }
    }
}

impl Default for Hunks {
    fn default() -> (hunks: Self)
        ensures
            hunks.files@.len() == 0,
    {
        Hunks { files: Vec::new() }
    }
}

} // verus!
