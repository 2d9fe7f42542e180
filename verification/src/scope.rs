//! The CLI scope turned into a diff plan, plus the labels `meta.json`
//! carries.
//!
//! The plan mirrors what a user would hand to `git diff`, so `diff_cmd` stays
//! a command they could paste into a shell, not the resolved object ids the
//! diff is actually taken between.

use vstd::prelude::*;

use gix::remote::Direction;

use crate::model::Scope;
use crate::text::{chars_of, find_chars, find_from, joined, join_lines, lemma_find_from_bounds, push_chars, push_str, string_of, trim_end_chars, trim_end_of, views};

verus! {

broadcast use vstd::string::group_string_axioms;

#[verifier::external_type_specification]
#[verifier::external_body]
pub struct ExRepository(gix::Repository);

#[verifier::external_type_specification]
#[verifier::external_body]
pub struct ExObjectId(gix::ObjectId);

#[verifier::external_type_specification]
#[verifier::external_body]
pub struct ExFullName(gix::refs::FullName);

#[verifier::external_type_specification]
#[verifier::external_body]
pub struct ExId<'repo>(gix::Id<'repo>);

#[verifier::external_type_specification]
#[verifier::external_body]
pub struct ExObject<'repo>(gix::Object<'repo>);

#[verifier::external_type_specification]
#[verifier::external_body]
pub struct ExReference<'repo>(gix::Reference<'repo>);

/// git's canonical empty tree, the base for a root commit.
pub const EMPTY_TREE: &'static str = "4b825dc642cb6eb9a060e54bf8d69288fbee4904";

/// Where a branch review looks for its base when none is given, in order.
pub const BASE_CANDIDATES: [&'static str; 5] = ["origin/HEAD", "origin/main", "origin/master", "main", "master"];

/// What to diff.
#[derive(Debug, PartialEq, Eq)]
pub enum Plan {
    /// Index versus worktree: a bare `git diff`.
    Working,
    /// `HEAD` versus the index: `git diff --cached`.
    Staged,
    /// Tree versus tree: `git diff <base> <head>`.
    Trees { base: String, head: String },
}

pub enum PlanView {
    Working,
    Staged,
    Trees(Seq<char>, Seq<char>),
}

impl View for Plan {
    type V = PlanView;

    open spec fn view(&self) -> PlanView {
        match self {
            Plan::Working => PlanView::Working,
            Plan::Staged => PlanView::Staged,
            Plan::Trees { base, head } => PlanView::Trees(base@, head@),
        }
    }
}

/// The scope the argument parser selected, unresolved.
#[derive(Debug)]
pub struct Request {
    pub scope: Scope,
    pub base: Option<String>,
    pub range: Option<String>,
    pub commit: Option<String>,
    pub paths: Vec<String>,
}

/// The scope resolved against a repository.
#[derive(Debug)]
pub struct Resolved {
    pub scope: Scope,
    pub plan: Plan,
    pub paths: Vec<String>,
    /// What the review is measured against, for display.
    pub base: String,
    pub head: String,
    pub diff_cmd: String,
}

/// The two sides of an explicit range. `a...b` is git's symmetric form,
/// which diffs the merge base against `b`.
#[derive(Debug, PartialEq, Eq)]
pub struct Range {
    pub left: String,
    pub right: String,
    pub symmetric: bool,
}

/// A full object id as git writes it: 40 (SHA-1) or 64 (SHA-256)
/// lower-case hex digits.
pub open spec fn is_object_id(text: Seq<char>) -> bool {
    &&& (text.len() == 40 || text.len() == 64)
    &&& forall|i: int| 0 <= i < text.len() ==> ('0' <= #[trigger] text[i] && text[i] <= '9') || ('a' <= text[i] && text[i] <= 'f')
}

pub open spec fn or_head(side: Seq<char>) -> Seq<char> {
    if side.len() == 0 { "HEAD"@ } else { side }
}

/// `a..b` or `a...b` (the first `...` wins, then the first `..`), one range
/// only, an omitted side filled with `HEAD` as git does; the two error
/// texts name the spec.
pub open spec fn range_of(spec: Seq<char>) -> Result<(Seq<char>, Seq<char>, bool), Seq<char>> {
    let parts = match find_from(spec, "..."@, 0) {
        Some(i) => Some((spec.take(i), spec.skip(i + 3), true)),
        None => match find_from(spec, ".."@, 0) {
            Some(i) => Some((spec.take(i), spec.skip(i + 2), false)),
            None => None,
        },
    };
    match parts {
        None => Err("--range needs a..b or a...b, got "@ + spec),
        Some((left, right, symmetric)) => if find_from(right, ".."@, 0) is Some {
            Err("--range takes one range, got "@ + spec)
        } else {
            Ok((or_head(left), or_head(right), symmetric))
        },
    }
}

fn piece(v: &Vec<char>, from: usize, to: usize) -> (r: Vec<char>)
    requires
        from <= to <= v@.len(),
    ensures
        r@ == v@.subrange(from as int, to as int),
{
    let mut r: Vec<char> = Vec::new();
    let mut k = from;
    while k < to
        invariant
            from <= k <= to <= v@.len(),
            r@ == v@.subrange(from as int, k as int),
        decreases to - k,
    {
        r.push(v[k]);
        k += 1;
        assert(r@ =~= v@.subrange(from as int, k as int));
    }
    r
}

fn side_or_head(side: Vec<char>) -> (r: String)
    ensures
        r@ == or_head(side@),
{
    if side.len() == 0 {
        string_of(&chars_of("HEAD"))
    } else {
        string_of(&side)
    }
}

/// Splits an explicit range. `git diff <rev>` means rev-versus-worktree,
/// which no plan here expresses, so a bare rev is refused.
pub fn parse_range(spec: &str) -> (r: Result<Range, String>)
    ensures
        match (r, range_of(spec@)) {
            (Ok(range), Ok((left, right, symmetric))) => range.left@ == left && range.right@ == right
                && range.symmetric == symmetric,
            (Err(message), Err(expected)) => message@ == expected,
            _ => false,
        },
{
    let chars = chars_of(spec);
    let n = chars.len();
    proof {
        reveal_strlit("...");
        reveal_strlit("..");
        lemma_find_from_bounds(spec@, "..."@, 0);
        lemma_find_from_bounds(spec@, ".."@, 0);
    }
    let (left, right, symmetric) = match find_chars(&chars, "...") {
        Some(i) => {
            let left = piece(&chars, 0, i);
            let right = piece(&chars, i + 3, n);
            assert(left@ =~= spec@.take(i as int));
            assert(right@ =~= spec@.skip(i + 3));
            (left, right, true)
        },
        None => match find_chars(&chars, "..") {
            Some(i) => {
                let left = piece(&chars, 0, i);
                let right = piece(&chars, i + 2, n);
                assert(left@ =~= spec@.take(i as int));
                assert(right@ =~= spec@.skip(i + 2));
                (left, right, false)
            },
            None => {
                let mut message: Vec<char> = Vec::new();
                push_str(&mut message, "--range needs a..b or a...b, got ");
                push_str(&mut message, spec);
                return Err(string_of(&message));
            },
        },
    };
    if find_chars(&right, "..").is_some() {
        let mut message: Vec<char> = Vec::new();
        push_str(&mut message, "--range takes one range, got ");
        push_str(&mut message, spec);
        return Err(string_of(&message));
    }
    Ok(Range { left: side_or_head(left), right: side_or_head(right), symmetric })
}

/// Calls `gix::Repository::rev_parse_single`: the one object `rev` names,
/// or the error's text. Nothing is claimed of the result, which depends on
/// the repository on disk.
#[verifier::external_body]
fn rev_parse<'repo>(repo: &'repo gix::Repository, rev: &str) -> (id: Result<gix::Id<'repo>, String>)
{
    match repo.rev_parse_single(rev) {
        Ok(id) => Ok(id),
        Err(error) => Err(error.to_string()),
    }
}

/// Calls `gix::Id::object`: the object an id names, or the error's text.
/// Nothing is claimed of the result, which depends on the repository on
/// disk.
#[verifier::external_body]
fn object_of<'repo>(id: &gix::Id<'repo>) -> (object: Result<gix::Object<'repo>, String>)
{
    match id.object() {
        Ok(object) => Ok(object),
        Err(error) => Err(error.to_string()),
    }
}

/// Calls `gix::Object::peel_to_commit`: the id of the commit an object
/// peels to, or the error's text. Nothing is claimed of the result, which
/// depends on the repository on disk.
#[verifier::external_body]
fn peel_to_commit(object: gix::Object<'_>) -> (commit: Result<gix::ObjectId, String>)
{
    match object.peel_to_commit() {
        Ok(commit) => Ok(commit.id),
        Err(error) => Err(error.to_string()),
    }
}

/// Calls `gix::Repository::merge_base`: the best merge base of two commits,
/// `None` when they share no history, or the error's text. Nothing is
/// claimed of the result, which depends on the repository on disk.
#[verifier::external_body]
fn merge_base_of(repo: &gix::Repository, one: &gix::ObjectId, two: &gix::ObjectId) -> (base: Result<Option<gix::ObjectId>, String>)
{
    match repo.merge_base(*one, *two) {
        Ok(Some(id)) => Ok(Some(id.detach())),
        Ok(None) => Ok(None),
        Err(error) => Err(error.to_string()),
    }
}

/// Calls `ToString::to_string` on a `gix::ObjectId`. Its `Display` writes
/// the whole id through `faster_hex::hex_encode`, two lower-case hex digits
/// per byte of a SHA-1 (20 bytes) or SHA-256 (32 bytes) digest; the contract
/// claims that shape. Which id it is is not claimed, since the id is opaque
/// here.
#[verifier::external_body]
fn id_text(id: &gix::ObjectId) -> (text: String)
    ensures
        is_object_id(text@),
{
    id.to_string()
}

/// Calls `gix::Repository::head_name`: the branch `HEAD` points at, `None`
/// when it is detached or cannot be read. Nothing is claimed of the result,
/// which depends on the repository on disk.
#[verifier::external_body]
fn head_name(repo: &gix::Repository) -> (name: Option<gix::refs::FullName>)
{
    match repo.head_name() {
        Ok(name) => name,
        Err(_) => None,
    }
}

/// Calls `gix::refs::FullName::shorten`: `main` for `refs/heads/main`.
/// Nothing is claimed of the text, since the name is opaque here.
#[verifier::external_body]
fn short_name(name: &gix::refs::FullName) -> (short: String)
{
    name.shorten().to_string()
}

/// Calls `gix::Repository::branch_remote_tracking_ref_name` for fetching:
/// the tracking branch of `branch`, `None` when there is none or it cannot
/// be read. Nothing is claimed of the result, which depends on the
/// repository's configuration.
#[verifier::external_body]
fn tracking_branch(repo: &gix::Repository, branch: &gix::refs::FullName) -> (tracking: Option<gix::refs::FullName>)
{
    match repo.branch_remote_tracking_ref_name(branch.as_ref(), Direction::Fetch) {
        Some(Ok(name)) => Some(name),
        _ => None,
    }
}

/// Calls `gix::Repository::find_reference`: the reference `name` names,
/// `None` when there is none or it cannot be read. Nothing is claimed of the
/// result, which depends on the repository on disk.
#[verifier::external_body]
fn find_reference<'repo>(repo: &'repo gix::Repository, name: &str) -> (reference: Option<gix::Reference<'repo>>)
{
    match repo.find_reference(name) {
        Ok(reference) => Some(reference),
        Err(_) => None,
    }
}

/// Calls `gix::Reference::target`: the name a symbolic reference points at,
/// `None` when the reference points at an object. Nothing is claimed of the
/// result, since the reference is opaque here.
#[verifier::external_body]
fn symbolic_target(reference: &gix::Reference<'_>) -> (target: Option<gix::refs::FullName>)
{
    match reference.target() {
        gix::refs::TargetRef::Symbolic(target) => Some(target.to_owned()),
        gix::refs::TargetRef::Object(_) => None,
    }
}

/// The commit a revision names.
fn commit_id(repo: &gix::Repository, rev: &str) -> (id: Result<gix::ObjectId, String>)
{
    let id = rev_parse(repo, rev)?;
    let object = object_of(&id)?;
    peel_to_commit(object)
}

/// The merge base of two revisions, as hex.
fn merge_base(repo: &gix::Repository, left: &str, right: &str) -> (base: Result<String, String>)
    ensures
        base matches Ok(id) ==> is_object_id(id@),
{
    let one = commit_id(repo, left)?;
    let two = commit_id(repo, right)?;
    match merge_base_of(repo, &one, &two)? {
        Some(base) => Ok(id_text(&base)),
        None => {
            let mut message: Vec<char> = Vec::new();
            push_str(&mut message, "no merge base between ");
            push_str(&mut message, left);
            push_str(&mut message, " and ");
            push_str(&mut message, right);
            Err(string_of(&message))
        },
    }
}

/// The label for `HEAD`: the short name of the branch it is on, or `HEAD`
/// itself when it is detached.
pub fn label_of(branch: Option<String>) -> (label: String)
    ensures
        match branch {
            Some(name) => label@ == name@,
            None => label@ == "HEAD"@,
        },
{
    match branch {
        Some(name) => name,
        None => string_of(&chars_of("HEAD")),
    }
}

/// The branch `HEAD` is on, shortened; `HEAD` itself when detached.
pub fn head_label(repo: &gix::Repository) -> (label: String)
{
    let branch = match head_name(repo) {
        Some(name) => Some(short_name(&name)),
        None => None,
    };
    label_of(branch)
}

/// How a base candidate is reported: the short name of what it points at
/// when it is a symbolic reference, else the candidate as given.
pub fn symbolic_label(candidate: &str, target: Option<String>) -> (label: String)
    ensures
        match target {
            Some(t) => label@ == t@,
            None => label@ == candidate@,
        },
{
    match target {
        Some(t) => t,
        None => string_of(&chars_of(candidate)),
    }
}

/// `origin/HEAD` is a symbolic reference: report what it points at, as
/// `git rev-parse --abbrev-ref` does, so the review says `origin/main`.
pub fn resolve_symbolic(repo: &gix::Repository, candidate: &str) -> (label: String)
{
    let target = match find_reference(repo, candidate) {
        Some(reference) => match symbolic_target(&reference) {
            Some(target) => Some(short_name(&target)),
            None => None,
        },
        None => None,
    };
    symbolic_label(candidate, target)
}

/// The first candidate at or after `from` that exists.
pub open spec fn first_existing(exists: Seq<bool>, from: int) -> Option<int>
    decreases exists.len() - from,
{
    if from < 0 || from >= exists.len() {
        None
    } else if exists[from] {
        Some(from)
    } else {
        first_existing(exists, from + 1)
    }
}

/// The base of a branch review when none was given: the tracking branch if
/// there is one, else the first of the probed candidates that exists, as it
/// was resolved, else the error.
pub open spec fn base_choice(tracking: Option<Seq<char>>, exists: Seq<bool>, resolved: Seq<Seq<char>>) -> Result<Seq<char>, Seq<char>> {
    match tracking {
        Some(t) => Ok(t),
        None => match first_existing(exists, 0) {
            Some(i) => Ok(resolved[i]),
            None => Err("could not infer a base ref; pass --base"@),
        },
    }
}

/// Picks the base from what the repository said: the tracking branch, and
/// for each of `BASE_CANDIDATES` in order whether it exists and how it
/// resolves.
pub fn choose_base(tracking: Option<String>, exists: &Vec<bool>, resolved: Vec<String>) -> (base: Result<String, String>)
    requires
        exists@.len() == resolved@.len(),
    ensures
        match base_choice(match tracking { Some(t) => Some(t@), None => None }, exists@, views_of(resolved@)) {
            Ok(b) => base matches Ok(x) && x@ == b,
            Err(m) => base matches Err(x) && x@ == m,
        },
{
    if let Some(t) = tracking {
        return Ok(t);
    }
    let mut k: usize = 0;
    while k < exists.len()
        invariant
            k <= exists@.len(),
            exists@.len() == resolved@.len(),
            tracking is None,
            first_existing(exists@, 0) == first_existing(exists@, k as int),
        decreases exists@.len() - k,
    {
        if exists[k] {
            return Ok(string_of(&chars_of(resolved[k].as_str())));
        }
        k += 1;
    }
    Err(string_of(&chars_of("could not infer a base ref; pass --base")))
}

/// The base of a branch review when none was given: the branch's tracking
/// branch, else the first of `BASE_CANDIDATES` that exists.
pub fn default_base(repo: &gix::Repository) -> (base: Result<String, String>)
    ensures
        base matches Err(message) ==> message@ == "could not infer a base ref; pass --base"@,
{
    let tracking = match head_name(repo) {
        Some(head) => match tracking_branch(repo, &head) {
            Some(tracking) => Some(short_name(&tracking)),
            None => None,
        },
        None => None,
    };
    let mut exists: Vec<bool> = Vec::new();
    let mut resolved: Vec<String> = Vec::new();
    if tracking.is_none() {
        let mut k: usize = 0;
        let mut found = false;
        while k < 5 && !found
            invariant
                k <= 5,
                exists@.len() == k,
                resolved@.len() == k,
            decreases 5 - k,
        {
            let candidate = BASE_CANDIDATES[k];
            found = rev_parse(repo, candidate).is_ok();
            exists.push(found);
            if found {
                resolved.push(resolve_symbolic(repo, candidate));
            } else {
                resolved.push(string_of(&chars_of(candidate)));
            }
            k += 1;
        }
    }
    choose_base(tracking, &exists, resolved)
}

/// git's empty tree is named by a full object id.
proof fn lemma_empty_tree_is_an_id()
    ensures
        is_object_id(EMPTY_TREE@),
{
    reveal_strlit("4b825dc642cb6eb9a060e54bf8d69288fbee4904");
    let id = "4b825dc642cb6eb9a060e54bf8d69288fbee4904"@;
    assert(id.len() == 40);
    assert forall|i: int| 0 <= i < id.len() implies ('0' <= #[trigger] id[i] && id[i] <= '9') || ('a' <= id[i] && id[i] <= 'f') by {
        assert(0 <= i < 40);
    }
}

/// The revision that names a commit's first parent: `<commit>^`.
pub fn parent_revision(commit: &str) -> (revision: String)
    ensures
        revision@ == commit@ + "^"@,
{
    let mut out = chars_of(commit);
    push_str(&mut out, "^");
    string_of(&out)
}

/// What a review of one commit diffs: its first parent (the empty tree for a
/// root commit) against it. `<sha>^!` on a merge gives a combined diff no
/// unified-diff reader takes, so the first parent is named explicitly.
pub fn commit_plan(commit: &str, parent: Option<String>) -> (out: (Plan, String, Vec<String>))
    ensures
        ({
            let base = match parent {
                Some(p) => p@,
                None => EMPTY_TREE@,
            };
            &&& out.0@ == PlanView::Trees(base, commit@)
            &&& out.1@ == commit@
            &&& views_of(out.2@) == seq![base, commit@]
        }),
{
    let base = match parent {
        Some(p) => p,
        None => string_of(&chars_of(EMPTY_TREE)),
    };
    let mut args: Vec<String> = Vec::new();
    args.push(base.clone());
    args.push(string_of(&chars_of(commit)));
    assert(views_of(args@) =~= seq![base@, commit@]);
    (Plan::Trees { base, head: string_of(&chars_of(commit)) }, string_of(&chars_of(commit)), args)
}

/// The texts of a list of strings.
pub open spec fn views_of(v: Seq<String>) -> Seq<Seq<char>> {
    Seq::new(v.len(), |i: int| v[i]@)
}

/// What a branch review diffs: the merge base of `base` and `HEAD` against
/// `HEAD`, shown as `base...HEAD`.
pub fn branch_plan(base: String, merge_base: String) -> (out: (Plan, String, Vec<String>))
    ensures
        out.0@ == PlanView::Trees(merge_base@, "HEAD"@),
        out.1@ == base@,
        views_of(out.2@) == seq![base@ + "...HEAD"@],
{
    let mut shown = chars_of(base.as_str());
    push_str(&mut shown, "...HEAD");
    let mut args: Vec<String> = Vec::new();
    args.push(string_of(&shown));
    assert(views_of(args@) =~= seq![base@ + "...HEAD"@]);
    (Plan::Trees { base: merge_base, head: string_of(&chars_of("HEAD")) }, base, args)
}

/// What an explicit range diffs: its left side (or, for `a...b`, the merge
/// base of the two) against its right side, shown as the spec itself.
pub fn range_plan(spec: &str, range: Range, base: String) -> (out: (Plan, String, Vec<String>))
    ensures
        out.0@ == PlanView::Trees(base@, range.right@),
        out.1@ == spec@,
        views_of(out.2@) == seq![spec@],
{
    let mut args: Vec<String> = Vec::new();
    args.push(string_of(&chars_of(spec)));
    assert(views_of(args@) =~= seq![spec@]);
    (Plan::Trees { base, head: range.right }, string_of(&chars_of(spec)), args)
}

/// The plan, the base label and the `git diff` arguments for a request.
pub fn resolve_plan(repo: &gix::Repository, request: &Request) -> (out: Result<(Plan, String, Vec<String>), String>)
    ensures
        request.scope == Scope::Working ==> (out matches Ok((plan, label, args))
            && plan@ == PlanView::Working && label@ == "working tree"@ && args@.len() == 0),
        request.scope == Scope::Staged ==> (out matches Ok((plan, label, args))
            && plan@ == PlanView::Staged && label@ == "index"@ && views_of(args@) == seq!["--cached"@]),
        request.scope == Scope::Range ==> match request.range {
            None => out matches Err(message) && message@ == "--range needs a value"@,
            Some(spec) => match range_of(spec@) {
                Err(expected) => out matches Err(message) && message@ == expected,
                Ok((left, right, symmetric)) => (!symmetric ==> out is Ok) && (out matches Ok((plan, label, args)) ==> {
                    &&& (plan@ matches PlanView::Trees(base, head) && head == right && (!symmetric ==> base == left)
                        && (symmetric ==> is_object_id(base)))
                    &&& label@ == spec@
                    &&& views_of(args@) == seq![spec@]
                }),
            },
        },
        request.scope == Scope::Commit ==> match request.commit {
            None => out matches Err(message) && message@ == "--commit needs a value"@,
            Some(commit) => out matches Ok((plan, label, args)) && label@ == commit@
                && (plan@ matches PlanView::Trees(base, head) && head == commit@ && is_object_id(base)
                && views_of(args@) == seq![base, commit@]),
        },
        request.scope == Scope::Branch ==> (out matches Ok((plan, label, args)) ==> {
            &&& (plan@ matches PlanView::Trees(base, head) && head == "HEAD"@ && is_object_id(base))
            &&& views_of(args@) == seq![label@ + "...HEAD"@]
            &&& (request.base matches Some(b) ==> label@ == b@)
        }),
{
    match request.scope {
        Scope::Working => Ok((Plan::Working, string_of(&chars_of("working tree")), Vec::new())),
        Scope::Staged => {
            let mut args: Vec<String> = Vec::new();
            args.push(string_of(&chars_of("--cached")));
            assert(views_of(args@) =~= seq!["--cached"@]);
            Ok((Plan::Staged, string_of(&chars_of("index")), args))
        },
        Scope::Range => {
            let spec = match &request.range {
                Some(spec) => spec,
                None => {
                    return Err(string_of(&chars_of("--range needs a value")));
                },
            };
            let range = parse_range(spec.as_str())?;
            let base = if range.symmetric {
                merge_base(repo, range.left.as_str(), range.right.as_str())?
            } else {
                string_of(&chars_of(range.left.as_str()))
            };
            Ok(range_plan(spec.as_str(), range, base))
        },
        Scope::Commit => {
            let commit = match &request.commit {
                Some(commit) => commit,
                None => {
                    return Err(string_of(&chars_of("--commit needs a value")));
                },
            };
            proof { lemma_empty_tree_is_an_id(); }
            let parent = match commit_id(repo, parent_revision(commit.as_str()).as_str()) {
                Ok(id) => Some(id_text(&id)),
                Err(_) => None,
            };
            Ok(commit_plan(commit.as_str(), parent))
        },
        Scope::Branch => {
            let base = match &request.base {
                Some(base) => string_of(&chars_of(base.as_str())),
                None => default_base(repo)?,
            };
            let merged = merge_base(repo, base.as_str(), "HEAD")?;
            Ok(branch_plan(base, merged))
        },
    }
}

/// The command a user could paste to see the same diff: `git diff`, the
/// arguments, then `--` and the pathspecs if there are any, trailing space
/// trimmed.
pub open spec fn diff_command(args: Seq<Seq<char>>, paths: Seq<Seq<char>>) -> Seq<char> {
    let all = if paths.len() > 0 { args.push("--"@) + paths } else { args };
    trim_end_of("git diff "@ + joined(all, " "@))
}

/// Spells out the `git diff` command for the arguments and pathspecs.
pub fn diff_command_line(args: &Vec<String>, paths: &Vec<String>) -> (command: String)
    ensures
        command@ == diff_command(views_of(args@), views_of(paths@)),
{
    let mut all: Vec<Vec<char>> = Vec::new();
    let mut k: usize = 0;
    while k < args.len()
        invariant
            k <= args@.len(),
            views(all@) == views_of(args@).take(k as int),
        decreases args@.len() - k,
    {
        let ghost before = views(all@);
        all.push(chars_of(args[k].as_str()));
        assert(views(all@) =~= before.push(args@[k as int]@));
        k += 1;
        assert(views_of(args@).take(k as int) =~= views_of(args@).take(k - 1).push(args@[k - 1]@));
    }
    assert(views_of(args@).take(args@.len() as int) =~= views_of(args@));
    if paths.len() > 0 {
        let ghost before = views(all@);
        all.push(chars_of("--"));
        assert(views(all@) =~= before.push("--"@));
        let ghost with_dash = views(all@);
        let mut j: usize = 0;
        while j < paths.len()
            invariant
                j <= paths@.len(),
                views(all@) == with_dash + views_of(paths@).take(j as int),
            decreases paths@.len() - j,
        {
            let ghost prev = views(all@);
            all.push(chars_of(paths[j].as_str()));
            assert(views(all@) =~= prev.push(paths@[j as int]@));
            j += 1;
            assert(with_dash + views_of(paths@).take(j as int) =~= (with_dash + views_of(paths@).take(j - 1)).push(paths@[j - 1]@));
        }
        assert(views_of(paths@).take(paths@.len() as int) =~= views_of(paths@));
    }
    let mut line = chars_of("git diff ");
    push_chars(&mut line, &join_lines(&all, " "));
    string_of(&trim_end_chars(&line))
}

/// Resolves a request against the repository.
pub fn resolve(repo: &gix::Repository, request: &Request) -> (out: Result<Resolved, String>)
    ensures
        out matches Ok(resolved) ==> {
            &&& resolved.scope == request.scope
            &&& views_of(resolved.paths@) == views_of(request.paths@)
        },
        request.scope == Scope::Working ==> (out matches Ok(resolved)
            && resolved.diff_cmd@ == diff_command(Seq::empty(), views_of(request.paths@))
            && resolved.base@ == "working tree"@ && resolved.plan@ == PlanView::Working),
        request.scope == Scope::Staged ==> (out matches Ok(resolved)
            && resolved.diff_cmd@ == diff_command(seq!["--cached"@], views_of(request.paths@))
            && resolved.base@ == "index"@ && resolved.plan@ == PlanView::Staged),
        request.scope == Scope::Range ==> match request.range {
            None => out matches Err(message) && message@ == "--range needs a value"@,
            Some(spec) => match range_of(spec@) {
                Err(expected) => out matches Err(message) && message@ == expected,
                Ok((left, right, symmetric)) => (!symmetric ==> out is Ok) && (out matches Ok(resolved) ==> {
                    &&& (resolved.plan@ matches PlanView::Trees(base, head) && head == right && (!symmetric ==> base == left)
                        && (symmetric ==> is_object_id(base)))
                    &&& resolved.base@ == spec@
                    &&& resolved.diff_cmd@ == diff_command(seq![spec@], views_of(request.paths@))
                }),
            },
        },
        request.scope == Scope::Commit ==> match request.commit {
            None => out matches Err(message) && message@ == "--commit needs a value"@,
            Some(commit) => out matches Ok(resolved) && resolved.base@ == commit@
                && (resolved.plan@ matches PlanView::Trees(base, head) && head == commit@ && is_object_id(base)
                && resolved.diff_cmd@ == diff_command(seq![base, commit@], views_of(request.paths@))),
        },
        request.scope == Scope::Branch ==> (out matches Ok(resolved) ==> {
            &&& (resolved.plan@ matches PlanView::Trees(base, head) && head == "HEAD"@ && is_object_id(base))
            &&& resolved.diff_cmd@ == diff_command(seq![resolved.base@ + "...HEAD"@], views_of(request.paths@))
            &&& (request.base matches Some(b) ==> resolved.base@ == b@)
        }),
{
    let (plan, base, args) = resolve_plan(repo, request)?;
    let diff_cmd = diff_command_line(&args, &request.paths);
    let ghost shown = views_of(args@);
    proof {
        if request.scope == Scope::Working {
            assert(shown =~= Seq::<Seq<char>>::empty());
        }
    }
    let mut paths: Vec<String> = Vec::new();
    let mut k: usize = 0;
    while k < request.paths.len()
        invariant
            k <= request.paths@.len(),
            views_of(paths@) == views_of(request.paths@).take(k as int),
        decreases request.paths@.len() - k,
    {
        let ghost before = views_of(paths@);
        paths.push(string_of(&chars_of(request.paths[k].as_str())));
        assert(views_of(paths@) =~= before.push(request.paths@[k as int]@));
        k += 1;
        assert(views_of(request.paths@).take(k as int) =~= views_of(request.paths@).take(k - 1).push(request.paths@[k - 1]@));
    }
    assert(views_of(request.paths@).take(request.paths@.len() as int) =~= views_of(request.paths@));
    Ok(Resolved { scope: request.scope, plan, paths, base, head: head_label(repo), diff_cmd })
}

} // verus!
