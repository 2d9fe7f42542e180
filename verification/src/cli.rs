//! The command's own decisions: the totals a diff shows, the slug a session
//! is filed under, the chapters that point at hunks the diff lacks, and what
//! the report's body is.

use vstd::prelude::*;

use crate::model::{FileDiff, Meta, Review, ReviewState, Scope, Totals};
use crate::report::{outcome_of, outcome_spec, Outcome};
use crate::session::{slug_of, slugify};
use crate::text::{chars_of, push_chars, push_str, same_chars, string_of};

verus! {

broadcast use vstd::string::group_string_axioms;

/// The sum of one count over files.
pub open spec fn sum_of(files: Seq<FileDiff>, additions: bool) -> nat
    decreases files.len(),
{
    if files.len() == 0 {
        0
    } else {
        sum_of(files.drop_last(), additions) + if additions { files.last().additions as nat } else { files.last().deletions as nat }
    }
}

proof fn lemma_sum_prefix(files: Seq<FileDiff>, k: int, additions: bool)
    requires
        0 <= k <= files.len(),
    ensures
        sum_of(files.take(k), additions) <= sum_of(files, additions),
    decreases files.len() - k,
{
    if k < files.len() {
        lemma_sum_prefix(files, k + 1, additions);
        assert(files.take(k + 1).drop_last() =~= files.take(k));
    } else {
        assert(files.take(k) =~= files);
    }
}

/// The file count and the added and deleted lines over all files.
pub fn totals(files: &[FileDiff]) -> (totals: Totals)
    requires
        sum_of(files@, true) <= usize::MAX,
        sum_of(files@, false) <= usize::MAX,
    ensures
        totals.files == files@.len(),
        totals.additions == sum_of(files@, true),
        totals.deletions == sum_of(files@, false),
{
    let mut additions: usize = 0;
    let mut deletions: usize = 0;
    let mut k: usize = 0;
    while k < files.len()
        invariant
            k <= files@.len(),
            sum_of(files@, true) <= usize::MAX,
            sum_of(files@, false) <= usize::MAX,
            additions == sum_of(files@.take(k as int), true),
            deletions == sum_of(files@.take(k as int), false),
        decreases files@.len() - k,
    {
        proof {
            assert(files@.take(k + 1).drop_last() =~= files@.take(k as int));
            lemma_sum_prefix(files@, k + 1, true);
            lemma_sum_prefix(files@, k + 1, false);
        }
        additions = additions + files[k].additions;
        deletions = deletions + files[k].deletions;
        k += 1;
    }
    assert(files@.take(files@.len() as int) =~= files@);
    Totals { files: files.len(), additions, deletions }
}

/// `<day>-<slug of the title, or of the head when there is none>`.
pub open spec fn session_slug_of(day: Seq<char>, title: Option<Seq<char>>, head: Seq<char>) -> Seq<char> {
    day + "-"@ + slug_of(match title {
        Some(t) => t,
        None => head,
    })
}

/// The slug a session is filed under: the day, then the review's title (or
/// the head's name) made into a slug.
pub fn session_slug(day: &str, title: Option<&str>, head: &str) -> (slug: String)
    ensures
        slug@ == session_slug_of(day@, match title {
            Some(t) => Some(t@),
            None => None,
        }, head@),
{
    let named = match title {
        Some(t) => slugify(t),
        None => slugify(head),
    };
    let mut out = chars_of(day);
    push_str(&mut out, "-");
    push_chars(&mut out, &chars_of(named.as_str()));
    string_of(&out)
}

/// Whether some hunk of some file has this id.
pub open spec fn hunk_known(files: Seq<FileDiff>, id: Seq<char>) -> bool {
    exists|f: int, h: int| 0 <= f < files.len() && 0 <= h < files[f].hunks@.len() && #[trigger] files[f].hunks@[h].id@ == id
}

fn knows_hunk(files: &[FileDiff], id: &String) -> (known: bool)
    ensures
        known == hunk_known(files@, id@),
{
    let want = chars_of(id.as_str());
    let mut f: usize = 0;
    while f < files.len()
        invariant
            f <= files@.len(),
            want@ == id@,
            forall|x: int, h: int| 0 <= x < f && 0 <= h < files@[x].hunks@.len() ==> #[trigger] files@[x].hunks@[h].id@ != id@,
        decreases files@.len() - f,
    {
        let hunks = &files[f].hunks;
        let mut h: usize = 0;
        while h < hunks.len()
            invariant
                f < files@.len(),
                h <= hunks@.len(),
                hunks@ == files@[f as int].hunks@,
                want@ == id@,
                forall|x: int, y: int| 0 <= x < f && 0 <= y < files@[x].hunks@.len() ==> #[trigger] files@[x].hunks@[y].id@ != id@,
                forall|y: int| 0 <= y < h ==> #[trigger] hunks@[y].id@ != id@,
            decreases hunks@.len() - h,
        {
            let here = chars_of(hunks[h].id.as_str());
            if same_chars(&here, &want) {
                assert(files@[f as int].hunks@[h as int].id@ == id@);
                return true;
            }
            h += 1;
        }
        f += 1;
    }
    false
}

/// The `(chapter, hunk)` references of a review, in chapter order, whose
/// hunk id no file of the diff has.
pub open spec fn stale_refs_of(chapters: Seq<crate::model::Chapter>, files: Seq<FileDiff>) -> Seq<(Seq<char>, Seq<char>)>
    decreases chapters.len(),
{
    if chapters.len() == 0 {
        Seq::empty()
    } else {
        let last = chapters.last();
        stale_refs_of(chapters.drop_last(), files) + stale_in(last.id@, last.hunks@, files)
    }
}

pub open spec fn stale_in(chapter: Seq<char>, hunks: Seq<String>, files: Seq<FileDiff>) -> Seq<(Seq<char>, Seq<char>)>
    decreases hunks.len(),
{
    if hunks.len() == 0 {
        Seq::empty()
    } else {
        let rest = stale_in(chapter, hunks.drop_last(), files);
        if hunk_known(files, hunks.last()@) {
            rest
        } else {
            rest.push((chapter, hunks.last()@))
        }
    }
}

pub open spec fn pair_views(v: Seq<(String, String)>) -> Seq<(Seq<char>, Seq<char>)> {
    Seq::new(v.len(), |i: int| (v[i].0@, v[i].1@))
}

/// The chapters' references to hunk ids this diff does not have. Not an
/// error: the narrative is the agent's, and a stale id costs the reader one
/// chapter, not the review.
pub fn unknown_hunk_refs(review: &Review, files: &[FileDiff]) -> (stale: Vec<(String, String)>)
    ensures
        pair_views(stale@) == stale_refs_of(review.chapters@, files@),
{
    let mut stale: Vec<(String, String)> = Vec::new();
    let mut c: usize = 0;
    while c < review.chapters.len()
        invariant
            c <= review.chapters@.len(),
            pair_views(stale@) == stale_refs_of(review.chapters@.take(c as int), files@),
        decreases review.chapters@.len() - c,
    {
        let chapter = &review.chapters[c];
        let ghost before = pair_views(stale@);
        let mut h: usize = 0;
        while h < chapter.hunks.len()
            invariant
                h <= chapter.hunks@.len(),
                pair_views(stale@) == before + stale_in(chapter.id@, chapter.hunks@.take(h as int), files@),
            decreases chapter.hunks@.len() - h,
        {
            let id = &chapter.hunks[h];
            assert(chapter.hunks@.take(h + 1).drop_last() =~= chapter.hunks@.take(h as int));
            if !knows_hunk(files, id) {
                let ghost prev = pair_views(stale@);
                stale.push((string_of(&chars_of(chapter.id.as_str())), string_of(&chars_of(id.as_str()))));
                assert(pair_views(stale@) =~= prev.push((chapter.id@, id@)));
            }
            h += 1;
        }
        assert(chapter.hunks@.take(chapter.hunks@.len() as int) =~= chapter.hunks@);
        assert(review.chapters@.take(c + 1).drop_last() =~= review.chapters@.take(c as int));
        c += 1;
    }
    assert(review.chapters@.take(review.chapters@.len() as int) =~= review.chapters@);
    stale
}

/// What the command prints, and the outcome that sets its exit code.
#[derive(Debug)]
pub struct Report {
    pub body: String,
    pub outcome: Outcome,
}

/// The report's body: the JSON (with a final newline) under `--json`,
/// nothing when the markdown went to `--out`, else the markdown. `json` is
/// the rendered JSON exactly when `--json` was given.
pub fn report_for(markdown: String, json: Option<String>, wrote_file: bool, state: &ReviewState) -> (report: Report)
    ensures
        report.outcome == outcome_spec(*state),
        report.body@ == match json {
            Some(j) => j@.push('\n'),
            None => if wrote_file { Seq::empty() } else { markdown@ },
        },
{
    let body = match json {
        Some(j) => {
            let mut out = chars_of(j.as_str());
            out.push('\n');
            string_of(&out)
        },
        None => if wrote_file {
            string_of(&Vec::new())
        } else {
            markdown
        },
    };
    Report { body, outcome: outcome_of(state) }
}

/// `meta.json` for a new session: the title falls back to the slug.
pub fn build_meta(repo: String, repo_root: String, slug: String, title: Option<String>, scope: Scope, base: String, head: String, diff_cmd: String, generated_at: String, totals: Totals) -> (meta: Meta)
    ensures
        meta.repo == repo,
        meta.repo_root == repo_root,
        meta.slug == slug,
        meta.title@ == match title {
            Some(t) => t@,
            None => slug@,
        },
        meta.scope == scope,
        meta.base == base,
        meta.head == head,
        meta.diff_cmd == diff_cmd,
        meta.generated_at == generated_at,
        meta.totals == totals,
{
    let shown = match title {
        Some(t) => t,
        None => string_of(&chars_of(slug.as_str())),
    };
    Meta { repo, repo_root, slug, title: shown, scope, base, head, diff_cmd, generated_at, totals }
}

} // verus!
