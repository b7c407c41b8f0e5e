//! What a report counts: commits, files and their lines.
use vstd::prelude::*;

use crate::config::{is_filtered, EffectiveConfig, EffectiveConfigView};
use crate::model::{commits_view, files_view, CommitRecord, CommitView, FileStat, FileStatView};

verus! {

// ---------------------------------------------------------------------------
// What counts
// ---------------------------------------------------------------------------

/// A commit that a report counts: every commit, or, when merges are left
/// out, every commit that is not a merge.
pub open spec fn is_considered(c: CommitView, cfg: EffectiveConfigView) -> bool {
    !(cfg.no_merge && c.is_merge)
}

/// A file whose lines count: not binary and not filtered.
pub open spec fn is_counted(f: FileStatView, cfg: EffectiveConfigView) -> bool {
    !f.is_binary && !is_filtered(cfg, f.path)
}

/// Lines added by the counted files of `fs`.
pub open spec fn counted_additions(fs: Seq<FileStatView>, cfg: EffectiveConfigView) -> nat
    decreases fs.len(),
{
    if fs.len() == 0 {
        0
    } else {
        counted_additions(fs.drop_last(), cfg) + if is_counted(fs.last(), cfg) {
            fs.last().additions
        } else {
            0
        }
    }
}

/// Lines deleted by the counted files of `fs`.
pub open spec fn counted_deletions(fs: Seq<FileStatView>, cfg: EffectiveConfigView) -> nat
    decreases fs.len(),
{
    if fs.len() == 0 {
        0
    } else {
        counted_deletions(fs.drop_last(), cfg) + if is_counted(fs.last(), cfg) {
            fs.last().deletions
        } else {
            0
        }
    }
}

/// Lines added by the considered commits of `cs`.
pub open spec fn lines_added(cs: Seq<CommitView>, cfg: EffectiveConfigView) -> nat
    decreases cs.len(),
{
    if cs.len() == 0 {
        0
    } else {
        lines_added(cs.drop_last(), cfg) + if is_considered(cs.last(), cfg) {
            counted_additions(cs.last().files, cfg)
        } else {
            0
        }
    }
}

/// Lines deleted by the considered commits of `cs`.
pub open spec fn lines_deleted(cs: Seq<CommitView>, cfg: EffectiveConfigView) -> nat
    decreases cs.len(),
{
    if cs.len() == 0 {
        0
    } else {
        lines_deleted(cs.drop_last(), cfg) + if is_considered(cs.last(), cfg) {
            counted_deletions(cs.last().files, cfg)
        } else {
            0
        }
    }
}

/// The commits of `cs` that a report counts.
pub open spec fn considered(cs: Seq<CommitView>, cfg: EffectiveConfigView) -> Seq<CommitView> {
    cs.filter(|c: CommitView| is_considered(c, cfg))
}

/// The number of merges in `cs`.
pub open spec fn merge_count(cs: Seq<CommitView>) -> nat
    decreases cs.len(),
{
    if cs.len() == 0 {
        0
    } else {
        merge_count(cs.drop_last()) + if cs.last().is_merge {
            1nat
        } else {
            0nat
        }
    }
}

/// The number of commits in `cs` that are not merges.
pub open spec fn non_merge_count(cs: Seq<CommitView>) -> nat
    decreases cs.len(),
{
    if cs.len() == 0 {
        0
    } else {
        non_merge_count(cs.drop_last()) + if cs.last().is_merge {
            0nat
        } else {
            1nat
        }
    }
}

/// The line totals of `cs` fit the signed 64-bit numbers a report holds.
pub open spec fn lines_fit(cs: Seq<CommitView>, cfg: EffectiveConfigView) -> bool {
    lines_added(cs, cfg) <= i64::MAX && lines_deleted(cs, cfg) <= i64::MAX
}

// ---------------------------------------------------------------------------
// Facts about the totals
// ---------------------------------------------------------------------------

pub(crate) proof fn lemma_counted_prefix(fs: Seq<FileStatView>, cfg: EffectiveConfigView, i: int, j: int)
    requires
        0 <= i <= j <= fs.len(),
    ensures
        counted_additions(fs.take(i), cfg) <= counted_additions(fs.take(j), cfg),
        counted_deletions(fs.take(i), cfg) <= counted_deletions(fs.take(j), cfg),
    decreases j - i,
{
    if i < j {
        lemma_counted_prefix(fs, cfg, i, j - 1);
        assert(fs.take(j).drop_last() =~= fs.take(j - 1));
    }
}

pub(crate) proof fn lemma_lines_prefix(cs: Seq<CommitView>, cfg: EffectiveConfigView, i: int, j: int)
    requires
        0 <= i <= j <= cs.len(),
    ensures
        lines_added(cs.take(i), cfg) <= lines_added(cs.take(j), cfg),
        lines_deleted(cs.take(i), cfg) <= lines_deleted(cs.take(j), cfg),
    decreases j - i,
{
    if i < j {
        lemma_lines_prefix(cs, cfg, i, j - 1);
        assert(cs.take(j).drop_last() =~= cs.take(j - 1));
    }
}

/// The lines of one more commit.
pub(crate) proof fn lemma_lines_push(cs: Seq<CommitView>, c: CommitView, cfg: EffectiveConfigView)
    ensures
        lines_added(cs.push(c), cfg) == lines_added(cs, cfg) + if is_considered(c, cfg) {
            counted_additions(c.files, cfg)
        } else {
            0
        },
        lines_deleted(cs.push(c), cfg) == lines_deleted(cs, cfg) + if is_considered(c, cfg) {
            counted_deletions(c.files, cfg)
        } else {
            0
        },
        merge_count(cs.push(c)) == merge_count(cs) + if c.is_merge {
            1nat
        } else {
            0nat
        },
        non_merge_count(cs.push(c)) == non_merge_count(cs) + if c.is_merge {
            0nat
        } else {
            1nat
        },
{
    assert(cs.push(c).drop_last() =~= cs);
}

/// The lines of the commit at `i` fit when those of all of `cs` do.
pub(crate) proof fn lemma_commit_lines_fit(cs: Seq<CommitView>, cfg: EffectiveConfigView, i: int)
    requires
        0 <= i < cs.len(),
        lines_fit(cs, cfg),
        is_considered(cs[i], cfg),
    ensures
        lines_added(cs.take(i), cfg) + counted_additions(cs[i].files, cfg) <= i64::MAX,
        lines_deleted(cs.take(i), cfg) + counted_deletions(cs[i].files, cfg) <= i64::MAX,
{
    assert(cs.take(i + 1) =~= cs.take(i).push(cs[i]));
    lemma_lines_push(cs.take(i), cs[i], cfg);
    lemma_lines_prefix(cs, cfg, i + 1, cs.len() as int);
    assert(cs.take(cs.len() as int) =~= cs);
}

// ---------------------------------------------------------------------------
// Counting lines
// ---------------------------------------------------------------------------

/// The lines added and deleted by the counted files of `files`, or `None`
/// when either total exceeds the largest signed 64-bit number.
pub(crate) fn counted_lines(files: &Vec<FileStat>, config: &EffectiveConfig) -> (res: Option<(u64, u64)>)
    ensures
        match res {
            Some((a, d)) => a == counted_additions(files_view(files@), config@) && d
                == counted_deletions(files_view(files@), config@) && a <= i64::MAX
                && d <= i64::MAX,
            None => counted_additions(files_view(files@), config@) > i64::MAX
                || counted_deletions(files_view(files@), config@) > i64::MAX,
        },
{
    let ghost fs = files_view(files@);
    let ghost cfg = config@;
    let n = files.len();
    let mut added: u64 = 0;
    let mut deleted: u64 = 0;
    assert(fs.take(0) =~= Seq::<FileStatView>::empty());
    for j in 0..n
        invariant
            n == fs.len(),
            fs == files_view(files@),
            cfg == config@,
            added == counted_additions(fs.take(j as int), cfg),
            deleted == counted_deletions(fs.take(j as int), cfg),
            added <= i64::MAX,
            deleted <= i64::MAX,
    {
        let f = &files[j];
        assert(fs.take(j + 1).drop_last() =~= fs.take(j as int));
        assert(fs.take(j + 1).last() == f@);
        if !f.is_binary && !config.should_filter(f.path.as_str()) {
            if f.additions > 9223372036854775807u64 - added || f.deletions
                > 9223372036854775807u64 - deleted {
                proof {
                    lemma_counted_prefix(fs, cfg, j + 1, n as int);
                    assert(fs.take(n as int) =~= fs);
                }
                return None;
            }
            added = added + f.additions;
            deleted = deleted + f.deletions;
        }
    }
    assert(fs.take(n as int) =~= fs);
    Some((added, deleted))
}

/// The lines of the commit at `i`, which fit when those of all commits do.
pub(crate) fn commit_lines(commits: &Vec<CommitRecord>, i: usize, config: &EffectiveConfig) -> (res: (
    u64,
    u64,
))
    requires
        i < commits@.len(),
        lines_fit(commits_view(commits@), config@),
        is_considered(commits_view(commits@)[i as int], config@),
    ensures
        res.0 == counted_additions(commits_view(commits@)[i as int].files, config@),
        res.1 == counted_deletions(commits_view(commits@)[i as int].files, config@),
        lines_added(commits_view(commits@).take(i as int), config@) + res.0 <= i64::MAX,
        lines_deleted(commits_view(commits@).take(i as int), config@) + res.1 <= i64::MAX,
{
    proof {
        lemma_commit_lines_fit(commits_view(commits@), config@, i as int);
    }
    match counted_lines(&commits[i].files, config) {
        Some(r) => r,
        None => (0, 0),
    }
}

/// Whether the line totals of `commits` fit the signed 64-bit numbers a
/// report holds.
pub fn line_totals_fit(commits: &Vec<CommitRecord>, config: &EffectiveConfig) -> (res: bool)
    ensures
        res == lines_fit(commits_view(commits@), config@),
{
    let ghost cs = commits_view(commits@);
    let ghost cfg = config@;
    let n = commits.len();
    let mut added: u64 = 0;
    let mut deleted: u64 = 0;
    assert(cs.take(0) =~= Seq::<CommitView>::empty());
    for i in 0..n
        invariant
            n == cs.len(),
            cs == commits_view(commits@),
            cfg == config@,
            added == lines_added(cs.take(i as int), cfg),
            deleted == lines_deleted(cs.take(i as int), cfg),
            added <= i64::MAX,
            deleted <= i64::MAX,
    {
        let c = &commits[i];
        assert(cs.take(i + 1) =~= cs.take(i as int).push(cs[i as int]));
        proof {
            lemma_lines_push(cs.take(i as int), cs[i as int], cfg);
        }
        if !(config.no_merge && c.is_merge) {
            match counted_lines(&c.files, config) {
                Some((a, d)) => {
                    if a > 9223372036854775807u64 - added || d > 9223372036854775807u64 - deleted {
                        proof {
                            lemma_lines_prefix(cs, cfg, i + 1, n as int);
                            assert(cs.take(n as int) =~= cs);
                        }
                        return false;
                    }
                    added = added + a;
                    deleted = deleted + d;
                },
                None => {
                    proof {
                        lemma_lines_prefix(cs, cfg, i + 1, n as int);
                        assert(cs.take(n as int) =~= cs);
                    }
                    return false;
                },
            }
        }
    }
    assert(cs.take(n as int) =~= cs);
    true
}


} // verus!
