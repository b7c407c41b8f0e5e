//! Reports of a log: what counts (`counting`), rows per author and totals
//! (`authors`), activity per day (`days`) and per path (`paths`); building a
//! report and a dashboard from the output of git, and the laws they obey.
pub mod counting;
pub mod authors;
pub mod days;
pub mod paths;

use vstd::prelude::*;

use crate::config::{
    excludes_at_least, is_filtered, EffectiveConfig, EffectiveConfigView,
    lemma_more_exclusions_filter_more,
};
use crate::model::{
    AuthorStat, AuthorStatView, commits_view, points_view, paths_view, CommitRecord, CommitView,
    FileStatView, Dashboard, PathStat, PathStatView, Report, ReportMetadata, ReportMetadataView, ReportView,
    TimeseriesPoint, TimeseriesPointView,
};
use crate::git::current_branch;
use crate::parser::{parse_git_log, parse_log};
use crate::ranking::{keys, lemma_ranked_unique, sum_by, views, Ranked};
use crate::text::{clone_opt_string, lemma_lex_irreflexive, lemma_lex_transitive, lex_lt, trim};
use crate::report::counting::{
    considered, counted_additions, counted_deletions, is_considered, is_counted, line_totals_fit,
    lines_added, lines_deleted, lines_fit, merge_count, non_merge_count,
};
use crate::report::authors::{
    aggregate_authors, author_before, author_stat, author_sums_match, by_author, is_author_table,
    summarize,
    summary_of,
};
use crate::report::days::{
    aggregate_timeseries, day_additions, day_commits, day_deletions, day_point, day_sums_match,
    is_timeseries, on_day,
};
use crate::report::paths::{
    aggregate_paths, at_path, counted_files, file_additions, file_deletions, is_path_table,
    lemma_counted_files_lines, path_before, path_limit, path_stat, path_stat_of,
};

verus! {

// ---------------------------------------------------------------------------
// Reports
// ---------------------------------------------------------------------------

/// Every commit is a merge or not.
pub proof fn lemma_merges_and_others(cs: Seq<CommitView>)
    ensures
        merge_count(cs) + non_merge_count(cs) == cs.len(),
    decreases cs.len(),
{
    if cs.len() > 0 {
        lemma_merges_and_others(cs.drop_last());
    }
}

/// The error of a log whose counted lines exceed what a report holds.
pub open spec fn range_error() -> Seq<char> {
    "line totals exceed the range of a report"@
}

fn range_error_text() -> (res: String)
    ensures
        res@ == range_error(),
{
    "line totals exceed the range of a report".to_owned()
}

/// `r` is the report of the log text `raw_log` under `cfg`, for the branch
/// named by `branch_output`: it names the repository, the branch and the
/// time bounds, holds the table of authors and, as its summary, the totals
/// over those rows.
pub open spec fn is_report_of(
    r: ReportView,
    raw_log: Seq<char>,
    cfg: EffectiveConfigView,
    branch_output: Seq<char>,
) -> bool {
    &&& r.meta == ReportMetadataView {
        repo: cfg.repo,
        branch: trim(branch_output),
        since: cfg.since,
        until: cfg.until,
    }
    &&& is_author_table(r.authors, parse_log(raw_log), cfg)
    &&& r.summary == summary_of(r.authors)
}

fn report_of(commits: &Vec<CommitRecord>, config: &EffectiveConfig, branch_output: &str) -> (res: Report)
    requires
        lines_fit(commits_view(commits@), config@),
    ensures
        res@.meta == (ReportMetadataView {
            repo: config@.repo,
            branch: trim(branch_output@),
            since: config@.since,
            until: config@.until,
        }),
        is_author_table(res@.authors, commits_view(commits@), config@),
        author_sums_match(res@.authors, commits_view(commits@), config@),
        res@.summary == summary_of(res@.authors),
{
    let ghost cs = commits_view(commits@);
    let ghost cfg = config@;
    let authors = aggregate_authors(commits, config);
    let n = commits.len();
    proof {
        broadcast use vstd::seq_lib::group_filter_ensures;
        lemma_merges_and_others(considered(cs, cfg));
        cs.lemma_filter_len(|c: CommitView| is_considered(c, cfg));
        assert(cs.len() == commits@.len());
        assert(considered(cs, cfg).len() <= cs.len());
        assert(n == commits@.len());
    }
    let summary = summarize(&authors);
    let branch = current_branch(branch_output);
    let meta = ReportMetadata {
        repo: config.repo.clone(),
        branch,
        since: clone_opt_string(&config.since),
        until: clone_opt_string(&config.until),
    };
    Report { meta, summary, authors }
}

/// The report of the output of `git log --numstat` (see `parse_git_log`)
/// under `config`, for the branch named by the output of
/// `git branch --show-current`.  It fails exactly when the counted lines
/// added or deleted exceed the largest signed 64-bit number.  Its summary
/// holds the totals of the considered commits.
pub fn build_report(config: &EffectiveConfig, raw_log: &str, branch_output: &str) -> (res: Result<
    Report,
    String,
>)
    ensures
        res is Ok <==> lines_fit(parse_log(raw_log@), config@),
        res matches Err(e) ==> e@ == range_error(),
        res matches Ok(r) ==> is_report_of(r@, raw_log@, config@, branch_output@) && author_sums_match(
            r@.authors,
            parse_log(raw_log@),
            config@,
        ),
{
    let commits = parse_git_log(raw_log);
    if !line_totals_fit(&commits, config) {
        return Err(range_error_text());
    }
    Ok(report_of(&commits, config, branch_output))
}

/// The dashboard of the output of `git log --numstat` under `config`: the
/// report (as `build_report`), the activity per day and the busiest paths.
/// It fails exactly when `build_report` does.
pub fn build_dashboard(config: &EffectiveConfig, raw_log: &str, branch_output: &str) -> (res: Result<
    Dashboard,
    String,
>)
    ensures
        res is Ok <==> lines_fit(parse_log(raw_log@), config@),
        res matches Err(e) ==> e@ == range_error(),
        res matches Ok(d) ==> {
            &&& is_report_of(d@.report, raw_log@, config@, branch_output@)
            &&& author_sums_match(d@.report.authors, parse_log(raw_log@), config@)
            &&& is_timeseries(d@.timeseries, parse_log(raw_log@), config@)
            &&& day_sums_match(d@.timeseries, parse_log(raw_log@), config@)
            &&& is_path_table(d@.paths, parse_log(raw_log@), config@)
        },
{
    let commits = parse_git_log(raw_log);
    if !line_totals_fit(&commits, config) {
        return Err(range_error_text());
    }
    let report = report_of(&commits, config, branch_output);
    let timeseries = aggregate_timeseries(&commits, config);
    let paths = aggregate_paths(&commits, config);
    proof {
        assert(points_view(timeseries@) =~= views(timeseries@));
        assert(paths_view(paths@) =~= views(paths@));
    }
    Ok(Dashboard { report, timeseries, paths })
}

// ---------------------------------------------------------------------------
// Laws of a report
// ---------------------------------------------------------------------------

/// A sequence without merges counts no merge.
proof fn lemma_no_merges(s: Seq<CommitView>)
    requires
        forall|i: int| 0 <= i < s.len() ==> !(#[trigger] s[i]).is_merge,
    ensures
        merge_count(s) == 0,
    decreases s.len(),
{
    if s.len() > 0 {
        lemma_no_merges(s.drop_last());
    }
}

/// The summary of a report holds the totals of the commits the report
/// counts: as many commits as are considered, each a merge or not, and the
/// lines added and deleted by their counted files.
pub proof fn lemma_report_totals(
    r: ReportView,
    raw_log: Seq<char>,
    cfg: EffectiveConfigView,
    branch_output: Seq<char>,
)
    requires
        is_report_of(r, raw_log, cfg, branch_output),
        author_sums_match(r.authors, parse_log(raw_log), cfg),
    ensures
        r.summary.total_authors == r.authors.len(),
        r.summary.total_commits == considered(parse_log(raw_log), cfg).len(),
        r.summary.merge_commits + r.summary.effective_commits == r.summary.total_commits,
        r.summary.total_additions == lines_added(parse_log(raw_log), cfg),
        r.summary.total_deletions == lines_deleted(parse_log(raw_log), cfg),
        r.summary.net_lines == r.summary.total_additions - r.summary.total_deletions,
{
    lemma_merges_and_others(considered(parse_log(raw_log), cfg));
}

/// With merges left out, a report counts no merge: neither its summary nor
/// any author row, and every counted commit is an effective one.
pub proof fn lemma_no_merge_counts_no_merges(
    r: ReportView,
    raw_log: Seq<char>,
    cfg: EffectiveConfigView,
    branch_output: Seq<char>,
)
    requires
        is_report_of(r, raw_log, cfg, branch_output),
        author_sums_match(r.authors, parse_log(raw_log), cfg),
        cfg.no_merge,
    ensures
        r.summary.merge_commits == 0,
        r.summary.effective_commits == r.summary.total_commits,
        forall|i: int|
            0 <= i < r.authors.len() ==> (#[trigger] r.authors[i]).merge_commit_count == 0
                && r.authors[i].effective_commit_count == r.authors[i].commit_count,
{
    broadcast use vstd::seq_lib::group_filter_ensures;

    let cs = parse_log(raw_log);
    lemma_merges_and_others(considered(cs, cfg));
    lemma_no_merges(considered(cs, cfg));
    assert forall|i: int| 0 <= i < r.authors.len() implies (#[trigger] r.authors[i]).merge_commit_count
        == 0 && r.authors[i].effective_commit_count == r.authors[i].commit_count by {
        let mine = by_author(cs, cfg, r.authors[i].email);
        assert(r.authors[i] == author_stat(cs, cfg, r.authors[i].email));
        lemma_no_merges(mine);
        lemma_merges_and_others(mine);
    }
}

/// Excluding more never counts more lines of the files of one sequence of
/// files.
proof fn lemma_more_exclusions_fewer_file_lines(
    fs: Seq<FileStatView>,
    cfg: EffectiveConfigView,
    more: EffectiveConfigView,
)
    requires
        excludes_at_least(more, cfg),
    ensures
        counted_additions(fs, more) <= counted_additions(fs, cfg),
        counted_deletions(fs, more) <= counted_deletions(fs, cfg),
    decreases fs.len(),
{
    if fs.len() > 0 {
        lemma_more_exclusions_fewer_file_lines(fs.drop_last(), cfg, more);
        if is_filtered(cfg, fs.last().path) {
            lemma_more_exclusions_filter_more(cfg, more, fs.last().path);
        }
    }
}

/// Adding exclusions never counts more lines: with the same treatment of
/// merges, a configuration that excludes at least what `cfg` excludes counts
/// at most the lines added and deleted that `cfg` counts.
pub proof fn lemma_more_exclusions_count_fewer_lines(
    cs: Seq<CommitView>,
    cfg: EffectiveConfigView,
    more: EffectiveConfigView,
)
    requires
        more.no_merge == cfg.no_merge,
        excludes_at_least(more, cfg),
    ensures
        lines_added(cs, more) <= lines_added(cs, cfg),
        lines_deleted(cs, more) <= lines_deleted(cs, cfg),
    decreases cs.len(),
{
    if cs.len() > 0 {
        lemma_more_exclusions_count_fewer_lines(cs.drop_last(), cfg, more);
        lemma_more_exclusions_fewer_file_lines(cs.last().files, cfg, more);
    }
}

/// The activity per day of a dashboard adds up to the totals of its report:
/// the commits of all days are the report's commits, and the lines added
/// and deleted on all days are the report's.
pub proof fn lemma_days_add_up_to_summary(
    r: ReportView,
    days: Seq<TimeseriesPointView>,
    raw_log: Seq<char>,
    cfg: EffectiveConfigView,
    branch_output: Seq<char>,
)
    requires
        is_report_of(r, raw_log, cfg, branch_output),
        author_sums_match(r.authors, parse_log(raw_log), cfg),
        day_sums_match(days, parse_log(raw_log), cfg),
    ensures
        sum_by(days, day_commits()) == r.summary.total_commits,
        sum_by(days, day_additions()) == r.summary.total_additions,
        sum_by(days, day_deletions()) == r.summary.total_deletions,
{
    lemma_report_totals(r, raw_log, cfg, branch_output);
}

/// The rows of one author table are rows of any other table of the same
/// commits.
proof fn lemma_author_rows_shared(
    t1: Seq<AuthorStatView>,
    t2: Seq<AuthorStatView>,
    cs: Seq<CommitView>,
    cfg: EffectiveConfigView,
)
    requires
        is_author_table(t1, cs, cfg),
        is_author_table(t2, cs, cfg),
    ensures
        forall|x: AuthorStatView| #[trigger] t1.contains(x) ==> t2.contains(x),
{
    assert forall|x: AuthorStatView| #[trigger] t1.contains(x) implies t2.contains(x) by {
        let i = choose|i: int| 0 <= i < t1.len() && t1[i] == x;
        assert(by_author(cs, cfg, t1[i].email).len() > 0);
        assert(keys::<AuthorStat>(t2).contains(x.email));
        let j = choose|j: int| 0 <= j < keys::<AuthorStat>(t2).len() && keys::<AuthorStat>(t2)[j] == x.email;
        assert(keys::<AuthorStat>(t2)[j] == t2[j].email);
        assert(t2[j] == author_stat(cs, cfg, t2[j].email));
    }
}

/// A report is fixed by the log, the settings and the output naming the
/// branch: two reports of the same inputs are equal, so the report in the
/// dashboard `build_dashboard` gives is the report `build_report` gives.
pub proof fn lemma_report_is_determined(
    r1: ReportView,
    r2: ReportView,
    raw_log: Seq<char>,
    cfg: EffectiveConfigView,
    branch_output: Seq<char>,
)
    requires
        is_report_of(r1, raw_log, cfg, branch_output),
        is_report_of(r2, raw_log, cfg, branch_output),
    ensures
        r1 == r2,
{
    lemma_author_table_is_determined(r1.authors, r2.authors, parse_log(raw_log), cfg);
}

/// The table of authors is fixed by the commits and the settings: two
/// tables of authors of the same commits are equal.
pub proof fn lemma_author_table_is_determined(
    t1: Seq<AuthorStatView>,
    t2: Seq<AuthorStatView>,
    cs: Seq<CommitView>,
    cfg: EffectiveConfigView,
)
    requires
        is_author_table(t1, cs, cfg),
        is_author_table(t2, cs, cfg),
    ensures
        t1 == t2,
{
    lemma_author_rows_shared(t1, t2, cs, cfg);
    lemma_author_rows_shared(t2, t1, cs, cfg);
    lemma_ranked_unique::<AuthorStat>(t1, t2);
}

/// Every file the counted files of `cs` hold is counted.
proof fn lemma_counted_files_are_counted(cs: Seq<CommitView>, cfg: EffectiveConfigView)
    ensures
        forall|k: int|
            0 <= k < counted_files(cs, cfg).len() ==> is_counted(
                #[trigger] counted_files(cs, cfg)[k],
                cfg,
            ),
    decreases cs.len(),
{
    broadcast use vstd::seq_lib::group_filter_ensures;

    if cs.len() > 0 {
        lemma_counted_files_are_counted(cs.drop_last(), cfg);
        let pre = counted_files(cs.drop_last(), cfg);
        let more = if is_considered(cs.last(), cfg) {
            cs.last().files.filter(|f: FileStatView| is_counted(f, cfg))
        } else {
            Seq::empty()
        };
        assert forall|k: int| 0 <= k < counted_files(cs, cfg).len() implies is_counted(
            #[trigger] counted_files(cs, cfg)[k],
            cfg,
        ) by {
            if k < pre.len() {
                assert(counted_files(cs, cfg)[k] == pre[k]);
            } else {
                assert(counted_files(cs, cfg)[k] == more[k - pre.len()]);
            }
        }
    }
}

/// Path filtering comes before aggregation: no path the settings filter is
/// ever listed among the busiest paths.
pub proof fn lemma_listed_paths_are_not_filtered(
    t: Seq<PathStatView>,
    cs: Seq<CommitView>,
    cfg: EffectiveConfigView,
)
    requires
        is_path_table(t, cs, cfg),
    ensures
        forall|i: int| 0 <= i < t.len() ==> !is_filtered(cfg, (#[trigger] t[i]).path),
{
    broadcast use vstd::seq_lib::group_filter_ensures;

    lemma_counted_files_are_counted(cs, cfg);
    assert forall|i: int| 0 <= i < t.len() implies !is_filtered(cfg, (#[trigger] t[i]).path) by {
        let fs = counted_files(cs, cfg);
        let p = t[i].path;
        let mine = at_path(fs, p);
        assert(mine.len() > 0);
        assert(mine[0].path == p);
        assert(mine.contains(mine[0]));
        fs.lemma_filter_contains_rev(|f: FileStatView| f.path == p, mine[0]);
        assert(fs.contains(mine[0]));
        let k = choose|k: int| 0 <= k < fs.len() && fs[k] == mine[0];
        assert(is_counted(fs[k], cfg));
    }
}


/// Which commits of an author count depends on the treatment of merges
/// only, not on the exclusions.
proof fn lemma_by_author_ignores_exclusions(
    cs: Seq<CommitView>,
    cfg: EffectiveConfigView,
    more: EffectiveConfigView,
    e: Seq<char>,
)
    requires
        more.no_merge == cfg.no_merge,
    ensures
        by_author(cs, more, e) == by_author(cs, cfg, e),
{
    assert((|c: CommitView| is_considered(c, more) && c.author_email == e) =~= (|c: CommitView|
        is_considered(c, cfg) && c.author_email == e));
}

/// An author row with its lines left out: what orders the rows.
pub open spec fn rank_row(r: AuthorStatView) -> AuthorStatView {
    AuthorStatView {
        name: Seq::empty(),
        email: r.email,
        commit_count: r.commit_count,
        merge_commit_count: 0,
        effective_commit_count: r.effective_commit_count,
        additions: 0,
        deletions: 0,
        net_lines: 0,
    }
}

/// The rows of `t` with their lines left out.
pub open spec fn rank_rows(t: Seq<AuthorStatView>) -> Seq<AuthorStatView> {
    t.map_values(|r: AuthorStatView| rank_row(r))
}

/// The rows of `t1`, with lines left out, are rows of `t2`, with lines left
/// out, when the two tables differ only in their exclusions.
proof fn lemma_rank_rows_shared(
    t1: Seq<AuthorStatView>,
    t2: Seq<AuthorStatView>,
    cs: Seq<CommitView>,
    c1: EffectiveConfigView,
    c2: EffectiveConfigView,
)
    requires
        is_author_table(t1, cs, c1),
        is_author_table(t2, cs, c2),
        c1.no_merge == c2.no_merge,
    ensures
        forall|x: AuthorStatView| #[trigger] rank_rows(t1).contains(x) ==> rank_rows(t2).contains(x),
{
    let p1 = rank_rows(t1);
    let p2 = rank_rows(t2);
    assert forall|x: AuthorStatView| #[trigger] p1.contains(x) implies p2.contains(x) by {
        let i = choose|i: int| 0 <= i < p1.len() && p1[i] == x;
        let e = t1[i].email;
        lemma_by_author_ignores_exclusions(cs, c1, c2, e);
        assert(by_author(cs, c1, e).len() > 0);
        assert(by_author(cs, c2, e).len() > 0);
        assert(keys::<AuthorStat>(t2).contains(e));
        let j = choose|j: int| 0 <= j < keys::<AuthorStat>(t2).len() && keys::<AuthorStat>(t2)[j] == e;
        assert(keys::<AuthorStat>(t2)[j] == t2[j].email);
        assert(t2[j] == author_stat(cs, c2, e));
        assert(t1[i] == author_stat(cs, c1, e));
        assert(p2[j] == rank_row(t2[j]));
        assert(p2[j] == x);
    }
}

/// Adding exclusions changes only the lines of each author: with the same
/// treatment of merges and at least the exclusions of `cfg`, the table of
/// authors lists the same authors in the same order with the same names and
/// commit counts, and each row at most the lines it had.
pub proof fn lemma_more_exclusions_keep_author_rows(
    t1: Seq<AuthorStatView>,
    t2: Seq<AuthorStatView>,
    cs: Seq<CommitView>,
    cfg: EffectiveConfigView,
    more: EffectiveConfigView,
)
    requires
        is_author_table(t1, cs, cfg),
        is_author_table(t2, cs, more),
        more.no_merge == cfg.no_merge,
        excludes_at_least(more, cfg),
    ensures
        t2.len() == t1.len(),
        forall|i: int|
            0 <= i < t1.len() ==> {
                &&& (#[trigger] t2[i]).email == t1[i].email
                &&& t2[i].name == t1[i].name
                &&& t2[i].commit_count == t1[i].commit_count
                &&& t2[i].merge_commit_count == t1[i].merge_commit_count
                &&& t2[i].effective_commit_count == t1[i].effective_commit_count
                &&& t2[i].additions <= t1[i].additions
                &&& t2[i].deletions <= t1[i].deletions
            },
{
    let p1 = rank_rows(t1);
    let p2 = rank_rows(t2);
    lemma_rank_rows_shared(t1, t2, cs, cfg, more);
    lemma_rank_rows_shared(t2, t1, cs, more, cfg);
    assert forall|i: int, j: int| 0 <= i < j < p1.len() implies AuthorStat::ranks_before(
        #[trigger] p1[i],
        #[trigger] p1[j],
    ) by {
        assert(author_before(t1[i], t1[j]));
    }
    assert forall|i: int, j: int| 0 <= i < j < p2.len() implies AuthorStat::ranks_before(
        #[trigger] p2[i],
        #[trigger] p2[j],
    ) by {
        assert(author_before(t2[i], t2[j]));
    }
    lemma_ranked_unique::<AuthorStat>(p1, p2);
    assert forall|i: int| 0 <= i < t1.len() implies {
        &&& (#[trigger] t2[i]).email == t1[i].email
        &&& t2[i].name == t1[i].name
        &&& t2[i].commit_count == t1[i].commit_count
        &&& t2[i].merge_commit_count == t1[i].merge_commit_count
        &&& t2[i].effective_commit_count == t1[i].effective_commit_count
        &&& t2[i].additions <= t1[i].additions
        &&& t2[i].deletions <= t1[i].deletions
    } by {
        assert(p1[i] == p2[i]);
        let e = t1[i].email;
        lemma_by_author_ignores_exclusions(cs, cfg, more, e);
        assert(t1[i] == author_stat(cs, cfg, e));
        assert(t2[i] == author_stat(cs, more, e));
        lemma_more_exclusions_count_fewer_lines(by_author(cs, cfg, e), cfg, more);
    }
}


/// Filtering by `p` and then by `q` is filtering by both.
proof fn lemma_filter_filter<A>(s: Seq<A>, p: spec_fn(A) -> bool, q: spec_fn(A) -> bool)
    ensures
        s.filter(p).filter(q) == s.filter(|x: A| p(x) && q(x)),
    decreases s.len(),
{
    let pq = |x: A| p(x) && q(x);
    if s.len() == 0 {
        reveal(Seq::filter);
        assert(s.filter(p) =~= Seq::<A>::empty());
        assert(s.filter(p).filter(q) =~= Seq::<A>::empty());
        assert(s.filter(pq) =~= Seq::<A>::empty());
    } else {
        let pre = s.drop_last();
        let x = s.last();
        assert(pre.push(x) =~= s);
        lemma_filter_filter(pre, p, q);
        pre.lemma_filter_push(x, p);
        pre.lemma_filter_push(x, pq);
        if p(x) {
            pre.filter(p).lemma_filter_push(x, q);
        }
    }
}

/// The commits of `cs` that are not merges.
pub open spec fn without_merges(cs: Seq<CommitView>) -> Seq<CommitView> {
    cs.filter(|c: CommitView| !c.is_merge)
}

/// `cfg` with merges counted.
pub open spec fn counting_merges(cfg: EffectiveConfigView) -> EffectiveConfigView {
    EffectiveConfigView { no_merge: false, ..cfg }
}

/// Lines of commits none of which is a merge do not depend on the
/// treatment of merges.
proof fn lemma_lines_without_merges(s: Seq<CommitView>, cfg: EffectiveConfigView)
    requires
        forall|i: int| 0 <= i < s.len() ==> !(#[trigger] s[i]).is_merge,
    ensures
        lines_added(s, cfg) == lines_added(s, counting_merges(cfg)),
        lines_deleted(s, cfg) == lines_deleted(s, counting_merges(cfg)),
    decreases s.len(),
{
    if s.len() > 0 {
        lemma_lines_without_merges(s.drop_last(), cfg);
        assert((|f: FileStatView| is_counted(f, cfg)) =~= (|f: FileStatView|
            is_counted(f, counting_merges(cfg))));
        lemma_same_filters_same_lines(s.last().files, cfg, counting_merges(cfg));
    }
}

/// Files count the same lines under settings with the same exclusions.
proof fn lemma_same_filters_same_lines(
    fs: Seq<FileStatView>,
    cfg: EffectiveConfigView,
    other: EffectiveConfigView,
)
    requires
        other.exclude_dirs == cfg.exclude_dirs,
        other.exclude_extensions == cfg.exclude_extensions,
    ensures
        counted_additions(fs, other) == counted_additions(fs, cfg),
        counted_deletions(fs, other) == counted_deletions(fs, cfg),
    decreases fs.len(),
{
    if fs.len() > 0 {
        lemma_same_filters_same_lines(fs.drop_last(), cfg, other);
    }
}

/// With merges left out, the commits of an author are those among the
/// commits without merges.
proof fn lemma_by_author_without_merges(cs: Seq<CommitView>, cfg: EffectiveConfigView, e: Seq<char>)
    requires
        cfg.no_merge,
    ensures
        by_author(cs, cfg, e) == by_author(without_merges(cs), counting_merges(cfg), e),
        author_stat(cs, cfg, e) == author_stat(without_merges(cs), counting_merges(cfg), e),
{
    broadcast use vstd::seq_lib::group_filter_ensures;

    let all = counting_merges(cfg);
    let n = |c: CommitView| !c.is_merge;
    let q = |c: CommitView| is_considered(c, all) && c.author_email == e;
    lemma_filter_filter(cs, n, q);
    assert((|c: CommitView| n(c) && q(c)) =~= (|c: CommitView|
        is_considered(c, cfg) && c.author_email == e));
    let mine = by_author(cs, cfg, e);
    assert forall|i: int| 0 <= i < mine.len() implies !(#[trigger] mine[i]).is_merge by {
        assert(is_considered(mine[i], cfg));
    }
    lemma_lines_without_merges(mine, cfg);
}

/// Leaving merges out is counting the commits without merges: with merges
/// left out, a table is the table of authors of `cs` exactly when it is the
/// table of authors of the commits of `cs` that are not merges, with merges
/// counted.
pub proof fn lemma_no_merge_is_commits_without_merges(
    t: Seq<AuthorStatView>,
    cs: Seq<CommitView>,
    cfg: EffectiveConfigView,
)
    requires
        cfg.no_merge,
    ensures
        is_author_table(t, cs, cfg) == is_author_table(t, without_merges(cs), counting_merges(cfg)),
{
    let wm = without_merges(cs);
    let all = counting_merges(cfg);
    assert forall|e: Seq<char>| #![trigger by_author(cs, cfg, e)] #![trigger by_author(wm, all, e)]
        by_author(cs, cfg, e) == by_author(wm, all, e) && author_stat(cs, cfg, e) == author_stat(
            wm,
            all,
            e,
        ) by {
        lemma_by_author_without_merges(cs, cfg, e);
    }
}


/// The days of one activity table are days of any other table of the same
/// commits.
proof fn lemma_days_shared(
    t1: Seq<TimeseriesPointView>,
    t2: Seq<TimeseriesPointView>,
    cs: Seq<CommitView>,
    cfg: EffectiveConfigView,
)
    requires
        is_timeseries(t1, cs, cfg),
        is_timeseries(t2, cs, cfg),
    ensures
        forall|x: TimeseriesPointView| #[trigger] t1.contains(x) ==> t2.contains(x),
{
    assert forall|x: TimeseriesPointView| #[trigger] t1.contains(x) implies t2.contains(x) by {
        let i = choose|i: int| 0 <= i < t1.len() && t1[i] == x;
        assert(on_day(cs, cfg, t1[i].date).len() > 0);
        assert(keys::<TimeseriesPoint>(t2).contains(x.date));
        let j = choose|j: int|
            0 <= j < keys::<TimeseriesPoint>(t2).len() && keys::<TimeseriesPoint>(t2)[j] == x.date;
        assert(keys::<TimeseriesPoint>(t2)[j] == t2[j].date);
        assert(t2[j] == day_point(cs, cfg, t2[j].date));
    }
}

/// The activity per day is fixed by the commits and the settings: two
/// activity tables of the same commits are equal.
pub proof fn lemma_days_are_determined(
    t1: Seq<TimeseriesPointView>,
    t2: Seq<TimeseriesPointView>,
    cs: Seq<CommitView>,
    cfg: EffectiveConfigView,
)
    requires
        is_timeseries(t1, cs, cfg),
        is_timeseries(t2, cs, cfg),
    ensures
        t1 == t2,
{
    lemma_days_shared(t1, t2, cs, cfg);
    lemma_days_shared(t2, t1, cs, cfg);
    lemma_ranked_unique::<TimeseriesPoint>(t1, t2);
}


/// The rows of one table of the busiest paths are rows of any other table of
/// the same commits.
proof fn lemma_path_rows_shared(
    t1: Seq<PathStatView>,
    t2: Seq<PathStatView>,
    cs: Seq<CommitView>,
    cfg: EffectiveConfigView,
)
    requires
        is_path_table(t1, cs, cfg),
        is_path_table(t2, cs, cfg),
    ensures
        forall|x: PathStatView| #[trigger] t1.contains(x) ==> t2.contains(x),
{
    assert forall|x: PathStatView| #[trigger] t1.contains(x) implies t2.contains(x) by {
        let fs = counted_files(cs, cfg);
        let i = choose|i: int| 0 <= i < t1.len() && t1[i] == x;
        let p = x.path;
        assert(at_path(fs, t1[i].path).len() > 0);
        assert(x == path_stat(cs, cfg, p));
        if keys::<PathStat>(t2).contains(p) {
            let j = choose|j: int|
                0 <= j < keys::<PathStat>(t2).len() && keys::<PathStat>(t2)[j] == p;
            assert(keys::<PathStat>(t2)[j] == t2[j].path);
            assert(t2[j] == path_stat(cs, cfg, t2[j].path));
        } else {
            assert(t2.len() == path_limit());
            assert forall|k: int| 0 <= k < t2.len() implies t1.contains(#[trigger] t2[k]) by {
                let y = t2[k];
                assert(at_path(fs, t2[k].path).len() > 0);
                assert(y == path_stat(cs, cfg, y.path));
                assert(path_before(t2[k], path_stat(cs, cfg, p)));
                if keys::<PathStat>(t1).contains(y.path) {
                    let m = choose|m: int|
                        0 <= m < keys::<PathStat>(t1).len() && keys::<PathStat>(t1)[m] == y.path;
                    assert(keys::<PathStat>(t1)[m] == t1[m].path);
                    assert(t1[m] == path_stat(cs, cfg, t1[m].path));
                    assert(t1[m] == y);
                } else {
                    assert(path_before(t1[i], path_stat(cs, cfg, y.path)));
                    PathStat::lemma_ranks_transitive(x, y, x);
                    PathStat::lemma_ranks_irreflexive(x);
                }
            }
            if t2.contains(x) {
                let k = choose|k: int| 0 <= k < t2.len() && t2[k] == x;
                assert(path_before(t2[k], path_stat(cs, cfg, p)));
                PathStat::lemma_ranks_irreflexive(x);
            }
            assert forall|a: int, b: int| 0 <= a < t2.len() && 0 <= b < t2.len() && a != b implies t2[a]
                != t2[b] by {
                PathStat::lemma_ranks_irreflexive(t2[a]);
                if a < b {
                    assert(path_before(t2[a], t2[b]));
                } else {
                    assert(path_before(t2[b], t2[a]));
                }
            }
            assert(t2.no_duplicates());
            t2.unique_seq_to_set();
            t1.lemma_cardinality_of_set();
            let more = t2.to_set().insert(x);
            assert(more.subset_of(t1.to_set())) by {
                assert forall|z: PathStatView| more.contains(z) implies t1.to_set().contains(z) by {
                    if z != x {
                        assert(t2.to_set().contains(z));
                        let k = choose|k: int| 0 <= k < t2.len() && t2[k] == z;
                        assert(t1.contains(t2[k]));
                    }
                }
            }
            vstd::set_lib::lemma_len_subset(more, t1.to_set());
            assert(!t2.to_set().contains(x));
            assert(false);
        }
    }
}

/// The busiest paths are fixed by the commits and the settings: two tables
/// of the busiest paths of the same commits are equal.
pub proof fn lemma_paths_are_determined(
    t1: Seq<PathStatView>,
    t2: Seq<PathStatView>,
    cs: Seq<CommitView>,
    cfg: EffectiveConfigView,
)
    requires
        is_path_table(t1, cs, cfg),
        is_path_table(t2, cs, cfg),
    ensures
        t1 == t2,
{
    lemma_path_rows_shared(t1, t2, cs, cfg);
    lemma_path_rows_shared(t2, t1, cs, cfg);
    lemma_ranked_unique::<PathStat>(t1, t2);
}


/// The lines added on a path row.
pub open spec fn path_additions() -> spec_fn(PathStatView) -> nat {
    |r: PathStatView| r.additions
}

/// The lines deleted on a path row.
pub open spec fn path_deletions() -> spec_fn(PathStatView) -> nat {
    |r: PathStatView| r.deletions
}

/// The lines added and deleted among `fs` on each of the paths `ps`, summed.
pub open spec fn lines_on_paths(ps: Seq<Seq<char>>, fs: Seq<FileStatView>) -> (nat, nat)
    decreases ps.len(),
{
    if ps.len() == 0 {
        (0, 0)
    } else {
        let rest = lines_on_paths(ps.drop_last(), fs);
        let mine = at_path(fs, ps.last());
        (rest.0 + file_additions(mine), rest.1 + file_deletions(mine))
    }
}

/// One more file adds its lines to the sum over distinct paths once when
/// its path is among them.
proof fn lemma_lines_on_paths_push(ps: Seq<Seq<char>>, fs: Seq<FileStatView>, f: FileStatView)
    requires
        ps.no_duplicates(),
    ensures
        lines_on_paths(ps, fs.push(f)).0 == lines_on_paths(ps, fs).0 + if ps.contains(f.path) {
            f.additions
        } else {
            0
        },
        lines_on_paths(ps, fs.push(f)).1 == lines_on_paths(ps, fs).1 + if ps.contains(f.path) {
            f.deletions
        } else {
            0
        },
    decreases ps.len(),
{
    if ps.len() > 0 {
        let qs = ps.drop_last();
        let p = ps.last();
        assert(qs.no_duplicates());
        lemma_lines_on_paths_push(qs, fs, f);
        fs.lemma_filter_push(f, |g: FileStatView| g.path == p);
        if f.path == p {
            assert(at_path(fs.push(f), p) == at_path(fs, p).push(f));
            assert(at_path(fs, p).push(f).drop_last() =~= at_path(fs, p));
            assert(!qs.contains(p)) by {
                if qs.contains(p) {
                    let k = choose|k: int| 0 <= k < qs.len() && qs[k] == p;
                    assert(ps[k] == ps[ps.len() - 1]);
                }
            }
        }
        assert(ps.contains(f.path) == (qs.contains(f.path) || p == f.path)) by {
            if ps.contains(f.path) {
                let k = choose|k: int| 0 <= k < ps.len() && ps[k] == f.path;
                if k < qs.len() {
                    assert(qs[k] == f.path);
                }
            }
            if qs.contains(f.path) {
                let k = choose|k: int| 0 <= k < qs.len() && qs[k] == f.path;
                assert(ps[k] == f.path);
            }
        }
    }
}

/// Over distinct paths, the lines on those paths are at most the lines of
/// all files.
proof fn lemma_lines_on_paths_bounded(ps: Seq<Seq<char>>, fs: Seq<FileStatView>)
    requires
        ps.no_duplicates(),
    ensures
        lines_on_paths(ps, fs).0 <= file_additions(fs),
        lines_on_paths(ps, fs).1 <= file_deletions(fs),
    decreases fs.len(),
{
    if fs.len() == 0 {
        lemma_lines_on_no_files(ps, fs);
    } else {
        let pre = fs.drop_last();
        assert(pre.push(fs.last()) =~= fs);
        lemma_lines_on_paths_bounded(ps, pre);
        lemma_lines_on_paths_push(ps, pre, fs.last());
    }
}

/// No files, no lines on any path.
proof fn lemma_lines_on_no_files(ps: Seq<Seq<char>>, fs: Seq<FileStatView>)
    requires
        fs.len() == 0,
    ensures
        lines_on_paths(ps, fs) == (0nat, 0nat),
    decreases ps.len(),
{
    broadcast use vstd::seq_lib::group_filter_ensures;

    if ps.len() > 0 {
        lemma_lines_on_no_files(ps.drop_last(), fs);
        let mine = at_path(fs, ps.last());
        assert(mine.len() == 0);
        assert(mine =~= Seq::<FileStatView>::empty());
    }
}

/// The sums over path rows are the lines on their paths.
proof fn lemma_path_sums(t: Seq<PathStatView>, fs: Seq<FileStatView>)
    requires
        forall|i: int|
            0 <= i < t.len() ==> #[trigger] t[i] == path_stat_of(fs, t[i].path),
    ensures
        sum_by(t, path_additions()) == lines_on_paths(keys::<PathStat>(t), fs).0,
        sum_by(t, path_deletions()) == lines_on_paths(keys::<PathStat>(t), fs).1,
    decreases t.len(),
{
    if t.len() > 0 {
        let pre = t.drop_last();
        assert forall|i: int| 0 <= i < pre.len() implies #[trigger] pre[i] == path_stat_of(
            fs,
            pre[i].path,
        ) by {
            assert(pre[i] == t[i]);
        }
        lemma_path_sums(pre, fs);
        assert(keys::<PathStat>(t).drop_last() =~= keys::<PathStat>(pre));
        assert(t[t.len() - 1] == path_stat_of(fs, t[t.len() - 1].path));
    }
}

/// The busiest paths hold no more lines than the report: the lines added
/// and deleted on the listed paths are at most the lines added and deleted
/// by all counted files.
pub proof fn lemma_listed_path_lines_within_totals(
    t: Seq<PathStatView>,
    cs: Seq<CommitView>,
    cfg: EffectiveConfigView,
)
    requires
        is_path_table(t, cs, cfg),
    ensures
        sum_by(t, path_additions()) <= lines_added(cs, cfg),
        sum_by(t, path_deletions()) <= lines_deleted(cs, cfg),
{
    let fs = counted_files(cs, cfg);
    let ks = keys::<PathStat>(t);
    assert forall|i: int| 0 <= i < t.len() implies #[trigger] t[i] == path_stat_of(fs, t[i].path) by {
        assert(t[i] == path_stat(cs, cfg, t[i].path));
    }
    assert forall|a: int, b: int| 0 <= a < ks.len() && 0 <= b < ks.len() && a != b implies ks[a]
        != ks[b] by {
        assert(ks[a] == t[a].path && ks[b] == t[b].path);
        assert(t[a] == path_stat(cs, cfg, t[a].path));
        assert(t[b] == path_stat(cs, cfg, t[b].path));
        PathStat::lemma_ranks_irreflexive(t[a]);
        if a < b {
            assert(path_before(t[a], t[b]));
        } else {
            assert(path_before(t[b], t[a]));
        }
    }
    assert(ks.no_duplicates());
    lemma_path_sums(t, fs);
    lemma_lines_on_paths_bounded(ks, fs);
    lemma_counted_files_lines(cs, cfg);
}

/// Leaving merges out is counting the commits without merges under the same
/// settings: with merges left out, a table is the table of authors of `cs`
/// exactly when it is the table of authors of the commits of `cs` that are
/// not merges, and no row of it counts a merge.
pub proof fn lemma_no_merge_keeps_only_commits_without_merges(
    t: Seq<AuthorStatView>,
    cs: Seq<CommitView>,
    cfg: EffectiveConfigView,
)
    requires
        cfg.no_merge,
    ensures
        is_author_table(t, cs, cfg) == is_author_table(t, without_merges(cs), cfg),
        is_author_table(t, cs, cfg) ==> forall|i: int|
            0 <= i < t.len() ==> (#[trigger] t[i]).merge_commit_count == 0 && t[i].commit_count
                == t[i].effective_commit_count,
{
    broadcast use vstd::seq_lib::group_filter_ensures;

    let wm = without_merges(cs);
    assert forall|e: Seq<char>| #![trigger by_author(cs, cfg, e)] #![trigger by_author(wm, cfg, e)]
        by_author(cs, cfg, e) == by_author(wm, cfg, e) by {
        let n = |c: CommitView| !c.is_merge;
        let q = |c: CommitView| is_considered(c, cfg) && c.author_email == e;
        lemma_filter_filter(cs, n, q);
        assert((|c: CommitView| n(c) && q(c)) =~= q);
    }
    if is_author_table(t, cs, cfg) {
        assert forall|i: int| 0 <= i < t.len() implies (#[trigger] t[i]).merge_commit_count == 0
            && t[i].commit_count == t[i].effective_commit_count by {
            let mine = by_author(cs, cfg, t[i].email);
            assert(t[i] == author_stat(cs, cfg, t[i].email));
            assert forall|k: int| 0 <= k < mine.len() implies !(#[trigger] mine[k]).is_merge by {
                assert(is_considered(mine[k], cfg));
            }
            lemma_no_merges(mine);
            lemma_merges_and_others(mine);
        }
    }
}

/// With merges left out, the table of authors of `cs` equals the table of
/// authors of the commits of `cs` that are not merges, under the same
/// settings: what `aggregate_authors` gives for both.
pub proof fn lemma_no_merge_table_equals_table_without_merges(
    t1: Seq<AuthorStatView>,
    t2: Seq<AuthorStatView>,
    cs: Seq<CommitView>,
    cfg: EffectiveConfigView,
)
    requires
        cfg.no_merge,
        is_author_table(t1, cs, cfg),
        is_author_table(t2, without_merges(cs), cfg),
    ensures
        t1 == t2,
{
    lemma_no_merge_keeps_only_commits_without_merges(t1, cs, cfg);
    lemma_author_table_is_determined(t1, t2, without_merges(cs), cfg);
}

/// The busiest paths come in order of lines added, most first; among equal
/// lines added, the path changed more often first; among equal counts, in
/// the order of their paths.
pub proof fn lemma_path_table_order(t: Seq<PathStatView>, cs: Seq<CommitView>, cfg: EffectiveConfigView)
    requires
        is_path_table(t, cs, cfg),
    ensures
        forall|i: int, j: int|
            0 <= i < t.len() && 0 <= j < t.len() && (#[trigger] t[i]).additions > (
            #[trigger] t[j]).additions ==> i < j,
        forall|i: int, j: int|
            0 <= i < t.len() && 0 <= j < t.len() && (#[trigger] t[i]).additions == (
            #[trigger] t[j]).additions && t[i].commits > t[j].commits ==> i < j,
        forall|i: int, j: int|
            0 <= i < t.len() && 0 <= j < t.len() && (#[trigger] t[i]).additions == (
            #[trigger] t[j]).additions && t[i].commits == t[j].commits && lex_lt(t[i].path, t[j].path)
                ==> i < j,
{
    assert forall|i: int, j: int|
        0 <= i < t.len() && 0 <= j < t.len() && (#[trigger] t[i]).additions == (
        #[trigger] t[j]).additions && t[i].commits == t[j].commits && lex_lt(t[i].path, t[j].path)
        implies i < j by {
        lemma_lex_irreflexive(t[i].path);
        if j < i {
            assert(path_before(t[j], t[i]));
            lemma_lex_transitive(t[i].path, t[j].path, t[i].path);
        }
    }
    assert forall|i: int, j: int|
        0 <= i < t.len() && 0 <= j < t.len() && (#[trigger] t[i]).additions > (
        #[trigger] t[j]).additions implies i < j by {
        if j < i {
            assert(path_before(t[j], t[i]));
        }
    }
    assert forall|i: int, j: int|
        0 <= i < t.len() && 0 <= j < t.len() && (#[trigger] t[i]).additions == (
        #[trigger] t[j]).additions && t[i].commits > t[j].commits implies i < j by {
        if j < i {
            assert(path_before(t[j], t[i]));
        }
    }
}

/// Authors come in order of effective commits, most first; among equal
/// effective commits, more commits first; among equal counts, in the order
/// of their emails.
pub proof fn lemma_author_table_order(
    t: Seq<AuthorStatView>,
    cs: Seq<CommitView>,
    cfg: EffectiveConfigView,
)
    requires
        is_author_table(t, cs, cfg),
    ensures
        forall|i: int, j: int|
            0 <= i < t.len() && 0 <= j < t.len() && (#[trigger] t[i]).effective_commit_count > (
            #[trigger] t[j]).effective_commit_count ==> i < j,
        forall|i: int, j: int|
            0 <= i < t.len() && 0 <= j < t.len() && (#[trigger] t[i]).effective_commit_count == (
            #[trigger] t[j]).effective_commit_count && t[i].commit_count > t[j].commit_count ==> i
                < j,
        forall|i: int, j: int|
            0 <= i < t.len() && 0 <= j < t.len() && (#[trigger] t[i]).effective_commit_count == (
            #[trigger] t[j]).effective_commit_count && t[i].commit_count == t[j].commit_count
                && lex_lt(t[i].email, t[j].email) ==> i < j,
{
    assert forall|i: int, j: int|
        0 <= i < t.len() && 0 <= j < t.len() && (#[trigger] t[i]).effective_commit_count == (
        #[trigger] t[j]).effective_commit_count && t[i].commit_count == t[j].commit_count
            && lex_lt(t[i].email, t[j].email) implies i < j by {
        lemma_lex_irreflexive(t[i].email);
        if j < i {
            assert(author_before(t[j], t[i]));
            lemma_lex_transitive(t[i].email, t[j].email, t[i].email);
        }
    }
    assert forall|i: int, j: int|
        0 <= i < t.len() && 0 <= j < t.len() && (#[trigger] t[i]).effective_commit_count > (
        #[trigger] t[j]).effective_commit_count implies i < j by {
        if j < i {
            assert(author_before(t[j], t[i]));
        }
    }
    assert forall|i: int, j: int|
        0 <= i < t.len() && 0 <= j < t.len() && (#[trigger] t[i]).effective_commit_count == (
        #[trigger] t[j]).effective_commit_count && t[i].commit_count > t[j].commit_count
        implies i < j by {
        if j < i {
            assert(author_before(t[j], t[i]));
        }
    }
}

/// Days come in the order of their dates, earliest first.
pub proof fn lemma_days_order(t: Seq<TimeseriesPointView>, cs: Seq<CommitView>, cfg: EffectiveConfigView)
    requires
        is_timeseries(t, cs, cfg),
    ensures
        forall|i: int, j: int|
            0 <= i < t.len() && 0 <= j < t.len() && lex_lt((#[trigger] t[i]).date, (#[trigger] t[j]).date)
                ==> i < j,
{
    assert forall|i: int, j: int|
        0 <= i < t.len() && 0 <= j < t.len() && lex_lt((#[trigger] t[i]).date, (#[trigger] t[j]).date)
        implies i < j by {
        lemma_lex_irreflexive(t[i].date);
        if j < i {
            lemma_lex_transitive(t[i].date, t[j].date, t[i].date);
        }
    }
}

/// The first element a filter keeps is the first element of the sequence
/// that passes it.
proof fn lemma_first_kept<A>(s: Seq<A>, p: spec_fn(A) -> bool) -> (i: int)
    requires
        s.filter(p).len() > 0,
    ensures
        0 <= i < s.len(),
        p(s[i]),
        s.filter(p)[0] == s[i],
        forall|j: int| 0 <= j < i ==> !p(#[trigger] s[j]),
    decreases s.len(),
{
    broadcast use vstd::seq_lib::group_filter_ensures;

    if s.len() == 0 {
        reveal(Seq::filter);
        0
    } else {
        let pre = s.drop_last();
        let x = s.last();
        assert(pre.push(x) =~= s);
        pre.lemma_filter_push(x, p);
        if pre.filter(p).len() > 0 {
            let i = lemma_first_kept(pre, p);
            assert(s[i] == pre[i]);
            assert forall|j: int| 0 <= j < i implies !p(#[trigger] s[j]) by {
                assert(s[j] == pre[j]);
            }
            i
        } else {
            assert forall|j: int| 0 <= j < pre.len() implies !p(#[trigger] s[j]) by {
                assert(s[j] == pre[j]);
                if p(pre[j]) {
                    pre.lemma_filter_contains(p, j);
                }
            }
            assert(s.filter(p) == pre.filter(p).push(x));
            (s.len() - 1) as int
        }
    }
}

/// Each author row bears the name on that author's first counted commit
/// in the log.
pub proof fn lemma_author_name_is_first(
    t: Seq<AuthorStatView>,
    cs: Seq<CommitView>,
    cfg: EffectiveConfigView,
    k: int,
)
    requires
        is_author_table(t, cs, cfg),
        0 <= k < t.len(),
    ensures
        exists|i: int|
            0 <= i < cs.len() && is_considered(#[trigger] cs[i], cfg) && cs[i].author_email == t[k].email
                && cs[i].author_name == t[k].name && forall|j: int|
                0 <= j < i ==> !(is_considered(#[trigger] cs[j], cfg) && cs[j].author_email
                    == t[k].email),
{
    let e = t[k].email;
    let p = |c: CommitView| is_considered(c, cfg) && c.author_email == e;
    assert(by_author(cs, cfg, e).len() > 0);
    assert(t[k] == author_stat(cs, cfg, e));
    let i = lemma_first_kept(cs, p);
    assert forall|j: int| 0 <= j < i implies !(is_considered(#[trigger] cs[j], cfg)
        && cs[j].author_email == e) by {
        assert(!p(cs[j]));
    }
}

} // verus!
