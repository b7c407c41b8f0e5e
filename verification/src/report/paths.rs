//! Activity per path: the busiest paths.
use vstd::prelude::*;

use crate::config::{EffectiveConfig, EffectiveConfigView};
use crate::model::{
    commits_view, files_view, CommitRecord, CommitView, FileStat, FileStatView, PathStat,
    PathStatView,
};
use crate::ranking::{find_by_key, keys, keys_distinct, sort_rows, views, Ranked, is_ranked};
use crate::text::{lemma_lex_irreflexive, lemma_lex_total, lemma_lex_transitive, lex_lt, string_lt};
use crate::report::counting::{
    considered, counted_additions, counted_deletions, is_considered, is_counted, lines_added,
    lines_deleted, lines_fit,
};

verus! {

// ---------------------------------------------------------------------------
// Activity per path
// ---------------------------------------------------------------------------

/// The counted files of the considered commits of `cs`, in order.
pub open spec fn counted_files(cs: Seq<CommitView>, cfg: EffectiveConfigView) -> Seq<FileStatView>
    decreases cs.len(),
{
    if cs.len() == 0 {
        Seq::empty()
    } else {
        counted_files(cs.drop_last(), cfg) + if is_considered(cs.last(), cfg) {
            cs.last().files.filter(|f: FileStatView| is_counted(f, cfg))
        } else {
            Seq::empty()
        }
    }
}

/// Lines added by all of `fs`.
pub open spec fn file_additions(fs: Seq<FileStatView>) -> nat
    decreases fs.len(),
{
    if fs.len() == 0 {
        0
    } else {
        file_additions(fs.drop_last()) + fs.last().additions
    }
}

/// Lines deleted by all of `fs`.
pub open spec fn file_deletions(fs: Seq<FileStatView>) -> nat
    decreases fs.len(),
{
    if fs.len() == 0 {
        0
    } else {
        file_deletions(fs.drop_last()) + fs.last().deletions
    }
}

/// The files of `fs` with the path `p`.
pub open spec fn at_path(fs: Seq<FileStatView>, p: Seq<char>) -> Seq<FileStatView> {
    fs.filter(|f: FileStatView| f.path == p)
}

/// The activity on `p` among the files `fs`: how often it occurs, and the
/// lines added and deleted there.
pub open spec fn path_stat_of(fs: Seq<FileStatView>, p: Seq<char>) -> PathStatView {
    let mine = at_path(fs, p);
    let a = file_additions(mine);
    let d = file_deletions(mine);
    PathStatView { path: p, commits: mine.len(), additions: a, deletions: d, net_lines: a - d }
}

/// The activity on the path `p` in `cs`: the number of counted changes to
/// it in considered commits, and the lines they added and deleted.
pub open spec fn path_stat(cs: Seq<CommitView>, cfg: EffectiveConfigView, p: Seq<char>) -> PathStatView {
    path_stat_of(counted_files(cs, cfg), p)
}

/// Path rows are ordered by more added lines first, then more changes, then
/// path.
pub open spec fn path_before(a: PathStatView, b: PathStatView) -> bool {
    ||| a.additions > b.additions
    ||| a.additions == b.additions && a.commits > b.commits
    ||| a.additions == b.additions && a.commits == b.commits && lex_lt(a.path, b.path)
}

/// How many paths the dashboard shows.
pub open spec fn path_limit() -> nat {
    20
}

/// `t` is the table of the busiest paths of `cs`: rows with the figures of
/// their paths, in the order of `path_before`, at most `path_limit()` of
/// them, and every changed path not among them goes after all of them.
pub open spec fn is_path_table(t: Seq<PathStatView>, cs: Seq<CommitView>, cfg: EffectiveConfigView) -> bool {
    &&& t.len() <= path_limit()
    &&& forall|i: int, j: int| 0 <= i < j < t.len() ==> path_before(#[trigger] t[i], #[trigger] t[j])
    &&& forall|i: int|
        0 <= i < t.len() ==> at_path(counted_files(cs, cfg), (#[trigger] t[i]).path).len() > 0
            && t[i] == path_stat(cs, cfg, t[i].path)
    &&& forall|p: Seq<char>|
        #[trigger] at_path(counted_files(cs, cfg), p).len() > 0 ==> keys::<PathStat>(t).contains(p)
            || (t.len() == path_limit() && forall|i: int|
            0 <= i < t.len() ==> path_before(#[trigger] t[i], path_stat(cs, cfg, p)))
}

impl Ranked for PathStat {
    open spec fn rank_key(v: PathStatView) -> Seq<char> {
        v.path
    }

    open spec fn ranks_before(a: PathStatView, b: PathStatView) -> bool {
        path_before(a, b)
    }

    proof fn lemma_ranks_irreflexive(a: PathStatView) {
        lemma_lex_irreflexive(a.path);
    }

    proof fn lemma_ranks_transitive(a: PathStatView, b: PathStatView, c: PathStatView) {
        if a.additions == b.additions && b.additions == c.additions && a.commits == b.commits
            && b.commits == c.commits {
            lemma_lex_transitive(a.path, b.path, c.path);
        }
    }

    proof fn lemma_ranks_total(a: PathStatView, b: PathStatView) {
        lemma_lex_total(a.path, b.path);
    }

    fn comes_before(&self, other: &Self) -> (res: bool) {
        if self.additions != other.additions {
            self.additions > other.additions
        } else if self.commits != other.commits {
            self.commits > other.commits
        } else {
            string_lt(&self.path, &other.path)
        }
    }

    fn key_of(&self) -> (res: &String) {
        &self.path
    }
}

pub(crate) proof fn lemma_file_sums_concat(a: Seq<FileStatView>, b: Seq<FileStatView>)
    ensures
        file_additions(a + b) == file_additions(a) + file_additions(b),
        file_deletions(a + b) == file_deletions(a) + file_deletions(b),
    decreases b.len(),
{
    if b.len() == 0 {
        assert(a + b =~= a);
    } else {
        lemma_file_sums_concat(a, b.drop_last());
        assert((a + b).drop_last() =~= a + b.drop_last());
    }
}

pub(crate) proof fn lemma_file_sums_counted(fs: Seq<FileStatView>, cfg: EffectiveConfigView)
    ensures
        file_additions(fs.filter(|f: FileStatView| is_counted(f, cfg))) == counted_additions(fs, cfg),
        file_deletions(fs.filter(|f: FileStatView| is_counted(f, cfg))) == counted_deletions(fs, cfg),
    decreases fs.len(),
{
    let pred = |f: FileStatView| is_counted(f, cfg);
    if fs.len() == 0 {
        reveal(Seq::filter);
    } else {
        lemma_file_sums_counted(fs.drop_last(), cfg);
        assert(fs.drop_last().push(fs.last()) =~= fs);
        fs.drop_last().lemma_filter_push(fs.last(), pred);
        let sub = fs.drop_last().filter(pred);
        assert(sub.push(fs.last()).drop_last() =~= sub);
    }
}

/// The counted files of the considered commits carry exactly the counted
/// lines of those commits.
pub(crate) proof fn lemma_counted_files_lines(cs: Seq<CommitView>, cfg: EffectiveConfigView)
    ensures
        file_additions(counted_files(cs, cfg)) == lines_added(cs, cfg),
        file_deletions(counted_files(cs, cfg)) == lines_deleted(cs, cfg),
    decreases cs.len(),
{
    if cs.len() > 0 {
        lemma_counted_files_lines(cs.drop_last(), cfg);
        let last = if is_considered(cs.last(), cfg) {
            cs.last().files.filter(|f: FileStatView| is_counted(f, cfg))
        } else {
            Seq::empty()
        };
        lemma_file_sums_concat(counted_files(cs.drop_last(), cfg), last);
        lemma_file_sums_counted(cs.last().files, cfg);
    }
}

/// A copy of the file `f`.
pub(crate) fn copy_file(f: &FileStat) -> (res: FileStat)
    ensures
        res@ == f@,
{
    FileStat {
        path: f.path.clone(),
        additions: f.additions,
        deletions: f.deletions,
        is_binary: f.is_binary,
    }
}

/// The counted files of the considered commits of `commits`.
pub(crate) fn counted_file_list(commits: &Vec<CommitRecord>, config: &EffectiveConfig) -> (res: Vec<FileStat>)
    ensures
        files_view(res@) == counted_files(commits_view(commits@), config@),
{
    let ghost cs = commits_view(commits@);
    let ghost cfg = config@;
    let mut out: Vec<FileStat> = Vec::new();
    let n = commits.len();
    assert(files_view(out@) =~= counted_files(cs.take(0), cfg));
    for i in 0..n
        invariant
            n == cs.len(),
            cs == commits_view(commits@),
            cfg == config@,
            files_view(out@) == counted_files(cs.take(i as int), cfg),
    {
        let commit = &commits[i];
        let ghost pre = cs.take(i as int);
        assert(cs.take(i + 1).drop_last() =~= pre);
        assert(cs.take(i + 1).last() == cs[i as int]);
        if !(config.no_merge && commit.is_merge) {
            let ghost fs = cs[i as int].files;
            let ghost pred = |f: FileStatView| is_counted(f, cfg);
            let m = commit.files.len();
            assert(fs.take(0).filter(pred) =~= Seq::<FileStatView>::empty()) by {
                reveal(Seq::filter);
            }
            assert(counted_files(pre, cfg) + fs.take(0).filter(pred) =~= counted_files(pre, cfg));
            for j in 0..m
                invariant
                    m == fs.len(),
                    pred == (|f: FileStatView| is_counted(f, cfg)),
                    fs == files_view(commit.files@),
                    cfg == config@,
                    files_view(out@) == counted_files(pre, cfg) + fs.take(j as int).filter(pred),
            {
                let f = &commit.files[j];
                let ghost before = files_view(out@);
                assert(fs.take(j + 1) =~= fs.take(j as int).push(f@));
                proof {
                    fs.take(j as int).lemma_filter_push(f@, pred);
                }
                if !f.is_binary && !config.should_filter(f.path.as_str()) {
                    out.push(copy_file(f));
                    assert(files_view(out@) =~= before.push(f@));
                    assert(counted_files(pre, cfg) + fs.take(j + 1).filter(pred) =~= (counted_files(pre, cfg) + fs.take(j as int).filter(pred)).push(f@));
                }
            }
            assert(fs.take(m as int) =~= fs);
        } else {
            assert(counted_files(pre, cfg) + Seq::<FileStatView>::empty() =~= counted_files(pre, cfg));
        }
    }
    assert(cs.take(n as int) =~= cs);
    out
}

/// `t` holds the rows of the paths of the files `pre`, in some order.
#[verifier::opaque]
pub open spec fn paths_so_far(t: Seq<PathStatView>, pre: Seq<FileStatView>) -> bool {
    &&& keys_distinct::<PathStat>(t)
    &&& forall|k: int|
        0 <= k < t.len() ==> at_path(pre, (#[trigger] t[k]).path).len() > 0 && t[k] == path_stat_of(
            pre,
            t[k].path,
        )
    &&& forall|p: Seq<char>| #[trigger] at_path(pre, p).len() > 0 ==> keys::<PathStat>(t).contains(p)
    &&& forall|k: int|
        0 <= k < t.len() ==> (#[trigger] t[k]).commits <= pre.len() && t[k].additions
            <= file_additions(pre) && t[k].deletions <= file_deletions(pre)
}

/// A path with one more change, of `a` added and `d` deleted lines.
pub open spec fn add_to_path(r: PathStatView, a: nat, d: nat) -> PathStatView {
    PathStatView {
        path: r.path,
        commits: r.commits + 1,
        additions: r.additions + a,
        deletions: r.deletions + d,
        net_lines: (r.additions + a) - (r.deletions + d),
    }
}

pub(crate) proof fn lemma_path_stat_push(fs: Seq<FileStatView>, f: FileStatView, p: Seq<char>)
    ensures
        at_path(fs.push(f), p) == if f.path == p {
            at_path(fs, p).push(f)
        } else {
            at_path(fs, p)
        },
        f.path != p ==> path_stat_of(fs.push(f), p) == path_stat_of(fs, p),
        f.path == p ==> path_stat_of(fs.push(f), p) == add_to_path(path_stat_of(fs, p), f.additions, f.deletions),
        file_additions(fs.push(f)) == file_additions(fs) + f.additions,
        file_deletions(fs.push(f)) == file_deletions(fs) + f.deletions,
{
    let pred = |x: FileStatView| x.path == p;
    fs.lemma_filter_push(f, pred);
    assert(fs.push(f).drop_last() =~= fs);
    let mine = at_path(fs, p);
    assert(mine.push(f).drop_last() =~= mine);
}

pub(crate) proof fn lemma_paths_start(pre: Seq<FileStatView>)
    requires
        pre.len() == 0,
    ensures
        paths_so_far(Seq::empty(), pre),
{
    reveal(paths_so_far);
    reveal(Seq::filter);
    let t = Seq::<PathStatView>::empty();
    assert forall|p: Seq<char>| #[trigger] at_path(pre, p).len() > 0 implies keys::<PathStat>(t).contains(p) by {
        assert(at_path(pre, p) =~= Seq::<FileStatView>::empty());
    }
}

pub(crate) proof fn lemma_paths_update(t: Seq<PathStatView>, pre: Seq<FileStatView>, f: FileStatView, k: int)
    requires
        paths_so_far(t, pre),
        0 <= k < t.len(),
        t[k].path == f.path,
    ensures
        paths_so_far(t.update(k, add_to_path(t[k], f.additions, f.deletions)), pre.push(f)),
{
    reveal(paths_so_far);
    let row = add_to_path(t[k], f.additions, f.deletions);
    let t2 = t.update(k, row);
    let post = pre.push(f);
    let e = f.path;
    lemma_path_stat_push(pre, f, e);
    assert(keys::<PathStat>(t2) =~= keys::<PathStat>(t));
    assert(keys_distinct::<PathStat>(t2)) by {
        assert forall|i: int, j: int| 0 <= i < j < t2.len() implies PathStat::rank_key(
            #[trigger] t2[i],
        ) != PathStat::rank_key(#[trigger] t2[j]) by {
            assert(t2[i].path == t[i].path && t2[j].path == t[j].path);
        }
    }
    assert forall|i: int| 0 <= i < t2.len() implies at_path(post, (#[trigger] t2[i]).path).len() > 0
        && t2[i] == path_stat_of(post, t2[i].path) by {
        if i != k {
            assert(t[i].path != e) by {
                assert(PathStat::rank_key(t[i]) != PathStat::rank_key(t[k]));
            }
            lemma_path_stat_push(pre, f, t[i].path);
        }
    }
    assert forall|x: Seq<char>| #[trigger] at_path(post, x).len() > 0 implies keys::<PathStat>(t2).contains(x) by {
        lemma_path_stat_push(pre, f, x);
        if x == e {
            assert(keys::<PathStat>(t2)[k] == x);
        }
    }
    assert forall|i: int| 0 <= i < t2.len() implies (#[trigger] t2[i]).commits <= post.len()
        && t2[i].additions <= file_additions(post) && t2[i].deletions <= file_deletions(post) by {
        assert(t[i].commits <= pre.len());
    }
}

pub(crate) proof fn lemma_paths_new(t: Seq<PathStatView>, pre: Seq<FileStatView>, f: FileStatView)
    requires
        paths_so_far(t, pre),
        !keys::<PathStat>(t).contains(f.path),
    ensures
        paths_so_far(
            t.push(
                add_to_path(
                    PathStatView { path: f.path, commits: 0, additions: 0, deletions: 0, net_lines: 0 },
                    f.additions,
                    f.deletions,
                ),
            ),
            pre.push(f),
        ),
{
    reveal(paths_so_far);
    let e = f.path;
    let blank = PathStatView { path: e, commits: 0, additions: 0, deletions: 0, net_lines: 0 };
    let row = add_to_path(blank, f.additions, f.deletions);
    let t2 = t.push(row);
    let post = pre.push(f);
    lemma_path_stat_push(pre, f, e);
    assert(keys::<PathStat>(t2) =~= keys::<PathStat>(t).push(e));
    assert(at_path(pre, e).len() == 0) by {
        if at_path(pre, e).len() > 0 {
            assert(keys::<PathStat>(t).contains(e));
        }
    }
    assert(at_path(pre, e) =~= Seq::<FileStatView>::empty());
    assert(path_stat_of(pre, e) == blank);
    assert(keys_distinct::<PathStat>(t2)) by {
        assert forall|i: int, j: int| 0 <= i < j < t2.len() implies PathStat::rank_key(
            #[trigger] t2[i],
        ) != PathStat::rank_key(#[trigger] t2[j]) by {
            if j == t.len() {
                assert(keys::<PathStat>(t)[i] == t[i].path);
            }
        }
    }
    assert forall|i: int| 0 <= i < t2.len() implies at_path(post, (#[trigger] t2[i]).path).len() > 0
        && t2[i] == path_stat_of(post, t2[i].path) by {
        if i < t.len() {
            assert(t[i].path != e) by {
                assert(keys::<PathStat>(t)[i] == t[i].path);
            }
            lemma_path_stat_push(pre, f, t[i].path);
        }
    }
    assert forall|x: Seq<char>| #[trigger] at_path(post, x).len() > 0 implies keys::<PathStat>(t2).contains(x) by {
        lemma_path_stat_push(pre, f, x);
        if x == e {
            assert(keys::<PathStat>(t2)[t.len() as int] == x);
        } else {
            let j = choose|j: int| 0 <= j < keys::<PathStat>(t).len() && keys::<PathStat>(t)[j] == x;
            assert(keys::<PathStat>(t2)[j] == x);
        }
    }
}

/// The path row `r` with one more change.
pub(crate) fn add_change_to_path(r: &PathStat, a: u64, d: u64) -> (res: PathStat)
    requires
        r.commits < u64::MAX,
        r.additions + a <= i64::MAX,
        r.deletions + d <= i64::MAX,
    ensures
        res@ == add_to_path(r@, a as nat, d as nat),
{
    let additions = r.additions + a;
    let deletions = r.deletions + d;
    PathStat {
        path: r.path.clone(),
        commits: r.commits + 1,
        additions,
        deletions,
        net_lines: additions as i64 - deletions as i64,
    }
}

pub(crate) proof fn lemma_file_sums_prefix(fs: Seq<FileStatView>, i: int)
    requires
        0 <= i < fs.len(),
    ensures
        file_additions(fs.take(i)) + fs[i].additions <= file_additions(fs),
        file_deletions(fs.take(i)) + fs[i].deletions <= file_deletions(fs),
    decreases fs.len() - i,
{
    assert(fs.take(i + 1) =~= fs.take(i).push(fs[i]));
    assert(fs.take(i + 1).drop_last() =~= fs.take(i));
    if i + 1 < fs.len() {
        lemma_file_sums_prefix(fs, i + 1);
    } else {
        assert(fs.take(i + 1) =~= fs);
    }
}

/// The rows of the paths of `files`, in order of first appearance.
pub(crate) fn group_paths(files: &Vec<FileStat>) -> (t: Vec<PathStat>)
    requires
        file_additions(files_view(files@)) <= i64::MAX,
        file_deletions(files_view(files@)) <= i64::MAX,
    ensures
        paths_so_far(views(t@), files_view(files@)),
{
    let ghost fs = files_view(files@);
    let mut table: Vec<PathStat> = Vec::new();
    proof {
        lemma_paths_start(fs.take(0));
        assert(views(table@) =~= Seq::<PathStatView>::empty());
    }
    let n = files.len();
    for i in 0..n
        invariant
            n == fs.len(),
            fs == files_view(files@),
            file_additions(fs) <= i64::MAX,
            file_deletions(fs) <= i64::MAX,
            paths_so_far(views(table@), fs.take(i as int)),
    {
        let ghost pre = fs.take(i as int);
        let ghost t = views(table@);
        let f = &files[i];
        assert(fs.take(i + 1) =~= pre.push(f@));
        proof {
            lemma_file_sums_prefix(fs, i as int);
            lemma_path_stat_push(pre, f@, f@.path);
            reveal(paths_so_far);
        }
        match find_by_key(&table, &f.path) {
            Some(k) => {
                assert(t[k as int] == table@[k as int]@);
                let row = add_change_to_path(&table[k], f.additions, f.deletions);
                table.set(k, row);
                proof {
                    lemma_paths_update(t, pre, f@, k as int);
                    assert(views(table@) =~= t.update(k as int, row@));
                }
            },
            None => {
                let blank = PathStat {
                    path: f.path.clone(),
                    commits: 0,
                    additions: 0,
                    deletions: 0,
                    net_lines: 0,
                };
                let row = add_change_to_path(&blank, f.additions, f.deletions);
                table.push(row);
                proof {
                    lemma_paths_new(t, pre, f@);
                    assert(views(table@) =~= t.push(row@));
                }
            },
        }
    }
    assert(fs.take(n as int) =~= fs);
    table
}

pub(crate) proof fn lemma_paths_top(
    g: Seq<PathStatView>,
    r: Seq<PathStatView>,
    res: Seq<PathStatView>,
    cs: Seq<CommitView>,
    cfg: EffectiveConfigView,
)
    requires
        paths_so_far(g, counted_files(cs, cfg)),
        is_ranked::<PathStat>(r),
        forall|i: int| 0 <= i < r.len() ==> g.contains(#[trigger] r[i]),
        forall|j: int| 0 <= j < g.len() ==> r.contains(#[trigger] g[j]),
        res == if r.len() <= path_limit() {
            r
        } else {
            r.take(path_limit() as int)
        },
    ensures
        is_path_table(res, cs, cfg),
{
    reveal(paths_so_far);
    let flat = counted_files(cs, cfg);
    assert forall|i: int| 0 <= i < r.len() implies at_path(flat, (#[trigger] r[i]).path).len() > 0
        && r[i] == path_stat(cs, cfg, r[i].path) by {
        assert(g.contains(r[i]));
        let j = choose|j: int| 0 <= j < g.len() && g[j] == r[i];
        assert(g[j] == r[i]);
    }
    assert forall|i: int, j: int| 0 <= i < j < res.len() implies path_before(#[trigger] res[i], #[trigger] res[j]) by {
        assert(res[i] == r[i] && res[j] == r[j]);
        assert(PathStat::ranks_before(r[i], r[j]));
    }
    assert forall|i: int| 0 <= i < res.len() implies at_path(flat, (#[trigger] res[i]).path).len() > 0
        && res[i] == path_stat(cs, cfg, res[i].path) by {
        assert(res[i] == r[i]);
    }
    assert forall|p: Seq<char>| #[trigger] at_path(flat, p).len() > 0 implies keys::<PathStat>(res).contains(p)
        || (res.len() == path_limit() && forall|i: int|
        0 <= i < res.len() ==> path_before(#[trigger] res[i], path_stat(cs, cfg, p))) by {
        assert(keys::<PathStat>(g).contains(p));
        let j = choose|j: int| 0 <= j < keys::<PathStat>(g).len() && keys::<PathStat>(g)[j] == p;
        assert(r.contains(g[j]));
        let i = choose|i: int| 0 <= i < r.len() && r[i] == g[j];
        assert(r[i] == path_stat(cs, cfg, p));
        if i < res.len() {
            assert(keys::<PathStat>(res)[i] == p);
        } else {
            assert forall|i2: int| 0 <= i2 < res.len() implies path_before(#[trigger] res[i2], path_stat(cs, cfg, p)) by {
                assert(res[i2] == r[i2]);
                assert(PathStat::ranks_before(r[i2], r[i]));
            }
        }
    }
}

/// The busiest paths of `commits`: at most twenty rows, in the order of
/// `path_before`, with every other changed path going after all of them.
pub fn aggregate_paths(commits: &Vec<CommitRecord>, config: &EffectiveConfig) -> (res: Vec<PathStat>)
    requires
        lines_fit(commits_view(commits@), config@),
    ensures
        is_path_table(views(res@), commits_view(commits@), config@),
{
    let flat = counted_file_list(commits, config);
    proof {
        lemma_counted_files_lines(commits_view(commits@), config@);
    }
    let grouped = group_paths(&flat);
    proof {
        reveal(paths_so_far);
    }
    let ghost g = views(grouped@);
    let mut sorted = sort_rows(grouped);
    let ghost r = views(sorted@);
    sorted.truncate(20);
    proof {
        let res = views(sorted@);
        if r.len() <= 20 {
            assert(res =~= r);
        } else {
            assert(res =~= r.take(20));
        }
        lemma_paths_top(g, r, res, commits_view(commits@), config@);
    }
    sorted
}


} // verus!
