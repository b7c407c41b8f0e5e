//! Activity per day.
use vstd::prelude::*;

use crate::config::{EffectiveConfig, EffectiveConfigView};
use crate::model::{commits_view, CommitRecord, CommitView, TimeseriesPoint, TimeseriesPointView};
use crate::ranking::{
    find_by_key, keys, keys_distinct, lemma_sum_by_push, lemma_sum_by_update, sort_rows, sum_by,
    views, Ranked, is_ranked,
};
use crate::text::{lemma_lex_irreflexive, lemma_lex_total, lemma_lex_transitive, lex_lt, string_lt};
use crate::report::counting::{
    commit_lines, considered, counted_additions, counted_deletions, is_considered,
    lemma_lines_push, lines_added, lines_deleted, lines_fit,
};

verus! {

// ---------------------------------------------------------------------------
// Activity per day
// ---------------------------------------------------------------------------

/// The considered commits of `cs` made on the day `d`.
pub open spec fn on_day(cs: Seq<CommitView>, cfg: EffectiveConfigView, d: Seq<char>) -> Seq<CommitView> {
    cs.filter(|c: CommitView| is_considered(c, cfg) && c.date == d)
}

/// The activity of the day `d`: the considered commits of that day and the
/// lines their counted files added and deleted.
pub open spec fn day_point(cs: Seq<CommitView>, cfg: EffectiveConfigView, d: Seq<char>) -> TimeseriesPointView {
    let mine = on_day(cs, cfg, d);
    let a = lines_added(mine, cfg);
    let del = lines_deleted(mine, cfg);
    TimeseriesPointView { date: d, commits: mine.len(), additions: a, deletions: del, net_lines: a - del }
}

/// `t` is the activity per day of `cs`: one point for each day with a
/// considered commit, holding that day's figures, in order of date.
pub open spec fn is_timeseries(
    t: Seq<TimeseriesPointView>,
    cs: Seq<CommitView>,
    cfg: EffectiveConfigView,
) -> bool {
    &&& forall|i: int, j: int| 0 <= i < j < t.len() ==> lex_lt((#[trigger] t[i]).date, (#[trigger] t[j]).date)
    &&& forall|i: int|
        0 <= i < t.len() ==> on_day(cs, cfg, (#[trigger] t[i]).date).len() > 0 && t[i]
            == day_point(cs, cfg, t[i].date)
    &&& forall|d: Seq<char>|
        #[trigger] on_day(cs, cfg, d).len() > 0 ==> keys::<TimeseriesPoint>(t).contains(d)
}

impl Ranked for TimeseriesPoint {
    open spec fn rank_key(v: TimeseriesPointView) -> Seq<char> {
        v.date
    }

    open spec fn ranks_before(a: TimeseriesPointView, b: TimeseriesPointView) -> bool {
        lex_lt(a.date, b.date)
    }

    proof fn lemma_ranks_irreflexive(a: TimeseriesPointView) {
        lemma_lex_irreflexive(a.date);
    }

    proof fn lemma_ranks_transitive(a: TimeseriesPointView, b: TimeseriesPointView, c: TimeseriesPointView) {
        lemma_lex_transitive(a.date, b.date, c.date);
    }

    proof fn lemma_ranks_total(a: TimeseriesPointView, b: TimeseriesPointView) {
        lemma_lex_total(a.date, b.date);
    }

    fn comes_before(&self, other: &Self) -> (res: bool) {
        string_lt(&self.date, &other.date)
    }

    fn key_of(&self) -> (res: &String) {
        &self.date
    }
}

/// The commits counted by a day.
pub open spec fn day_commits() -> spec_fn(TimeseriesPointView) -> nat {
    |p: TimeseriesPointView| p.commits
}

/// The lines added on a day.
pub open spec fn day_additions() -> spec_fn(TimeseriesPointView) -> nat {
    |p: TimeseriesPointView| p.additions
}

/// The lines deleted on a day.
pub open spec fn day_deletions() -> spec_fn(TimeseriesPointView) -> nat {
    |p: TimeseriesPointView| p.deletions
}

/// The sums over the days `t` are the totals of the considered commits of
/// `cs`.
pub open spec fn day_sums_match(t: Seq<TimeseriesPointView>, cs: Seq<CommitView>, cfg: EffectiveConfigView) -> bool {
    &&& sum_by(t, day_commits()) == considered(cs, cfg).len()
    &&& sum_by(t, day_additions()) == lines_added(cs, cfg)
    &&& sum_by(t, day_deletions()) == lines_deleted(cs, cfg)
}

/// A day with one more commit, of `a` added and `d` deleted lines.
pub open spec fn add_to_day(p: TimeseriesPointView, a: nat, d: nat) -> TimeseriesPointView {
    TimeseriesPointView {
        date: p.date,
        commits: p.commits + 1,
        additions: p.additions + a,
        deletions: p.deletions + d,
        net_lines: (p.additions + a) - (p.deletions + d),
    }
}

/// A day before any commit.
pub open spec fn blank_day(date: Seq<char>) -> TimeseriesPointView {
    TimeseriesPointView { date, commits: 0, additions: 0, deletions: 0, net_lines: 0 }
}

pub(crate) proof fn lemma_day_point_push(cs: Seq<CommitView>, c: CommitView, cfg: EffectiveConfigView, d: Seq<char>)
    ensures
        on_day(cs.push(c), cfg, d) == if is_considered(c, cfg) && c.date == d {
            on_day(cs, cfg, d).push(c)
        } else {
            on_day(cs, cfg, d)
        },
        !(is_considered(c, cfg) && c.date == d) ==> day_point(cs.push(c), cfg, d) == day_point(cs, cfg, d),
        is_considered(c, cfg) && c.date == d ==> day_point(cs.push(c), cfg, d) == add_to_day(
            day_point(cs, cfg, d),
            counted_additions(c.files, cfg),
            counted_deletions(c.files, cfg),
        ),
{
    let pred = |x: CommitView| is_considered(x, cfg) && x.date == d;
    cs.lemma_filter_push(c, pred);
    let mine = on_day(cs, cfg, d);
    if is_considered(c, cfg) && c.date == d {
        lemma_lines_push(mine, c, cfg);
    }
}

/// `t` holds the days of the commits `pre`, in some order.
#[verifier::opaque]
pub open spec fn days_so_far(t: Seq<TimeseriesPointView>, pre: Seq<CommitView>, cfg: EffectiveConfigView) -> bool {
    &&& keys_distinct::<TimeseriesPoint>(t)
    &&& forall|k: int|
        0 <= k < t.len() ==> on_day(pre, cfg, (#[trigger] t[k]).date).len() > 0 && t[k] == day_point(
            pre,
            cfg,
            t[k].date,
        )
    &&& forall|d: Seq<char>|
        #[trigger] on_day(pre, cfg, d).len() > 0 ==> keys::<TimeseriesPoint>(t).contains(d)
    &&& forall|k: int|
        0 <= k < t.len() ==> (#[trigger] t[k]).commits <= pre.len() && t[k].additions <= lines_added(
            pre,
            cfg,
        ) && t[k].deletions <= lines_deleted(pre, cfg)
    &&& day_sums_match(t, pre, cfg)
}

pub(crate) proof fn lemma_days_start(pre: Seq<CommitView>, cfg: EffectiveConfigView)
    requires
        pre.len() == 0,
    ensures
        days_so_far(Seq::empty(), pre, cfg),
{
    reveal(days_so_far);
    reveal(Seq::filter);
    let t = Seq::<TimeseriesPointView>::empty();
    assert forall|d: Seq<char>| #[trigger] on_day(pre, cfg, d).len() > 0 implies keys::<
        TimeseriesPoint,
    >(t).contains(d) by {
        assert(on_day(pre, cfg, d) =~= Seq::<CommitView>::empty());
    }
    assert(considered(pre, cfg) =~= Seq::<CommitView>::empty());
}

pub(crate) proof fn lemma_days_skip(t: Seq<TimeseriesPointView>, pre: Seq<CommitView>, c: CommitView, cfg: EffectiveConfigView)
    requires
        days_so_far(t, pre, cfg),
        !is_considered(c, cfg),
    ensures
        days_so_far(t, pre.push(c), cfg),
{
    reveal(days_so_far);
    let post = pre.push(c);
    assert forall|d: Seq<char>| #[trigger] on_day(post, cfg, d).len() > 0 implies keys::<
        TimeseriesPoint,
    >(t).contains(d) by {
        lemma_day_point_push(pre, c, cfg, d);
    }
    assert forall|k: int| 0 <= k < t.len() implies on_day(post, cfg, (#[trigger] t[k]).date).len()
        > 0 && t[k] == day_point(post, cfg, t[k].date) by {
        lemma_day_point_push(pre, c, cfg, t[k].date);
    }
    lemma_lines_push(pre, c, cfg);
    pre.lemma_filter_push(c, |x: CommitView| is_considered(x, cfg));
}

pub(crate) proof fn lemma_days_update(
    t: Seq<TimeseriesPointView>,
    pre: Seq<CommitView>,
    c: CommitView,
    cfg: EffectiveConfigView,
    k: int,
)
    requires
        days_so_far(t, pre, cfg),
        is_considered(c, cfg),
        0 <= k < t.len(),
        t[k].date == c.date,
    ensures
        days_so_far(
            t.update(k, add_to_day(t[k], counted_additions(c.files, cfg), counted_deletions(c.files, cfg))),
            pre.push(c),
            cfg,
        ),
{
    reveal(days_so_far);
    let a = counted_additions(c.files, cfg);
    let d = counted_deletions(c.files, cfg);
    let row = add_to_day(t[k], a, d);
    let t2 = t.update(k, row);
    let post = pre.push(c);
    let e = c.date;
    lemma_day_point_push(pre, c, cfg, e);
    lemma_lines_push(pre, c, cfg);
    pre.lemma_filter_push(c, |x: CommitView| is_considered(x, cfg));
    assert(keys::<TimeseriesPoint>(t2) =~= keys::<TimeseriesPoint>(t));
    assert(keys_distinct::<TimeseriesPoint>(t2)) by {
        assert forall|i: int, j: int| 0 <= i < j < t2.len() implies TimeseriesPoint::rank_key(
            #[trigger] t2[i],
        ) != TimeseriesPoint::rank_key(#[trigger] t2[j]) by {
            assert(t2[i].date == t[i].date && t2[j].date == t[j].date);
        }
    }
    assert forall|i: int| 0 <= i < t2.len() implies on_day(post, cfg, (#[trigger] t2[i]).date).len()
        > 0 && t2[i] == day_point(post, cfg, t2[i].date) by {
        if i != k {
            assert(t[i].date != e) by {
                assert(TimeseriesPoint::rank_key(t[i]) != TimeseriesPoint::rank_key(t[k]));
            }
            lemma_day_point_push(pre, c, cfg, t[i].date);
        }
    }
    assert forall|x: Seq<char>| #[trigger] on_day(post, cfg, x).len() > 0 implies keys::<
        TimeseriesPoint,
    >(t2).contains(x) by {
        lemma_day_point_push(pre, c, cfg, x);
        if x == e {
            assert(keys::<TimeseriesPoint>(t2)[k] == x);
        }
    }
    assert forall|i: int| 0 <= i < t2.len() implies (#[trigger] t2[i]).commits <= post.len()
        && t2[i].additions <= lines_added(post, cfg) && t2[i].deletions <= lines_deleted(post, cfg) by {
        assert(t[i].commits <= pre.len());
    }
    lemma_sum_by_update(t, k, row, day_commits());
    lemma_sum_by_update(t, k, row, day_additions());
    lemma_sum_by_update(t, k, row, day_deletions());
}

pub(crate) proof fn lemma_days_new(t: Seq<TimeseriesPointView>, pre: Seq<CommitView>, c: CommitView, cfg: EffectiveConfigView)
    requires
        days_so_far(t, pre, cfg),
        is_considered(c, cfg),
        !keys::<TimeseriesPoint>(t).contains(c.date),
    ensures
        days_so_far(
            t.push(add_to_day(blank_day(c.date), counted_additions(c.files, cfg), counted_deletions(c.files, cfg))),
            pre.push(c),
            cfg,
        ),
{
    reveal(days_so_far);
    let a = counted_additions(c.files, cfg);
    let d = counted_deletions(c.files, cfg);
    let e = c.date;
    let row = add_to_day(blank_day(e), a, d);
    let t2 = t.push(row);
    let post = pre.push(c);
    lemma_day_point_push(pre, c, cfg, e);
    lemma_lines_push(pre, c, cfg);
    pre.lemma_filter_push(c, |x: CommitView| is_considered(x, cfg));
    assert(keys::<TimeseriesPoint>(t2) =~= keys::<TimeseriesPoint>(t).push(e));
    assert(on_day(pre, cfg, e).len() == 0) by {
        if on_day(pre, cfg, e).len() > 0 {
            assert(keys::<TimeseriesPoint>(t).contains(e));
        }
    }
    assert(on_day(pre, cfg, e) =~= Seq::<CommitView>::empty());
    assert(day_point(pre, cfg, e) == blank_day(e));
    assert(keys_distinct::<TimeseriesPoint>(t2)) by {
        assert forall|i: int, j: int| 0 <= i < j < t2.len() implies TimeseriesPoint::rank_key(
            #[trigger] t2[i],
        ) != TimeseriesPoint::rank_key(#[trigger] t2[j]) by {
            if j == t.len() {
                assert(keys::<TimeseriesPoint>(t)[i] == t[i].date);
            }
        }
    }
    assert forall|i: int| 0 <= i < t2.len() implies on_day(post, cfg, (#[trigger] t2[i]).date).len()
        > 0 && t2[i] == day_point(post, cfg, t2[i].date) by {
        if i < t.len() {
            assert(t[i].date != e) by {
                assert(keys::<TimeseriesPoint>(t)[i] == t[i].date);
            }
            lemma_day_point_push(pre, c, cfg, t[i].date);
        }
    }
    assert forall|x: Seq<char>| #[trigger] on_day(post, cfg, x).len() > 0 implies keys::<
        TimeseriesPoint,
    >(t2).contains(x) by {
        lemma_day_point_push(pre, c, cfg, x);
        if x == e {
            assert(keys::<TimeseriesPoint>(t2)[t.len() as int] == x);
        } else {
            let j = choose|j: int|
                0 <= j < keys::<TimeseriesPoint>(t).len() && keys::<TimeseriesPoint>(t)[j] == x;
            assert(keys::<TimeseriesPoint>(t2)[j] == x);
        }
    }
    lemma_sum_by_push(t, row, day_commits());
    lemma_sum_by_push(t, row, day_additions());
    lemma_sum_by_push(t, row, day_deletions());
}

/// The day `p` with one more commit.
pub(crate) fn add_commit_to_day(p: &TimeseriesPoint, a: u64, d: u64) -> (res: TimeseriesPoint)
    requires
        p.commits < u64::MAX,
        p.additions + a <= i64::MAX,
        p.deletions + d <= i64::MAX,
    ensures
        res@ == add_to_day(p@, a as nat, d as nat),
{
    let additions = p.additions + a;
    let deletions = p.deletions + d;
    TimeseriesPoint {
        date: p.date.clone(),
        commits: p.commits + 1,
        additions,
        deletions,
        net_lines: additions as i64 - deletions as i64,
    }
}

/// The days of `commits`, in order of first appearance.
pub(crate) fn group_days(commits: &Vec<CommitRecord>, config: &EffectiveConfig) -> (t: Vec<TimeseriesPoint>)
    requires
        lines_fit(commits_view(commits@), config@),
    ensures
        days_so_far(views(t@), commits_view(commits@), config@),
{
    let ghost cs = commits_view(commits@);
    let ghost cfg = config@;
    let mut table: Vec<TimeseriesPoint> = Vec::new();
    proof {
        lemma_days_start(cs.take(0), cfg);
        assert(views(table@) =~= Seq::<TimeseriesPointView>::empty());
    }
    let n = commits.len();
    for i in 0..n
        invariant
            n == cs.len(),
            cs == commits_view(commits@),
            cfg == config@,
            lines_fit(cs, cfg),
            days_so_far(views(table@), cs.take(i as int), cfg),
    {
        let ghost pre = cs.take(i as int);
        let ghost c = cs[i as int];
        let ghost t = views(table@);
        assert(cs.take(i + 1) =~= pre.push(c));
        let commit = &commits[i];
        if config.no_merge && commit.is_merge {
            proof {
                lemma_days_skip(t, pre, c, cfg);
            }
        } else {
            let (a, d) = commit_lines(commits, i, config);
            match find_by_key(&table, &commit.date) {
                Some(k) => {
                    proof {
                        reveal(days_so_far);
                        assert(t[k as int] == table@[k as int]@);
                        assert(t[k as int].commits <= pre.len());
                    }
                    let row = add_commit_to_day(&table[k], a, d);
                    table.set(k, row);
                    proof {
                        lemma_days_update(t, pre, c, cfg, k as int);
                        assert(views(table@) =~= t.update(k as int, row@));
                    }
                },
                None => {
                    let blank = TimeseriesPoint {
                        date: commit.date.clone(),
                        commits: 0,
                        additions: 0,
                        deletions: 0,
                        net_lines: 0,
                    };
                    let row = add_commit_to_day(&blank, a, d);
                    table.push(row);
                    proof {
                        lemma_days_new(t, pre, c, cfg);
                        assert(views(table@) =~= t.push(row@));
                    }
                },
            }
        }
    }
    assert(cs.take(n as int) =~= cs);
    table
}

pub(crate) proof fn lemma_days_sorted(
    g: Seq<TimeseriesPointView>,
    r: Seq<TimeseriesPointView>,
    cs: Seq<CommitView>,
    cfg: EffectiveConfigView,
)
    requires
        days_so_far(g, cs, cfg),
        is_ranked::<TimeseriesPoint>(r),
        forall|i: int| 0 <= i < r.len() ==> g.contains(#[trigger] r[i]),
        forall|j: int| 0 <= j < g.len() ==> r.contains(#[trigger] g[j]),
        forall|f: spec_fn(TimeseriesPointView) -> nat| #[trigger] sum_by(r, f) == sum_by(g, f),
    ensures
        is_timeseries(r, cs, cfg),
        day_sums_match(r, cs, cfg),
{
    reveal(days_so_far);
    assert forall|i: int| 0 <= i < r.len() implies on_day(cs, cfg, (#[trigger] r[i]).date).len()
        > 0 && r[i] == day_point(cs, cfg, r[i].date) by {
        assert(g.contains(r[i]));
        let j = choose|j: int| 0 <= j < g.len() && g[j] == r[i];
        assert(g[j] == r[i]);
    }
    assert forall|d: Seq<char>| #[trigger] on_day(cs, cfg, d).len() > 0 implies keys::<
        TimeseriesPoint,
    >(r).contains(d) by {
        assert(keys::<TimeseriesPoint>(g).contains(d));
        let j = choose|j: int|
            0 <= j < keys::<TimeseriesPoint>(g).len() && keys::<TimeseriesPoint>(g)[j] == d;
        assert(r.contains(g[j]));
        let i = choose|i: int| 0 <= i < r.len() && r[i] == g[j];
        assert(keys::<TimeseriesPoint>(r)[i] == d);
    }
    assert(sum_by(r, day_commits()) == sum_by(g, day_commits()));
    assert(sum_by(r, day_additions()) == sum_by(g, day_additions()));
    assert(sum_by(r, day_deletions()) == sum_by(g, day_deletions()));
}

/// The activity per day of `commits`, in order of date, with sums that equal
/// the totals of the considered commits.
pub fn aggregate_timeseries(commits: &Vec<CommitRecord>, config: &EffectiveConfig) -> (res: Vec<
    TimeseriesPoint,
>)
    requires
        lines_fit(commits_view(commits@), config@),
    ensures
        is_timeseries(views(res@), commits_view(commits@), config@),
        day_sums_match(views(res@), commits_view(commits@), config@),
{
    let grouped = group_days(commits, config);
    proof {
        reveal(days_so_far);
    }
    let ghost g = views(grouped@);
    let sorted = sort_rows(grouped);
    proof {
        lemma_days_sorted(g, views(sorted@), commits_view(commits@), config@);
    }
    sorted
}


} // verus!
