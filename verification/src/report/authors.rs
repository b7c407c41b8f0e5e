//! Rows per author and the totals over them.
use vstd::prelude::*;

use crate::config::{EffectiveConfig, EffectiveConfigView};
use crate::model::{
    commits_view, AuthorStat, AuthorStatView, CommitRecord, CommitView, RepoSummary,
    RepoSummaryView,
};
use crate::ranking::{
    find_by_key, keys, keys_distinct, lemma_sum_by_push, lemma_sum_by_update, sort_rows, sum_by,
    views, Ranked, is_ranked,
};
use crate::text::{lemma_lex_irreflexive, lemma_lex_total, lemma_lex_transitive, lex_lt, string_lt};
use crate::report::counting::{
    commit_lines, considered, counted_additions, counted_deletions, is_considered,
    lemma_lines_push, lines_added, lines_deleted, lines_fit, merge_count, non_merge_count,
};

verus! {

// ---------------------------------------------------------------------------
// Rows per author
// ---------------------------------------------------------------------------

/// The considered commits of `cs` by the author with email `e`.
pub open spec fn by_author(cs: Seq<CommitView>, cfg: EffectiveConfigView, e: Seq<char>) -> Seq<
    CommitView,
> {
    cs.filter(|c: CommitView| is_considered(c, cfg) && c.author_email == e)
}

/// The row of the author with email `e`: the name of that author's first
/// considered commit, the number of considered commits, of merges and of
/// other commits among them, and the lines their counted files added and
/// deleted.
pub open spec fn author_stat(cs: Seq<CommitView>, cfg: EffectiveConfigView, e: Seq<char>) -> AuthorStatView {
    let mine = by_author(cs, cfg, e);
    let a = lines_added(mine, cfg);
    let d = lines_deleted(mine, cfg);
    AuthorStatView {
        name: mine[0].author_name,
        email: e,
        commit_count: mine.len(),
        merge_commit_count: merge_count(mine),
        effective_commit_count: non_merge_count(mine),
        additions: a,
        deletions: d,
        net_lines: a - d,
    }
}

/// Author rows are ordered by more effective commits first, then more
/// commits, then email.
pub open spec fn author_before(a: AuthorStatView, b: AuthorStatView) -> bool {
    ||| a.effective_commit_count > b.effective_commit_count
    ||| a.effective_commit_count == b.effective_commit_count && a.commit_count > b.commit_count
    ||| a.effective_commit_count == b.effective_commit_count && a.commit_count == b.commit_count
        && lex_lt(a.email, b.email)
}

/// `t` is the table of authors of `cs`: one row for each author with a
/// considered commit, holding that author's figures, in the order of
/// `author_before`.
pub open spec fn is_author_table(
    t: Seq<AuthorStatView>,
    cs: Seq<CommitView>,
    cfg: EffectiveConfigView,
) -> bool {
    &&& forall|i: int, j: int|
        0 <= i < j < t.len() ==> author_before(#[trigger] t[i], #[trigger] t[j])
    &&& forall|i: int|
        0 <= i < t.len() ==> by_author(cs, cfg, (#[trigger] t[i]).email).len() > 0 && t[i]
            == author_stat(cs, cfg, t[i].email)
    &&& forall|e: Seq<char>|
        #[trigger] by_author(cs, cfg, e).len() > 0 ==> keys::<AuthorStat>(t).contains(e)
}

impl Ranked for AuthorStat {
    open spec fn rank_key(v: AuthorStatView) -> Seq<char> {
        v.email
    }

    open spec fn ranks_before(a: AuthorStatView, b: AuthorStatView) -> bool {
        author_before(a, b)
    }

    proof fn lemma_ranks_irreflexive(a: AuthorStatView) {
        lemma_lex_irreflexive(a.email);
    }

    proof fn lemma_ranks_transitive(a: AuthorStatView, b: AuthorStatView, c: AuthorStatView) {
        if a.effective_commit_count == b.effective_commit_count && b.effective_commit_count
            == c.effective_commit_count && a.commit_count == b.commit_count && b.commit_count
            == c.commit_count {
            lemma_lex_transitive(a.email, b.email, c.email);
        }
    }

    proof fn lemma_ranks_total(a: AuthorStatView, b: AuthorStatView) {
        lemma_lex_total(a.email, b.email);
    }

    fn comes_before(&self, other: &Self) -> (res: bool) {
        if self.effective_commit_count != other.effective_commit_count {
            self.effective_commit_count > other.effective_commit_count
        } else if self.commit_count != other.commit_count {
            self.commit_count > other.commit_count
        } else {
            string_lt(&self.email, &other.email)
        }
    }

    fn key_of(&self) -> (res: &String) {
        &self.email
    }
}

/// The commits counted by an author row.
pub open spec fn author_commits() -> spec_fn(AuthorStatView) -> nat {
    |r: AuthorStatView| r.commit_count
}

/// The merges counted by an author row.
pub open spec fn author_merges() -> spec_fn(AuthorStatView) -> nat {
    |r: AuthorStatView| r.merge_commit_count
}

/// The other commits counted by an author row.
pub open spec fn author_effective() -> spec_fn(AuthorStatView) -> nat {
    |r: AuthorStatView| r.effective_commit_count
}

/// The lines added in an author row.
pub open spec fn author_additions() -> spec_fn(AuthorStatView) -> nat {
    |r: AuthorStatView| r.additions
}

/// The lines deleted in an author row.
pub open spec fn author_deletions() -> spec_fn(AuthorStatView) -> nat {
    |r: AuthorStatView| r.deletions
}

/// The sums over the author rows `t` are the totals of the considered
/// commits of `cs`.
pub open spec fn author_sums_match(
    t: Seq<AuthorStatView>,
    cs: Seq<CommitView>,
    cfg: EffectiveConfigView,
) -> bool {
    &&& sum_by(t, author_commits()) == considered(cs, cfg).len()
    &&& sum_by(t, author_merges()) == merge_count(considered(cs, cfg))
    &&& sum_by(t, author_effective()) == non_merge_count(considered(cs, cfg))
    &&& sum_by(t, author_additions()) == lines_added(cs, cfg)
    &&& sum_by(t, author_deletions()) == lines_deleted(cs, cfg)
}

/// A row with one more commit, of `a` added and `d` deleted lines.
pub open spec fn add_to_row(r: AuthorStatView, is_merge: bool, a: nat, d: nat) -> AuthorStatView {
    AuthorStatView {
        name: r.name,
        email: r.email,
        commit_count: r.commit_count + 1,
        merge_commit_count: r.merge_commit_count + if is_merge {
            1nat
        } else {
            0nat
        },
        effective_commit_count: r.effective_commit_count + if is_merge {
            0nat
        } else {
            1nat
        },
        additions: r.additions + a,
        deletions: r.deletions + d,
        net_lines: (r.additions + a) - (r.deletions + d),
    }
}

/// The row of an author before any commit.
pub open spec fn blank_row(name: Seq<char>, email: Seq<char>) -> AuthorStatView {
    AuthorStatView {
        name,
        email,
        commit_count: 0,
        merge_commit_count: 0,
        effective_commit_count: 0,
        additions: 0,
        deletions: 0,
        net_lines: 0,
    }
}

/// How one more commit changes the row of an author.
pub(crate) proof fn lemma_author_stat_push(cs: Seq<CommitView>, c: CommitView, cfg: EffectiveConfigView, e: Seq<char>)
    ensures
        by_author(cs.push(c), cfg, e) == if is_considered(c, cfg) && c.author_email == e {
            by_author(cs, cfg, e).push(c)
        } else {
            by_author(cs, cfg, e)
        },
        !(is_considered(c, cfg) && c.author_email == e) ==> author_stat(cs.push(c), cfg, e)
            == author_stat(cs, cfg, e),
        is_considered(c, cfg) && c.author_email == e ==> author_stat(cs.push(c), cfg, e) == add_to_row(
            if by_author(cs, cfg, e).len() == 0 {
                blank_row(c.author_name, e)
            } else {
                author_stat(cs, cfg, e)
            },
            c.is_merge,
            counted_additions(c.files, cfg),
            counted_deletions(c.files, cfg),
        ),
{
    let pred = |x: CommitView| is_considered(x, cfg) && x.author_email == e;
    cs.lemma_filter_push(c, pred);
    let mine = by_author(cs, cfg, e);
    if is_considered(c, cfg) && c.author_email == e {
        lemma_lines_push(mine, c, cfg);
        if mine.len() == 0 {
            assert(mine.push(c)[0] == c);
        } else {
            assert(mine.push(c)[0] == mine[0]);
        }
    }
}

/// `t` holds the author rows of the commits `pre`, in some order.
#[verifier::opaque]
pub open spec fn authors_so_far(t: Seq<AuthorStatView>, pre: Seq<CommitView>, cfg: EffectiveConfigView) -> bool {
    &&& keys_distinct::<AuthorStat>(t)
    &&& forall|k: int|
        0 <= k < t.len() ==> by_author(pre, cfg, (#[trigger] t[k]).email).len() > 0 && t[k]
            == author_stat(pre, cfg, t[k].email)
    &&& forall|e: Seq<char>|
        #[trigger] by_author(pre, cfg, e).len() > 0 ==> keys::<AuthorStat>(t).contains(e)
    &&& forall|k: int|
        0 <= k < t.len() ==> (#[trigger] t[k]).commit_count <= pre.len()
            && t[k].merge_commit_count <= pre.len() && t[k].effective_commit_count <= pre.len()
            && t[k].additions <= lines_added(pre, cfg) && t[k].deletions <= lines_deleted(
            pre,
            cfg,
        )
    &&& author_sums_match(t, pre, cfg)
}

pub(crate) proof fn lemma_authors_start(pre: Seq<CommitView>, cfg: EffectiveConfigView)
    requires
        pre.len() == 0,
    ensures
        authors_so_far(Seq::empty(), pre, cfg),
{
    reveal(authors_so_far);
    reveal(Seq::filter);
    let t = Seq::<AuthorStatView>::empty();
    assert forall|e: Seq<char>| #[trigger] by_author(pre, cfg, e).len() > 0 implies keys::<
        AuthorStat,
    >(t).contains(e) by {
        assert(by_author(pre, cfg, e) =~= Seq::<CommitView>::empty());
    }
    assert(considered(pre, cfg) =~= Seq::<CommitView>::empty());
}

pub(crate) proof fn lemma_authors_skip(t: Seq<AuthorStatView>, pre: Seq<CommitView>, c: CommitView, cfg: EffectiveConfigView)
    requires
        authors_so_far(t, pre, cfg),
        !is_considered(c, cfg),
    ensures
        authors_so_far(t, pre.push(c), cfg),
{
    reveal(authors_so_far);
    let post = pre.push(c);
    assert forall|e: Seq<char>| #[trigger] by_author(post, cfg, e).len() > 0 implies keys::<
        AuthorStat,
    >(t).contains(e) by {
        lemma_author_stat_push(pre, c, cfg, e);
    }
    assert forall|k: int| 0 <= k < t.len() implies by_author(post, cfg, (#[trigger] t[k]).email).len()
        > 0 && t[k] == author_stat(post, cfg, t[k].email) by {
        lemma_author_stat_push(pre, c, cfg, t[k].email);
    }
    lemma_lines_push(pre, c, cfg);
    pre.lemma_filter_push(c, |x: CommitView| is_considered(x, cfg));
}

pub(crate) proof fn lemma_authors_update(
    t: Seq<AuthorStatView>,
    pre: Seq<CommitView>,
    c: CommitView,
    cfg: EffectiveConfigView,
    k: int,
)
    requires
        authors_so_far(t, pre, cfg),
        is_considered(c, cfg),
        0 <= k < t.len(),
        t[k].email == c.author_email,
    ensures
        authors_so_far(
            t.update(
                k,
                add_to_row(t[k], c.is_merge, counted_additions(c.files, cfg), counted_deletions(c.files, cfg)),
            ),
            pre.push(c),
            cfg,
        ),
{
    reveal(authors_so_far);
    let a = counted_additions(c.files, cfg);
    let d = counted_deletions(c.files, cfg);
    let row = add_to_row(t[k], c.is_merge, a, d);
    let t2 = t.update(k, row);
    let post = pre.push(c);
    let e = c.author_email;
    lemma_author_stat_push(pre, c, cfg, e);
    lemma_lines_push(pre, c, cfg);
    let cons = |x: CommitView| is_considered(x, cfg);
    pre.lemma_filter_push(c, cons);
    lemma_lines_push(considered(pre, cfg), c, cfg);
    assert(keys::<AuthorStat>(t2) =~= keys::<AuthorStat>(t));
    assert(keys_distinct::<AuthorStat>(t2)) by {
        assert forall|i: int, j: int| 0 <= i < j < t2.len() implies AuthorStat::rank_key(
            #[trigger] t2[i],
        ) != AuthorStat::rank_key(#[trigger] t2[j]) by {
            assert(t2[i].email == t[i].email && t2[j].email == t[j].email);
        }
    }
    assert forall|i: int| 0 <= i < t2.len() implies by_author(post, cfg, (#[trigger] t2[i]).email).len()
        > 0 && t2[i] == author_stat(post, cfg, t2[i].email) by {
        if i == k {
            assert(by_author(pre, cfg, e).len() > 0);
        } else {
            assert(t[i].email != e) by {
                assert(AuthorStat::rank_key(t[i]) != AuthorStat::rank_key(t[k]));
            }
            lemma_author_stat_push(pre, c, cfg, t[i].email);
        }
    }
    assert forall|x: Seq<char>| #[trigger] by_author(post, cfg, x).len() > 0 implies keys::<
        AuthorStat,
    >(t2).contains(x) by {
        lemma_author_stat_push(pre, c, cfg, x);
        if x == e {
            assert(keys::<AuthorStat>(t2)[k] == x);
        }
    }
    assert forall|i: int| 0 <= i < t2.len() implies (#[trigger] t2[i]).commit_count <= post.len()
        && t2[i].merge_commit_count <= post.len() && t2[i].effective_commit_count <= post.len()
        && t2[i].additions <= lines_added(post, cfg) && t2[i].deletions <= lines_deleted(
        post,
        cfg,
    ) by {
        assert(t[i].commit_count <= pre.len());
    }
    lemma_sum_by_update(t, k, row, author_commits());
    lemma_sum_by_update(t, k, row, author_merges());
    lemma_sum_by_update(t, k, row, author_effective());
    lemma_sum_by_update(t, k, row, author_additions());
    lemma_sum_by_update(t, k, row, author_deletions());
}

pub(crate) proof fn lemma_authors_new(t: Seq<AuthorStatView>, pre: Seq<CommitView>, c: CommitView, cfg: EffectiveConfigView)
    requires
        authors_so_far(t, pre, cfg),
        is_considered(c, cfg),
        !keys::<AuthorStat>(t).contains(c.author_email),
    ensures
        authors_so_far(
            t.push(
                add_to_row(
                    blank_row(c.author_name, c.author_email),
                    c.is_merge,
                    counted_additions(c.files, cfg),
                    counted_deletions(c.files, cfg),
                ),
            ),
            pre.push(c),
            cfg,
        ),
{
    reveal(authors_so_far);
    let a = counted_additions(c.files, cfg);
    let d = counted_deletions(c.files, cfg);
    let e = c.author_email;
    let row = add_to_row(blank_row(c.author_name, e), c.is_merge, a, d);
    let t2 = t.push(row);
    let post = pre.push(c);
    lemma_author_stat_push(pre, c, cfg, e);
    lemma_lines_push(pre, c, cfg);
    let cons = |x: CommitView| is_considered(x, cfg);
    pre.lemma_filter_push(c, cons);
    lemma_lines_push(considered(pre, cfg), c, cfg);
    assert(keys::<AuthorStat>(t2) =~= keys::<AuthorStat>(t).push(e));
    assert(by_author(pre, cfg, e).len() == 0) by {
        if by_author(pre, cfg, e).len() > 0 {
            assert(keys::<AuthorStat>(t).contains(e));
        }
    }
    assert(keys_distinct::<AuthorStat>(t2)) by {
        assert forall|i: int, j: int| 0 <= i < j < t2.len() implies AuthorStat::rank_key(
            #[trigger] t2[i],
        ) != AuthorStat::rank_key(#[trigger] t2[j]) by {
            if j == t.len() {
                assert(keys::<AuthorStat>(t)[i] == t[i].email);
            }
        }
    }
    assert forall|i: int| 0 <= i < t2.len() implies by_author(post, cfg, (#[trigger] t2[i]).email).len()
        > 0 && t2[i] == author_stat(post, cfg, t2[i].email) by {
        if i < t.len() {
            assert(t[i].email != e) by {
                assert(keys::<AuthorStat>(t)[i] == t[i].email);
            }
            lemma_author_stat_push(pre, c, cfg, t[i].email);
        }
    }
    assert forall|x: Seq<char>| #[trigger] by_author(post, cfg, x).len() > 0 implies keys::<
        AuthorStat,
    >(t2).contains(x) by {
        lemma_author_stat_push(pre, c, cfg, x);
        if x == e {
            assert(keys::<AuthorStat>(t2)[t.len() as int] == x);
        } else {
            let j = choose|j: int| 0 <= j < keys::<AuthorStat>(t).len() && keys::<AuthorStat>(t)[j] == x;
            assert(keys::<AuthorStat>(t2)[j] == x);
        }
    }
    lemma_sum_by_push(t, row, author_commits());
    lemma_sum_by_push(t, row, author_merges());
    lemma_sum_by_push(t, row, author_effective());
    lemma_sum_by_push(t, row, author_additions());
    lemma_sum_by_push(t, row, author_deletions());
}

/// The row `r` with one more commit.
pub(crate) fn add_commit_to_row(r: &AuthorStat, is_merge: bool, a: u64, d: u64) -> (res: AuthorStat)
    requires
        r.commit_count < u64::MAX,
        r.merge_commit_count < u64::MAX,
        r.effective_commit_count < u64::MAX,
        r.additions + a <= i64::MAX,
        r.deletions + d <= i64::MAX,
    ensures
        res@ == add_to_row(r@, is_merge, a as nat, d as nat),
{
    let additions = r.additions + a;
    let deletions = r.deletions + d;
    AuthorStat {
        name: r.name.clone(),
        email: r.email.clone(),
        commit_count: r.commit_count + 1,
        merge_commit_count: if is_merge {
            r.merge_commit_count + 1
        } else {
            r.merge_commit_count
        },
        effective_commit_count: if is_merge {
            r.effective_commit_count
        } else {
            r.effective_commit_count + 1
        },
        additions,
        deletions,
        net_lines: additions as i64 - deletions as i64,
    }
}

/// The rows of the authors of `commits`, in order of first appearance.
pub(crate) fn group_authors(commits: &Vec<CommitRecord>, config: &EffectiveConfig) -> (t: Vec<AuthorStat>)
    requires
        lines_fit(commits_view(commits@), config@),
    ensures
        authors_so_far(views(t@), commits_view(commits@), config@),
{
    let ghost cs = commits_view(commits@);
    let ghost cfg = config@;
    let mut table: Vec<AuthorStat> = Vec::new();
    proof {
        lemma_authors_start(cs.take(0), cfg);
        assert(views(table@) =~= Seq::<AuthorStatView>::empty());
    }
    let n = commits.len();
    for i in 0..n
        invariant
            n == cs.len(),
            cs == commits_view(commits@),
            cfg == config@,
            lines_fit(cs, cfg),
            authors_so_far(views(table@), cs.take(i as int), cfg),
    {
        let ghost pre = cs.take(i as int);
        let ghost c = cs[i as int];
        let ghost t = views(table@);
        assert(cs.take(i + 1) =~= pre.push(c));
        let commit = &commits[i];
        if config.no_merge && commit.is_merge {
            proof {
                lemma_authors_skip(t, pre, c, cfg);
            }
        } else {
            let (a, d) = commit_lines(commits, i, config);
            match find_by_key(&table, &commit.author_email) {
                Some(k) => {
                    proof {
                        reveal(authors_so_far);
                        assert(t[k as int] == table@[k as int]@);
                        assert(t[k as int].commit_count <= pre.len());
                    }
                    let row = add_commit_to_row(&table[k], commit.is_merge, a, d);
                    table.set(k, row);
                    proof {
                        lemma_authors_update(t, pre, c, cfg, k as int);
                        assert(views(table@) =~= t.update(k as int, row@));
                    }
                },
                None => {
                    let blank = AuthorStat {
                        name: commit.author_name.clone(),
                        email: commit.author_email.clone(),
                        commit_count: 0,
                        merge_commit_count: 0,
                        effective_commit_count: 0,
                        additions: 0,
                        deletions: 0,
                        net_lines: 0,
                    };
                    let row = add_commit_to_row(&blank, commit.is_merge, a, d);
                    table.push(row);
                    proof {
                        lemma_authors_new(t, pre, c, cfg);
                        assert(views(table@) =~= t.push(row@));
                    }
                },
            }
        }
    }
    assert(cs.take(n as int) =~= cs);
    table
}

pub(crate) proof fn lemma_authors_sorted(
    g: Seq<AuthorStatView>,
    r: Seq<AuthorStatView>,
    cs: Seq<CommitView>,
    cfg: EffectiveConfigView,
)
    requires
        authors_so_far(g, cs, cfg),
        is_ranked::<AuthorStat>(r),
        forall|i: int| 0 <= i < r.len() ==> g.contains(#[trigger] r[i]),
        forall|j: int| 0 <= j < g.len() ==> r.contains(#[trigger] g[j]),
        forall|f: spec_fn(AuthorStatView) -> nat| #[trigger] sum_by(r, f) == sum_by(g, f),
    ensures
        is_author_table(r, cs, cfg),
        author_sums_match(r, cs, cfg),
{
    reveal(authors_so_far);
    assert forall|i: int| 0 <= i < r.len() implies by_author(cs, cfg, (#[trigger] r[i]).email).len()
        > 0 && r[i] == author_stat(cs, cfg, r[i].email) by {
        assert(g.contains(r[i]));
        let j = choose|j: int| 0 <= j < g.len() && g[j] == r[i];
        assert(g[j] == r[i]);
    }
    assert forall|e: Seq<char>| #[trigger] by_author(cs, cfg, e).len() > 0 implies keys::<
        AuthorStat,
    >(r).contains(e) by {
        assert(keys::<AuthorStat>(g).contains(e));
        let j = choose|j: int| 0 <= j < keys::<AuthorStat>(g).len() && keys::<AuthorStat>(g)[j] == e;
        assert(r.contains(g[j]));
        let i = choose|i: int| 0 <= i < r.len() && r[i] == g[j];
        assert(keys::<AuthorStat>(r)[i] == e);
    }
    assert(sum_by(r, author_commits()) == sum_by(g, author_commits()));
    assert(sum_by(r, author_merges()) == sum_by(g, author_merges()));
    assert(sum_by(r, author_effective()) == sum_by(g, author_effective()));
    assert(sum_by(r, author_additions()) == sum_by(g, author_additions()));
    assert(sum_by(r, author_deletions()) == sum_by(g, author_deletions()));
}

/// The rows of the authors of `commits`, in report order, with sums that
/// equal the totals of the considered commits.
pub fn aggregate_authors(commits: &Vec<CommitRecord>, config: &EffectiveConfig) -> (res: Vec<
    AuthorStat,
>)
    requires
        lines_fit(commits_view(commits@), config@),
    ensures
        is_author_table(views(res@), commits_view(commits@), config@),
        author_sums_match(views(res@), commits_view(commits@), config@),
{
    let grouped = group_authors(commits, config);
    proof {
        reveal(authors_so_far);
    }
    let ghost g = views(grouped@);
    let sorted = sort_rows(grouped);
    proof {
        lemma_authors_sorted(g, views(sorted@), commits_view(commits@), config@);
    }
    sorted
}

// ---------------------------------------------------------------------------
// Totals
// ---------------------------------------------------------------------------

/// The totals over the author rows `t`.
pub open spec fn summary_of(t: Seq<AuthorStatView>) -> RepoSummaryView {
    RepoSummaryView {
        total_authors: t.len(),
        total_commits: sum_by(t, author_commits()),
        merge_commits: sum_by(t, author_merges()),
        effective_commits: sum_by(t, author_effective()),
        total_additions: sum_by(t, author_additions()),
        total_deletions: sum_by(t, author_deletions()),
        net_lines: sum_by(t, author_additions()) - sum_by(t, author_deletions()),
    }
}

pub(crate) proof fn lemma_sum_by_prefix<T>(s: Seq<T>, f: spec_fn(T) -> nat, i: int)
    requires
        0 <= i <= s.len(),
    ensures
        sum_by(s.take(i), f) <= sum_by(s, f),
    decreases s.len() - i,
{
    if i < s.len() {
        lemma_sum_by_prefix(s, f, i + 1);
        assert(s.take(i + 1).drop_last() =~= s.take(i));
    } else {
        assert(s.take(i) =~= s);
    }
}

/// The totals over the author rows.
pub fn summarize(authors: &Vec<AuthorStat>) -> (res: RepoSummary)
    requires
        sum_by(views(authors@), author_commits()) <= u64::MAX,
        sum_by(views(authors@), author_merges()) <= u64::MAX,
        sum_by(views(authors@), author_effective()) <= u64::MAX,
        sum_by(views(authors@), author_additions()) <= i64::MAX,
        sum_by(views(authors@), author_deletions()) <= i64::MAX,
    ensures
        res@ == summary_of(views(authors@)),
{
    let ghost t = views(authors@);
    let n = authors.len();
    let mut commits: u64 = 0;
    let mut merges: u64 = 0;
    let mut effective: u64 = 0;
    let mut additions: u64 = 0;
    let mut deletions: u64 = 0;
    assert(t.take(0) =~= Seq::<AuthorStatView>::empty());
    for i in 0..n
        invariant
            n == t.len(),
            t == views(authors@),
            sum_by(t, author_commits()) <= u64::MAX,
            sum_by(t, author_merges()) <= u64::MAX,
            sum_by(t, author_effective()) <= u64::MAX,
            sum_by(t, author_additions()) <= i64::MAX,
            sum_by(t, author_deletions()) <= i64::MAX,
            commits == sum_by(t.take(i as int), author_commits()),
            merges == sum_by(t.take(i as int), author_merges()),
            effective == sum_by(t.take(i as int), author_effective()),
            additions == sum_by(t.take(i as int), author_additions()),
            deletions == sum_by(t.take(i as int), author_deletions()),
    {
        let a = &authors[i];
        assert(t.take(i + 1).drop_last() =~= t.take(i as int));
        assert(t.take(i + 1).last() == a@);
        proof {
            lemma_sum_by_prefix(t, author_commits(), i + 1);
            lemma_sum_by_prefix(t, author_merges(), i + 1);
            lemma_sum_by_prefix(t, author_effective(), i + 1);
            lemma_sum_by_prefix(t, author_additions(), i + 1);
            lemma_sum_by_prefix(t, author_deletions(), i + 1);
        }
        commits = commits + a.commit_count;
        merges = merges + a.merge_commit_count;
        effective = effective + a.effective_commit_count;
        additions = additions + a.additions;
        deletions = deletions + a.deletions;
    }
    assert(t.take(n as int) =~= t);
    RepoSummary {
        total_authors: n as u64,
        total_commits: commits,
        merge_commits: merges,
        effective_commits: effective,
        total_additions: additions,
        total_deletions: deletions,
        net_lines: additions as i64 - deletions as i64,
    }
}


} // verus!
