//! Rendering a report as text: tab-separated tables and Markdown.
use vstd::prelude::*;

use crate::model::{authors_view, AuthorStat, AuthorStatView, RepoSummary, RepoSummaryView, Report, ReportView};
use crate::text::{
    decimal, join_lines, join_lines_exec, lemma_numerals_have_no_separators, lemma_split_last_piece,
    split, push_decimal, push_signed_decimal, push_str, signed_decimal,
    strings_view,
};

verus! {

/// The summary table: one line per total, its name and its value separated
/// by a tab.
pub open spec fn summary_lines(s: RepoSummaryView) -> Seq<Seq<char>> {
    seq![
        "total_authors\t"@ + decimal(s.total_authors),
        "total_commits\t"@ + decimal(s.total_commits),
        "merge_commits\t"@ + decimal(s.merge_commits),
        "effective_commits\t"@ + decimal(s.effective_commits),
        "total_additions\t"@ + decimal(s.total_additions),
        "total_deletions\t"@ + decimal(s.total_deletions),
        "net_lines\t"@ + signed_decimal(s.net_lines),
    ]
}

/// `label` followed by the decimal numeral of `n`.
fn labeled(label: &str, n: u64) -> (res: String)
    ensures
        res@ == label@ + decimal(n as nat),
{
    let mut s = String::new();
    push_str(&mut s, label);
    push_decimal(&mut s, n);
    assert(s@ =~= label@ + decimal(n as nat));
    s
}

/// The totals of `summary` as a table of name and value, one per line.
pub fn summary_table(summary: &RepoSummary) -> (res: String)
    ensures
        res@ == join_lines(summary_lines(summary@)),
{
    let mut lines: Vec<String> = Vec::new();
    lines.push(labeled("total_authors\t", summary.total_authors));
    lines.push(labeled("total_commits\t", summary.total_commits));
    lines.push(labeled("merge_commits\t", summary.merge_commits));
    lines.push(labeled("effective_commits\t", summary.effective_commits));
    lines.push(labeled("total_additions\t", summary.total_additions));
    lines.push(labeled("total_deletions\t", summary.total_deletions));
    let mut net = String::new();
    push_str(&mut net, "net_lines\t");
    push_signed_decimal(&mut net, summary.net_lines);
    lines.push(net);
    assert(strings_view(lines@) =~= summary_lines(summary@));
    join_lines_exec(&lines)
}

/// The header of the author table.
pub open spec fn authors_header() -> Seq<char> {
    "name\temail\tcommits\teffective\tadditions\tdeletions\tnet"@
}

/// One author as a line of tab-separated fields.
pub open spec fn author_line(a: AuthorStatView) -> Seq<char> {
    a.name + seq!['\t'] + a.email + seq!['\t'] + decimal(a.commit_count) + seq!['\t'] + decimal(
        a.effective_commit_count,
    ) + seq!['\t'] + decimal(a.additions) + seq!['\t'] + decimal(a.deletions) + seq!['\t']
        + signed_decimal(a.net_lines)
}

/// The lines of the author table.
pub open spec fn authors_lines(t: Seq<AuthorStatView>) -> Seq<Seq<char>> {
    seq![authors_header()] + t.map_values(|a: AuthorStatView| author_line(a))
}

fn author_line_exec(a: &AuthorStat) -> (res: String)
    ensures
        res@ == author_line(a@),
{
    let mut s = String::new();
    push_str(&mut s, a.name.as_str());
    push_str(&mut s, "\t");
    push_str(&mut s, a.email.as_str());
    push_str(&mut s, "\t");
    push_decimal(&mut s, a.commit_count);
    push_str(&mut s, "\t");
    push_decimal(&mut s, a.effective_commit_count);
    push_str(&mut s, "\t");
    push_decimal(&mut s, a.additions);
    push_str(&mut s, "\t");
    push_decimal(&mut s, a.deletions);
    push_str(&mut s, "\t");
    push_signed_decimal(&mut s, a.net_lines);
    proof {
        reveal_strlit("\t");
    }
    assert(s@ =~= author_line(a@));
    s
}

/// The authors as a table: a header line, then one line per author with the
/// name, email, commits, effective commits, additions, deletions and net
/// lines separated by tabs.
pub fn authors_table(authors: &Vec<AuthorStat>) -> (res: String)
    ensures
        res@ == join_lines(authors_lines(authors_view(authors@))),
{
    let mut lines: Vec<String> = Vec::new();
    lines.push("name\temail\tcommits\teffective\tadditions\tdeletions\tnet".to_owned());
    let ghost t = authors_view(authors@);
    let n = authors.len();
    assert(strings_view(lines@) =~= seq![authors_header()] + t.take(0).map_values(
        |a: AuthorStatView| author_line(a),
    ));
    for i in 0..n
        invariant
            n == t.len(),
            t == authors_view(authors@),
            strings_view(lines@) == seq![authors_header()] + t.take(i as int).map_values(
                |a: AuthorStatView| author_line(a),
            ),
    {
        let line = author_line_exec(&authors[i]);
        let ghost before = strings_view(lines@);
        lines.push(line);
        assert(t.take(i + 1) =~= t.take(i as int).push(t[i as int]));
        assert(strings_view(lines@) =~= before.push(line@));
        assert(strings_view(lines@) =~= seq![authors_header()] + t.take(i + 1).map_values(
            |a: AuthorStatView| author_line(a),
        ));
    }
    assert(t.take(n as int) =~= t);
    join_lines_exec(&lines)
}

/// One row of a Markdown table with seven cells.
pub open spec fn md_row7(
    c1: Seq<char>,
    c2: Seq<char>,
    c3: Seq<char>,
    c4: Seq<char>,
    c5: Seq<char>,
    c6: Seq<char>,
    c7: Seq<char>,
) -> Seq<char> {
    "| "@ + c1 + " | "@ + c2 + " | "@ + c3 + " | "@ + c4 + " | "@ + c5 + " | "@ + c6 + " | "@ + c7
        + " |"@
}

/// The Markdown row of the summary.
pub open spec fn md_summary_row(s: RepoSummaryView) -> Seq<char> {
    md_row7(
        decimal(s.total_authors),
        decimal(s.total_commits),
        decimal(s.merge_commits),
        decimal(s.effective_commits),
        decimal(s.total_additions),
        decimal(s.total_deletions),
        signed_decimal(s.net_lines),
    )
}

/// The Markdown row of one author.
pub open spec fn md_author_row(a: AuthorStatView) -> Seq<char> {
    md_row7(
        a.name,
        a.email,
        decimal(a.commit_count),
        decimal(a.effective_commit_count),
        decimal(a.additions),
        decimal(a.deletions),
        signed_decimal(a.net_lines),
    )
}

/// The line naming an optional bound.
pub open spec fn optional_line(label: Seq<char>, value: Option<Seq<char>>) -> Seq<Seq<char>> {
    match value {
        Some(v) => seq![label + v],
        None => Seq::empty(),
    }
}

/// The lines of the Markdown report: a title, the repository and branch,
/// the time bounds that were given, the summary table and the author table.
pub open spec fn markdown_lines(r: ReportView) -> Seq<Seq<char>> {
    seq![
        "# Git Report"@,
        Seq::empty(),
        "**Repository**: "@ + r.meta.repo,
        "**Branch**: "@ + r.meta.branch,
    ] + optional_line("**Since**: "@, r.meta.since) + optional_line("**Until**: "@, r.meta.until)
        + seq![
        Seq::empty(),
        "## Summary"@,
        Seq::empty(),
        "| Total Authors | Total Commits | Merge Commits | Effective Commits | Total Additions | Total Deletions | Net Lines |"@,
        "|---|---|---|---|---|---|---|"@,
        md_summary_row(r.summary),
        Seq::empty(),
        "## By Author"@,
        Seq::empty(),
        "| Author | Email | Commits | Effective | Additions | Deletions | Net Lines |"@,
        "|---|---|---|---|---|---|---|"@,
    ] + r.authors.map_values(|a: AuthorStatView| md_author_row(a))
}

fn md_summary_row_exec(s: &RepoSummary) -> (res: String)
    ensures
        res@ == md_summary_row(s@),
{
    let mut out = String::new();
    push_str(&mut out, "| ");
    push_decimal(&mut out, s.total_authors);
    push_str(&mut out, " | ");
    push_decimal(&mut out, s.total_commits);
    push_str(&mut out, " | ");
    push_decimal(&mut out, s.merge_commits);
    push_str(&mut out, " | ");
    push_decimal(&mut out, s.effective_commits);
    push_str(&mut out, " | ");
    push_decimal(&mut out, s.total_additions);
    push_str(&mut out, " | ");
    push_decimal(&mut out, s.total_deletions);
    push_str(&mut out, " | ");
    push_signed_decimal(&mut out, s.net_lines);
    push_str(&mut out, " |");
    assert(out@ =~= md_summary_row(s@));
    out
}

fn md_author_row_exec(a: &AuthorStat) -> (res: String)
    ensures
        res@ == md_author_row(a@),
{
    let mut out = String::new();
    push_str(&mut out, "| ");
    push_str(&mut out, a.name.as_str());
    push_str(&mut out, " | ");
    push_str(&mut out, a.email.as_str());
    push_str(&mut out, " | ");
    push_decimal(&mut out, a.commit_count);
    push_str(&mut out, " | ");
    push_decimal(&mut out, a.effective_commit_count);
    push_str(&mut out, " | ");
    push_decimal(&mut out, a.additions);
    push_str(&mut out, " | ");
    push_decimal(&mut out, a.deletions);
    push_str(&mut out, " | ");
    push_signed_decimal(&mut out, a.net_lines);
    push_str(&mut out, " |");
    assert(out@ =~= md_author_row(a@));
    out
}

fn prefixed(label: &str, value: &String) -> (res: String)
    ensures
        res@ == label@ + value@,
{
    let mut out = String::new();
    push_str(&mut out, label);
    push_str(&mut out, value.as_str());
    assert(out@ =~= label@ + value@);
    out
}

/// The report in Markdown.
pub fn report_markdown(report: &Report) -> (res: String)
    ensures
        res@ == join_lines(markdown_lines(report@)),
{
    let ghost r = report@;
    let mut lines: Vec<String> = Vec::new();
    lines.push("# Git Report".to_owned());
    lines.push(String::new());
    lines.push(prefixed("**Repository**: ", &report.meta.repo));
    lines.push(prefixed("**Branch**: ", &report.meta.branch));
    let ghost head = strings_view(lines@);
    assert(head =~= seq![
        "# Git Report"@,
        Seq::empty(),
        "**Repository**: "@ + r.meta.repo,
        "**Branch**: "@ + r.meta.branch,
    ]);
    match &report.meta.since {
        Some(since) => {
            lines.push(prefixed("**Since**: ", since));
        },
        None => {},
    }
    assert(strings_view(lines@) =~= head + optional_line("**Since**: "@, r.meta.since));
    let ghost with_since = strings_view(lines@);
    match &report.meta.until {
        Some(until) => {
            lines.push(prefixed("**Until**: ", until));
        },
        None => {},
    }
    assert(strings_view(lines@) =~= with_since + optional_line("**Until**: "@, r.meta.until));
    let ghost with_bounds = strings_view(lines@);
    lines.push(String::new());
    lines.push("## Summary".to_owned());
    lines.push(String::new());
    lines.push(
        "| Total Authors | Total Commits | Merge Commits | Effective Commits | Total Additions | Total Deletions | Net Lines |".to_owned(),
    );
    lines.push("|---|---|---|---|---|---|---|".to_owned());
    lines.push(md_summary_row_exec(&report.summary));
    lines.push(String::new());
    lines.push("## By Author".to_owned());
    lines.push(String::new());
    lines.push(
        "| Author | Email | Commits | Effective | Additions | Deletions | Net Lines |".to_owned(),
    );
    lines.push("|---|---|---|---|---|---|---|".to_owned());
    let ghost middle = seq![
        Seq::<char>::empty(),
        "## Summary"@,
        Seq::empty(),
        "| Total Authors | Total Commits | Merge Commits | Effective Commits | Total Additions | Total Deletions | Net Lines |"@,
        "|---|---|---|---|---|---|---|"@,
        md_summary_row(r.summary),
        Seq::empty(),
        "## By Author"@,
        Seq::empty(),
        "| Author | Email | Commits | Effective | Additions | Deletions | Net Lines |"@,
        "|---|---|---|---|---|---|---|"@,
    ];
    let ghost top = with_bounds + middle;
    assert(strings_view(lines@) =~= top);
    let ghost t = r.authors;
    let n = report.authors.len();
    assert(top + t.take(0).map_values(|a: AuthorStatView| md_author_row(a)) =~= top);
    for i in 0..n
        invariant
            n == t.len(),
            t == authors_view(report.authors@),
            strings_view(lines@) == top + t.take(i as int).map_values(
                |a: AuthorStatView| md_author_row(a),
            ),
    {
        let row = md_author_row_exec(&report.authors[i]);
        let ghost before = strings_view(lines@);
        lines.push(row);
        assert(t.take(i + 1) =~= t.take(i as int).push(t[i as int]));
        assert(strings_view(lines@) =~= before.push(row@));
        assert(strings_view(lines@) =~= top + t.take(i + 1).map_values(
            |a: AuthorStatView| md_author_row(a),
        ));
    }
    assert(t.take(n as int) =~= t);
    assert(strings_view(lines@) =~= markdown_lines(r));
    join_lines_exec(&lines)
}

/// 1 when `o` holds a value, else 0.
pub open spec fn present(o: Option<Seq<char>>) -> int {
    if o is Some {
        1
    } else {
        0
    }
}

/// What the Markdown report shows, line by line: the title, the repository
/// and the branch; the start when one was given and the end when one was
/// given, each on its own line whatever the other is; the summary table; and
/// one row per author in the order of the report.
pub proof fn lemma_markdown_shows_the_report(r: ReportView)
    ensures
        markdown_lines(r).len() == 15 + present(r.meta.since) + present(r.meta.until)
            + r.authors.len(),
        markdown_lines(r)[0] == "# Git Report"@,
        markdown_lines(r)[2] == "**Repository**: "@ + r.meta.repo,
        markdown_lines(r)[3] == "**Branch**: "@ + r.meta.branch,
        r.meta.since matches Some(s) ==> markdown_lines(r)[4] == "**Since**: "@ + s,
        r.meta.until matches Some(u) ==> markdown_lines(r)[4 + present(r.meta.since)]
            == "**Until**: "@ + u,
        markdown_lines(r)[9 + present(r.meta.since) + present(r.meta.until)] == md_summary_row(
            r.summary,
        ),
        forall|k: int|
            0 <= k < r.authors.len() ==> markdown_lines(r)[15 + present(r.meta.since) + present(
                r.meta.until,
            ) + k] == md_author_row(#[trigger] r.authors[k]),
{
}

/// A line of the author table holds the author's fields in order, one per
/// tab-separated cell: name, email, commits, effective commits, lines added,
/// lines deleted and net lines, when neither name nor email holds a tab.
pub proof fn lemma_author_line_cells(a: AuthorStatView)
    requires
        !a.name.contains('\t'),
        !a.email.contains('\t'),
    ensures
        split(author_line(a), '\t') == seq![
            a.name,
            a.email,
            decimal(a.commit_count),
            decimal(a.effective_commit_count),
            decimal(a.additions),
            decimal(a.deletions),
            signed_decimal(a.net_lines),
        ],
{
    let t = seq!['\t'];
    lemma_numerals_have_no_separators(a.commit_count, a.net_lines, '\t');
    lemma_numerals_have_no_separators(a.effective_commit_count, 0, '\t');
    lemma_numerals_have_no_separators(a.additions, 0, '\t');
    lemma_numerals_have_no_separators(a.deletions, 0, '\t');
    let p1 = a.name;
    let p2 = p1 + t + a.email;
    let p3 = p2 + t + decimal(a.commit_count);
    let p4 = p3 + t + decimal(a.effective_commit_count);
    let p5 = p4 + t + decimal(a.additions);
    let p6 = p5 + t + decimal(a.deletions);
    let p7 = p6 + t + signed_decimal(a.net_lines);
    lemma_split_last_piece(Seq::empty(), p1, '\t');
    lemma_split_last_piece(p1, a.email, '\t');
    lemma_split_last_piece(p2, decimal(a.commit_count), '\t');
    lemma_split_last_piece(p3, decimal(a.effective_commit_count), '\t');
    lemma_split_last_piece(p4, decimal(a.additions), '\t');
    lemma_split_last_piece(p5, decimal(a.deletions), '\t');
    lemma_split_last_piece(p6, signed_decimal(a.net_lines), '\t');
    assert(p7 == author_line(a));
    assert(split(author_line(a), '\t') =~= seq![
        a.name,
        a.email,
        decimal(a.commit_count),
        decimal(a.effective_commit_count),
        decimal(a.additions),
        decimal(a.deletions),
        signed_decimal(a.net_lines),
    ]);
}

/// Each line of the summary table is a total's name, a tab, and the total:
/// authors, commits, merges, effective commits, lines added, lines deleted
/// and net lines, in that order.
pub proof fn lemma_summary_line_cells(s: RepoSummaryView)
    ensures
        summary_lines(s).len() == 7,
        split(summary_lines(s)[0], '\t') == seq!["total_authors"@, decimal(s.total_authors)],
        split(summary_lines(s)[1], '\t') == seq!["total_commits"@, decimal(s.total_commits)],
        split(summary_lines(s)[2], '\t') == seq!["merge_commits"@, decimal(s.merge_commits)],
        split(summary_lines(s)[3], '\t') == seq![
            "effective_commits"@,
            decimal(s.effective_commits),
        ],
        split(summary_lines(s)[4], '\t') == seq!["total_additions"@, decimal(s.total_additions)],
        split(summary_lines(s)[5], '\t') == seq!["total_deletions"@, decimal(s.total_deletions)],
        split(summary_lines(s)[6], '\t') == seq!["net_lines"@, signed_decimal(s.net_lines)],
{
    reveal_strlit("total_authors\t");
    reveal_strlit("total_authors");
    reveal_strlit("total_commits\t");
    reveal_strlit("total_commits");
    reveal_strlit("merge_commits\t");
    reveal_strlit("merge_commits");
    reveal_strlit("effective_commits\t");
    reveal_strlit("effective_commits");
    reveal_strlit("total_additions\t");
    reveal_strlit("total_additions");
    reveal_strlit("total_deletions\t");
    reveal_strlit("total_deletions");
    reveal_strlit("net_lines\t");
    reveal_strlit("net_lines");
    let t = seq!['\t'];
    lemma_numerals_have_no_separators(s.total_authors, s.net_lines, '\t');
    lemma_numerals_have_no_separators(s.total_commits, 0, '\t');
    lemma_numerals_have_no_separators(s.merge_commits, 0, '\t');
    lemma_numerals_have_no_separators(s.effective_commits, 0, '\t');
    lemma_numerals_have_no_separators(s.total_additions, 0, '\t');
    lemma_numerals_have_no_separators(s.total_deletions, 0, '\t');
    assert("total_authors\t"@ =~= "total_authors"@ + t);
    assert("total_commits\t"@ =~= "total_commits"@ + t);
    assert("merge_commits\t"@ =~= "merge_commits"@ + t);
    assert("effective_commits\t"@ =~= "effective_commits"@ + t);
    assert("total_additions\t"@ =~= "total_additions"@ + t);
    assert("total_deletions\t"@ =~= "total_deletions"@ + t);
    assert("net_lines\t"@ =~= "net_lines"@ + t);
    assert(!"total_authors"@.contains('\t'));
    assert(!"total_commits"@.contains('\t'));
    assert(!"merge_commits"@.contains('\t'));
    assert(!"effective_commits"@.contains('\t'));
    assert(!"total_additions"@.contains('\t'));
    assert(!"total_deletions"@.contains('\t'));
    assert(!"net_lines"@.contains('\t'));
    lemma_split_last_piece("total_authors"@, decimal(s.total_authors), '\t');
    lemma_split_last_piece("total_commits"@, decimal(s.total_commits), '\t');
    lemma_split_last_piece("merge_commits"@, decimal(s.merge_commits), '\t');
    lemma_split_last_piece("effective_commits"@, decimal(s.effective_commits), '\t');
    lemma_split_last_piece("total_additions"@, decimal(s.total_additions), '\t');
    lemma_split_last_piece("total_deletions"@, decimal(s.total_deletions), '\t');
    lemma_split_last_piece("net_lines"@, signed_decimal(s.net_lines), '\t');
    lemma_split_last_piece(Seq::empty(), "total_authors"@, '\t');
    lemma_split_last_piece(Seq::empty(), "total_commits"@, '\t');
    lemma_split_last_piece(Seq::empty(), "merge_commits"@, '\t');
    lemma_split_last_piece(Seq::empty(), "effective_commits"@, '\t');
    lemma_split_last_piece(Seq::empty(), "total_additions"@, '\t');
    lemma_split_last_piece(Seq::empty(), "total_deletions"@, '\t');
    lemma_split_last_piece(Seq::empty(), "net_lines"@, '\t');
}

} // verus!
