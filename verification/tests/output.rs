use git_report::model::{AuthorStat, RepoSummary, Report, ReportMetadata};
use git_report::output::{authors_table, report_markdown, summary_table};

fn summary() -> RepoSummary {
    RepoSummary {
        total_authors: 2,
        total_commits: 5,
        merge_commits: 1,
        effective_commits: 4,
        total_additions: 10,
        total_deletions: 12,
        net_lines: -2,
    }
}

fn alice() -> AuthorStat {
    AuthorStat {
        name: "Alice".to_string(),
        email: "alice@example.com".to_string(),
        commit_count: 3,
        merge_commit_count: 1,
        effective_commit_count: 2,
        additions: 9,
        deletions: 2,
        net_lines: 7,
    }
}

fn bob() -> AuthorStat {
    AuthorStat {
        name: "Bob".to_string(),
        email: "bob@example.com".to_string(),
        commit_count: 2,
        merge_commit_count: 0,
        effective_commit_count: 2,
        additions: 1,
        deletions: 10,
        net_lines: -9,
    }
}

#[test]
fn summary_table_lists_each_total() {
    assert_eq!(
        summary_table(&summary()),
        "total_authors\t2\ntotal_commits\t5\nmerge_commits\t1\neffective_commits\t4\ntotal_additions\t10\ntotal_deletions\t12\nnet_lines\t-2"
    );
}

#[test]
fn authors_table_has_a_header_and_a_row_per_author() {
    assert_eq!(
        authors_table(&vec![alice(), bob()]),
        "name\temail\tcommits\teffective\tadditions\tdeletions\tnet\nAlice\talice@example.com\t3\t2\t9\t2\t7\nBob\tbob@example.com\t2\t2\t1\t10\t-9"
    );
    assert_eq!(
        authors_table(&vec![]),
        "name\temail\tcommits\teffective\tadditions\tdeletions\tnet"
    );
}

#[test]
fn report_markdown_shows_meta_summary_and_authors() {
    let report = Report {
        meta: ReportMetadata {
            repo: "/src/app".to_string(),
            branch: "main".to_string(),
            since: Some("1 month ago".to_string()),
            until: None,
        },
        summary: summary(),
        authors: vec![alice(), bob()],
    };
    let expected = [
        "# Git Report",
        "",
        "**Repository**: /src/app",
        "**Branch**: main",
        "**Since**: 1 month ago",
        "",
        "## Summary",
        "",
        "| Total Authors | Total Commits | Merge Commits | Effective Commits | Total Additions | Total Deletions | Net Lines |",
        "|---|---|---|---|---|---|---|",
        "| 2 | 5 | 1 | 4 | 10 | 12 | -2 |",
        "",
        "## By Author",
        "",
        "| Author | Email | Commits | Effective | Additions | Deletions | Net Lines |",
        "|---|---|---|---|---|---|---|",
        "| Alice | alice@example.com | 3 | 2 | 9 | 2 | 7 |",
        "| Bob | bob@example.com | 2 | 2 | 1 | 10 | -9 |",
    ]
    .join("\n");
    assert_eq!(report_markdown(&report), expected);
}

#[test]
fn report_markdown_shows_until_without_since() {
    let report = Report {
        meta: ReportMetadata {
            repo: "r".to_string(),
            branch: "".to_string(),
            since: None,
            until: Some("2026-04-30".to_string()),
        },
        summary: RepoSummary {
            total_authors: 0,
            total_commits: 0,
            merge_commits: 0,
            effective_commits: 0,
            total_additions: 0,
            total_deletions: 0,
            net_lines: 0,
        },
        authors: vec![],
    };
    let text = report_markdown(&report);
    assert!(text.starts_with("# Git Report\n\n**Repository**: r\n**Branch**: \n**Until**: 2026-04-30\n\n## Summary"));
    assert!(text.ends_with("| Author | Email | Commits | Effective | Additions | Deletions | Net Lines |\n|---|---|---|---|---|---|---|"));
    assert!(!text.contains("**Since**"));
}

#[test]
fn extreme_numbers_are_written_in_full() {
    let mut s = summary();
    s.total_additions = u64::MAX;
    s.net_lines = i64::MIN;
    let text = summary_table(&s);
    assert!(text.contains("total_additions\t18446744073709551615"));
    assert!(text.ends_with("net_lines\t-9223372036854775808"));
}
