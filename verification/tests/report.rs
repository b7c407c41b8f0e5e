use git_report::cli::{merge_preset_config, PresetOptions};
use git_report::config::{EffectiveConfig, FileConfig};
use git_report::model::{AuthorStat, Report};
use git_report::report::{build_dashboard, build_report};

fn config(exclude_dirs: &[&str], exclude_extensions: &[&str], no_merge: bool) -> EffectiveConfig {
    EffectiveConfig {
        repo: "/tmp/repo".to_string(),
        since: None,
        until: None,
        branch: None,
        no_merge,
        exclude_dirs: exclude_dirs.iter().map(|s| s.to_string()).collect(),
        exclude_extensions: exclude_extensions.iter().map(|s| s.to_string()).collect(),
    }
}

fn header(hash: &str, name: &str, email: &str, date: &str, parents: &str, subject: &str) -> String {
    format!("COMMIT\x1f{hash}\x1f{name}\x1f{email}\x1f{date}\x1f{subject}\x1f{parents}\n")
}

fn author<'a>(report: &'a Report, email: &str) -> &'a AuthorStat {
    report.authors.iter().find(|a| a.email == email).unwrap()
}

#[test]
fn summary_reports_expected_totals() {
    let log = format!(
        "{}2\t0\tsrc/app.ts\n\n{}1\t0\tsrc/app.test.ts\n",
        header("h2", "Bob", "bob@example.com", "2026-04-10", "p1", "test: add spec"),
        header("h1", "Alice", "alice@example.com", "2026-04-10", "p1", "feat: add app"),
    );
    let report = build_report(&config(&[], &[], false), &log, "main\n").unwrap();
    assert_eq!(report.summary.total_authors, 2);
    assert_eq!(report.summary.total_commits, 2);
    assert_eq!(report.summary.total_additions, 3);
    assert_eq!(report.summary.total_deletions, 0);
    assert_eq!(report.summary.net_lines, 3);
    assert_eq!(report.meta.branch, "main");
    assert_eq!(report.meta.repo, "/tmp/repo");
}

#[test]
fn authors_respect_configured_filters() {
    let log = format!(
        "{}3\t0\tsrc/main.ts\n\n{}1\t0\tapps/operation/src/services/a.ts\n",
        header("h2", "Alice", "alice@example.com", "2026-04-10", "p1", "feat: add logic"),
        header("h1", "Alice", "alice@example.com", "2026-04-10", "p1", "feat: add impl"),
    );
    let cfg = config(&["apps/operation/src/services/"], &[], false);
    let report = build_report(&cfg, &log, "main").unwrap();
    assert_eq!(report.authors.len(), 1);
    assert_eq!(report.authors[0].effective_commit_count, 2);
    assert_eq!(report.authors[0].additions, 3);
}

#[test]
fn the_monthly_preset_applies_no_default_path_filters() {
    let log = format!(
        "{}1\t0\tsrc/app.test.ts\n\n{}1\t0\tapps/operation/src/services/a.ts\n",
        header("h2", "Alice", "alice@example.com", "2026-04-10", "p1", "test: add spec"),
        header("h1", "Alice", "alice@example.com", "2026-04-10", "p1", "feat: add service"),
    );
    let options = PresetOptions {
        repo: None,
        branch: None,
        config: None,
        output_dir: None,
        exclude_dirs: vec![],
        exclude_extensions: vec![],
    };
    let cfg = merge_preset_config(&options, "/tmp/repo".to_string(), FileConfig::default());
    let report = build_report(&cfg, &log, "main").unwrap();
    assert_eq!(report.summary.total_additions, 2);
    assert_eq!(report.authors[0].additions, 2);
    assert_eq!(report.meta.since.as_deref(), Some("1 month ago"));
}

#[test]
fn authors_are_ordered_by_effective_commits_then_commits_then_email() {
    let log = format!(
        "{}{}{}{}{}{}",
        header("a1", "Zed", "zed@example.com", "2026-04-01", "p1", "one"),
        header("a2", "Zed", "zed@example.com", "2026-04-02", "p1", "two"),
        header("b1", "Amy", "amy@example.com", "2026-04-01", "p1", "one"),
        header("b2", "Amy", "amy@example.com", "2026-04-01", "p1 p2", "Merge branch 'x'"),
        header("c1", "Bea", "bea@example.com", "2026-04-03", "p1", "one"),
        header("d1", "Al", "al@example.com", "2026-04-03", "p1", "one"),
    );
    let report = build_report(&config(&[], &[], false), &log, "main").unwrap();
    let emails: Vec<&str> = report.authors.iter().map(|a| a.email.as_str()).collect();
    assert_eq!(
        emails,
        vec!["zed@example.com", "amy@example.com", "al@example.com", "bea@example.com"]
    );
    let amy = author(&report, "amy@example.com");
    assert_eq!(amy.commit_count, 2);
    assert_eq!(amy.merge_commit_count, 1);
    assert_eq!(amy.effective_commit_count, 1);
    assert_eq!(report.summary.merge_commits, 1);
    assert_eq!(report.summary.effective_commits, 5);
    assert_eq!(report.summary.total_commits, 6);
}

#[test]
fn no_merge_leaves_merge_commits_out() {
    let log = format!(
        "{}5\t1\tsrc/a.rs\n{}7\t0\tsrc/b.rs\n{}2\t2\tsrc/c.rs\n",
        header("m1", "Amy", "amy@example.com", "2026-04-01", "p1 p2", "Merge pull request #4"),
        header("m2", "Amy", "amy@example.com", "2026-04-01", "p1 p2", "Merge remote-tracking branch"),
        header("c1", "Amy", "amy@example.com", "2026-04-01", "p1", "fix"),
    );
    let with_merges = build_report(&config(&[], &[], false), &log, "main").unwrap();
    assert_eq!(with_merges.summary.total_commits, 3);
    assert_eq!(with_merges.summary.merge_commits, 2);
    assert_eq!(with_merges.summary.total_additions, 14);
    let without = build_report(&config(&[], &[], true), &log, "main").unwrap();
    assert_eq!(without.summary.total_commits, 1);
    assert_eq!(without.summary.merge_commits, 0);
    assert_eq!(without.summary.effective_commits, 1);
    assert_eq!(without.summary.total_additions, 2);
    assert_eq!(without.authors[0].merge_commit_count, 0);
}

#[test]
fn an_author_with_only_merges_is_left_out_without_merges() {
    let log = header("m1", "Amy", "amy@example.com", "2026-04-01", "p1 p2", "Merge branch 'dev'");
    let report = build_report(&config(&[], &[], true), &log, "main").unwrap();
    assert_eq!(report.authors.len(), 0);
    assert_eq!(report.summary.total_authors, 0);
}

#[test]
fn binary_and_filtered_files_count_no_lines() {
    let log = format!(
        "{}-\t-\timg/logo.png\n4\t1\tsrc/x.generated.ts\n3\t5\tsrc/lib.rs\n",
        header("h1", "Amy", "amy@example.com", "2026-04-01", "p1", "work"),
    );
    let report = build_report(&config(&[], &[".generated.ts"], false), &log, "main").unwrap();
    assert_eq!(report.summary.total_additions, 3);
    assert_eq!(report.summary.total_deletions, 5);
    assert_eq!(report.summary.net_lines, -2);
    assert_eq!(report.authors[0].net_lines, -2);
}

#[test]
fn the_first_name_of_an_author_is_kept() {
    let log = format!(
        "{}{}",
        header("h2", "Amy Later", "amy@example.com", "2026-04-02", "p1", "two"),
        header("h1", "Amy Earlier", "amy@example.com", "2026-04-01", "p1", "one"),
    );
    let report = build_report(&config(&[], &[], false), &log, "main").unwrap();
    assert_eq!(report.authors[0].name, "Amy Later");
}

#[test]
fn line_totals_beyond_the_signed_range_are_refused() {
    let log = format!(
        "{}9223372036854775807\t0\ta.rs\n1\t0\tb.rs\n",
        header("h1", "Amy", "amy@example.com", "2026-04-01", "p1", "huge"),
    );
    let res = build_report(&config(&[], &[], false), &log, "main");
    assert!(res.is_err());
    let res = build_dashboard(&config(&[], &[], false), &log, "main");
    assert!(res.is_err());
    let fits = format!(
        "{}9223372036854775807\t0\ta.rs\n",
        header("h1", "Amy", "amy@example.com", "2026-04-01", "p1", "huge"),
    );
    let report = build_report(&config(&[], &[], false), &fits, "main").unwrap();
    assert_eq!(report.summary.total_additions, 9223372036854775807);
}

#[test]
fn report_keeps_the_configured_bounds() {
    let mut cfg = config(&[], &[], false);
    cfg.since = Some("1 month ago".to_string());
    cfg.until = Some("2026-04-30".to_string());
    let report = build_report(&cfg, "", "  feature/x \n").unwrap();
    assert_eq!(report.meta.since.as_deref(), Some("1 month ago"));
    assert_eq!(report.meta.until.as_deref(), Some("2026-04-30"));
    assert_eq!(report.meta.branch, "feature/x");
    assert_eq!(report.summary.total_commits, 0);
    assert_eq!(report.summary.net_lines, 0);
}

#[test]
fn dashboard_days_are_in_date_order_and_add_up() {
    let log = format!(
        "{}1\t1\ta.rs\n{}2\t0\tb.rs\n{}4\t6\tc.rs\n",
        header("h3", "Amy", "amy@example.com", "2026-04-03", "p1", "c"),
        header("h2", "Bob", "bob@example.com", "2026-04-01", "p1", "b"),
        header("h1", "Amy", "amy@example.com", "2026-04-03", "p1", "a"),
    );
    let dash = build_dashboard(&config(&[], &[], false), &log, "main").unwrap();
    let days: Vec<&str> = dash.timeseries.iter().map(|p| p.date.as_str()).collect();
    assert_eq!(days, vec!["2026-04-01", "2026-04-03"]);
    assert_eq!(dash.timeseries[1].commits, 2);
    assert_eq!(dash.timeseries[1].additions, 5);
    assert_eq!(dash.timeseries[1].deletions, 7);
    assert_eq!(dash.timeseries[1].net_lines, -2);
    let commits: u64 = dash.timeseries.iter().map(|p| p.commits).sum();
    let additions: u64 = dash.timeseries.iter().map(|p| p.additions).sum();
    assert_eq!(commits, dash.report.summary.total_commits);
    assert_eq!(additions, dash.report.summary.total_additions);
}

#[test]
fn dashboard_paths_are_ranked_by_additions_then_commits_then_path() {
    let log = format!(
        "{}5\t0\tsrc/b.rs\n5\t0\tsrc/a.rs\n1\t0\tdocs/x.md\n{}0\t3\tdocs/x.md\n-\t-\tlogo.png\n",
        header("h2", "Amy", "amy@example.com", "2026-04-02", "p1", "two"),
        header("h1", "Amy", "amy@example.com", "2026-04-01", "p1", "one"),
    );
    let dash = build_dashboard(&config(&[], &[], false), &log, "main").unwrap();
    let paths: Vec<&str> = dash.paths.iter().map(|p| p.path.as_str()).collect();
    assert_eq!(paths, vec!["src/a.rs", "src/b.rs", "docs/x.md"]);
    let docs = &dash.paths[2];
    assert_eq!(docs.commits, 2);
    assert_eq!(docs.additions, 1);
    assert_eq!(docs.deletions, 3);
    assert_eq!(docs.net_lines, -2);
}

#[test]
fn dashboard_keeps_the_twenty_busiest_paths() {
    let mut log = header("h1", "Amy", "amy@example.com", "2026-04-01", "p1", "many");
    for i in 0..25 {
        log.push_str(&format!("{}\t0\tfile{:02}.rs\n", i + 1, i));
    }
    let dash = build_dashboard(&config(&[], &[], false), &log, "main").unwrap();
    assert_eq!(dash.paths.len(), 20);
    assert_eq!(dash.paths[0].path, "file24.rs");
    assert_eq!(dash.paths[0].additions, 25);
    assert_eq!(dash.paths[19].path, "file05.rs");
    assert_eq!(dash.report.summary.total_additions, (1..=25).sum::<u64>());
}

#[test]
fn more_exclusions_never_count_more_lines() {
    let log = format!(
        "{}4\t2\tsrc/a.ts\n6\t1\tsrc/gen/b.ts\n3\t3\tsrc/c.snap\n",
        header("h1", "Amy", "amy@example.com", "2026-04-01", "p1", "one"),
    );
    let few = build_report(&config(&["gen/"], &[], false), &log, "main").unwrap();
    let more = build_report(&config(&["gen/", "src/a"], &[".snap"], false), &log, "main").unwrap();
    assert_eq!(few.summary.total_additions, 7);
    assert_eq!(more.summary.total_additions, 0);
    assert!(more.summary.total_additions <= few.summary.total_additions);
    assert!(more.summary.total_deletions <= few.summary.total_deletions);
}

#[test]
fn the_dashboard_holds_the_same_report() {
    let log = format!(
        "{}3\t1\ta.rs\n{}1\t4\tb.rs\n{}",
        header("h3", "Amy", "amy@example.com", "2026-04-03", "p1", "c"),
        header("h2", "Bob", "bob@example.com", "2026-04-01", "p1", "b"),
        header("h1", "Amy", "amy@example.com", "2026-04-02", "p1 p2", "Merge branch 'x'"),
    );
    let cfg = config(&["b.rs"], &[], false);
    let report = build_report(&cfg, &log, "dev").unwrap();
    let dash = build_dashboard(&cfg, &log, "dev").unwrap();
    assert_eq!(dash.report.meta.branch, report.meta.branch);
    assert_eq!(dash.report.summary.total_commits, report.summary.total_commits);
    assert_eq!(dash.report.summary.merge_commits, report.summary.merge_commits);
    assert_eq!(dash.report.summary.total_additions, report.summary.total_additions);
    assert_eq!(dash.report.summary.net_lines, report.summary.net_lines);
    assert_eq!(dash.report.authors.len(), report.authors.len());
    for (a, b) in dash.report.authors.iter().zip(report.authors.iter()) {
        assert_eq!(a.email, b.email);
        assert_eq!(a.commit_count, b.commit_count);
        assert_eq!(a.additions, b.additions);
    }
    assert_eq!(report.summary.total_additions, 3);
    assert_eq!(report.summary.merge_commits, 1);
    assert_eq!(dash.paths.len(), 1);
}

#[test]
fn filtered_paths_are_never_listed() {
    let log = format!(
        "{}9\t0\tsrc/api.generated.ts\n1\t0\tsrc/main.ts\n8\t8\tvendor/lib.js\n",
        header("h1", "Amy", "amy@example.com", "2026-04-01", "p1", "one"),
    );
    let dash = build_dashboard(&config(&["vendor/"], &[".generated.ts"], false), &log, "main").unwrap();
    let paths: Vec<&str> = dash.paths.iter().map(|p| p.path.as_str()).collect();
    assert_eq!(paths, vec!["src/main.ts"]);
    assert_eq!(dash.report.summary.total_additions, 1);
}

#[test]
fn merges_are_commits_with_two_or_more_parents() {
    let log = format!(
        "{}{}{}{}",
        header("m1", "Amy", "amy@example.com", "2026-04-01", "p1 p2", "Merge tag 'v1.0'"),
        header("m2", "Amy", "amy@example.com", "2026-04-01", "p1 p2 p3", "octopus"),
        header("c1", "Amy", "amy@example.com", "2026-04-01", "p1", "Merge branch 'x' by hand"),
        header("c0", "Amy", "amy@example.com", "2026-04-01", "", "root commit"),
    );
    let with_merges = build_report(&config(&[], &[], false), &log, "main").unwrap();
    assert_eq!(with_merges.summary.total_commits, 4);
    assert_eq!(with_merges.summary.merge_commits, 2);
    let without = build_report(&config(&[], &[], true), &log, "main").unwrap();
    assert_eq!(without.summary.merge_commits, 0);
    assert_eq!(without.summary.total_commits, 2);
    assert_eq!(without.summary.effective_commits, 2);
}

#[test]
fn more_exclusions_keep_each_author_row_but_its_lines() {
    let log = format!(
        "{}4\t2\tsrc/a.ts\n{}6\t1\tgen/b.ts\n{}3\t3\tsrc/c.ts\n",
        header("h3", "Amy", "amy@example.com", "2026-04-03", "p1", "one"),
        header("h2", "Bob", "bob@example.com", "2026-04-02", "p1", "two"),
        header("h1", "Bob", "bob@example.com", "2026-04-01", "p1 p2", "three"),
    );
    let few = build_report(&config(&[], &[], false), &log, "main").unwrap();
    let more = build_report(&config(&["gen/"], &[".ts"], false), &log, "main").unwrap();
    assert_eq!(few.authors.len(), more.authors.len());
    for (a, b) in few.authors.iter().zip(more.authors.iter()) {
        assert_eq!(a.email, b.email);
        assert_eq!(a.name, b.name);
        assert_eq!(a.commit_count, b.commit_count);
        assert_eq!(a.merge_commit_count, b.merge_commit_count);
        assert_eq!(a.effective_commit_count, b.effective_commit_count);
        assert!(b.additions <= a.additions);
        assert!(b.deletions <= a.deletions);
    }
    assert_eq!(more.summary.total_additions, 0);
}

#[test]
fn leaving_merges_out_is_reporting_the_commits_without_merges() {
    let merge = header("m1", "Amy", "amy@example.com", "2026-04-02", "p1 p2", "merge");
    let rest = format!(
        "{}2\t1\ta.rs\n{}5\t0\tb.rs\n",
        header("h2", "Bob", "bob@example.com", "2026-04-02", "p1", "two"),
        header("h1", "Amy", "amy@example.com", "2026-04-01", "p1", "one"),
    );
    let log = format!("{merge}9\t9\tc.rs\n{rest}");
    let without = build_report(&config(&[], &[], true), &log, "main").unwrap();
    let plain = build_report(&config(&[], &[], false), &rest, "main").unwrap();
    let same_settings = build_report(&config(&[], &[], true), &rest, "main").unwrap();
    assert_eq!(same_settings.authors.len(), plain.authors.len());
    assert_eq!(same_settings.summary.total_additions, without.summary.total_additions);
    assert_eq!(without.authors.len(), plain.authors.len());
    for (a, b) in without.authors.iter().zip(plain.authors.iter()) {
        assert_eq!(a.email, b.email);
        assert_eq!(a.commit_count, b.commit_count);
        assert_eq!(a.additions, b.additions);
        assert_eq!(a.deletions, b.deletions);
    }
}

#[test]
fn listed_path_lines_stay_within_the_totals() {
    let mut log = header("h1", "Amy", "amy@example.com", "2026-04-01", "p1", "many");
    for i in 0..30 {
        log.push_str(&format!("{}\t{}\tf{:02}.rs\n", i + 1, 30 - i, i));
    }
    let dash = build_dashboard(&config(&[], &[], false), &log, "main").unwrap();
    let added: u64 = dash.paths.iter().map(|p| p.additions).sum();
    let deleted: u64 = dash.paths.iter().map(|p| p.deletions).sum();
    assert_eq!(dash.paths.len(), 20);
    assert!(added <= dash.report.summary.total_additions);
    assert!(deleted <= dash.report.summary.total_deletions);
    assert_eq!(added, (11..=30).sum::<u64>());
}
