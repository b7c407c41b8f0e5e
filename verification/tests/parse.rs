use git_report::git::{current_branch, git_log_numstat};
use git_report::parser::parse_git_log;

#[test]
fn parses_headers_and_numstat_lines() {
    let raw = "COMMIT\x1fabc\x1fAlice\x1falice@example.com\x1f2026-04-10\x1ffeat: add app\x1fp0\n2\t1\tsrc/app.ts\n\nCOMMIT\x1fdef\x1fBob\x1fbob@example.com\x1f2026-04-11\x1fwhatever\x1fabc p9\n";
    let commits = parse_git_log(raw);
    assert_eq!(commits.len(), 2);
    let a = &commits[0];
    assert_eq!(a.hash, "abc");
    assert_eq!(a.author_name, "Alice");
    assert_eq!(a.author_email, "alice@example.com");
    assert_eq!(a.date, "2026-04-10");
    assert_eq!(a.subject, "feat: add app");
    assert!(!a.is_merge);
    assert_eq!(a.files.len(), 1);
    assert_eq!(a.files[0].path, "src/app.ts");
    assert_eq!(a.files[0].additions, 2);
    assert_eq!(a.files[0].deletions, 1);
    assert!(!a.files[0].is_binary);
    let b = &commits[1];
    assert_eq!(b.subject, "whatever");
    assert!(b.is_merge);
    assert_eq!(b.files.len(), 0);
}

#[test]
fn binary_changes_have_no_line_counts() {
    let raw = "COMMIT\x1fh\x1fA\x1fa@x\x1f2026-01-01\x1fs\n-\t-\tlogo.png\n3\t-\todd.bin\n";
    let commits = parse_git_log(raw);
    let files = &commits[0].files;
    assert_eq!(files.len(), 2);
    for f in files {
        assert!(f.is_binary);
        assert_eq!(f.additions, 0);
        assert_eq!(f.deletions, 0);
    }
}

#[test]
fn short_headers_drop_the_commit_and_its_lines() {
    let raw = "COMMIT\x1fh1\x1fA\x1fa@x\x1f2026-01-01\x1fs\x1fp\n1\t1\ta.rs\nCOMMIT\x1fbroken\x1fB\x1fb@x\n5\t5\tb.rs\nCOMMIT\x1fh3\x1fC\x1fc@x\x1f2026-01-02\x1ft\n2\t0\tc.rs\n";
    let commits = parse_git_log(raw);
    assert_eq!(commits.len(), 2);
    assert_eq!(commits[0].hash, "h1");
    assert_eq!(commits[0].files.len(), 1);
    assert_eq!(commits[1].hash, "h3");
    assert_eq!(commits[1].files.len(), 1);
    assert_eq!(commits[1].files[0].path, "c.rs");
}

#[test]
fn lines_before_the_first_header_and_short_lines_are_skipped() {
    let raw = "1\t1\tearly.rs\nCOMMIT\x1fh\x1fA\x1fa@x\x1f2026-01-01\x1fs\njunk\n1\t2\n4\t0\tkept.rs\n";
    let commits = parse_git_log(raw);
    assert_eq!(commits.len(), 1);
    assert_eq!(commits[0].files.len(), 1);
    assert_eq!(commits[0].files[0].path, "kept.rs");
}

#[test]
fn numbers_follow_unsigned_parsing() {
    let raw = "COMMIT\x1fh\x1fA\x1fa@x\x1f2026-01-01\x1fs\x1fp\n+5\t7\ta.rs\nx\t3\tb.rs\n18446744073709551616\t1\tc.rs\n18446744073709551615\t0\td.rs\n";
    let commits = parse_git_log(raw);
    let files = &commits[0].files;
    assert_eq!(files[0].additions, 5);
    assert_eq!(files[0].deletions, 7);
    assert_eq!(files[1].additions, 0);
    assert_eq!(files[1].deletions, 3);
    assert_eq!(files[2].additions, 0);
    assert_eq!(files[2].deletions, 1);
    assert_eq!(files[3].additions, u64::MAX);
    assert!(!files[1].is_binary);
}

#[test]
fn crlf_line_ends_and_extra_fields_are_handled() {
    let raw = "COMMIT\x1fh\x1fA\x1fa@x\x1f2026-01-01\x1fsubject\x1fp\x1fextra\r\n1\t2\tpath with\ttab\r\n";
    let commits = parse_git_log(raw);
    assert_eq!(commits.len(), 1);
    assert_eq!(commits[0].subject, "subject");
    assert_eq!(commits[0].files[0].path, "path with");
    assert_eq!(commits[0].files[0].deletions, 2);
}

#[test]
fn merges_are_recognised_by_their_parents() {
    let raw = "COMMIT\x1fa\x1fA\x1fa@x\x1fd\x1fMerge tag 'v1.0'\x1fp1 p2\nCOMMIT\x1fb\x1fA\x1fa@x\x1fd\x1foctopus\x1fp1 p2 p3\nCOMMIT\x1fc\x1fA\x1fa@x\x1fd\x1fMerge branch 'main'\x1fp1\nCOMMIT\x1fd\x1fA\x1fa@x\x1fd\x1froot\x1f\nCOMMIT\x1fe\x1fA\x1fa@x\x1fd\x1fspaces\x1fp1  \n";
    let flags: Vec<bool> = parse_git_log(raw).iter().map(|c| c.is_merge).collect();
    assert_eq!(flags, vec![true, true, false, false, false]);
}

#[test]
fn headers_without_parents_use_the_merge_subjects() {
    let raw = "COMMIT\x1fa\x1fA\x1fa@x\x1fd\x1fMerge branch 'main'\nCOMMIT\x1fb\x1fA\x1fa@x\x1fd\x1fMerge remote-tracking branch 'o/m'\nCOMMIT\x1fc\x1fA\x1fa@x\x1fd\x1fMerge pull request #1\nCOMMIT\x1fd\x1fA\x1fa@x\x1fd\x1fmerge branch lower\nCOMMIT\x1fe\x1fA\x1fa@x\x1fd\x1fMerge tag 'v1'\n";
    let flags: Vec<bool> = parse_git_log(raw).iter().map(|c| c.is_merge).collect();
    assert_eq!(flags, vec![true, true, true, false, false]);
}

#[test]
fn five_field_headers_carry_their_files() {
    let raw = "COMMIT\x1fh\x1fAnn\x1fa@x\x1f2026-04-10\x1fadd logo\n-\t-\tlogo.png\nx\t7\tsrc/a.rs\n\n";
    let commits = parse_git_log(raw);
    assert_eq!(commits.len(), 1);
    assert_eq!(commits[0].subject, "add logo");
    assert_eq!(commits[0].files.len(), 2);
    assert!(commits[0].files[0].is_binary);
    assert_eq!(commits[0].files[0].path, "logo.png");
    assert_eq!(commits[0].files[1].path, "src/a.rs");
    assert_eq!(commits[0].files[1].additions, 0);
    assert_eq!(commits[0].files[1].deletions, 7);
    assert!(!commits[0].files[1].is_binary);
}

#[test]
fn five_field_merges_and_malformed_headers() {
    let raw = "COMMIT\x1fh1\x1fAnn\x1fa@x\x1f2026-04-10\x1ffeat: a\n1\t2\tsrc/a.rs\n\nCOMMIT\x1fh2\x1fBob\x1fb@x\x1f2026-04-11\x1fMerge branch 'dev'\n3\t0\tsrc/b.rs";
    let commits = parse_git_log(raw);
    assert_eq!(commits.len(), 2);
    assert!(!commits[0].is_merge);
    assert_eq!((commits[0].files[0].additions, commits[0].files[0].deletions), (1, 2));
    assert_eq!(commits[1].author_name, "Bob");
    assert!(commits[1].is_merge);
    assert_eq!(commits[1].files[0].path, "src/b.rs");
    assert_eq!(commits[1].files[0].additions, 3);
    let raw = "3\t1\torphan.rs\nCOMMIT\x1fh1\x1fAnn\x1fa@x\x1f2026-04-10\x1fs\n1\t1\ta.rs\nCOMMIT\x1fbad\n2\t2\tb.rs";
    let commits = parse_git_log(raw);
    assert_eq!(commits.len(), 1);
    assert_eq!(commits[0].hash, "h1");
    assert_eq!(commits[0].files.len(), 1);
    assert_eq!(commits[0].files[0].path, "a.rs");
}

#[test]
fn empty_output_has_no_commits() {
    assert_eq!(parse_git_log("").len(), 0);
    assert_eq!(parse_git_log("\n\n").len(), 0);
}

#[test]
fn git_log_arguments_follow_the_selection() {
    let args = git_log_numstat(Some("dev"), Some("1 month ago"), Some("2026-04-30"));
    assert_eq!(
        args,
        vec![
            "log".to_string(),
            "--numstat".to_string(),
            "--date=short".to_string(),
            "--pretty=format:COMMIT\x1f%H\x1f%an\x1f%ae\x1f%ad\x1f%s\x1f%P".to_string(),
            "--since=1 month ago".to_string(),
            "--until=2026-04-30".to_string(),
            "dev".to_string(),
        ]
    );
    let args = git_log_numstat(None, None, None);
    assert_eq!(args.len(), 4);
    let args = git_log_numstat(Some("main"), None, None);
    assert_eq!(args[4], "main");
}

#[test]
fn current_branch_is_the_trimmed_output() {
    assert_eq!(current_branch("main\n"), "main");
    assert_eq!(current_branch("  feature/x\t\r\n"), "feature/x");
    assert_eq!(current_branch("\n"), "");
}
