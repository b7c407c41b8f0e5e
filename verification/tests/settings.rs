use git_report::cli::{config_path, merge_command_config, merge_preset_config, merge_shared_config, CommandOptions, OutputFormat, PresetOptions, SharedOptions};
use git_report::config::{EffectiveConfig, FileConfig, FilterConfig};
use git_report::server::{asset_route, content_type_for, merge_query, AssetRoute, ReportQuery};

fn strings(v: &[&str]) -> Vec<String> {
    v.iter().map(|s| s.to_string()).collect()
}

fn file_config() -> FileConfig {
    FileConfig {
        filters: FilterConfig {
            exclude_dirs: strings(&["apps/operation/src/services/"]),
            exclude_extensions: strings(&[".generated.ts"]),
        },
    }
}

fn shared() -> SharedOptions {
    SharedOptions {
        repo: Some("/r".to_string()),
        since: Some("2 weeks ago".to_string()),
        until: None,
        branch: Some("dev".to_string()),
        config: None,
        no_merge: true,
        exclude_dirs: strings(&["vendor/"]),
        exclude_extensions: strings(&[".lock"]),
    }
}

fn base_config() -> EffectiveConfig {
    EffectiveConfig {
        repo: "/r".to_string(),
        since: Some("1 week ago".to_string()),
        until: Some("today".to_string()),
        branch: None,
        no_merge: false,
        exclude_dirs: strings(&["a/"]),
        exclude_extensions: strings(&[".x"]),
    }
}

#[test]
fn should_filter_matches_fragments_and_extensions() {
    let cfg = base_config();
    assert!(cfg.should_filter(""));
    assert!(cfg.should_filter("src/a/b.rs"));
    assert!(cfg.should_filter("src/file.x"));
    assert!(!cfg.should_filter("src/file.xy"));
    assert!(!cfg.should_filter("src/b.rs"));
    let none = EffectiveConfig { exclude_dirs: vec![], exclude_extensions: vec![], ..base_config() };
    assert!(!none.should_filter("anything"));
    assert!(none.should_filter(""));
}

#[test]
fn command_line_filters_follow_the_file_filters() {
    let cfg = merge_shared_config(&shared(), "/canonical/r".to_string(), file_config());
    assert_eq!(cfg.repo, "/canonical/r");
    assert_eq!(cfg.since.as_deref(), Some("2 weeks ago"));
    assert_eq!(cfg.until, None);
    assert_eq!(cfg.branch.as_deref(), Some("dev"));
    assert!(cfg.no_merge);
    assert_eq!(cfg.exclude_dirs, strings(&["apps/operation/src/services/", "vendor/"]));
    assert_eq!(cfg.exclude_extensions, strings(&[".generated.ts", ".lock"]));
    let cmd = CommandOptions { base: shared(), format: OutputFormat::Json };
    let cfg2 = merge_command_config(&cmd, "/canonical/r".to_string(), file_config());
    assert_eq!(cfg2.exclude_dirs, cfg.exclude_dirs);
    assert_eq!(cfg2.since, cfg.since);
}

#[test]
fn the_monthly_preset_covers_the_last_month_without_merges() {
    let options = PresetOptions {
        repo: None,
        branch: None,
        config: None,
        output_dir: None,
        exclude_dirs: vec![],
        exclude_extensions: strings(&[".md"]),
    };
    let empty = FileConfig { filters: FilterConfig { exclude_dirs: vec![], exclude_extensions: vec![] } };
    let cfg = merge_preset_config(&options, "/r".to_string(), empty);
    assert_eq!(cfg.since.as_deref(), Some("1 month ago"));
    assert_eq!(cfg.until, None);
    assert_eq!(cfg.branch, None);
    assert!(cfg.no_merge);
    assert!(cfg.exclude_dirs.is_empty());
    assert_eq!(cfg.exclude_extensions, strings(&[".md"]));
    let cfg = merge_preset_config(&options, "/r".to_string(), file_config());
    assert_eq!(cfg.exclude_dirs, strings(&["apps/operation/src/services/"]));
    assert_eq!(cfg.exclude_extensions, strings(&[".generated.ts", ".md"]));
}

#[test]
fn a_query_overrides_bounds_and_adds_filters() {
    let query = ReportQuery {
        since: Some("90 days ago".to_string()),
        until: None,
        branch: Some("main".to_string()),
        no_merge: Some(true),
        exclude_dir: strings(&["b/"]),
        exclude_ext: vec![],
    };
    let cfg = merge_query(&base_config(), query);
    assert_eq!(cfg.repo, "/r");
    assert_eq!(cfg.since.as_deref(), Some("90 days ago"));
    assert_eq!(cfg.until.as_deref(), Some("today"));
    assert_eq!(cfg.branch.as_deref(), Some("main"));
    assert!(cfg.no_merge);
    assert_eq!(cfg.exclude_dirs, strings(&["a/", "b/"]));
    assert_eq!(cfg.exclude_extensions, strings(&[".x"]));
    let empty = ReportQuery { since: None, until: None, branch: None, no_merge: None, exclude_dir: vec![], exclude_ext: vec![] };
    let same = merge_query(&base_config(), empty);
    assert_eq!(same.since.as_deref(), Some("1 week ago"));
    assert!(!same.no_merge);
    assert_eq!(same.branch, None);
}

#[test]
fn asset_paths_are_routed() {
    assert!(matches!(asset_route("api/unknown"), AssetRoute::NotFound));
    assert!(matches!(asset_route(""), AssetRoute::Index));
    assert!(matches!(asset_route("///"), AssetRoute::Index));
    match asset_route("//assets/app.js") {
        AssetRoute::File(p) => assert_eq!(p, "assets/app.js"),
        _ => panic!("expected a file"),
    }
    match asset_route("/api/x") {
        AssetRoute::File(p) => assert_eq!(p, "api/x"),
        _ => panic!("expected a file"),
    }
}

#[test]
fn content_types_follow_the_extension() {
    assert_eq!(content_type_for(Some("html")), "text/html; charset=utf-8");
    assert_eq!(content_type_for(Some("css")), "text/css; charset=utf-8");
    assert_eq!(content_type_for(Some("js")), "application/javascript; charset=utf-8");
    assert_eq!(content_type_for(Some("json")), "application/json; charset=utf-8");
    assert_eq!(content_type_for(Some("svg")), "image/svg+xml");
    assert_eq!(content_type_for(Some("png")), "image/png");
    assert_eq!(content_type_for(Some("HTML")), "application/octet-stream");
    assert_eq!(content_type_for(Some("htm")), "application/octet-stream");
    assert_eq!(content_type_for(None), "application/octet-stream");
}

#[test]
fn the_config_file_is_the_given_one_or_the_existing_default() {
    assert_eq!(config_path(Some("a.toml".to_string()), "/r/git-report.toml".to_string(), true), Some("a.toml".to_string()));
    assert_eq!(config_path(None, "/r/git-report.toml".to_string(), true), Some("/r/git-report.toml".to_string()));
    assert_eq!(config_path(None, "/r/git-report.toml".to_string(), false), None);
}
