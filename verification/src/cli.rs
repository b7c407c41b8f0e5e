//! The command line: what each command is given, and how its options and a
//! config file make the settings of a report.  Reading the arguments and the
//! files is the caller's part.
use vstd::prelude::*;

use crate::config::{EffectiveConfig, EffectiveConfigView, FileConfig};
use crate::text::{clone_opt_string, clone_strings, opt_chars, strings_view};

verus! {

/// How a command prints its result.
#[derive(Debug, Clone, Copy)]
pub enum OutputFormat {
    Table,
    Json,
    Markdown,
}

/// The options that select commits.
#[derive(Debug, Clone)]
pub struct SharedOptions {
    pub repo: Option<String>,
    pub since: Option<String>,
    pub until: Option<String>,
    pub branch: Option<String>,
    pub config: Option<String>,
    pub no_merge: bool,
    pub exclude_dirs: Vec<String>,
    pub exclude_extensions: Vec<String>,
}

/// The options of `summary` and `authors`.
#[derive(Debug, Clone)]
pub struct CommandOptions {
    pub base: SharedOptions,
    pub format: OutputFormat,
}

/// The options of `report`.
#[derive(Debug, Clone)]
pub struct ReportOptions {
    pub base: CommandOptions,
    pub output: Option<String>,
}

/// The options of the `monthly-authors` preset.
#[derive(Debug, Clone)]
pub struct PresetOptions {
    pub repo: Option<String>,
    pub branch: Option<String>,
    pub config: Option<String>,
    pub output_dir: Option<String>,
    pub exclude_dirs: Vec<String>,
    pub exclude_extensions: Vec<String>,
}

/// The options of `web`.
#[derive(Debug, Clone)]
pub struct WebOptions {
    pub base: SharedOptions,
    pub host: String,
    pub port: u16,
    pub open: bool,
}

/// The built-in presets.
#[derive(Debug, Clone)]
pub enum PresetKind {
    MonthlyAuthors(PresetOptions),
}

/// The `preset` command.
#[derive(Debug, Clone)]
pub struct PresetCommand {
    pub preset: PresetKind,
}

/// The commands.
#[derive(Debug, Clone)]
pub enum Commands {
    Summary(CommandOptions),
    Authors(CommandOptions),
    Report(ReportOptions),
    Web(WebOptions),
    Preset(PresetCommand),
}

/// A parsed command line.
#[derive(Debug, Clone)]
pub struct Cli {
    pub command: Commands,
}

/// The settings made from the options `options`, the resolved repository
/// `repo` and the config file `file`: the options' bounds, branch and merge
/// choice, and the exclusions of the file followed by those of the options.
pub open spec fn shared_config(options: SharedOptions, repo: Seq<char>, file: FileConfig) -> EffectiveConfigView {
    EffectiveConfigView {
        repo,
        since: opt_chars(options.since),
        until: opt_chars(options.until),
        branch: opt_chars(options.branch),
        no_merge: options.no_merge,
        exclude_dirs: strings_view(file.filters.exclude_dirs@) + strings_view(options.exclude_dirs@),
        exclude_extensions: strings_view(file.filters.exclude_extensions@) + strings_view(
            options.exclude_extensions@,
        ),
    }
}

/// The strings of `first` followed by copies of those of `more`.
fn concat_strings(first: Vec<String>, more: &Vec<String>) -> (res: Vec<String>)
    ensures
        strings_view(res@) == strings_view(first@) + strings_view(more@),
{
    let mut res = first;
    let ghost before = res@;
    let mut extra = clone_strings(more);
    let ghost extra_view = extra@;
    res.append(&mut extra);
    assert(strings_view(res@) =~= strings_view(before) + strings_view(extra_view));
    res
}

/// The settings of a report from the shared options, the resolved
/// repository and the config file.
pub fn merge_shared_config(options: &SharedOptions, repo: String, file_config: FileConfig) -> (res:
    EffectiveConfig)
    ensures
        res@ == shared_config(*options, repo@, file_config),
        res.no_merge == options.no_merge,
        res.repo@ == repo@,
{
    let exclude_dirs = concat_strings(file_config.filters.exclude_dirs, &options.exclude_dirs);
    let exclude_extensions = concat_strings(
        file_config.filters.exclude_extensions,
        &options.exclude_extensions,
    );
    EffectiveConfig {
        repo,
        since: clone_opt_string(&options.since),
        until: clone_opt_string(&options.until),
        branch: clone_opt_string(&options.branch),
        no_merge: options.no_merge,
        exclude_dirs,
        exclude_extensions,
    }
}

/// The settings of `summary`, `authors` and `report`: those of their shared
/// options.
pub fn merge_command_config(options: &CommandOptions, repo: String, file_config: FileConfig) -> (res:
    EffectiveConfig)
    ensures
        res@ == shared_config(options.base, repo@, file_config),
        res.no_merge == options.base.no_merge,
        res.repo@ == repo@,
{
    merge_shared_config(&options.base, repo, file_config)
}

/// The settings of the `monthly-authors` preset: the last month, merges left
/// out, the branch of the options, and the exclusions of the config file
/// followed by those of the options.
pub open spec fn preset_config(options: PresetOptions, repo: Seq<char>, file: FileConfig) -> EffectiveConfigView {
    EffectiveConfigView {
        repo,
        since: Some("1 month ago"@),
        until: None,
        branch: opt_chars(options.branch),
        no_merge: true,
        exclude_dirs: strings_view(file.filters.exclude_dirs@) + strings_view(options.exclude_dirs@),
        exclude_extensions: strings_view(file.filters.exclude_extensions@) + strings_view(
            options.exclude_extensions@,
        ),
    }
}

/// The settings of the `monthly-authors` preset.
pub fn merge_preset_config(options: &PresetOptions, repo: String, file_config: FileConfig) -> (res:
    EffectiveConfig)
    ensures
        res@ == preset_config(*options, repo@, file_config),
        res.no_merge,
        res.until is None,
        res.repo@ == repo@,
{
    let exclude_dirs = concat_strings(file_config.filters.exclude_dirs, &options.exclude_dirs);
    let exclude_extensions = concat_strings(
        file_config.filters.exclude_extensions,
        &options.exclude_extensions,
    );
    EffectiveConfig {
        repo,
        since: Some("1 month ago".to_owned()),
        until: None,
        branch: clone_opt_string(&options.branch),
        no_merge: true,
        exclude_dirs,
        exclude_extensions,
    }
}

/// `all` is the entries of `first` followed by those of `then`.
pub open spec fn appended(all: Seq<Seq<char>>, first: Seq<Seq<char>>, then: Seq<Seq<char>>) -> bool {
    &&& all.len() == first.len() + then.len()
    &&& forall|k: int| 0 <= k < first.len() ==> #[trigger] all[k] == first[k]
    &&& forall|k: int| 0 <= k < then.len() ==> #[trigger] all[first.len() + k] == then[k]
}

/// The settings of a command keep what its options say: the repository it
/// was given, the options' start, end and branch, merges left out exactly
/// when `--no-merge` was given, and the exclusions of the config file
/// followed by those of the command line.
pub proof fn lemma_shared_settings_follow_the_options(
    options: SharedOptions,
    repo: Seq<char>,
    file: FileConfig,
)
    ensures
        shared_config(options, repo, file).repo == repo,
        shared_config(options, repo, file).no_merge == options.no_merge,
        shared_config(options, repo, file).since == opt_chars(options.since),
        shared_config(options, repo, file).until == opt_chars(options.until),
        shared_config(options, repo, file).branch == opt_chars(options.branch),
        appended(
            shared_config(options, repo, file).exclude_dirs,
            strings_view(file.filters.exclude_dirs@),
            strings_view(options.exclude_dirs@),
        ),
        appended(
            shared_config(options, repo, file).exclude_extensions,
            strings_view(file.filters.exclude_extensions@),
            strings_view(options.exclude_extensions@),
        ),
{
}

/// The monthly preset covers the last month with no end, leaves merges out,
/// keeps the branch given, and excludes what the config file excludes
/// followed by what the command line excludes.
pub proof fn lemma_preset_settings(options: PresetOptions, repo: Seq<char>, file: FileConfig)
    ensures
        preset_config(options, repo, file).repo == repo,
        preset_config(options, repo, file).no_merge,
        preset_config(options, repo, file).since == Some("1 month ago"@),
        preset_config(options, repo, file).until is None,
        preset_config(options, repo, file).branch == opt_chars(options.branch),
        appended(
            preset_config(options, repo, file).exclude_dirs,
            strings_view(file.filters.exclude_dirs@),
            strings_view(options.exclude_dirs@),
        ),
        appended(
            preset_config(options, repo, file).exclude_extensions,
            strings_view(file.filters.exclude_extensions@),
            strings_view(options.exclude_extensions@),
        ),
{
}

/// The config file a command reads: the one given on the command line, or
/// else the repository's default file when it exists, or none.
pub fn config_path(explicit: Option<String>, default_path: String, default_exists: bool) -> (res:
    Option<String>)
    ensures
        res == (match explicit {
            Some(p) => Some(p),
            None => if default_exists {
                Some(default_path)
            } else {
                None
            },
        }),
{
    match explicit {
        Some(p) => Some(p),
        None => if default_exists {
            Some(default_path)
        } else {
            None
        },
    }
}

} // verus!
