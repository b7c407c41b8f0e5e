//! Configuration: the filters of a config file, and the settings a report is
//! made with.
use vstd::prelude::*;

use crate::text::{chars_of, contains, contains_exec, ends_with, ends_with_exec, opt_chars, strings_view};

verus! {

/// Paths to leave out of line counts.
#[derive(Debug, Clone)]
pub struct FilterConfig {
    pub exclude_dirs: Vec<String>,
    pub exclude_extensions: Vec<String>,
}

/// The contents of a `git-report.toml` file.
#[derive(Debug, Clone)]
pub struct FileConfig {
    pub filters: FilterConfig,
}

impl Default for FilterConfig {
    fn default() -> (res: Self)
        ensures
            res.exclude_dirs@.len() == 0,
            res.exclude_extensions@.len() == 0,
    {
        FilterConfig { exclude_dirs: Vec::new(), exclude_extensions: Vec::new() }
    }
}

impl Default for FileConfig {
    fn default() -> (res: Self)
        ensures
            res.filters.exclude_dirs@.len() == 0,
            res.filters.exclude_extensions@.len() == 0,
    {
        FileConfig { filters: FilterConfig::default() }
    }
}

/// The settings one report is made with.
#[derive(Debug, Clone)]
pub struct EffectiveConfig {
    pub repo: String,
    pub since: Option<String>,
    pub until: Option<String>,
    pub branch: Option<String>,
    pub no_merge: bool,
    pub exclude_dirs: Vec<String>,
    pub exclude_extensions: Vec<String>,
}

pub struct EffectiveConfigView {
    pub repo: Seq<char>,
    pub since: Option<Seq<char>>,
    pub until: Option<Seq<char>>,
    pub branch: Option<Seq<char>>,
    pub no_merge: bool,
    pub exclude_dirs: Seq<Seq<char>>,
    pub exclude_extensions: Seq<Seq<char>>,
}

impl View for EffectiveConfig {
    type V = EffectiveConfigView;

    open spec fn view(&self) -> EffectiveConfigView {
        EffectiveConfigView {
            repo: self.repo@,
            since: opt_chars(self.since),
            until: opt_chars(self.until),
            branch: opt_chars(self.branch),
            no_merge: self.no_merge,
            exclude_dirs: strings_view(self.exclude_dirs@),
            exclude_extensions: strings_view(self.exclude_extensions@),
        }
    }
}

/// `path` is left out of line counts under `cfg`: it is empty, it contains
/// one of the excluded directory fragments, or it ends with one of the
/// excluded extensions.
pub open spec fn is_filtered(cfg: EffectiveConfigView, path: Seq<char>) -> bool {
    ||| path.len() == 0
    ||| exists|k: int|
        0 <= k < cfg.exclude_dirs.len() && #[trigger] contains(path, cfg.exclude_dirs[k])
    ||| exists|k: int|
        0 <= k < cfg.exclude_extensions.len() && #[trigger] ends_with(
            path,
            cfg.exclude_extensions[k],
        )
}

impl EffectiveConfig {
    /// Whether `path` is left out of line counts.
    pub fn should_filter(&self, path: &str) -> (res: bool)
        ensures
            res == is_filtered(self@, path@),
    {
        let p = chars_of(path);
        if p.len() == 0 {
            return true;
        }
        let ghost cfg = self@;
        let nd = self.exclude_dirs.len();
        for k in 0..nd
            invariant
                cfg == self@,
                p@ == path@,
                nd == cfg.exclude_dirs.len(),
                forall|j: int| 0 <= j < k ==> !#[trigger] contains(p@, cfg.exclude_dirs[j]),
        {
            let dir = chars_of(self.exclude_dirs[k].as_str());
            if contains_exec(&p, &dir) {
                assert(contains(path@, cfg.exclude_dirs[k as int]));
                return true;
            }
        }
        let ne = self.exclude_extensions.len();
        for k in 0..ne
            invariant
                cfg == self@,
                p@ == path@,
                ne == cfg.exclude_extensions.len(),
                forall|j: int| 0 <= j < k ==> !#[trigger] ends_with(p@, cfg.exclude_extensions[j]),
        {
            let ext = chars_of(self.exclude_extensions[k].as_str());
            if ends_with_exec(&p, &ext) {
                assert(ends_with(path@, cfg.exclude_extensions[k as int]));
                return true;
            }
        }
        false
    }
}

/// `more` excludes at least what `cfg` excludes: each of its lists holds
/// every entry of the corresponding list of `cfg`.
pub open spec fn excludes_at_least(more: EffectiveConfigView, cfg: EffectiveConfigView) -> bool {
    &&& forall|d: Seq<char>| #[trigger] cfg.exclude_dirs.contains(d) ==> more.exclude_dirs.contains(d)
    &&& forall|e: Seq<char>|
        #[trigger] cfg.exclude_extensions.contains(e) ==> more.exclude_extensions.contains(e)
}

/// Adding exclusions never brings a filtered path back: whatever `cfg`
/// filters, a configuration that excludes at least as much filters too.
pub proof fn lemma_more_exclusions_filter_more(
    cfg: EffectiveConfigView,
    more: EffectiveConfigView,
    path: Seq<char>,
)
    requires
        excludes_at_least(more, cfg),
        is_filtered(cfg, path),
    ensures
        is_filtered(more, path),
{
    if path.len() != 0 {
        if exists|k: int|
            0 <= k < cfg.exclude_dirs.len() && #[trigger] contains(path, cfg.exclude_dirs[k]) {
            let k = choose|k: int|
                0 <= k < cfg.exclude_dirs.len() && #[trigger] contains(path, cfg.exclude_dirs[k]);
            assert(cfg.exclude_dirs.contains(cfg.exclude_dirs[k]));
            let m = choose|m: int|
                0 <= m < more.exclude_dirs.len() && more.exclude_dirs[m] == cfg.exclude_dirs[k];
            assert(contains(path, more.exclude_dirs[m]));
        } else {
            let k = choose|k: int|
                0 <= k < cfg.exclude_extensions.len() && #[trigger] ends_with(
                    path,
                    cfg.exclude_extensions[k],
                );
            assert(cfg.exclude_extensions.contains(cfg.exclude_extensions[k]));
            let m = choose|m: int|
                0 <= m < more.exclude_extensions.len() && more.exclude_extensions[m]
                    == cfg.exclude_extensions[k];
            assert(ends_with(path, more.exclude_extensions[m]));
        }
    }
}

/// Which paths are filtered: the empty path, every path that contains an
/// excluded directory fragment, and every path that ends with an excluded
/// extension; and no other path.
pub proof fn lemma_filter_rule(cfg: EffectiveConfigView, path: Seq<char>, d: Seq<char>, e: Seq<char>)
    ensures
        path.len() == 0 ==> is_filtered(cfg, path),
        cfg.exclude_dirs.contains(d) && contains(path, d) ==> is_filtered(cfg, path),
        cfg.exclude_extensions.contains(e) && ends_with(path, e) ==> is_filtered(cfg, path),
        path.len() > 0 && (forall|k: int|
            0 <= k < cfg.exclude_dirs.len() ==> !contains(path, #[trigger] cfg.exclude_dirs[k])) && (
        forall|k: int|
            0 <= k < cfg.exclude_extensions.len() ==> !ends_with(
                path,
                #[trigger] cfg.exclude_extensions[k],
            )) ==> !is_filtered(cfg, path),
{
    if cfg.exclude_dirs.contains(d) && contains(path, d) {
        let k = choose|k: int| 0 <= k < cfg.exclude_dirs.len() && cfg.exclude_dirs[k] == d;
        assert(contains(path, cfg.exclude_dirs[k]));
    }
    if cfg.exclude_extensions.contains(e) && ends_with(path, e) {
        let k = choose|k: int| 0 <= k < cfg.exclude_extensions.len() && cfg.exclude_extensions[k] == e;
        assert(ends_with(path, cfg.exclude_extensions[k]));
    }
}

} // verus!
