//! The dashboard server's decisions: the settings of a request, the asset a
//! path names, and the content type of an asset.  Listening, answering and
//! embedding the assets is the caller's part.
use vstd::prelude::*;

use crate::config::{EffectiveConfig, EffectiveConfigView};
use crate::text::{chars_of, clone_opt_string, clone_strings, opt_chars, starts_with, starts_with_exec, string_from_chars, strings_view};

verus! {

/// What the server is started with.
#[derive(Debug, Clone)]
pub struct ServerConfig {
    pub host: String,
    pub port: u16,
    pub open: bool,
    pub report: EffectiveConfig,
}

/// The query of a report or dashboard request.
#[derive(Debug, Clone)]
pub struct ReportQuery {
    pub since: Option<String>,
    pub until: Option<String>,
    pub branch: Option<String>,
    pub no_merge: Option<bool>,
    pub exclude_dir: Vec<String>,
    pub exclude_ext: Vec<String>,
}

/// `first` when it is given, else `fallback`.
pub open spec fn or_else<T>(first: Option<T>, fallback: Option<T>) -> Option<T> {
    match first {
        Some(v) => Some(v),
        None => fallback,
    }
}

/// The settings of a request: the query's bounds, branch and merge choice
/// where it gives them and the server's otherwise, and the server's
/// exclusions followed by the query's.
pub open spec fn query_config(base: EffectiveConfigView, query: ReportQuery) -> EffectiveConfigView {
    EffectiveConfigView {
        repo: base.repo,
        since: or_else(opt_chars(query.since), base.since),
        until: or_else(opt_chars(query.until), base.until),
        branch: or_else(opt_chars(query.branch), base.branch),
        no_merge: match query.no_merge {
            Some(b) => b,
            None => base.no_merge,
        },
        exclude_dirs: base.exclude_dirs + strings_view(query.exclude_dir@),
        exclude_extensions: base.exclude_extensions + strings_view(query.exclude_ext@),
    }
}

fn opt_or_else(first: Option<String>, fallback: &Option<String>) -> (res: Option<String>)
    ensures
        opt_chars(res) == or_else(opt_chars(first), opt_chars(*fallback)),
{
    match first {
        Some(v) => Some(v),
        None => clone_opt_string(fallback),
    }
}

/// The settings of a request with the query `query` to a server started with
/// `base`.
pub fn merge_query(base: &EffectiveConfig, query: ReportQuery) -> (res: EffectiveConfig)
    ensures
        res@ == query_config(base@, query),
{
    let ghost q = query;
    let mut exclude_dirs = clone_strings(&base.exclude_dirs);
    let ghost dirs_before = exclude_dirs@;
    let mut more_dirs = query.exclude_dir;
    let ghost more_dirs_view = more_dirs@;
    exclude_dirs.append(&mut more_dirs);
    assert(strings_view(exclude_dirs@) =~= strings_view(dirs_before) + strings_view(more_dirs_view));
    let mut exclude_extensions = clone_strings(&base.exclude_extensions);
    let ghost exts_before = exclude_extensions@;
    let mut more_exts = query.exclude_ext;
    let ghost more_exts_view = more_exts@;
    exclude_extensions.append(&mut more_exts);
    assert(strings_view(exclude_extensions@) =~= strings_view(exts_before) + strings_view(
        more_exts_view,
    ));
    let no_merge = match query.no_merge {
        Some(b) => b,
        None => base.no_merge,
    };
    let res = EffectiveConfig {
        repo: base.repo.clone(),
        since: opt_or_else(query.since, &base.since),
        until: opt_or_else(query.until, &base.until),
        branch: opt_or_else(query.branch, &base.branch),
        no_merge,
        exclude_dirs,
        exclude_extensions,
    };
    assert(res@ =~= query_config(base@, q));
    res
}

/// A request's settings follow its query where the query gives a value and
/// the server's settings where it gives none: the start, end and branch of
/// the query override the server's, as does its merge choice; the
/// repository is the server's; the server's exclusions come first, followed
/// by the query's.
pub proof fn lemma_query_overrides_the_server(base: EffectiveConfigView, query: ReportQuery)
    ensures
        query_config(base, query).repo == base.repo,
        query.since matches Some(s) ==> query_config(base, query).since == Some(s@),
        query.since is None ==> query_config(base, query).since == base.since,
        query.until matches Some(u) ==> query_config(base, query).until == Some(u@),
        query.until is None ==> query_config(base, query).until == base.until,
        query.branch matches Some(b) ==> query_config(base, query).branch == Some(b@),
        query.branch is None ==> query_config(base, query).branch == base.branch,
        query.no_merge matches Some(m) ==> query_config(base, query).no_merge == m,
        query.no_merge is None ==> query_config(base, query).no_merge == base.no_merge,
        query_config(base, query).exclude_dirs.len() == base.exclude_dirs.len()
            + query.exclude_dir@.len(),
        forall|k: int|
            0 <= k < base.exclude_dirs.len() ==> #[trigger] query_config(base, query).exclude_dirs[k]
                == base.exclude_dirs[k],
        forall|k: int|
            0 <= k < query.exclude_dir@.len() ==> query_config(base, query).exclude_dirs[base.exclude_dirs.len()
                + k] == (#[trigger] query.exclude_dir@[k])@,
        query_config(base, query).exclude_extensions.len() == base.exclude_extensions.len()
            + query.exclude_ext@.len(),
        forall|k: int|
            0 <= k < base.exclude_extensions.len() ==> #[trigger] query_config(
                base,
                query,
            ).exclude_extensions[k] == base.exclude_extensions[k],
        forall|k: int|
            0 <= k < query.exclude_ext@.len() ==> query_config(base, query).exclude_extensions[base.exclude_extensions.len()
                + k] == (#[trigger] query.exclude_ext@[k])@,
{
}

/// What a request path other than `/` and the API names.
#[derive(Debug, Clone)]
pub enum AssetRoute {
    /// A path under `api/` that is no API route.
    NotFound,
    /// The dashboard page itself.
    Index,
    /// An embedded file, by its path without leading slashes; the page
    /// itself is served when there is no such file.
    File(String),
}

/// `s` without its leading slashes.
pub open spec fn trim_leading_slashes(s: Seq<char>) -> Seq<char>
    decreases s.len(),
{
    if s.len() > 0 && s[0] == '/' {
        trim_leading_slashes(s.drop_first())
    } else {
        s
    }
}

/// What the request path `path` names: nothing under `api/`, the page when
/// nothing but slashes remains, and otherwise the file it names.
pub open spec fn route_of(path: Seq<char>) -> AssetRouteView {
    if starts_with(path, "api/"@) {
        AssetRouteView::NotFound
    } else if trim_leading_slashes(path).len() == 0 {
        AssetRouteView::Index
    } else {
        AssetRouteView::File(trim_leading_slashes(path))
    }
}

/// Dropping leading slashes drops a run of slashes at the start and nothing
/// else.
proof fn lemma_slashes_dropped(s: Seq<char>) -> (k: int)
    ensures
        0 <= k <= s.len(),
        trim_leading_slashes(s) == s.skip(k),
        forall|i: int| 0 <= i < k ==> #[trigger] s[i] == '/',
        trim_leading_slashes(s).len() > 0 ==> trim_leading_slashes(s)[0] != '/',
    decreases s.len(),
{
    if s.len() > 0 && s[0] == '/' {
        let k1 = lemma_slashes_dropped(s.drop_first());
        assert(s.drop_first().skip(k1) =~= s.skip(k1 + 1));
        assert forall|i: int| 0 <= i < k1 + 1 implies #[trigger] s[i] == '/' by {
            if i > 0 {
                assert(s[i] == s.drop_first()[i - 1]);
            }
        }
        k1 + 1
    } else {
        assert(s.skip(0) =~= s);
        0
    }
}

/// What a request path names: nothing when it starts with `api/`; the page
/// when it is all slashes; otherwise the file whose path is what follows
/// the leading slashes, which is not empty and does not start with a slash.
pub proof fn lemma_route_of_path(path: Seq<char>)
    ensures
        (route_of(path) is NotFound) == starts_with(path, "api/"@),
        (route_of(path) is Index) == (!starts_with(path, "api/"@) && forall|i: int|
            0 <= i < path.len() ==> #[trigger] path[i] == '/'),
        route_of(path) matches AssetRouteView::File(p) ==> {
            &&& p.len() > 0
            &&& p[0] != '/'
            &&& p.len() <= path.len()
            &&& p == path.skip(path.len() - p.len())
            &&& forall|i: int| 0 <= i < path.len() - p.len() ==> #[trigger] path[i] == '/'
        },
{
    let k = lemma_slashes_dropped(path);
    if !starts_with(path, "api/"@) {
        if k < path.len() {
            assert(path.skip(k)[0] == path[k]);
            assert(path[k] != '/');
        }
    }
}

/// The view of a route.
pub enum AssetRouteView {
    NotFound,
    Index,
    File(Seq<char>),
}

impl View for AssetRoute {
    type V = AssetRouteView;

    open spec fn view(&self) -> AssetRouteView {
        match self {
            AssetRoute::NotFound => AssetRouteView::NotFound,
            AssetRoute::Index => AssetRouteView::Index,
            AssetRoute::File(p) => AssetRouteView::File(p@),
        }
    }
}

/// What the request path `path` names.
pub fn asset_route(path: &str) -> (res: AssetRoute)
    ensures
        res@ == route_of(path@),
{
    let p = chars_of(path);
    let api = chars_of("api/");
    if starts_with_exec(&p, &api) {
        return AssetRoute::NotFound;
    }
    let n = p.len();
    let mut start: usize = 0;
    assert(p@.skip(0) =~= p@);
    while start < n && p[start] == '/'
        invariant
            n == p@.len(),
            start <= n,
            trim_leading_slashes(p@) == trim_leading_slashes(p@.skip(start as int)),
        decreases n - start,
    {
        assert(p@.skip(start as int).drop_first() =~= p@.skip(start + 1));
        start = start + 1;
    }
    if start == n {
        return AssetRoute::Index;
    }
    let mut rest: Vec<char> = Vec::new();
    for i in start..n
        invariant
            start <= n,
            n == p@.len(),
            rest@ == p@.subrange(start as int, i as int),
    {
        rest.push(p[i]);
        assert(rest@ =~= p@.subrange(start as int, i + 1));
    }
    assert(rest@ =~= p@.skip(start as int));
    AssetRoute::File(string_from_chars(&rest))
}

/// Whether `a` and `b` hold the same characters.
fn same_text(a: &str, b: &str) -> (res: bool)
    ensures
        res == (a@ == b@),
{
    let ca = chars_of(a);
    let cb = chars_of(b);
    if ca.len() != cb.len() {
        return false;
    }
    let n = ca.len();
    for i in 0..n
        invariant
            ca@ == a@,
            cb@ == b@,
            n == ca@.len(),
            n == cb@.len(),
            forall|k: int| 0 <= k < i ==> ca@[k] == cb@[k],
    {
        if ca[i] != cb[i] {
            return false;
        }
    }
    assert(ca@ =~= cb@);
    true
}

/// The content type of an asset with the file extension `ext`.
pub open spec fn content_type(ext: Option<Seq<char>>) -> Seq<char> {
    match ext {
        Some(e) => if e == "html"@ {
            "text/html; charset=utf-8"@
        } else if e == "css"@ {
            "text/css; charset=utf-8"@
        } else if e == "js"@ {
            "application/javascript; charset=utf-8"@
        } else if e == "json"@ {
            "application/json; charset=utf-8"@
        } else if e == "svg"@ {
            "image/svg+xml"@
        } else if e == "png"@ {
            "image/png"@
        } else {
            "application/octet-stream"@
        },
        None => "application/octet-stream"@,
    }
}

/// The content types of assets: HTML, CSS, JavaScript and JSON as UTF-8
/// text, SVG and PNG images, and raw bytes for any other extension or none.
pub proof fn lemma_content_types(e: Seq<char>)
    ensures
        e == "html"@ ==> content_type(Some(e)) == "text/html; charset=utf-8"@,
        e == "css"@ ==> content_type(Some(e)) == "text/css; charset=utf-8"@,
        e == "js"@ ==> content_type(Some(e)) == "application/javascript; charset=utf-8"@,
        e == "json"@ ==> content_type(Some(e)) == "application/json; charset=utf-8"@,
        e == "svg"@ ==> content_type(Some(e)) == "image/svg+xml"@,
        e == "png"@ ==> content_type(Some(e)) == "image/png"@,
        e != "html"@ && e != "css"@ && e != "js"@ && e != "json"@ && e != "svg"@ && e != "png"@
            ==> content_type(Some(e)) == "application/octet-stream"@,
        content_type(None) == "application/octet-stream"@,
{
    reveal_strlit("html");
    reveal_strlit("css");
    reveal_strlit("js");
    reveal_strlit("json");
    reveal_strlit("svg");
    reveal_strlit("png");
    assert("html"@.len() == 4 && "css"@.len() == 3 && "js"@.len() == 2 && "json"@.len() == 4
        && "svg"@.len() == 3 && "png"@.len() == 3);
    assert("html"@[0] != "json"@[0]);
    assert("css"@[0] != "svg"@[0] && "css"@[0] != "png"@[0] && "svg"@[0] != "png"@[0]);
}

/// The content type of an asset with the file extension `extension`.
pub fn content_type_for(extension: Option<&str>) -> (res: &'static str)
    ensures
        res@ == content_type(crate::git::opt_str_chars(extension)),
{
    match extension {
        Some(e) => if same_text(e, "html") {
            "text/html; charset=utf-8"
        } else if same_text(e, "css") {
            "text/css; charset=utf-8"
        } else if same_text(e, "js") {
            "application/javascript; charset=utf-8"
        } else if same_text(e, "json") {
            "application/json; charset=utf-8"
        } else if same_text(e, "svg") {
            "image/svg+xml"
        } else if same_text(e, "png") {
            "image/png"
        } else {
            "application/octet-stream"
        },
        None => "application/octet-stream",
    }
}

} // verus!
