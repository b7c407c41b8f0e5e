//! The records that the library reads and produces, with their views.
//!
//! A view holds each string as its characters and each count as a `nat`.
use vstd::prelude::*;

verus! {

/// One file of a commit, as `git log --numstat` reports it.
#[derive(Debug, Clone)]
pub struct FileStat {
    pub path: String,
    pub additions: u64,
    pub deletions: u64,
    pub is_binary: bool,
}

pub struct FileStatView {
    pub path: Seq<char>,
    pub additions: nat,
    pub deletions: nat,
    pub is_binary: bool,
}

impl View for FileStat {
    type V = FileStatView;

    open spec fn view(&self) -> FileStatView {
        FileStatView {
            path: self.path@,
            additions: self.additions as nat,
            deletions: self.deletions as nat,
            is_binary: self.is_binary,
        }
    }
}

/// One commit with the files it changed.
#[derive(Debug, Clone)]
pub struct CommitRecord {
    pub hash: String,
    pub author_name: String,
    pub author_email: String,
    pub date: String,
    pub subject: String,
    pub is_merge: bool,
    pub files: Vec<FileStat>,
}

pub struct CommitView {
    pub hash: Seq<char>,
    pub author_name: Seq<char>,
    pub author_email: Seq<char>,
    pub date: Seq<char>,
    pub subject: Seq<char>,
    pub is_merge: bool,
    pub files: Seq<FileStatView>,
}

/// The views of a sequence of files.
pub open spec fn files_view(fs: Seq<FileStat>) -> Seq<FileStatView> {
    fs.map_values(|f: FileStat| f@)
}

impl View for CommitRecord {
    type V = CommitView;

    open spec fn view(&self) -> CommitView {
        CommitView {
            hash: self.hash@,
            author_name: self.author_name@,
            author_email: self.author_email@,
            date: self.date@,
            subject: self.subject@,
            is_merge: self.is_merge,
            files: files_view(self.files@),
        }
    }
}

/// The views of a sequence of commits.
pub open spec fn commits_view(cs: Seq<CommitRecord>) -> Seq<CommitView> {
    cs.map_values(|c: CommitRecord| c@)
}

/// What one author contributed.
#[derive(Debug, Clone)]
pub struct AuthorStat {
    pub name: String,
    pub email: String,
    pub commit_count: u64,
    pub merge_commit_count: u64,
    pub effective_commit_count: u64,
    pub additions: u64,
    pub deletions: u64,
    pub net_lines: i64,
}

pub struct AuthorStatView {
    pub name: Seq<char>,
    pub email: Seq<char>,
    pub commit_count: nat,
    pub merge_commit_count: nat,
    pub effective_commit_count: nat,
    pub additions: nat,
    pub deletions: nat,
    pub net_lines: int,
}

impl View for AuthorStat {
    type V = AuthorStatView;

    open spec fn view(&self) -> AuthorStatView {
        AuthorStatView {
            name: self.name@,
            email: self.email@,
            commit_count: self.commit_count as nat,
            merge_commit_count: self.merge_commit_count as nat,
            effective_commit_count: self.effective_commit_count as nat,
            additions: self.additions as nat,
            deletions: self.deletions as nat,
            net_lines: self.net_lines as int,
        }
    }
}

/// The views of a sequence of author rows.
pub open spec fn authors_view(v: Seq<AuthorStat>) -> Seq<AuthorStatView> {
    v.map_values(|a: AuthorStat| a@)
}

/// Totals over a whole repository.
#[derive(Debug, Clone)]
pub struct RepoSummary {
    pub total_authors: u64,
    pub total_commits: u64,
    pub merge_commits: u64,
    pub effective_commits: u64,
    pub total_additions: u64,
    pub total_deletions: u64,
    pub net_lines: i64,
}

pub struct RepoSummaryView {
    pub total_authors: nat,
    pub total_commits: nat,
    pub merge_commits: nat,
    pub effective_commits: nat,
    pub total_additions: nat,
    pub total_deletions: nat,
    pub net_lines: int,
}

impl View for RepoSummary {
    type V = RepoSummaryView;

    open spec fn view(&self) -> RepoSummaryView {
        RepoSummaryView {
            total_authors: self.total_authors as nat,
            total_commits: self.total_commits as nat,
            merge_commits: self.merge_commits as nat,
            effective_commits: self.effective_commits as nat,
            total_additions: self.total_additions as nat,
            total_deletions: self.total_deletions as nat,
            net_lines: self.net_lines as int,
        }
    }
}

/// What a report was made from.
#[derive(Debug, Clone)]
pub struct ReportMetadata {
    pub repo: String,
    pub branch: String,
    pub since: Option<String>,
    pub until: Option<String>,
}

pub struct ReportMetadataView {
    pub repo: Seq<char>,
    pub branch: Seq<char>,
    pub since: Option<Seq<char>>,
    pub until: Option<Seq<char>>,
}

impl View for ReportMetadata {
    type V = ReportMetadataView;

    open spec fn view(&self) -> ReportMetadataView {
        ReportMetadataView {
            repo: self.repo@,
            branch: self.branch@,
            since: crate::text::opt_chars(self.since),
            until: crate::text::opt_chars(self.until),
        }
    }
}

/// A full report: where it comes from, the totals and the rows per author.
#[derive(Debug, Clone)]
pub struct Report {
    pub meta: ReportMetadata,
    pub summary: RepoSummary,
    pub authors: Vec<AuthorStat>,
}

pub struct ReportView {
    pub meta: ReportMetadataView,
    pub summary: RepoSummaryView,
    pub authors: Seq<AuthorStatView>,
}

impl View for Report {
    type V = ReportView;

    open spec fn view(&self) -> ReportView {
        ReportView {
            meta: self.meta@,
            summary: self.summary@,
            authors: authors_view(self.authors@),
        }
    }
}

/// Activity on one day.
#[derive(Debug, Clone)]
pub struct TimeseriesPoint {
    pub date: String,
    pub commits: u64,
    pub additions: u64,
    pub deletions: u64,
    pub net_lines: i64,
}

pub struct TimeseriesPointView {
    pub date: Seq<char>,
    pub commits: nat,
    pub additions: nat,
    pub deletions: nat,
    pub net_lines: int,
}

impl View for TimeseriesPoint {
    type V = TimeseriesPointView;

    open spec fn view(&self) -> TimeseriesPointView {
        TimeseriesPointView {
            date: self.date@,
            commits: self.commits as nat,
            additions: self.additions as nat,
            deletions: self.deletions as nat,
            net_lines: self.net_lines as int,
        }
    }
}

/// The views of a sequence of days.
pub open spec fn points_view(v: Seq<TimeseriesPoint>) -> Seq<TimeseriesPointView> {
    v.map_values(|p: TimeseriesPoint| p@)
}

/// Activity on one path.
#[derive(Debug, Clone)]
pub struct PathStat {
    pub path: String,
    pub commits: u64,
    pub additions: u64,
    pub deletions: u64,
    pub net_lines: i64,
}

pub struct PathStatView {
    pub path: Seq<char>,
    pub commits: nat,
    pub additions: nat,
    pub deletions: nat,
    pub net_lines: int,
}

impl View for PathStat {
    type V = PathStatView;

    open spec fn view(&self) -> PathStatView {
        PathStatView {
            path: self.path@,
            commits: self.commits as nat,
            additions: self.additions as nat,
            deletions: self.deletions as nat,
            net_lines: self.net_lines as int,
        }
    }
}

/// The views of a sequence of paths.
pub open spec fn paths_view(v: Seq<PathStat>) -> Seq<PathStatView> {
    v.map_values(|p: PathStat| p@)
}

/// What the dashboard shows: the report, activity per day, and the busiest
/// paths.
#[derive(Debug, Clone)]
pub struct Dashboard {
    pub report: Report,
    pub timeseries: Vec<TimeseriesPoint>,
    pub paths: Vec<PathStat>,
}

pub struct DashboardView {
    pub report: ReportView,
    pub timeseries: Seq<TimeseriesPointView>,
    pub paths: Seq<PathStatView>,
}

impl View for Dashboard {
    type V = DashboardView;

    open spec fn view(&self) -> DashboardView {
        DashboardView {
            report: self.report@,
            timeseries: points_view(self.timeseries@),
            paths: paths_view(self.paths@),
        }
    }
}

} // verus!
