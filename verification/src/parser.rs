//! Reading the output of `git log --numstat`.  A commit header is
//! `COMMIT<US>hash<US>author<US>email<US>date<US>subject`, optionally
//! followed by `<US>parents` (`<US>` is the unit separator `'\x1f'`;
//! `parents` lists the hashes of the commit's parents, separated by
//! spaces).  Fields after the sixth are ignored.
//!
//! A commit is a merge when its header names at least two parents; a header
//! without the parents field falls back to the subjects git writes for
//! merges.
use vstd::prelude::*;

use crate::model::{commits_view, CommitRecord, CommitView, FileStat, FileStatView};
use crate::text::{
    char_rows, chars_of, decimal, lemma_decimal_reads_back, lines, lines_exec, parse_u64, parse_u64_exec, split, split_exec,
    starts_with, starts_with_exec, string_from_chars,
};

verus! {

/// The characters that open a commit header line: `"COMMIT"` and the unit
/// separator.
pub open spec fn commit_marker() -> Seq<char> {
    seq!['C', 'O', 'M', 'M', 'I', 'T', '\x1f']
}

/// The number of non-empty words among `ws`.
pub open spec fn nonempty_count(ws: Seq<Seq<char>>) -> nat
    decreases ws.len(),
{
    if ws.len() == 0 {
        0
    } else {
        nonempty_count(ws.drop_last()) + if ws.last().len() > 0 {
            1nat
        } else {
            0nat
        }
    }
}

/// The number of parents a parents field names: the hashes it lists,
/// separated by spaces.
pub open spec fn parent_count(parents: Seq<char>) -> nat {
    nonempty_count(split(parents, ' '))
}

/// A commit is a merge exactly when it has at least two parents.
pub open spec fn is_merge_parents(parents: Seq<char>) -> bool {
    parent_count(parents) >= 2
}

/// A subject that git writes for a merge.
pub open spec fn is_merge_subject(subject: Seq<char>) -> bool {
    ||| starts_with(subject, "Merge branch"@)
    ||| starts_with(subject, "Merge remote-tracking"@)
    ||| starts_with(subject, "Merge pull request"@)
}

/// The fields of a header line, after the marker.
pub open spec fn header_fields(line: Seq<char>) -> Seq<Seq<char>> {
    split(line.skip(commit_marker().len() as int), '\x1f')
}

/// `line` opens a commit: it starts with the marker and has at least five
/// fields after it.
pub open spec fn is_commit_header(line: Seq<char>) -> bool {
    starts_with(line, commit_marker()) && header_fields(line).len() >= 5
}

/// Whether the commit a header with `fields` opens is a merge: by its
/// parents when the header names them, else by its subject.
pub open spec fn header_is_merge(fields: Seq<Seq<char>>) -> bool {
    if fields.len() >= 6 {
        is_merge_parents(fields[5])
    } else {
        is_merge_subject(fields[4])
    }
}

/// The commit that a header with `fields` opens, with no files yet.
pub open spec fn header_commit(fields: Seq<Seq<char>>) -> CommitView {
    CommitView {
        hash: fields[0],
        author_name: fields[1],
        author_email: fields[2],
        date: fields[3],
        subject: fields[4],
        is_merge: header_is_merge(fields),
        files: Seq::empty(),
    }
}

/// A line count as numstat writes it; anything that is not a number counts
/// zero.
pub open spec fn count_or_zero(s: Seq<char>) -> nat {
    match parse_u64(s) {
        Some(v) => v as nat,
        None => 0,
    }
}

/// The file that a numstat line with `fields` (added, deleted, path)
/// describes; a `"-"` count marks a binary file, whose counts are zero.
pub open spec fn numstat_file(fields: Seq<Seq<char>>) -> FileStatView {
    let is_binary = fields[0] == seq!['-'] || fields[1] == seq!['-'];
    FileStatView {
        path: fields[2],
        additions: if is_binary {
            0
        } else {
            count_or_zero(fields[0])
        },
        deletions: if is_binary {
            0
        } else {
            count_or_zero(fields[1])
        },
        is_binary,
    }
}

/// `c` with one more file.
pub open spec fn with_file(c: CommitView, f: FileStatView) -> CommitView {
    CommitView {
        hash: c.hash,
        author_name: c.author_name,
        author_email: c.author_email,
        date: c.date,
        subject: c.subject,
        is_merge: c.is_merge,
        files: c.files.push(f),
    }
}

/// Where reading stands: the commits that are complete, and the commit whose
/// file lines are being read.
pub struct ParseState {
    pub commits: Seq<CommitView>,
    pub current: Option<CommitView>,
}

/// The commits complete once `current` is closed too.
pub open spec fn closed_commits(st: ParseState) -> Seq<CommitView> {
    match st.current {
        Some(c) => st.commits.push(c),
        None => st.commits,
    }
}

/// Reading one line.  A header line closes the commit being read and opens
/// the one it describes, or none when it has fewer than five fields.  Any
/// other line, while a commit is open, adds a file when it has at least
/// three tab-separated fields, and is skipped otherwise.
pub open spec fn parse_line(st: ParseState, line: Seq<char>) -> ParseState {
    if starts_with(line, commit_marker()) {
        let fields = header_fields(line);
        ParseState {
            commits: closed_commits(st),
            current: if fields.len() < 5 {
                None
            } else {
                Some(header_commit(fields))
            },
        }
    } else {
        match st.current {
            None => st,
            Some(c) => {
                let fields = split(line, '\t');
                if fields.len() < 3 {
                    st
                } else {
                    ParseState { commits: st.commits, current: Some(with_file(c, numstat_file(fields))) }
                }
            },
        }
    }
}

/// Reading the lines `ls` in order, from the start.
pub open spec fn parse_lines(ls: Seq<Seq<char>>) -> ParseState
    decreases ls.len(),
{
    if ls.len() == 0 {
        ParseState { commits: Seq::empty(), current: None }
    } else {
        parse_line(parse_lines(ls.drop_last()), ls.last())
    }
}

/// The commits in the log text `raw`.
pub open spec fn parse_log(raw: Seq<char>) -> Seq<CommitView> {
    closed_commits(parse_lines(lines(raw)))
}

/// A file of a commit counts no lines when it is binary.
pub open spec fn binary_files_count_nothing(cs: Seq<CommitView>) -> bool {
    forall|i: int, j: int|
        0 <= i < cs.len() && 0 <= j < cs[i].files.len() && (#[trigger] cs[i].files[j]).is_binary
            ==> cs[i].files[j].additions == 0 && cs[i].files[j].deletions == 0
}

proof fn lemma_parse_line_keeps_binary(st: ParseState, line: Seq<char>)
    requires
        binary_files_count_nothing(closed_commits(st)),
    ensures
        binary_files_count_nothing(closed_commits(parse_line(st, line))),
{
    let next = parse_line(st, line);
    let before = closed_commits(st);
    let after = closed_commits(next);
    if starts_with(line, commit_marker()) {
        assert forall|i: int, j: int|
            0 <= i < after.len() && 0 <= j < after[i].files.len() && (
            #[trigger] after[i].files[j]).is_binary implies after[i].files[j].additions == 0
            && after[i].files[j].deletions == 0 by {
            if i < before.len() {
                assert(after[i] == before[i]);
            }
        }
    } else {
        match st.current {
            None => {},
            Some(c) => {
                let fields = split(line, '\t');
                if fields.len() >= 3 {
                    let c2 = with_file(c, numstat_file(fields));
                    assert(after == st.commits.push(c2));
                    assert(before == st.commits.push(c));
                    assert forall|i: int, j: int|
                        0 <= i < after.len() && 0 <= j < after[i].files.len() && (
                        #[trigger] after[i].files[j]).is_binary implies after[i].files[j].additions
                        == 0 && after[i].files[j].deletions == 0 by {
                        if i < st.commits.len() {
                            assert(after[i] == before[i]);
                        } else if j < c.files.len() {
                            assert(after[i].files[j] == before[i].files[j]);
                        }
                    }
                }
            },
        }
    }
}

/// Each header line of at least five fields gives exactly one commit.
pub proof fn lemma_one_commit_per_header(ls: Seq<Seq<char>>)
    ensures
        closed_commits(parse_lines(ls)).len() == ls.filter(|l: Seq<char>| is_commit_header(l)).len(),
    decreases ls.len(),
{
    broadcast use vstd::seq_lib::group_filter_ensures;

    let pred = |l: Seq<char>| is_commit_header(l);
    if ls.len() == 0 {
        reveal(Seq::filter);
    } else {
        lemma_one_commit_per_header(ls.drop_last());
        assert(ls.drop_last().push(ls.last()) =~= ls);
        ls.drop_last().lemma_filter_push(ls.last(), pred);
    }
}

/// What identifies a commit: its hash, author, email, date, subject and
/// whether it is a merge.
pub open spec fn commit_id(c: CommitView) -> (Seq<char>, Seq<char>, Seq<char>, Seq<char>, Seq<char>, bool) {
    (c.hash, c.author_name, c.author_email, c.date, c.subject, c.is_merge)
}

/// What a header line says of its commit: the first five fields in order
/// (hash, author, email, date, subject), and whether it is a merge.
pub open spec fn header_id(line: Seq<char>) -> (
    Seq<char>,
    Seq<char>,
    Seq<char>,
    Seq<char>,
    Seq<char>,
    bool,
) {
    let f = header_fields(line);
    (f[0], f[1], f[2], f[3], f[4], header_is_merge(f))
}

/// The ids of commits.
pub open spec fn commit_ids(cs: Seq<CommitView>) -> Seq<
    (Seq<char>, Seq<char>, Seq<char>, Seq<char>, Seq<char>, bool),
> {
    cs.map_values(|c: CommitView| commit_id(c))
}

/// The ids that header lines give.
pub open spec fn header_ids(ls: Seq<Seq<char>>) -> Seq<
    (Seq<char>, Seq<char>, Seq<char>, Seq<char>, Seq<char>, bool),
> {
    ls.map_values(|l: Seq<char>| header_id(l))
}

/// The merge rule: a header that names parents makes a merge exactly when
/// it names at least two; one without them, exactly when its subject is one
/// git writes for merges.
pub proof fn lemma_merge_rule(fields: Seq<Seq<char>>)
    requires
        fields.len() >= 5,
    ensures
        fields.len() >= 6 ==> (header_is_merge(fields) <==> parent_count(fields[5]) >= 2),
        fields.len() == 5 ==> (header_is_merge(fields) <==> (starts_with(fields[4], "Merge branch"@)
            || starts_with(fields[4], "Merge remote-tracking"@) || starts_with(
            fields[4],
            "Merge pull request"@,
        ))),
{
}

/// Reading one line adds the id of the commit it opens, when it is a header,
/// and changes no other id.
proof fn lemma_parse_line_ids(st: ParseState, line: Seq<char>)
    ensures
        commit_ids(closed_commits(parse_line(st, line))) == commit_ids(closed_commits(st)) + if is_commit_header(line) {
            seq![header_id(line)]
        } else {
            Seq::empty()
        },
{
    let before = closed_commits(st);
    let after = closed_commits(parse_line(st, line));
    if starts_with(line, commit_marker()) {
        let fields = header_fields(line);
        if fields.len() >= 5 {
            assert(after == before.push(header_commit(fields)));
            assert(commit_ids(after) =~= commit_ids(before) + seq![header_id(line)]);
        } else {
            assert(commit_ids(after) =~= commit_ids(before) + Seq::empty());
        }
    } else {
        match st.current {
            None => {
                assert(commit_ids(after) =~= commit_ids(before) + Seq::empty());
            },
            Some(c) => {
                let fields = split(line, '\t');
                if fields.len() >= 3 {
                    let c2 = with_file(c, numstat_file(fields));
                    assert(after == st.commits.push(c2));
                    assert(before == st.commits.push(c));
                    assert(commit_id(c2) == commit_id(c));
                }
                assert(commit_ids(after) =~= commit_ids(before) + Seq::empty());
            },
        }
    }
}

/// Reading lines gives one commit per header line, in order, each with the
/// hash, author, email, date, subject and merge flag its header gives.
pub proof fn lemma_commits_follow_headers(ls: Seq<Seq<char>>)
    ensures
        commit_ids(closed_commits(parse_lines(ls))) == header_ids(
            ls.filter(|l: Seq<char>| is_commit_header(l)),
        ),
    decreases ls.len(),
{
    let pred = |l: Seq<char>| is_commit_header(l);
    if ls.len() == 0 {
        reveal(Seq::filter);
        assert(header_ids(ls.filter(pred)) =~= Seq::empty());
        assert(commit_ids(closed_commits(parse_lines(ls))) =~= Seq::empty());
    } else {
        let pre = ls.drop_last();
        lemma_commits_follow_headers(pre);
        lemma_parse_line_ids(parse_lines(pre), ls.last());
        assert(pre.push(ls.last()) =~= ls);
        pre.lemma_filter_push(ls.last(), pred);
        if is_commit_header(ls.last()) {
            assert(header_ids(pre.filter(pred).push(ls.last())) =~= header_ids(pre.filter(pred))
                + seq![header_id(ls.last())]);
        } else {
            assert(header_ids(pre.filter(pred)) =~= header_ids(pre.filter(pred)) + Seq::empty());
        }
    }
}

/// The commits of a log follow its header lines: one per header of at
/// least five fields, in order, each with the hash, author, email, date and
/// subject of its header's first five fields and the merge flag of the
/// merge rule.
pub proof fn lemma_log_commits_follow_headers(raw: Seq<char>)
    ensures
        commit_ids(parse_log(raw)) == header_ids(lines(raw).filter(|l: Seq<char>| is_commit_header(l))),
{
    lemma_commits_follow_headers(lines(raw));
}

/// A numstat line that gives two counts in decimal and a path describes a
/// text file of the path with those counts added and deleted; one that gives
/// `-` for a count describes a binary file with no counted lines.
pub proof fn lemma_numstat_counts(a: u64, d: u64, path: Seq<char>, rest: Seq<Seq<char>>)
    ensures
        numstat_file(seq![decimal(a as nat), decimal(d as nat), path] + rest) == (FileStatView {
            path,
            additions: a as nat,
            deletions: d as nat,
            is_binary: false,
        }),
        numstat_file(seq![seq!['-'], seq!['-'], path] + rest) == (FileStatView {
            path,
            additions: 0,
            deletions: 0,
            is_binary: true,
        }),
{
    lemma_decimal_reads_back(a);
    lemma_decimal_reads_back(d);
    let fields = seq![decimal(a as nat), decimal(d as nat), path] + rest;
    assert(fields[0] == decimal(a as nat));
    assert(fields[1] == decimal(d as nat));
    assert(fields[2] == path);
    if decimal(a as nat) == seq!['-'] {
        assert(parse_u64(decimal(a as nat)) is None);
    }
    if decimal(d as nat) == seq!['-'] {
        assert(parse_u64(decimal(d as nat)) is None);
    }
    let dash = seq![seq!['-'], seq!['-'], path] + rest;
    assert(dash[0] == seq!['-'] && dash[2] == path);
}

/// The view of an optional commit.
pub open spec fn opt_commit_view(o: Option<CommitRecord>) -> Option<CommitView> {
    match o {
        Some(c) => Some(c@),
        None => None,
    }
}

/// The characters of `v` from position `from` on.
fn chars_from(v: &Vec<char>, from: usize) -> (res: Vec<char>)
    requires
        from <= v@.len(),
    ensures
        res@ == v@.skip(from as int),
{
    let mut res: Vec<char> = Vec::new();
    let n = v.len();
    for i in from..n
        invariant
            from <= n,
            n == v@.len(),
            res@ == v@.subrange(from as int, i as int),
    {
        res.push(v[i]);
        assert(res@ =~= v@.subrange(from as int, i + 1));
    }
    assert(v@.subrange(from as int, n as int) =~= v@.skip(from as int));
    res
}

fn is_dash(v: &Vec<char>) -> (res: bool)
    ensures
        res == (v@ == seq!['-']),
{
    if v.len() == 1 && v[0] == '-' {
        assert(v@ =~= seq!['-']);
        true
    } else {
        false
    }
}

/// The file a numstat line with `fields` describes.
fn numstat_file_exec(fields: &Vec<Vec<char>>) -> (res: FileStat)
    requires
        fields@.len() >= 3,
    ensures
        res@ == numstat_file(char_rows(fields@)),
{
    let is_binary = is_dash(&fields[0]) || is_dash(&fields[1]);
    let additions = if is_binary {
        0
    } else {
        match parse_u64_exec(&fields[0]) {
            Some(v) => v,
            None => 0,
        }
    };
    let deletions = if is_binary {
        0
    } else {
        match parse_u64_exec(&fields[1]) {
            Some(v) => v,
            None => 0,
        }
    };
    FileStat { path: string_from_chars(&fields[2]), additions, deletions, is_binary }
}

/// Whether `s` is a merge subject.
fn is_merge_subject_exec(s: &Vec<char>) -> (res: bool)
    ensures
        res == is_merge_subject(s@),
{
    let branch = chars_of("Merge branch");
    let remote = chars_of("Merge remote-tracking");
    let pull = chars_of("Merge pull request");
    starts_with_exec(s, &branch) || starts_with_exec(s, &remote) || starts_with_exec(s, &pull)
}

/// Whether the parents field `p` names at least two parents.
fn is_merge_parents_exec(p: &Vec<char>) -> (res: bool)
    ensures
        res == is_merge_parents(p@),
{
    let words = split_exec(p, ' ');
    let ghost ws = char_rows(words@);
    let n = words.len();
    let mut count: usize = 0;
    assert(ws.take(0) =~= Seq::<Seq<char>>::empty());
    for i in 0..n
        invariant
            n == ws.len(),
            ws == char_rows(words@),
            count == nonempty_count(ws.take(i as int)),
            count <= i,
    {
        assert(ws.take(i + 1).drop_last() =~= ws.take(i as int));
        assert(ws.take(i + 1).last() == words@[i as int]@);
        if words[i].len() > 0 {
            count = count + 1;
        }
    }
    assert(ws.take(n as int) =~= ws);
    count >= 2
}

/// The commit a header with `fields` opens.
fn header_commit_exec(fields: &Vec<Vec<char>>) -> (res: CommitRecord)
    requires
        fields@.len() >= 5,
    ensures
        res@ == header_commit(char_rows(fields@)),
{
    let files: Vec<FileStat> = Vec::new();
    let res = CommitRecord {
        hash: string_from_chars(&fields[0]),
        author_name: string_from_chars(&fields[1]),
        author_email: string_from_chars(&fields[2]),
        date: string_from_chars(&fields[3]),
        subject: string_from_chars(&fields[4]),
        is_merge: if fields.len() >= 6 {
            is_merge_parents_exec(&fields[5])
        } else {
            is_merge_subject_exec(&fields[4])
        },
        files,
    };
    assert(res@.files =~= Seq::<FileStatView>::empty());
    res
}

/// The commits in the output of `git log --numstat` whose header lines have
/// the format of this module.  Lines before the first header, and lines of
/// fewer than three tab-separated fields, are skipped.  A commit is a merge
/// when its header names at least two parents, or, for a header without
/// parents, when its subject is one git writes for merges.
pub fn parse_git_log(raw: &str) -> (res: Vec<CommitRecord>)
    ensures
        commits_view(res@) == parse_log(raw@),
        commits_view(res@).len() == lines(raw@).filter(|l: Seq<char>| is_commit_header(l)).len(),
        binary_files_count_nothing(commits_view(res@)),
{
    let text = chars_of(raw);
    let ls = lines_exec(&text);
    let ghost rows = char_rows(ls@);
    let marker = chars_of("COMMIT\x1f");
    proof {
        reveal_strlit("COMMIT\x1f");
        assert(marker@ =~= commit_marker());
    }
    let mut commits: Vec<CommitRecord> = Vec::new();
    let mut current: Option<CommitRecord> = None;
    let n = ls.len();
    assert(commits_view(commits@) =~= Seq::<CommitView>::empty());
    assert(rows.take(0) =~= Seq::<Seq<char>>::empty());
    for i in 0..n
        invariant
            n == rows.len(),
            rows == char_rows(ls@),
            marker@ == commit_marker(),
            (ParseState { commits: commits_view(commits@), current: opt_commit_view(current) })
                == parse_lines(rows.take(i as int)),
            binary_files_count_nothing(closed_commits(
                ParseState { commits: commits_view(commits@), current: opt_commit_view(current) },
            )),
    {
        let ghost before = ParseState {
            commits: commits_view(commits@),
            current: opt_commit_view(current),
        };
        assert(rows.take(i + 1).drop_last() =~= rows.take(i as int));
        assert(rows.take(i + 1).last() == rows[i as int]);
        let line = &ls[i];
        if starts_with_exec(line, &marker) {
            let ghost old_commits = commits_view(commits@);
            match current {
                Some(c) => {
                    commits.push(c);
                    assert(commits_view(commits@) =~= old_commits.push(c@));
                },
                None => {},
            }
            assert(commits_view(commits@) == closed_commits(before));
            let rest = chars_from(line, 7);
            let fields = split_exec(&rest, '\x1f');
            if fields.len() < 5 {
                current = None;
            } else {
                let c = header_commit_exec(&fields);
                current = Some(c);
            }
        } else {
            match current {
                None => {
                    current = None;
                },
                Some(c) => {
                    let mut c = c;
                    let fields = split_exec(line, '\t');
                    if fields.len() >= 3 {
                        let ghost old_c = c@;
                        let f = numstat_file_exec(&fields);
                        c.files.push(f);
                        assert(c@.files =~= old_c.files.push(f@));
                        assert(c@ == with_file(old_c, f@));
                    }
                    current = Some(c);
                },
            }
        }
        proof {
            lemma_parse_line_keeps_binary(before, rows[i as int]);
        }
    }
    assert(rows.take(n as int) =~= rows);
    let ghost last_state = ParseState { commits: commits_view(commits@), current: opt_commit_view(current) };
    let ghost old_commits = commits_view(commits@);
    match current {
        Some(c) => {
            commits.push(c);
            assert(commits_view(commits@) =~= old_commits.push(c@));
        },
        None => {},
    }
    proof {
        lemma_one_commit_per_header(rows);
    }
    commits
}

} // verus!
