# git-report

A Git activity reporting tool: it summarizes the commits of a repository,
aggregates them by author, by day and by path, and renders the results as
tables, Markdown or JSON, on the command line or in a local web dashboard.

The library (`src/`) is verified with Verus. It holds everything the tool
decides:

- `parser` reads the output of `git log --numstat` into commits;
- `git` says which arguments `git log` is run with and what the output of
  `git branch --show-current` names;
- `config` and `cli` make the settings of a report from the command-line
  options and a `git-report.toml` file, and decide which paths are filtered;
- `report` (with `counting`, `authors`, `days` and `paths`) aggregates the
  commits into author rows, totals, activity per day and the busiest paths,
  and states the laws these obey;
- `output` renders summaries, author tables and Markdown reports;
- `server` decides the settings of a dashboard request, which asset a path
  names and the content type of an asset;
- `text` and `ranking` are the character-level and ordering tools these rest
  on.

## The git log format

Commits are listed with

```text
git log --numstat --date=short --pretty=format:COMMIT<US>%H<US>%an<US>%ae<US>%ad<US>%s<US>%P
```

(`<US>` is the unit separator, `\x1f`), followed by `--since=`, `--until=`
and the branch when they are given.  Each commit opens with a header line
`COMMIT<US>hash<US>author<US>email<US>date<US>subject<US>parents`; the
numstat lines `added<TAB>deleted<TAB>path` that follow belong to it.  The
parser also reads headers without the parents field
(`COMMIT<US>hash<US>author<US>email<US>date<US>subject`).

A commit is a merge when its header names two or more parents, so
`--no-merge` and the monthly preset leave out every merge commit, whatever
its subject.  For a header without parents, a merge is a commit whose
subject starts with `Merge branch`, `Merge remote-tracking` or
`Merge pull request`.

## The program

The program (`app/`) parses the command line, runs `git`, reads config files,
writes JSON and files, and serves the dashboard; it hands the library plain
values and prints what comes back.
