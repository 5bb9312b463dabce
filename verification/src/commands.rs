//! The Git (and GitHub CLI, flpdiff) command lines that the library's
//! actions run, the validation of what the user typed for them, and the
//! reading of the commit history.
use vstd::prelude::*;
use crate::text::{
    append, append_str, chars_of, decimal, decimal_u64, is_blank, lines, owned, split_at_char,
    split_char, split_lines, string_from_chars, string_views, strs, trim, trimmed, views,
    extend_strings, is_literal_chars, has_char, join_with, single_line, lemma_join_front,
    lemma_join_no_char, lemma_split_join, lemma_lines_join,
};
use crate::paths::is_backup_spec;
use crate::git::{GitOutput, OutputModel, output};

verus! {

broadcast use vstd::seq_lib::group_seq_properties;

// ---------------------------------------------------------------------
// Staging
// ---------------------------------------------------------------------

/// The arguments that unstage paths: `restore --staged` once the
/// repository has a commit, `rm -r --cached` before the first one.
pub fn unstage_args(has_commits: bool, paths: Vec<String>) -> (r: Vec<String>)
    ensures
        string_views(r@) == (if has_commits {
            seq!["restore"@, "--staged"@, "--"@]
        } else {
            seq!["rm"@, "-r"@, "--cached"@, "--"@]
        }) + string_views(paths@),
{
    let mut args = if has_commits {
        let items: [&str; 3] = ["restore", "--staged", "--"];
        strs(&items)
    } else {
        let items: [&str; 4] = ["rm", "-r", "--cached", "--"];
        strs(&items)
    };
    assert(string_views(args@) == (if has_commits {
        seq!["restore"@, "--staged"@, "--"@]
    } else {
        seq!["rm"@, "-r"@, "--cached"@, "--"@]
    }));
    extend_strings(&mut args, paths);
    args
}

/// The arguments that run a Git subcommand on the selected paths, leaving
/// out paths in FL Studio's `Backup` folder; an error when none is left.
pub open spec fn dynamic_args_spec(subcommand: Seq<char>, paths: Seq<Seq<char>>, force: bool) -> Result<
    Seq<Seq<char>>,
    Seq<char>,
> {
    let kept = paths.filter(|p: Seq<char>| !is_backup_spec(p));
    if kept.len() == 0 {
        Err("No stageable paths selected"@)
    } else {
        Ok(seq![subcommand] + (if force {
            seq!["-f"@]
        } else {
            seq![]
        }) + seq!["--"@] + kept)
    }
}

/// The arguments that run a Git subcommand on the selected paths, leaving
/// out `Backup` paths.
pub fn run_git_dynamic(subcommand: &str, paths: Vec<String>, force: bool) -> (r: Result<
    Vec<String>,
    String,
>)
    ensures
        match (r, dynamic_args_spec(subcommand@, string_views(paths@), force)) {
            (Ok(a), Ok(b)) => string_views(a@) == b,
            (Err(e), Err(f)) => e@ == f,
            _ => false,
        },
{
    let ghost pv = string_views(paths@);
    let mut kept: Vec<String> = Vec::new();
    let mut i: usize = 0;
    let n = paths.len();
    assert(pv.take(0).filter(|p: Seq<char>| !is_backup_spec(p)) =~= Seq::<Seq<char>>::empty());
    while i < n
        invariant
            i <= n,
            n == paths@.len(),
            pv == string_views(paths@),
            string_views(kept@) == pv.take(i as int).filter(|p: Seq<char>| !is_backup_spec(p)),
        decreases n - i,
    {
        let p: &String = &paths[i];
        proof {
            assert(pv.take(i + 1) =~= pv.take(i as int).push(pv[i as int]));
            pv.take(i as int).lemma_filter_push(pv[i as int], |p: Seq<char>| !is_backup_spec(p));
        }
        if !crate::paths::is_backup_path(p.as_str()) {
            let ghost prev = kept@;
            kept.push(p.clone());
            assert(string_views(kept@) =~= string_views(prev).push(p@));
        }
        i += 1;
    }
    assert(pv.take(n as int) =~= pv);
    if kept.len() == 0 {
        return Err(owned("No stageable paths selected"));
    }
    let mut args: Vec<String> = Vec::new();
    args.push(owned(subcommand));
    if force {
        args.push(owned("-f"));
    }
    args.push(owned("--"));
    let ghost head = string_views(args@);
    assert(head =~= seq![subcommand@] + (if force {
        seq!["-f"@]
    } else {
        seq![]
    }) + seq!["--"@]);
    extend_strings(&mut args, kept);
    Ok(args)
}

/// The pathspecs that limit a comparison to the project's surface files:
/// everything but FL project files and the repository's own Git and
/// library metadata.
pub open spec fn surface_pathspecs() -> Seq<Seq<char>> {
    seq![
        "--"@,
        "."@,
        ":(exclude)*.flp"@,
        ":(exclude)*.FLP"@,
        ":(exclude).gitignore"@,
        ":(exclude).gitattributes"@,
        ":(exclude).gitmodules"@,
        ":(exclude).lfsconfig"@,
        ":(exclude).flgit/**"@,
    ]
}

/// The pathspecs that limit a comparison to the project's surface files.
pub fn compare_surface_pathspecs() -> (r: Vec<String>)
    ensures
        string_views(r@) == surface_pathspecs(),
{
    let items: [&str; 9] = [
        "--",
        ".",
        ":(exclude)*.flp",
        ":(exclude)*.FLP",
        ":(exclude).gitignore",
        ":(exclude).gitattributes",
        ":(exclude).gitmodules",
        ":(exclude).lfsconfig",
        ":(exclude).flgit/**",
    ];
    let r = strs(&items);
    assert(string_views(r@) =~= surface_pathspecs());
    r
}

// ---------------------------------------------------------------------
// Commits and remotes
// ---------------------------------------------------------------------

/// The arguments that commit with a message: an error for a blank message,
/// else the message trimmed.
pub fn commit_args(message: &str) -> (r: Result<Vec<String>, String>)
    ensures
        match r {
            Ok(a) => trim(message@).len() > 0 && string_views(a@) == seq![
                "commit"@,
                "-m"@,
                trim(message@),
            ],
            Err(e) => trim(message@).len() == 0 && e@ == "Commit message is required"@,
        },
{
    let m = trimmed(&chars_of(message));
    if m.len() == 0 {
        return Err(owned("Commit message is required"));
    }
    let mut a: Vec<String> = Vec::new();
    a.push(owned("commit"));
    a.push(owned("-m"));
    a.push(string_from_chars(&m));
    assert(string_views(a@) =~= seq!["commit"@, "-m"@, trim(message@)]);
    Ok(a)
}

/// The remote address to set: the typed one trimmed; an error when blank.
pub fn required_remote_url(remote_url: &str) -> (r: Result<String, String>)
    ensures
        match r {
            Ok(u) => trim(remote_url@).len() > 0 && u@ == trim(remote_url@),
            Err(e) => trim(remote_url@).len() == 0 && e@ == "Remote URL is required"@,
        },
{
    let t = trimmed(&chars_of(remote_url));
    if t.len() == 0 {
        Err(owned("Remote URL is required"))
    } else {
        Ok(string_from_chars(&t))
    }
}

/// The arguments that point `origin` at an address: `set-url` when it
/// exists, `add` when it does not.
pub fn set_remote_args(origin_exists: bool, remote_url: &str) -> (r: Vec<String>)
    ensures
        string_views(r@) == seq![
            "remote"@,
            if origin_exists {
                "set-url"@
            } else {
                "add"@
            },
            "origin"@,
            remote_url@,
        ],
{
    let verb = if origin_exists {
        "set-url"
    } else {
        "add"
    };
    let items: [&str; 4] = ["remote", verb, "origin", remote_url];
    let r = strs(&items);
    assert(string_views(r@) =~= seq![
        "remote"@,
        if origin_exists {
            "set-url"@
        } else {
            "add"@
        },
        "origin"@,
        remote_url@,
    ]);
    r
}

/// The arguments that show a path's diff, staged or in the working tree.
pub fn diff_path_args(path: &str, staged: bool) -> (r: Vec<String>)
    ensures
        string_views(r@) == if staged {
            seq!["diff"@, "--cached"@, "--"@, path@]
        } else {
            seq!["diff"@, "--"@, path@]
        },
{
    if staged {
        let items: [&str; 4] = ["diff", "--cached", "--", path];
        let r = strs(&items);
        assert(string_views(r@) =~= seq!["diff"@, "--cached"@, "--"@, path@]);
        r
    } else {
        let items: [&str; 3] = ["diff", "--", path];
        let r = strs(&items);
        assert(string_views(r@) =~= seq!["diff"@, "--"@, path@]);
        r
    }
}

/// The arguments that check whether a revision has a parent
/// (`rev-parse --verify REV^`).
pub fn parent_check_args(revision: &str) -> (r: Vec<String>)
    ensures
        string_views(r@) == seq!["rev-parse"@, "--verify"@, revision@ + "^"@],
{
    let mut p: Vec<char> = chars_of(revision);
    append_str(&mut p, "^");
    let mut r: Vec<String> = Vec::new();
    r.push(owned("rev-parse"));
    r.push(owned("--verify"));
    r.push(string_from_chars(&p));
    assert(string_views(r@) =~= seq!["rev-parse"@, "--verify"@, revision@ + "^"@]);
    r
}

/// The outcome shown for the first commit, which has no parent to compare
/// with.
pub fn first_commit_output() -> (r: GitOutput)
    ensures
        r@ == output(true, "This is the first commit"@, seq![]),
{
    GitOutput { ok: true, stdout: owned("This is the first commit"), stderr: String::new() }
}

/// What a revision diff shows without running the diff: the first-commit
/// message when checking the revision's parent failed (it has none);
/// nothing when the diff has to run.
pub fn revision_diff_shortcut(parent_check: &GitOutput) -> (r: Option<GitOutput>)
    ensures
        r is Some <==> !parent_check.ok,
        r matches Some(o) ==> o@ == output(true, "This is the first commit"@, seq![]),
{
    if parent_check.ok {
        None
    } else {
        Some(first_commit_output())
    }
}

/// The outcome given at once when a step of a sequence failed: that step's
/// own output; nothing when the sequence goes on.
pub fn failed_step(step: &GitOutput) -> (r: Option<GitOutput>)
    ensures
        r is Some <==> !step.ok,
        r matches Some(o) ==> o@ == step@,
{
    if step.ok {
        None
    } else {
        Some(step.duplicate())
    }
}

/// The arguments that show a path's change in a revision
/// (`diff REV~1 REV -- PATH`).
pub fn revision_diff_args(revision: &str, path: &str) -> (r: Vec<String>)
    ensures
        string_views(r@) == seq!["diff"@, revision@ + "~1"@, revision@, "--"@, path@],
{
    let mut p: Vec<char> = chars_of(revision);
    append_str(&mut p, "~1");
    let mut r: Vec<String> = Vec::new();
    r.push(owned("diff"));
    r.push(string_from_chars(&p));
    r.push(owned(revision));
    r.push(owned("--"));
    r.push(owned(path));
    assert(string_views(r@) =~= seq!["diff"@, revision@ + "~1"@, revision@, "--"@, path@]);
    r
}

/// The arguments that abort the operation in progress: a rebase when one
/// is in progress, else a merge.
pub fn abort_args(rebase_in_progress: bool) -> (r: Vec<String>)
    ensures
        string_views(r@) == seq![
            if rebase_in_progress {
                "rebase"@
            } else {
                "merge"@
            },
            "--abort"@,
        ],
{
    let items: [&str; 2] = [if rebase_in_progress {
        "rebase"
    } else {
        "merge"
    }, "--abort"];
    let r = strs(&items);
    assert(string_views(r@) =~= seq![
        if rebase_in_progress {
            "rebase"@
        } else {
            "merge"@
        },
        "--abort"@,
    ]);
    r
}

/// The checkout side for resolving a conflict: `local` keeps ours, `remote`
/// takes theirs; anything else is refused.
pub fn conflict_checkout_flag(choice: &str) -> (r: Result<String, String>)
    ensures
        match r {
            Ok(f) => (choice@ == "local"@ && f@ == "--ours"@) || (choice@ == "remote"@ && f@
                == "--theirs"@),
            Err(e) => choice@ != "local"@ && choice@ != "remote"@ && e@
                == "Conflict choice must be local or remote"@,
        },
{
    let c = chars_of(choice);
    if is_literal_chars(&c, "local") {
        Ok(owned("--ours"))
    } else if is_literal_chars(&c, "remote") {
        Ok(owned("--theirs"))
    } else {
        Err(owned("Conflict choice must be local or remote"))
    }
}

/// The outcome of resolving a conflict: the checkout's, when it failed;
/// else the staging's success with both outputs (`add` is given exactly
/// when the checkout succeeded).
pub fn resolve_conflict_output(checkout: &GitOutput, add: &Option<GitOutput>) -> (r: GitOutput)
    requires
        add is Some <==> checkout.ok,
    ensures
        match add {
            None => r@ == checkout@,
            Some(a) => r@ == output(
                a.ok,
                checkout.stdout@ + a.stdout@,
                checkout.stderr@ + a.stderr@,
            ),
        },
{
    match add {
        None => checkout.duplicate(),
        Some(a) => {
            let mut out = chars_of(checkout.stdout.as_str());
            append_str(&mut out, a.stdout.as_str());
            let mut err = chars_of(checkout.stderr.as_str());
            append_str(&mut err, a.stderr.as_str());
            GitOutput { ok: a.ok, stdout: string_from_chars(&out), stderr: string_from_chars(&err) }
        },
    }
}

// ---------------------------------------------------------------------
// The commit history
// ---------------------------------------------------------------------

/// One commit of the history.
#[derive(Debug)]
pub struct CommitSummary {
    pub sha: String,
    pub short_sha: String,
    pub subject: String,
    pub author: String,
    pub relative_time: String,
}

/// The model of a `CommitSummary`.
pub struct CommitModel {
    pub sha: Seq<char>,
    pub short_sha: Seq<char>,
    pub subject: Seq<char>,
    pub author: Seq<char>,
    pub relative_time: Seq<char>,
}

impl View for CommitSummary {
    type V = CommitModel;

    open spec fn view(&self) -> CommitModel {
        CommitModel {
            sha: self.sha@,
            short_sha: self.short_sha@,
            subject: self.subject@,
            author: self.author@,
            relative_time: self.relative_time@,
        }
    }
}

/// The unit-separated fields of a log line.
pub open spec fn log_fields(line: Seq<char>) -> Seq<Seq<char>> {
    split_char(line, '\x1f')
}

/// A log line with at least the five fields of a commit.
pub open spec fn is_commit_line(line: Seq<char>) -> bool {
    log_fields(line).len() >= 5
}

/// The commit a log line describes (its first five fields).
pub open spec fn commit_of(line: Seq<char>) -> CommitModel {
    let f = log_fields(line);
    CommitModel { sha: f[0], short_sha: f[1], subject: f[2], author: f[3], relative_time: f[4] }
}

/// The commits of a log, in order: one per line that has the five fields.
pub open spec fn commits_of(log: Seq<char>) -> Seq<CommitModel> {
    lines(log).filter(|l: Seq<char>| is_commit_line(l)).map_values(|l: Seq<char>| commit_of(l))
}

/// The views of commits.
pub open spec fn commit_views(v: Seq<CommitSummary>) -> Seq<CommitModel> {
    v.map_values(|c: CommitSummary| c@)
}

/// The commits of `git log --pretty=format:%H%x1f%h%x1f%s%x1f%an%x1f%cr`.
pub fn parse_commit_log(log: &str) -> (r: Vec<CommitSummary>)
    ensures
        commit_views(r@) == commits_of(log@),
{
    let ls = split_lines(&chars_of(log));
    let ghost lv = views(ls@);
    let mut r: Vec<CommitSummary> = Vec::new();
    let mut i: usize = 0;
    assert(lv.take(0).filter(|l: Seq<char>| is_commit_line(l)) =~= Seq::<Seq<char>>::empty());
    while i < ls.len()
        invariant
            i <= ls@.len(),
            lv == views(ls@),
            commit_views(r@) == lv.take(i as int).filter(|l: Seq<char>| is_commit_line(l)).map_values(
                |l: Seq<char>| commit_of(l),
            ),
        decreases ls@.len() - i,
    {
        let line = &ls[i];
        proof {
            assert(lv.take(i + 1) =~= lv.take(i as int).push(line@));
            lv.take(i as int).lemma_filter_push(line@, |l: Seq<char>| is_commit_line(l));
        }
        let fields = split_at_char(line, '\x1f');
        if fields.len() >= 5 {
            let c = CommitSummary {
                sha: string_from_chars(&fields[0]),
                short_sha: string_from_chars(&fields[1]),
                subject: string_from_chars(&fields[2]),
                author: string_from_chars(&fields[3]),
                relative_time: string_from_chars(&fields[4]),
            };
            let ghost f = views(fields@);
            assert(f == log_fields(line@));
            assert(c@ == commit_of(line@)) by {
                assert(f[0] == fields@[0]@);
                assert(f[1] == fields@[1]@);
                assert(f[2] == fields@[2]@);
                assert(f[3] == fields@[3]@);
                assert(f[4] == fields@[4]@);
            }
            let ghost prev = r@;
            r.push(c);
            assert(commit_views(r@) =~= commit_views(prev).push(c@));
            let ghost kept = lv.take(i as int).filter(|l: Seq<char>| is_commit_line(l));
            assert(commit_views(r@) =~= kept.push(line@).map_values(|l: Seq<char>| commit_of(l)));
        }
        i += 1;
    }
    assert(lv.take(lv.len() as int) =~= lv);
    r
}

/// The history from the output of `git log`: its commits, or its error
/// text when it failed.
pub fn list_commits(output: &GitOutput) -> (r: Result<Vec<CommitSummary>, String>)
    ensures
        match r {
            Ok(v) => output.ok && commit_views(v@) == commits_of(output.stdout@),
            Err(e) => !output.ok && e@ == output.stderr@,
        },
{
    if !output.ok {
        return Err(output.stderr.clone());
    }
    Ok(parse_commit_log(output.stdout.as_str()))
}

/// How many commits the history shows: the requested number (40 when none
/// was asked for), kept between 1 and 200.
pub open spec fn commit_limit(limit: Option<u32>) -> nat {
    let n = match limit {
        Some(n) => n as nat,
        None => 40,
    };
    if n < 1 {
        1
    } else if n > 200 {
        200
    } else {
        n
    }
}

/// The arguments that read the history, one unit-separated line per commit.
pub fn commit_log_args(limit: Option<u32>) -> (r: Vec<String>)
    ensures
        string_views(r@) == seq![
            "log"@,
            "-n"@ + decimal(commit_limit(limit)),
            "--date=relative"@,
            "--pretty=format:%H%x1f%h%x1f%s%x1f%an%x1f%cr"@,
        ],
{
    let n: u32 = match limit {
        Some(n) => n,
        None => 40,
    };
    let c: u32 = if n < 1 {
        1
    } else if n > 200 {
        200
    } else {
        n
    };
    let mut arg = chars_of("-n");
    let d = decimal_u64(c as u64);
    append(&mut arg, &d);
    let mut r: Vec<String> = Vec::new();
    r.push(owned("log"));
    r.push(string_from_chars(&arg));
    r.push(owned("--date=relative"));
    r.push(owned("--pretty=format:%H%x1f%h%x1f%s%x1f%an%x1f%cr"));
    assert(string_views(r@) =~= seq![
        "log"@,
        "-n"@ + decimal(commit_limit(limit)),
        "--date=relative"@,
        "--pretty=format:%H%x1f%h%x1f%s%x1f%an%x1f%cr"@,
    ]);
    r
}


/// The history shows between 1 and 200 commits: 40 when no number was
/// asked for, the number asked for when it lies in that range, and the
/// nearest bound otherwise.
pub proof fn law_commit_limit_range(limit: Option<u32>)
    ensures
        1 <= commit_limit(limit) <= 200,
        limit is None ==> commit_limit(limit) == 40,
        limit matches Some(n) ==> (1 <= n <= 200 ==> commit_limit(limit) == n),
        limit matches Some(n) ==> (n > 200 ==> commit_limit(limit) == 200),
        limit matches Some(n) ==> (n == 0 ==> commit_limit(limit) == 1),
{
}

/// The five fields of a commit, in the order of the log format.
pub open spec fn commit_fields(c: CommitModel) -> Seq<Seq<char>> {
    seq![c.sha, c.short_sha, c.subject, c.author, c.relative_time]
}

/// The log line of a commit: its fields separated by `\x1f`.
pub open spec fn log_line(c: CommitModel) -> Seq<char> {
    join_with(commit_fields(c), seq!['\x1f'])
}

/// The log of commits: their lines separated by newlines.
pub open spec fn log_text(cs: Seq<CommitModel>) -> Seq<char> {
    join_with(cs.map_values(|c: CommitModel| log_line(c)), seq!['\n'])
}

/// A field that the log format writes unambiguously: no unit separator,
/// newline or carriage return.
pub open spec fn plain_field(f: Seq<char>) -> bool {
    !has_char(f, '\x1f') && !has_char(f, '\n') && !has_char(f, '\r')
}

/// A commit whose fields are all plain.
pub open spec fn plain_commit(c: CommitModel) -> bool {
    forall|k: int| 0 <= k < 5 ==> plain_field(#[trigger] commit_fields(c)[k])
}

proof fn lemma_log_line(c: CommitModel)
    requires
        plain_commit(c),
    ensures
        log_fields(log_line(c)) == commit_fields(c),
        is_commit_line(log_line(c)),
        commit_of(log_line(c)) == c,
        single_line(log_line(c)),
{
    let fs = commit_fields(c);
    assert forall|k: int| 0 <= k < fs.len() implies !has_char(#[trigger] fs[k], '\x1f') by {
        assert(plain_field(fs[k]));
    }
    assert forall|k: int| 0 <= k < fs.len() implies !has_char(#[trigger] fs[k], '\n') by {
        assert(plain_field(fs[k]));
    }
    assert forall|k: int| 0 <= k < fs.len() implies !has_char(#[trigger] fs[k], '\r') by {
        assert(plain_field(fs[k]));
    }
    lemma_split_join(fs, '\x1f');
    let l = log_line(c);
    lemma_join_no_char(fs, seq!['\x1f'], '\n');
    lemma_join_no_char(fs, seq!['\x1f'], '\r');
    lemma_join_front(fs, seq!['\x1f']);
    assert(l.len() > 0);
    if l.last() == '\r' {
        assert(l[l.len() - 1] == '\r');
        assert(has_char(l, '\r'));
    }
}

proof fn lemma_filter_all(s: Seq<Seq<char>>)
    requires
        forall|k: int| 0 <= k < s.len() ==> is_commit_line(#[trigger] s[k]),
    ensures
        s.filter(|l: Seq<char>| is_commit_line(l)) == s,
    decreases s.len(),
{
    reveal(Seq::filter);
    if s.len() > 0 {
        lemma_filter_all(s.drop_last());
        assert(is_commit_line(s[s.len() - 1]));
        assert(s.drop_last().push(s.last()) =~= s);
    }
}

/// Writing commits as `git log` does with the library's format, and
/// reading the log back, gives the same commits, when no field holds a
/// unit separator, newline or carriage return.
pub proof fn law_commit_log_round_trip(cs: Seq<CommitModel>)
    requires
        forall|k: int| 0 <= k < cs.len() ==> plain_commit(#[trigger] cs[k]),
    ensures
        commits_of(log_text(cs)) == cs,
{
    let ls = cs.map_values(|c: CommitModel| log_line(c));
    assert forall|k: int| 0 <= k < ls.len() implies single_line(#[trigger] ls[k])
        && is_commit_line(ls[k]) && commit_of(ls[k]) == cs[k] by {
        lemma_log_line(cs[k]);
    }
    lemma_lines_join(ls);
    lemma_filter_all(ls);
    assert(ls.map_values(|l: Seq<char>| commit_of(l)) =~= cs);
}

// ---------------------------------------------------------------------
// Outcomes of setup and publishing
// ---------------------------------------------------------------------

/// The outcome of setting up a project's repository, after the step that
/// put it on its branch succeeded: that step's, Git LFS's and flpdiff's
/// output and error text in turn, and success when both of the last two
/// succeeded.
pub fn initialize_output(first: &GitOutput, lfs: &GitOutput, flpdiff: &GitOutput) -> (r: GitOutput)
    requires
        first.ok,
    ensures
        r@ == output(
            lfs.ok && flpdiff.ok,
            first.stdout@ + first.stderr@ + lfs.stdout@ + lfs.stderr@ + flpdiff.stdout@
                + flpdiff.stderr@,
            seq![],
        ),
{
    let mut out = chars_of(first.stdout.as_str());
    append_str(&mut out, first.stderr.as_str());
    append_str(&mut out, lfs.stdout.as_str());
    append_str(&mut out, lfs.stderr.as_str());
    append_str(&mut out, flpdiff.stdout.as_str());
    append_str(&mut out, flpdiff.stderr.as_str());
    GitOutput { ok: lfs.ok && flpdiff.ok, stdout: string_from_chars(&out), stderr: String::new() }
}

/// The outcome of setting up Git LFS and flpdiff: flpdiff's success, the
/// Git LFS output followed by flpdiff's, and flpdiff's error text.
pub fn setup_output(lfs_stdout: &str, flpdiff: &GitOutput) -> (r: GitOutput)
    ensures
        r@ == output(flpdiff.ok, lfs_stdout@ + flpdiff.stdout@, flpdiff.stderr@),
{
    let mut out = chars_of(lfs_stdout);
    append_str(&mut out, flpdiff.stdout.as_str());
    GitOutput { ok: flpdiff.ok, stdout: string_from_chars(&out), stderr: flpdiff.stderr.clone() }
}

/// The outcome of publishing to GitHub: GitHub CLI's success, the snapshot
/// commit's output followed by GitHub CLI's, and GitHub CLI's error text.
pub fn publish_output(snapshot: &GitOutput, gh: &GitOutput) -> (r: GitOutput)
    ensures
        r@ == output(gh.ok, snapshot.stdout@ + gh.stdout@, gh.stderr@),
{
    let mut out = chars_of(snapshot.stdout.as_str());
    append_str(&mut out, gh.stdout.as_str());
    GitOutput { ok: gh.ok, stdout: string_from_chars(&out), stderr: gh.stderr.clone() }
}

} // verus!
