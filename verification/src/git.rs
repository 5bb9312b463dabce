//! What the library makes of the commands it runs: the output record of a
//! command, the messages and decisions drawn from it, and the log entry
//! written for each Git command.
use vstd::prelude::*;
use crate::text::{
    append, append_str, chars_of, decimal, decimal_u64, is_blank, join, join_with, lines, lower,
    owned, split_lines, string_from_chars, string_views, strs, to_ascii_lower, trim, trim_end,
    trimmed, trimmed_end, views, chars_of_all, is_literal_chars,
};

verus! {

broadcast use vstd::seq_lib::group_seq_properties;

/// The outcome of a command: whether it succeeded, and what it printed.
#[derive(Debug)]
pub struct GitOutput {
    pub ok: bool,
    pub stdout: String,
    pub stderr: String,
}

/// The model of a `GitOutput`.
pub struct OutputModel {
    pub ok: bool,
    pub stdout: Seq<char>,
    pub stderr: Seq<char>,
}

impl View for GitOutput {
    type V = OutputModel;

    open spec fn view(&self) -> OutputModel {
        OutputModel { ok: self.ok, stdout: self.stdout@, stderr: self.stderr@ }
    }
}

impl GitOutput {
    /// A copy of this output.
    pub fn duplicate(&self) -> (r: GitOutput)
        ensures
            r@ == self@,
    {
        GitOutput { ok: self.ok, stdout: self.stdout.clone(), stderr: self.stderr.clone() }
    }
}

/// The view of a command's result: its output, or the message of a
/// command that could not run.
pub open spec fn result_view(r: Result<GitOutput, String>) -> Result<OutputModel, Seq<char>> {
    match r {
        Ok(o) => Ok(o@),
        Err(e) => Err(e@),
    }
}

/// An output built from its parts.
pub open spec fn output(ok: bool, stdout: Seq<char>, stderr: Seq<char>) -> OutputModel {
    OutputModel { ok, stdout, stderr }
}

fn make_output(ok: bool, stdout: &[char], stderr: &[char]) -> (r: GitOutput)
    ensures
        r@ == output(ok, stdout@, stderr@),
{
    GitOutput { ok, stdout: string_from_chars(stdout), stderr: string_from_chars(stderr) }
}

// ---------------------------------------------------------------------
// Messages
// ---------------------------------------------------------------------

/// The message of a failed command: its trimmed error text, else its
/// trimmed output, else the fallback.
pub open spec fn command_error(o: OutputModel, fallback: Seq<char>) -> Seq<char> {
    let m = if trim(o.stderr).len() == 0 {
        trim(o.stdout)
    } else {
        trim(o.stderr)
    };
    if m.len() == 0 {
        fallback
    } else {
        m
    }
}

/// The message of a failed command.
pub fn trim_command_error(output: &GitOutput, fallback: &str) -> (r: String)
    ensures
        r@ == command_error(output@, fallback@),
{
    let err = trimmed(&chars_of(output.stderr.as_str()));
    let m = if err.len() == 0 {
        trimmed(&chars_of(output.stdout.as_str()))
    } else {
        err
    };
    if m.len() == 0 {
        owned(fallback)
    } else {
        string_from_chars(&m)
    }
}

/// Success of a step, or the message of its failure.
pub fn require_success(output: &GitOutput, fallback: &str) -> (r: Result<(), String>)
    ensures
        r is Ok <==> output.ok,
        r matches Err(e) ==> e@ == command_error(output@, fallback@),
{
    if output.ok {
        Ok(())
    } else {
        Err(trim_command_error(output, fallback))
    }
}

// ---------------------------------------------------------------------
// Reading command outputs
// ---------------------------------------------------------------------

/// The configured user name: the trimmed output of a successful `git config
/// user.name`, when not empty.
pub open spec fn user_name_spec(r: Result<OutputModel, Seq<char>>) -> Option<Seq<char>> {
    match r {
        Ok(o) => if o.ok && trim(o.stdout).len() > 0 {
            Some(trim(o.stdout))
        } else {
            None
        },
        Err(_) => None,
    }
}

/// The configured user name, from the result of `git config user.name`.
pub fn git_user_name(output: &Result<GitOutput, String>) -> (r: Option<String>)
    ensures
        r matches Some(n) ==> user_name_spec(result_view(*output)) == Some(n@),
        r is None ==> user_name_spec(result_view(*output)) is None,
{
    match output {
        Ok(o) => {
            if !o.ok {
                return None;
            }
            let name = trimmed(&chars_of(o.stdout.as_str()));
            if name.len() == 0 {
                None
            } else {
                Some(string_from_chars(&name))
            }
        },
        Err(_) => None,
    }
}

/// Whether the repository has a commit, from the result of `git rev-parse
/// --verify HEAD`: the command's success; its failure to run is passed on.
pub fn repo_has_commits(output: Result<GitOutput, String>) -> (r: Result<bool, String>)
    ensures
        match (output, r) {
            (Ok(o), Ok(b)) => b == o.ok,
            (Err(e), Err(f)) => e@ == f@,
            _ => false,
        },
{
    match output {
        Ok(o) => Ok(o.ok),
        Err(e) => Err(e),
    }
}

/// The top-level directory of the repository around a path: the trimmed
/// output of a successful `git rev-parse --show-toplevel`, when not empty.
pub open spec fn toplevel_spec(o: Option<OutputModel>) -> Option<Seq<char>> {
    match o {
        Some(o) => if o.ok && trim(o.stdout).len() > 0 {
            Some(trim(o.stdout))
        } else {
            None
        },
        None => None,
    }
}

/// The view of an optional output.
pub open spec fn opt_output(o: Option<GitOutput>) -> Option<OutputModel> {
    match o {
        Some(o) => Some(o@),
        None => None,
    }
}

/// The top-level directory of the repository around a path, from the
/// output of `git rev-parse --show-toplevel` (none when it could not run).
pub fn existing_repo_root(output: &Option<GitOutput>) -> (r: Option<String>)
    ensures
        r matches Some(n) ==> toplevel_spec(opt_output(*output)) == Some(n@),
        r is None ==> toplevel_spec(opt_output(*output)) is None,
{
    match output {
        Some(o) => {
            if !o.ok {
                return None;
            }
            let root = trimmed(&chars_of(o.stdout.as_str()));
            if root.len() == 0 {
                None
            } else {
                Some(string_from_chars(&root))
            }
        },
        None => None,
    }
}

/// The version a tool reports: the trimmed output of a successful
/// `--version` run.
pub open spec fn version_spec(o: Option<OutputModel>) -> Option<Seq<char>> {
    match o {
        Some(o) => if o.ok {
            Some(trim(o.stdout))
        } else {
            None
        },
        None => None,
    }
}

/// The version a tool reports, from the output of its version command
/// (none when it could not run).
pub fn command_version(output: &Option<GitOutput>) -> (r: Option<String>)
    ensures
        r matches Some(n) ==> version_spec(opt_output(*output)) == Some(n@),
        r is None ==> version_spec(opt_output(*output)) is None,
{
    match output {
        Some(o) => {
            if o.ok {
                let v = trimmed(&chars_of(o.stdout.as_str()));
                Some(string_from_chars(&v))
            } else {
                None
            }
        },
        None => None,
    }
}

/// The program to run: the configured path, else the fallback name.
pub fn command_exe(path: &Option<String>, fallback: &str) -> (r: String)
    ensures
        r@ == match path {
            Some(p) => p@,
            None => fallback@,
        },
{
    match path {
        Some(p) => p.clone(),
        None => owned(fallback),
    }
}

/// Whether one of the lines, trimmed, is `origin`.
pub open spec fn has_origin_line(ls: Seq<Seq<char>>) -> bool {
    exists|k: int| 0 <= k < ls.len() && trim(#[trigger] ls[k]) == "origin"@
}

/// Whether `git remote` listed a remote named `origin`.
pub open spec fn lists_origin_spec(r: Result<OutputModel, Seq<char>>) -> bool {
    match r {
        Ok(o) => o.ok && has_origin_line(lines(o.stdout)),
        Err(_) => false,
    }
}

/// Whether `git remote` listed a remote named `origin`.
pub fn lists_origin_remote(remotes: &Result<GitOutput, String>) -> (r: bool)
    ensures
        r == lists_origin_spec(result_view(*remotes)),
{
    match remotes {
        Ok(o) => {
            if !o.ok {
                return false;
            }
            let ls = split_lines(&chars_of(o.stdout.as_str()));
            let ghost lv = views(ls@);
            let mut i: usize = 0;
            while i < ls.len()
                invariant
                    i <= ls@.len(),
                    lv == views(ls@),
                    lv == lines(o.stdout@),
                    o.ok,
                    *remotes == Ok::<GitOutput, String>(*o),
                    forall|k: int| 0 <= k < i ==> trim(#[trigger] lv[k]) != "origin"@,
                decreases ls@.len() - i,
            {
                let t = trimmed(&ls[i]);
                if is_literal_chars(&t, "origin") {
                    assert(trim(lv[i as int]) == "origin"@);
                    assert(has_origin_line(lv));
                    return true;
                }
                i += 1;
            }
            false
        },
        Err(_) => false,
    }
}

/// The visibility shown for the repository: none without an `origin`
/// remote or when GitHub CLI could not run; `remote` when it failed or
/// printed nothing; else what it printed, trimmed and lower-cased.
pub open spec fn visibility_spec(
    remotes: Result<OutputModel, Seq<char>>,
    gh: Option<OutputModel>,
) -> Option<Seq<char>> {
    if !lists_origin_spec(remotes) {
        None
    } else {
        match gh {
            None => None,
            Some(g) => if !g.ok || to_ascii_lower(trim(g.stdout)).len() == 0 {
                Some("remote"@)
            } else {
                Some(to_ascii_lower(trim(g.stdout)))
            },
        }
    }
}

/// The visibility shown for the repository, from the result of `git remote`
/// and, when it listed `origin`, the output of `gh repo view` (none when
/// GitHub CLI could not run).
pub fn detect_remote_visibility(remotes: &Result<GitOutput, String>, gh: &Option<GitOutput>) -> (r:
    Option<String>)
    ensures
        r matches Some(v) ==> visibility_spec(result_view(*remotes), opt_output(*gh)) == Some(v@),
        r is None ==> visibility_spec(result_view(*remotes), opt_output(*gh)) is None,
{
    if !lists_origin_remote(remotes) {
        return None;
    }
    match gh {
        None => None,
        Some(g) => {
            if !g.ok {
                return Some(owned("remote"));
            }
            let v = lower(&trimmed(&chars_of(g.stdout.as_str())));
            if v.len() == 0 {
                Some(owned("remote"))
            } else {
                Some(string_from_chars(&v))
            }
        },
    }
}

// ---------------------------------------------------------------------
// Multi-command sequences
// ---------------------------------------------------------------------

/// The outcome of committing a lock change: staging, committing, and a push
/// that is run only after a successful commit (a push that could not run
/// counts as failed with a fixed message; no push counts as succeeded).
pub open spec fn lock_change_spec(
    add: OutputModel,
    commit: OutputModel,
    push: Option<Result<OutputModel, Seq<char>>>,
) -> OutputModel {
    let p = if commit.ok {
        match push {
            Some(Ok(o)) => o,
            _ => output(false, seq![], "Push failed or no upstream is configured"@),
        }
    } else {
        output(true, seq![], seq![])
    };
    output(
        add.ok && commit.ok && p.ok,
        add.stdout + commit.stdout + p.stdout,
        add.stderr + commit.stderr + p.stderr,
    )
}

/// The view of an optional command result.
pub open spec fn opt_result(r: Option<Result<GitOutput, String>>) -> Option<
    Result<OutputModel, Seq<char>>,
> {
    match r {
        Some(x) => Some(result_view(x)),
        None => None,
    }
}

/// The combined output of staging and committing the lock file, and of the
/// push that follows a successful commit (`push` is given exactly when the
/// commit succeeded).
pub fn commit_lock_change(
    add: &GitOutput,
    commit: &GitOutput,
    push: &Option<Result<GitOutput, String>>,
) -> (r: GitOutput)
    requires
        push is Some <==> commit.ok,
    ensures
        r@ == lock_change_spec(add@, commit@, opt_result(*push)),
{
    let p: GitOutput = if commit.ok {
        match push {
            Some(Ok(o)) => o.duplicate(),
            _ => GitOutput {
                ok: false,
                stdout: String::new(),
                stderr: owned("Push failed or no upstream is configured"),
            },
        }
    } else {
        GitOutput { ok: true, stdout: String::new(), stderr: String::new() }
    };
    let mut out: Vec<char> = Vec::new();
    append_str(&mut out, add.stdout.as_str());
    append_str(&mut out, commit.stdout.as_str());
    append_str(&mut out, p.stdout.as_str());
    let mut err: Vec<char> = Vec::new();
    append_str(&mut err, add.stderr.as_str());
    append_str(&mut err, commit.stderr.as_str());
    append_str(&mut err, p.stderr.as_str());
    make_output(add.ok && commit.ok && p.ok, &out, &err)
}

/// What to do next when committing a snapshot of the whole project.
pub enum SnapshotStep {
    /// Check whether anything was staged (`git diff --cached --quiet`).
    CheckStaged,
    /// Commit what was staged.
    Commit,
    /// Finished, with this outcome.
    Done(GitOutput),
}

/// The next step of committing a project snapshot, given the outputs of the
/// steps run so far: staging everything; then, when staging succeeded,
/// checking for staged changes; then, when there are some, committing.
pub open spec fn snapshot_step_spec(
    add: OutputModel,
    diff: Option<OutputModel>,
    commit: Option<OutputModel>,
) -> Option<OutputModel> {
    if !add.ok {
        Some(add)
    } else {
        match diff {
            None => None,
            Some(d) => if d.ok {
                Some(output(true, add.stdout, add.stderr))
            } else {
                match commit {
                    None => None,
                    Some(c) => Some(
                        output(c.ok, add.stdout + c.stdout, add.stderr + c.stderr),
                    ),
                }
            },
        }
    }
}

/// The next step of committing a project snapshot.
pub fn commit_project_snapshot_if_needed(
    add: &GitOutput,
    diff: &Option<GitOutput>,
    commit: &Option<GitOutput>,
) -> (r: SnapshotStep)
    ensures
        match r {
            SnapshotStep::Done(o) => snapshot_step_spec(add@, opt_output(*diff), opt_output(*commit))
                == Some(o@),
            SnapshotStep::CheckStaged => add.ok && diff is None,
            SnapshotStep::Commit => add.ok && (diff matches Some(d) && !d.ok) && commit is None,
        },
{
    if !add.ok {
        return SnapshotStep::Done(add.duplicate());
    }
    match diff {
        None => SnapshotStep::CheckStaged,
        Some(d) => {
            if d.ok {
                SnapshotStep::Done(
                    GitOutput { ok: true, stdout: add.stdout.clone(), stderr: add.stderr.clone() },
                )
            } else {
                match commit {
                    None => SnapshotStep::Commit,
                    Some(c) => {
                        let mut out: Vec<char> = Vec::new();
                        append_str(&mut out, add.stdout.as_str());
                        append_str(&mut out, c.stdout.as_str());
                        let mut err: Vec<char> = Vec::new();
                        append_str(&mut err, add.stderr.as_str());
                        append_str(&mut err, c.stderr.as_str());
                        SnapshotStep::Done(make_output(c.ok, &out, &err))
                    },
                }
            }
        },
    }
}

// ---------------------------------------------------------------------
// Raw (byte) outputs
// ---------------------------------------------------------------------

/// The first line of a Git LFS pointer file.
pub open spec fn lfs_pointer_header() -> Seq<u8> {
    vstd::utf8::encode_utf8("version https://git-lfs.github.com/spec/v1\n"@)
}

/// Whether a blob is a Git LFS pointer rather than the file itself.
pub open spec fn is_lfs_pointer_spec(blob: Seq<u8>) -> bool {
    let h = lfs_pointer_header();
    h.len() <= blob.len() && blob.take(h.len() as int) == h
}

/// Whether a blob is a Git LFS pointer rather than the file itself.
pub fn is_lfs_pointer(blob: &[u8]) -> (r: bool)
    ensures
        r == is_lfs_pointer_spec(blob@),
{
    let h: &[u8] = "version https://git-lfs.github.com/spec/v1\n".as_bytes();
    assert(h@ == lfs_pointer_header());
    if h.len() > blob.len() {
        return false;
    }
    let mut i: usize = 0;
    while i < h.len()
        invariant
            i <= h@.len() <= blob@.len(),
            h@ == lfs_pointer_header(),
            forall|j: int| 0 <= j < i ==> blob@[j] == h@[j],
        decreases h@.len() - i,
    {
        if blob[i] != h[i] {
            assert(blob@.take(h@.len() as int)[i as int] != h@[i as int]);
            return false;
        }
        i += 1;
    }
    assert(blob@.take(h@.len() as int) =~= h@);
    true
}

/// What to do with a blob read at a revision.
pub enum BlobStep {
    /// Finished: the file's bytes, or why they could not be read.
    Done(Result<Vec<u8>, String>),
    /// The blob is an LFS pointer: run Git with these arguments, feeding it
    /// the pointer, to get the file.
    Smudge { args: Vec<String>, input: Vec<u8> },
}

/// The arguments that read a file at a revision (`git show REV:PATH`).
pub fn blob_show_args(revision: &str, path: &str) -> (r: Vec<String>)
    ensures
        string_views(r@) == seq!["show"@, revision@ + ":"@ + path@],
{
    let mut spec: Vec<char> = Vec::new();
    append_str(&mut spec, revision);
    append_str(&mut spec, ":");
    append_str(&mut spec, path);
    let mut r: Vec<String> = Vec::new();
    r.push(owned("show"));
    r.push(string_from_chars(&spec));
    assert(string_views(r@) =~= seq!["show"@, revision@ + ":"@ + path@]);
    r
}

/// The next step of reading an FL project file at a revision, given what
/// `git show` gave: an LFS pointer is handed to `git lfs smudge -- PATH`;
/// anything else is the file.
pub fn git_blob_at_revision(path: &str, shown: Result<Vec<u8>, String>) -> (r: BlobStep)
    ensures
        match (shown, r) {
            (Err(e), BlobStep::Done(Err(f))) => e@ == f@,
            (Ok(b), BlobStep::Done(Ok(c))) => !is_lfs_pointer_spec(b@) && c@ == b@,
            (Ok(b), BlobStep::Smudge { args, input }) => is_lfs_pointer_spec(b@) && input@ == b@
                && string_views(args@) == seq!["lfs"@, "smudge"@, "--"@, path@],
            _ => false,
        },
{
    match shown {
        Err(e) => BlobStep::Done(Err(e)),
        Ok(b) => {
            if is_lfs_pointer(&b) {
                let items: [&str; 4] = ["lfs", "smudge", "--", path];
                let args = strs(&items);
                assert(string_views(args@) =~= seq!["lfs"@, "smudge"@, "--"@, path@]);
                BlobStep::Smudge { args, input: b }
            } else {
                BlobStep::Done(Ok(b))
            }
        },
    }
}

/// What `String::from_utf8_lossy` makes of bytes: their text, with each
/// invalid sequence replaced by U+FFFD.
pub uninterp spec fn lossy_text(bytes: Seq<u8>) -> Seq<char>;

/// Reads bytes as text with `String::from_utf8_lossy`. Trusted: its result
/// is `lossy_text` of the bytes, and for valid UTF-8 the text they encode;
/// how invalid sequences are replaced is not stated.
#[verifier::external_body]
fn utf8_lossy(bytes: &[u8]) -> (r: String)
    ensures
        r@ == lossy_text(bytes@),
        vstd::utf8::valid_utf8(bytes@) ==> r@ == vstd::utf8::decode_utf8(bytes@),
{
    String::from_utf8_lossy(bytes).to_string()
}

/// The outcome of a command that ran: whether it succeeded, and its output
/// and error bytes read as text.
pub fn run_command(ok: bool, stdout: &[u8], stderr: &[u8]) -> (r: GitOutput)
    ensures
        r@ == output(ok, lossy_text(stdout@), lossy_text(stderr@)),
{
    GitOutput { ok, stdout: utf8_lossy(stdout), stderr: utf8_lossy(stderr) }
}

/// The outcome of a Git command whose output is raw bytes: the record kept
/// for the log (its output summarized as a byte count, its error bytes read
/// as text), and the bytes, or the error text when it failed.
pub fn run_git_bytes(ok: bool, stdout: Vec<u8>, stderr: &[u8]) -> (r: (GitOutput, Result<
    Vec<u8>,
    String,
>))
    ensures
        r.0@ == output(ok, decimal(stdout@.len()) + " bytes"@, lossy_text(stderr@)),
        match r.1 {
            Ok(b) => ok && b@ == stdout@,
            Err(e) => !ok && e@ == lossy_text(stderr@),
        },
{
    let n = stdout.len() as u64;
    let mut summary = decimal_u64(n);
    append_str(&mut summary, " bytes");
    let err = utf8_lossy(stderr);
    let record = GitOutput { ok, stdout: string_from_chars(&summary), stderr: err.clone() };
    if ok {
        (record, Ok(stdout))
    } else {
        (record, Err(err))
    }
}

// ---------------------------------------------------------------------
// The Git action log
// ---------------------------------------------------------------------

/// The text of a boolean.
pub open spec fn bool_text(b: bool) -> Seq<char> {
    if b {
        "true"@
    } else {
        "false"@
    }
}

/// The printed part of an output in the log: nothing when blank, else a
/// labelled block of the text without trailing white space.
pub open spec fn log_block(label: Seq<char>, text: Seq<char>) -> Seq<char> {
    if trim(text).len() == 0 {
        seq![]
    } else {
        label + ":\n"@ + trim_end(text) + "\n"@
    }
}

/// The entry logged for a Git command: when and where it ran, its
/// arguments, and its outcome.
pub open spec fn log_entry(
    timestamp: nat,
    cwd: Seq<char>,
    args: Seq<Seq<char>>,
    out: Result<OutputModel, Seq<char>>,
) -> Seq<char> {
    "time="@ + decimal(timestamp) + " cwd="@ + cwd + " cmd=git "@ + join_with(args, " "@) + "\n"@
        + match out {
        Ok(o) => "ok="@ + bool_text(o.ok) + "\n"@ + log_block("stdout"@, o.stdout) + log_block(
            "stderr"@,
            o.stderr,
        ),
        Err(e) => "error="@ + e + "\n"@,
    } + "---\n"@
}

fn append_block(out: &mut Vec<char>, label: &str, text: &str)
    ensures
        final(out)@ == old(out)@ + log_block(label@, text@),
{
    if !is_blank(text) {
        append_str(out, label);
        append_str(out, ":\n");
        let t = trimmed_end(&chars_of(text));
        append(out, &t);
        append_str(out, "\n");
    } else {
        assert(old(out)@ + log_block(label@, text@) =~= old(out)@);
    }
}

/// The entry logged for a Git command run at `timestamp` in `cwd` with
/// `args`.
pub fn log_git_action(
    timestamp: u64,
    cwd: &str,
    args: &Vec<String>,
    output: &Result<GitOutput, String>,
) -> (r: String)
    ensures
        r@ == log_entry(timestamp as nat, cwd@, string_views(args@), result_view(*output)),
{
    let mut out: Vec<char> = Vec::new();
    append_str(&mut out, "time=");
    let ts = decimal_u64(timestamp);
    append(&mut out, &ts);
    append_str(&mut out, " cwd=");
    append_str(&mut out, cwd);
    append_str(&mut out, " cmd=git ");
    let words = chars_of_all(args);
    let joined = join(&words, &chars_of(" "));
    append(&mut out, &joined);
    append_str(&mut out, "\n");
    let ghost head = out@;
    match output {
        Ok(o) => {
            append_str(&mut out, "ok=");
            if o.ok {
                append_str(&mut out, "true");
            } else {
                append_str(&mut out, "false");
            }
            append_str(&mut out, "\n");
            append_block(&mut out, "stdout", o.stdout.as_str());
            append_block(&mut out, "stderr", o.stderr.as_str());
        },
        Err(e) => {
            append_str(&mut out, "error=");
            append_str(&mut out, e.as_str());
            append_str(&mut out, "\n");
        },
    }
    append_str(&mut out, "---\n");
    assert(out@ =~= log_entry(timestamp as nat, cwd@, string_views(args@), result_view(*output)));
    string_from_chars(&out)
}

} // verus!
