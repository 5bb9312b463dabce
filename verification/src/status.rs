//! Reading `git status --porcelain=v1 -b` output (newline- or NUL-separated)
//! into a repository status: the branch line with its upstream and
//! ahead/behind counts, and one change per path with its category.
use vstd::prelude::*;
use vstd::utf8::{decode_utf8, encode_utf8, is_char_boundary, encode_utf8_decode_utf8};
use crate::text::{
    chars_of, copy_range, find, find_char, find_first, first_occurrence, has_char, contains_char,
    is_literal_chars, lines, owned, parse_u32, parse_u32_spec, split_at_char, split_char,
    split_lines, starts_with, string_from_chars, has_prefix, trim, trimmed, views, lemma_find_char,
};
use crate::paths::{extension, lower_extension};
use crate::text::to_ascii_lower;

verus! {

broadcast use vstd::seq_lib::group_seq_properties;

/// The kind of project file that a change touches.
#[derive(Clone, Copy, Debug, PartialEq, Eq, Structural)]
pub enum ChangeCategory {
    Flp,
    Samples,
    Exports,
    Metadata,
    Other,
}

/// One changed path of the working tree or index.
#[derive(Clone, Debug)]
pub struct FileChange {
    pub path: String,
    pub original_path: Option<String>,
    pub status: String,
    pub staged: bool,
    pub unstaged: bool,
    pub conflicted: bool,
    pub category: ChangeCategory,
}

/// The state of a repository as the status view shows it.
#[derive(Clone, Debug)]
pub struct RepoStatus {
    pub repo_root: String,
    pub branch: Option<String>,
    pub upstream: Option<String>,
    pub remote_visibility: Option<String>,
    pub ahead: u32,
    pub behind: u32,
    pub has_remote: bool,
    pub is_repo: bool,
    pub merge_in_progress: bool,
    pub rebase_in_progress: bool,
    pub changes: Vec<FileChange>,
}

/// The model of a `FileChange`.
pub struct ChangeModel {
    pub path: Seq<char>,
    pub original_path: Option<Seq<char>>,
    pub status: Seq<char>,
    pub staged: bool,
    pub unstaged: bool,
    pub conflicted: bool,
    pub category: ChangeCategory,
}

/// The model of a `RepoStatus`.
pub struct StatusModel {
    pub repo_root: Seq<char>,
    pub branch: Option<Seq<char>>,
    pub upstream: Option<Seq<char>>,
    pub remote_visibility: Option<Seq<char>>,
    pub ahead: u32,
    pub behind: u32,
    pub has_remote: bool,
    pub is_repo: bool,
    pub merge_in_progress: bool,
    pub rebase_in_progress: bool,
    pub changes: Seq<ChangeModel>,
}

/// The view of an optional string.
pub open spec fn opt_view(o: Option<String>) -> Option<Seq<char>> {
    match o {
        Some(s) => Some(s@),
        None => None,
    }
}

impl View for FileChange {
    type V = ChangeModel;

    open spec fn view(&self) -> ChangeModel {
        ChangeModel {
            path: self.path@,
            original_path: opt_view(self.original_path),
            status: self.status@,
            staged: self.staged,
            unstaged: self.unstaged,
            conflicted: self.conflicted,
            category: self.category,
        }
    }
}

impl View for RepoStatus {
    type V = StatusModel;

    open spec fn view(&self) -> StatusModel {
        StatusModel {
            repo_root: self.repo_root@,
            branch: opt_view(self.branch),
            upstream: opt_view(self.upstream),
            remote_visibility: opt_view(self.remote_visibility),
            ahead: self.ahead,
            behind: self.behind,
            has_remote: self.has_remote,
            is_repo: self.is_repo,
            merge_in_progress: self.merge_in_progress,
            rebase_in_progress: self.rebase_in_progress,
            changes: self.changes@.map_values(|c: FileChange| c@),
        }
    }
}

// ---------------------------------------------------------------------
// Paths as Git quotes them
// ---------------------------------------------------------------------

/// The character that a backslash escape stands for.
pub open spec fn escaped(c: char) -> char {
    if c == 'n' {
        '\n'
    } else if c == 't' {
        '\t'
    } else {
        c
    }
}

/// The text of a quoted path with its backslash escapes resolved; a lone
/// backslash at the end stands for itself.
pub open spec fn unescape(s: Seq<char>) -> Seq<char>
    decreases s.len(),
{
    if s.len() == 0 {
        seq![]
    } else if s[0] != '\\' {
        seq![s[0]] + unescape(s.drop_first())
    } else if s.len() == 1 {
        seq!['\\']
    } else {
        seq![escaped(s[1])] + unescape(s.skip(2))
    }
}

/// A path as Git printed it, decoded: trimmed, and when it is wrapped in
/// double quotes, unwrapped and unescaped.
pub open spec fn decoded_path(p: Seq<char>) -> Seq<char> {
    let t = trim(p);
    if t.len() >= 2 && t[0] == '"' && t.last() == '"' {
        unescape(t.subrange(1, t.len() - 1))
    } else {
        t
    }
}

proof fn lemma_unescape_plain(s: Seq<char>, i: int)
    requires
        0 <= i < s.len(),
        s[i] != '\\',
    ensures
        unescape(s.skip(i)) == seq![s[i]] + unescape(s.skip(i + 1)),
{
    assert(s.skip(i).drop_first() =~= s.skip(i + 1));
}

proof fn lemma_unescape_pair(s: Seq<char>, i: int)
    requires
        0 <= i,
        i + 1 < s.len(),
        s[i] == '\\',
    ensures
        unescape(s.skip(i)) == seq![escaped(s[i + 1])] + unescape(s.skip(i + 2)),
{
    assert(s.skip(i).skip(2) =~= s.skip(i + 2));
}

/// Resolves the backslash escapes of a quoted path.
fn unescape_chars(s: &[char]) -> (r: Vec<char>)
    ensures
        r@ == unescape(s@),
{
    let mut out: Vec<char> = Vec::new();
    let mut i: usize = 0;
    let n = s.len();
    assert(s@.skip(0) =~= s@);
    while i < n
        invariant
            i <= n,
            n == s@.len(),
            unescape(s@) == out@ + unescape(s@.skip(i as int)),
        decreases n - i,
    {
        if s[i] != '\\' {
            proof {
                lemma_unescape_plain(s@, i as int);
            }
            out.push(s[i]);
            i += 1;
        } else if i + 1 == n {
            assert(s@.skip(i as int) =~= seq!['\\']);
            out.push('\\');
            i += 1;
            assert(s@.skip(i as int) =~= Seq::<char>::empty());
        } else {
            proof {
                lemma_unescape_pair(s@, i as int);
            }
            let c = s[i + 1];
            let e = if c == 'n' {
                '\n'
            } else if c == 't' {
                '\t'
            } else {
                c
            };
            out.push(e);
            i += 2;
        }
    }
    assert(s@.skip(n as int) =~= Seq::<char>::empty());
    out
}

/// Decodes a path as Git printed it.
fn decode_chars(p: &[char]) -> (r: Vec<char>)
    ensures
        r@ == decoded_path(p@),
{
    let t = trimmed(p);
    let n = t.len();
    if n >= 2 && t[0] == '"' && t[n - 1] == '"' {
        let inner = copy_range(&t, 1, n - 1);
        unescape_chars(&inner)
    } else {
        t
    }
}

/// Decodes a path as Git printed it: trimmed, and when quoted, unquoted
/// with its escapes resolved.
pub fn decode_git_path(path: &str) -> (r: String)
    ensures
        r@ == decoded_path(path@),
{
    let cs = chars_of(path);
    let d = decode_chars(&cs);
    string_from_chars(&d)
}

// ---------------------------------------------------------------------
// Categories
// ---------------------------------------------------------------------

/// The category of a lower-cased extension.
pub open spec fn category_of(ext: Seq<char>) -> ChangeCategory {
    if ext == "flp"@ {
        ChangeCategory::Flp
    } else if ext == "wav"@ || ext == "mp3"@ || ext == "ogg"@ || ext == "aiff"@ || ext == "aif"@
        || ext == "flac"@ || ext == "mid"@ || ext == "midi"@ {
        ChangeCategory::Samples
    } else if ext == "zip"@ || ext == "rar"@ || ext == "7z"@ || ext == "mp4"@ || ext == "mov"@ {
        ChangeCategory::Exports
    } else if ext == "json"@ || ext == "md"@ || ext == "txt"@ || ext == "gitattributes"@ || ext
        == "gitignore"@ {
        ChangeCategory::Metadata
    } else {
        ChangeCategory::Other
    }
}

/// The category of a path as Git printed it: by the lower-cased extension
/// of the decoded path.
pub open spec fn category_spec(path: Seq<char>) -> ChangeCategory {
    category_of(
        match extension(decoded_path(path)) {
            Some(e) => to_ascii_lower(e),
            None => Seq::<char>::empty(),
        },
    )
}

fn category_of_ext(ext: &[char]) -> (r: ChangeCategory)
    ensures
        r == category_of(ext@),
{
    if is_literal_chars(ext, "flp") {
        ChangeCategory::Flp
    } else if is_literal_chars(ext, "wav") || is_literal_chars(ext, "mp3") || is_literal_chars(
        ext,
        "ogg",
    ) || is_literal_chars(ext, "aiff") || is_literal_chars(ext, "aif") || is_literal_chars(
        ext,
        "flac",
    ) || is_literal_chars(ext, "mid") || is_literal_chars(ext, "midi") {
        ChangeCategory::Samples
    } else if is_literal_chars(ext, "zip") || is_literal_chars(ext, "rar") || is_literal_chars(
        ext,
        "7z",
    ) || is_literal_chars(ext, "mp4") || is_literal_chars(ext, "mov") {
        ChangeCategory::Exports
    } else if is_literal_chars(ext, "json") || is_literal_chars(ext, "md") || is_literal_chars(
        ext,
        "txt",
    ) || is_literal_chars(ext, "gitattributes") || is_literal_chars(ext, "gitignore") {
        ChangeCategory::Metadata
    } else {
        ChangeCategory::Other
    }
}

fn category_chars(path: &[char]) -> (r: ChangeCategory)
    ensures
        r == category_spec(path@),
{
    let d = decode_chars(path);
    let e = lower_extension(&d);
    category_of_ext(&e)
}

/// The kind of project file a path (as Git printed it) names.
pub fn categorize_path(path: &str) -> (r: ChangeCategory)
    ensures
        r == category_spec(path@),
{
    let cs = chars_of(path);
    category_chars(&cs)
}

// ---------------------------------------------------------------------
// Entries of the status output
// ---------------------------------------------------------------------

/// The UTF-8 bytes of an entry.
pub open spec fn bytes_of(e: Seq<char>) -> Seq<u8> {
    encode_utf8(e)
}

/// A change entry can be cut after its two status bytes and the space:
/// either it is shorter than four bytes, or byte 3 starts a character.
pub open spec fn change_entry_ok(e: Seq<char>) -> bool {
    bytes_of(e).len() >= 4 ==> is_char_boundary(bytes_of(e), 3)
}

/// The status byte at `i`, read as a character.
pub open spec fn code_char(e: Seq<char>, i: int) -> char {
    bytes_of(e)[i] as char
}

/// What follows the status code and the space.
pub open spec fn after_code(e: Seq<char>) -> Seq<char> {
    decode_utf8(bytes_of(e).subrange(3, bytes_of(e).len() as int))
}

/// Whether a status code marks an unmerged path.
pub open spec fn is_conflict_code(x: char, y: char) -> bool {
    ||| x == 'D' && y == 'D'
    ||| x == 'A' && y == 'U'
    ||| x == 'U' && y == 'D'
    ||| x == 'U' && y == 'A'
    ||| x == 'D' && y == 'U'
    ||| x == 'A' && y == 'A'
    ||| x == 'U' && y == 'U'
}

/// The change that a status code and paths describe.
pub open spec fn change_model(
    x: char,
    y: char,
    path: Seq<char>,
    original: Option<Seq<char>>,
) -> ChangeModel {
    ChangeModel {
        path: path,
        original_path: original,
        status: seq![x, y],
        staged: x != ' ' && x != '?',
        unstaged: y != ' ' || x == '?',
        conflicted: is_conflict_code(x, y),
        category: category_spec(path),
    }
}

/// The status with one more change.
pub open spec fn with_change(m: StatusModel, c: ChangeModel) -> StatusModel {
    StatusModel { changes: m.changes.push(c), ..m }
}

/// The ahead and behind counts after reading the comma-separated parts of
/// a `[ahead N, behind M]` block in order; an unreadable count reads as 0.
pub open spec fn apply_counts(m: StatusModel, parts: Seq<Seq<char>>) -> StatusModel
    decreases parts.len(),
{
    if parts.len() == 0 {
        m
    } else {
        let m0 = apply_counts(m, parts.drop_last());
        let p = trim(parts.last());
        let m1 = if starts_with(p, "ahead "@) {
            StatusModel {
                ahead: match parse_u32_spec(p.skip(6)) {
                    Some(v) => v,
                    None => 0,
                },
                ..m0
            }
        } else {
            m0
        };
        if starts_with(p, "behind "@) {
            StatusModel {
                behind: match parse_u32_spec(p.skip(7)) {
                    Some(v) => v,
                    None => 0,
                },
                ..m1
            }
        } else {
            m1
        }
    }
}

/// The tracking part of a branch line: what follows `...`.
pub open spec fn branch_meta(line: Seq<char>) -> Option<Seq<char>> {
    let k = first_occurrence(line, "..."@);
    if k >= 0 {
        Some(line.skip(k + 3))
    } else {
        None
    }
}

/// A branch line whose bracket block, when it has one, opens before it
/// closes (the first `]` after the first `[`).
pub open spec fn branch_line_ok(line: Seq<char>) -> bool {
    match branch_meta(line) {
        Some(meta) => find_char(meta, '[') >= 0 && find_char(meta, ']') >= 0 ==> find_char(
            meta,
            '[',
        ) < find_char(meta, ']'),
        None => true,
    }
}

/// The status after reading a branch line (without its `## `): the branch
/// name up to `...`; then the upstream up to the first space, and the
/// ahead/behind counts of the bracket block.
pub open spec fn apply_branch(m: StatusModel, line: Seq<char>) -> StatusModel {
    let k = first_occurrence(line, "..."@);
    let branch = if k >= 0 {
        line.take(k)
    } else {
        line
    };
    let m1 = StatusModel { branch: Some(branch), ..m };
    match branch_meta(line) {
        None => m1,
        Some(meta) => {
            let up = split_char(meta, ' ')[0];
            let m2 = StatusModel { upstream: Some(up), has_remote: up.len() > 0, ..m1 };
            let a = find_char(meta, '[');
            let b = find_char(meta, ']');
            if a >= 0 && b >= 0 {
                apply_counts(m2, split_char(meta.subrange(a + 1, b), ','))
            } else {
                m2
            }
        },
    }
}

/// A line of newline-separated output can be read without fault.
pub open spec fn line_ok(l: Seq<char>) -> bool {
    if starts_with(l, "## "@) {
        branch_line_ok(l.skip(3))
    } else {
        change_entry_ok(l)
    }
}

/// The status after reading one line of newline-separated output; a rename
/// names its source before ` -> `.
pub open spec fn apply_line(m: StatusModel, l: Seq<char>) -> StatusModel {
    if starts_with(l, "## "@) {
        apply_branch(m, l.skip(3))
    } else if bytes_of(l).len() < 4 {
        m
    } else {
        let raw = after_code(l);
        let k = first_occurrence(raw, " -> "@);
        let x = code_char(l, 0);
        let y = code_char(l, 1);
        if k >= 0 {
            with_change(
                m,
                change_model(x, y, decoded_path(raw.skip(k + 4)), Some(decoded_path(raw.take(k)))),
            )
        } else {
            with_change(m, change_model(x, y, decoded_path(raw), None))
        }
    }
}

/// The status after reading lines in order.
pub open spec fn apply_lines(m: StatusModel, ls: Seq<Seq<char>>) -> StatusModel
    decreases ls.len(),
{
    if ls.len() == 0 {
        m
    } else {
        apply_lines(apply_line(m, ls[0]), ls.drop_first())
    }
}

/// The non-empty NUL-separated entries of `-z` output.
pub open spec fn z_entries(text: Seq<char>) -> Seq<Seq<char>> {
    split_char(text, '\0').filter(|e: Seq<char>| e.len() > 0)
}

/// The entries of `-z` output can be read without fault; the entry after a
/// rename or copy is its source path and is not read as an entry.
pub open spec fn z_entries_ok(es: Seq<Seq<char>>) -> bool
    decreases es.len(),
{
    if es.len() == 0 {
        true
    } else {
        let e = es[0];
        if starts_with(e, "## "@) {
            branch_line_ok(e.skip(3)) && z_entries_ok(es.drop_first())
        } else if bytes_of(e).len() < 4 {
            z_entries_ok(es.drop_first())
        } else {
            let x = code_char(e, 0);
            change_entry_ok(e) && if (x == 'R' || x == 'C') && es.len() > 1 {
                z_entries_ok(es.skip(2))
            } else {
                z_entries_ok(es.drop_first())
            }
        }
    }
}

/// The status after reading `-z` entries in order: a rename or copy names
/// its new path first and takes the next entry as the path it came from.
pub open spec fn apply_z(m: StatusModel, es: Seq<Seq<char>>) -> StatusModel
    decreases es.len(),
{
    if es.len() == 0 {
        m
    } else {
        let e = es[0];
        if starts_with(e, "## "@) {
            apply_z(apply_branch(m, e.skip(3)), es.drop_first())
        } else if bytes_of(e).len() < 4 {
            apply_z(m, es.drop_first())
        } else {
            let x = code_char(e, 0);
            let y = code_char(e, 1);
            let p = decoded_path(after_code(e));
            if (x == 'R' || x == 'C') && es.len() > 1 {
                apply_z(with_change(m, change_model(x, y, p, Some(decoded_path(es[1])))), es.skip(2))
            } else {
                apply_z(with_change(m, change_model(x, y, p, None)), es.drop_first())
            }
        }
    }
}

/// Status output that can be read without fault.
pub open spec fn status_text_ok(text: Seq<char>) -> bool {
    if has_char(text, '\0') {
        z_entries_ok(z_entries(text))
    } else {
        forall|k: int| 0 <= k < lines(text).len() ==> line_ok(#[trigger] lines(text)[k])
    }
}

/// The status of a repository before its status output is read.
pub open spec fn fresh_status(root: Seq<char>) -> StatusModel {
    StatusModel {
        repo_root: root,
        branch: None,
        upstream: None,
        remote_visibility: None,
        ahead: 0,
        behind: 0,
        has_remote: false,
        is_repo: true,
        merge_in_progress: false,
        rebase_in_progress: false,
        changes: seq![],
    }
}

/// The status that status output describes: NUL-separated when it holds a
/// NUL, else line by line.
pub open spec fn status_of(root: Seq<char>, text: Seq<char>) -> StatusModel {
    if has_char(text, '\0') {
        apply_z(fresh_status(root), z_entries(text))
    } else {
        apply_lines(fresh_status(root), lines(text))
    }
}

// ---------------------------------------------------------------------
// Executable reading
// ---------------------------------------------------------------------

/// The status code bytes of an entry and the text after them, unless the
/// entry is shorter than four bytes.
fn split_code(e: &[char]) -> (r: Option<(char, char, Vec<char>)>)
    requires
        change_entry_ok(e@),
    ensures
        r is None <==> bytes_of(e@).len() < 4,
        r matches Some((x, y, rest)) ==> x == code_char(e@, 0) && y == code_char(e@, 1) && rest@
            == after_code(e@),
{
    let st = string_from_chars(e);
    let s = st.as_str();
    let b = s.as_bytes();
    assert(b@ == bytes_of(e@));
    if b.len() < 4 {
        return None;
    }
    let x = b[0] as char;
    let y = b[1] as char;
    let (_, tail) = s.split_at(3);
    let rest = chars_of(tail);
    proof {
        encode_utf8_decode_utf8(tail@);
    }
    Some((x, y, rest))
}

/// Whether a status code marks an unmerged path.
fn conflict_code(x: char, y: char) -> (r: bool)
    ensures
        r == is_conflict_code(x, y),
{
    (x == 'D' && y == 'D') || (x == 'A' && y == 'U') || (x == 'U' && y == 'D') || (x == 'U' && y
        == 'A') || (x == 'D' && y == 'U') || (x == 'A' && y == 'A') || (x == 'U' && y == 'U')
}

/// The change that a status code and paths describe.
fn make_change(x: char, y: char, path: Vec<char>, original: Option<Vec<char>>) -> (c: FileChange)
    ensures
        c@ == change_model(
            x,
            y,
            path@,
            match original {
                Some(o) => Some(o@),
                None => None,
            },
        ),
{
    let category = category_chars(&path);
    let mut code: Vec<char> = Vec::new();
    code.push(x);
    code.push(y);
    assert(code@ =~= seq![x, y]);
    let original_path = match original {
        Some(o) => Some(string_from_chars(&o)),
        None => None,
    };
    FileChange {
        path: string_from_chars(&path),
        original_path,
        status: string_from_chars(&code),
        staged: x != ' ' && x != '?',
        unstaged: y != ' ' || x == '?',
        conflicted: conflict_code(x, y),
        category,
    }
}

proof fn lemma_changes_push(m: Seq<FileChange>, c: FileChange)
    ensures
        m.push(c).map_values(|f: FileChange| f@) == m.map_values(|f: FileChange| f@).push(c@),
{
    assert(m.push(c).map_values(|f: FileChange| f@) =~= m.map_values(|f: FileChange| f@).push(
        c@,
    ));
}

/// Adds a change to a status.
fn push_change(result: &mut RepoStatus, c: FileChange)
    ensures
        final(result)@ == with_change(old(result)@, c@),
{
    proof {
        lemma_changes_push(result.changes@, c);
    }
    result.changes.push(c);
}

proof fn lemma_counts_step(m: StatusModel, parts: Seq<Seq<char>>, i: int)
    requires
        0 <= i < parts.len(),
    ensures
        parts.take(i + 1).drop_last() == parts.take(i),
        parts.take(i + 1).last() == parts[i],
{
    assert(parts.take(i + 1).drop_last() =~= parts.take(i));
}

/// Reads one comma-separated part of a bracket block.
fn apply_count_part(result: &mut RepoStatus, part: &[char])
    ensures
        ({
            let p = trim(part@);
            let m0 = old(result)@;
            let m1 = if starts_with(p, "ahead "@) {
                StatusModel {
                    ahead: match parse_u32_spec(p.skip(6)) {
                        Some(v) => v,
                        None => 0,
                    },
                    ..m0
                }
            } else {
                m0
            };
            final(result)@ == if starts_with(p, "behind "@) {
                StatusModel {
                    behind: match parse_u32_spec(p.skip(7)) {
                        Some(v) => v,
                        None => 0,
                    },
                    ..m1
                }
            } else {
                m1
            }
        }),
{
    let p = trimmed(part);
    let ahead = chars_of("ahead ");
    let behind = chars_of("behind ");
    proof {
        reveal_strlit("ahead ");
        reveal_strlit("behind ");
    }
    if has_prefix(&p, &ahead) {
        let v = copy_range(&p, 6, p.len());
        result.ahead = match parse_u32(&v) {
            Some(n) => n,
            None => 0,
        };
    }
    if has_prefix(&p, &behind) {
        let v = copy_range(&p, 7, p.len());
        result.behind = match parse_u32(&v) {
            Some(n) => n,
            None => 0,
        };
    }
}

/// Reads a branch line (the text after `## `) into the status.
pub fn parse_branch_line(line: &str, result: &mut RepoStatus)
    requires
        branch_line_ok(line@),
    ensures
        final(result)@ == apply_branch(old(result)@, line@),
{
    let cs = chars_of(line);
    apply_branch_chars(&cs, result);
}

#[verifier::spinoff_prover]
fn apply_branch_chars(line: &[char], result: &mut RepoStatus)
    requires
        branch_line_ok(line@),
    ensures
        final(result)@ == apply_branch(old(result)@, line@),
{
    let n = line.len();
    let dots = chars_of("...");
    proof {
        reveal_strlit("...");
    }
    assert(dots@.len() == 3);
    let found = find_first(line, &dots);
    match found {
        None => {
            result.branch = Some(string_from_chars(line));
        },
        Some(k) => {
            let branch = copy_range(line, 0, k);
            result.branch = Some(string_from_chars(&branch));
            let meta = copy_range(line, k + 3, n);
            assert(meta@ =~= line@.skip(k + 3));
            proof {
                lemma_find_char(meta@, ' ');
                lemma_find_char(meta@, '[');
                lemma_find_char(meta@, ']');
                assert(meta@.take(meta@.len() as int) =~= meta@);
            }
            let up = match find(&meta, ' ') {
                Some(i) => copy_range(&meta, 0, i),
                None => copy_range(&meta, 0, meta.len()),
            };
            assert(up@ == split_char(meta@, ' ')[0]);
            let has = up.len() > 0;
            result.upstream = Some(string_from_chars(&up));
            result.has_remote = has;
            let a = find(&meta, '[');
            let b = find(&meta, ']');
            if let (Some(a), Some(b)) = (a, b) {
                let inner = copy_range(&meta, a + 1, b);
                let parts = split_at_char(&inner, ',');
                let ghost ps = views(parts@);
                let ghost m2 = result@;
                let mut i: usize = 0;
                assert(ps.take(0) =~= Seq::<Seq<char>>::empty());
                while i < parts.len()
                    invariant
                        i <= parts@.len(),
                        ps == views(parts@),
                        result@ == apply_counts(m2, ps.take(i as int)),
                    decreases parts@.len() - i,
                {
                    proof {
                        lemma_counts_step(m2, ps, i as int);
                    }
                    apply_count_part(result, &parts[i]);
                    i += 1;
                }
                assert(ps.take(ps.len() as int) =~= ps);
            }
        },
    }
}

/// Reads one line of newline-separated status output into the status.
fn apply_line_exec(l: &[char], result: &mut RepoStatus)
    requires
        line_ok(l@),
    ensures
        final(result)@ == apply_line(old(result)@, l@),
{
    let n = l.len();
    let head = chars_of("## ");
    let arrow = chars_of(" -> ");
    proof {
        reveal_strlit("## ");
        reveal_strlit(" -> ");
    }
    assert(head@.len() == 3);
    assert(arrow@.len() == 4);
    if has_prefix(l, &head) {
        let rest = copy_range(l, 3, n);
        assert(rest@ =~= l@.skip(3));
        apply_branch_chars(&rest, result);
    } else {
        match split_code(l) {
            None => {},
            Some((x, y, raw)) => {
                let rn = raw.len();
                match find_first(&raw, &arrow) {
                    Some(k) => {
                        let old_part = copy_range(&raw, 0, k);
                        let new_part = copy_range(&raw, k + 4, rn);
                        assert(new_part@ =~= raw@.skip(k + 4));
                        let c = make_change(
                            x,
                            y,
                            decode_chars(&new_part),
                            Some(decode_chars(&old_part)),
                        );
                        push_change(result, c);
                    },
                    None => {
                        let c = make_change(x, y, decode_chars(&raw), None);
                        push_change(result, c);
                    },
                }
            },
        }
    }
}

/// Reads newline-separated status output into the status.
fn apply_lines_exec(text: &[char], result: &mut RepoStatus)
    requires
        forall|k: int| 0 <= k < lines(text@).len() ==> line_ok(#[trigger] lines(text@)[k]),
    ensures
        final(result)@ == apply_lines(old(result)@, lines(text@)),
{
    let ls = split_lines(text);
    let ghost lv = views(ls@);
    let ghost m0 = result@;
    let mut i: usize = 0;
    assert(lv.skip(0) =~= lv);
    while i < ls.len()
        invariant
            i <= ls@.len(),
            lv == views(ls@),
            lv == lines(text@),
            forall|k: int| 0 <= k < lv.len() ==> line_ok(#[trigger] lv[k]),
            apply_lines(m0, lv) == apply_lines(result@, lv.skip(i as int)),
        decreases ls@.len() - i,
    {
        let l = &ls[i];
        assert(lv.skip(i as int)[0] == l@);
        assert(lv.skip(i as int).drop_first() =~= lv.skip(i + 1));
        assert(line_ok(lv[i as int]));
        apply_line_exec(l, result);
        i += 1;
    }
    assert(lv.skip(lv.len() as int) =~= Seq::<Seq<char>>::empty());
}

proof fn lemma_filter_step(s: Seq<Seq<char>>, i: int)
    requires
        0 <= i < s.len(),
    ensures
        s.take(i + 1).filter(|e: Seq<char>| e.len() > 0) == if s[i].len() > 0 {
            s.take(i).filter(|e: Seq<char>| e.len() > 0).push(s[i])
        } else {
            s.take(i).filter(|e: Seq<char>| e.len() > 0)
        },
{
    assert(s.take(i + 1) =~= s.take(i).push(s[i]));
    s.take(i).lemma_filter_push(s[i], |e: Seq<char>| e.len() > 0);
}

/// The non-empty NUL-separated entries of `-z` output.
fn z_entries_exec(text: &[char]) -> (r: Vec<Vec<char>>)
    ensures
        views(r@) == z_entries(text@),
{
    let pieces = split_at_char(text, '\0');
    let ghost pv = views(pieces@);
    let mut r: Vec<Vec<char>> = Vec::new();
    let mut i: usize = 0;
    assert(pv.take(0).filter(|e: Seq<char>| e.len() > 0) =~= Seq::<Seq<char>>::empty());
    while i < pieces.len()
        invariant
            i <= pieces@.len(),
            pv == views(pieces@),
            views(r@) == pv.take(i as int).filter(|e: Seq<char>| e.len() > 0),
        decreases pieces@.len() - i,
    {
        proof {
            lemma_filter_step(pv, i as int);
        }
        if pieces[i].len() > 0 {
            let e = copy_range(&pieces[i], 0, pieces[i].len());
            assert(e@ =~= pieces@[i as int]@);
            let ghost prev = r@;
            r.push(e);
            assert(views(r@) =~= views(prev).push(e@));
        }
        i += 1;
    }
    assert(pv.take(pv.len() as int) =~= pv);
    r
}

/// Reads the `-z` entry at `i` (and its source path after a rename or
/// copy), giving the index of the next entry.
fn apply_z_entry(es: &Vec<Vec<char>>, i: usize, result: &mut RepoStatus) -> (next: usize)
    requires
        i < es@.len(),
        z_entries_ok(views(es@).skip(i as int)),
    ensures
        i < next <= es@.len(),
        z_entries_ok(views(es@).skip(next as int)),
        apply_z(old(result)@, views(es@).skip(i as int)) == apply_z(
            final(result)@,
            views(es@).skip(next as int),
        ),
{
    let en = es.len();
    let ghost ev = views(es@);
    let ghost rest = ev.skip(i as int);
    let e = &es[i];
    let n = e.len();
    let head = chars_of("## ");
    proof {
        reveal_strlit("## ");
    }
    assert(head@.len() == 3);
    assert(rest[0] == e@);
    assert(rest.drop_first() =~= ev.skip(i + 1));
    if has_prefix(e, &head) {
        let tail = copy_range(e, 3, n);
        assert(tail@ =~= e@.skip(3));
        apply_branch_chars(&tail, result);
        i + 1
    } else {
        match split_code(e) {
            None => i + 1,
            Some((x, y, raw)) => {
                let p = decode_chars(&raw);
                if (x == 'R' || x == 'C') && i + 1 < en {
                    assert(rest[1] == es@[i + 1]@);
                    assert(rest.skip(2) =~= ev.skip(i + 2));
                    let source = decode_chars(&es[i + 1]);
                    let c = make_change(x, y, p, Some(source));
                    push_change(result, c);
                    i + 2
                } else {
                    let c = make_change(x, y, p, None);
                    push_change(result, c);
                    i + 1
                }
            },
        }
    }
}

/// Reads NUL-separated (`-z`) status output into the status.
pub fn parse_status_z(status_text: &str, result: &mut RepoStatus)
    requires
        z_entries_ok(z_entries(status_text@)),
    ensures
        final(result)@ == apply_z(old(result)@, z_entries(status_text@)),
{
    let cs = chars_of(status_text);
    let es = z_entries_exec(&cs);
    let ghost ev = views(es@);
    let ghost m0 = result@;
    let mut i: usize = 0;
    assert(ev.skip(0) =~= ev);
    while i < es.len()
        invariant
            i <= es@.len(),
            ev == views(es@),
            z_entries_ok(ev.skip(i as int)),
            apply_z(m0, ev) == apply_z(result@, ev.skip(i as int)),
        decreases es@.len() - i,
    {
        i = apply_z_entry(&es, i, result);
    }
    assert(ev.skip(ev.len() as int) =~= Seq::<Seq<char>>::empty());
}

/// Whether an entry can be cut after its status code without fault.
fn entry_readable(e: &[char]) -> (r: bool)
    ensures
        r == change_entry_ok(e@),
{
    let st = string_from_chars(e);
    let s = st.as_str();
    let b = s.as_bytes();
    assert(b@ == bytes_of(e@));
    b.len() < 4 || s.is_char_boundary(3)
}

/// Whether a branch line (without its `## `) can be read without fault.
fn branch_readable(line: &[char]) -> (r: bool)
    ensures
        r == branch_line_ok(line@),
{
    let n = line.len();
    let dots = chars_of("...");
    proof {
        reveal_strlit("...");
    }
    match find_first(line, &dots) {
        None => true,
        Some(k) => {
            let meta = copy_range(line, k + 3, n);
            assert(meta@ =~= line@.skip(k + 3));
            match (find(&meta, '['), find(&meta, ']')) {
                (Some(a), Some(b)) => a < b,
                _ => true,
            }
        },
    }
}

/// Whether a line of newline-separated output can be read without fault.
fn line_readable(l: &[char]) -> (r: bool)
    ensures
        r == line_ok(l@),
{
    let head = chars_of("## ");
    proof {
        reveal_strlit("## ");
    }
    if has_prefix(l, &head) {
        let rest = copy_range(l, 3, l.len());
        assert(rest@ =~= l@.skip(3));
        branch_readable(&rest)
    } else {
        entry_readable(l)
    }
}

/// Whether `-z` entries can be read without fault.
fn z_readable(es: &Vec<Vec<char>>) -> (r: bool)
    ensures
        r == z_entries_ok(views(es@)),
{
    let ghost ev = views(es@);
    let head = chars_of("## ");
    proof {
        reveal_strlit("## ");
    }
    assert(head@.len() == 3);
    let en = es.len();
    let mut i: usize = 0;
    assert(ev.skip(0) =~= ev);
    while i < en
        invariant
            en == es@.len(),
            i <= en,
            ev == views(es@),
            head@ == "## "@,
            head@.len() == 3,
            z_entries_ok(ev) == z_entries_ok(ev.skip(i as int)),
        decreases en - i,
    {
        let ghost rest = ev.skip(i as int);
        let e = &es[i];
        assert(rest[0] == e@);
        assert(rest.drop_first() =~= ev.skip(i + 1));
        if has_prefix(e, &head) {
            let tail = copy_range(e, 3, e.len());
            assert(tail@ =~= e@.skip(3));
            if !branch_readable(&tail) {
                return false;
            }
            i += 1;
        } else {
            let st = string_from_chars(e);
            let b = st.as_str().as_bytes();
            assert(b@ == bytes_of(e@));
            if b.len() < 4 {
                i += 1;
            } else {
                if !entry_readable(e) {
                    return false;
                }
                let x = b[0] as char;
                if (x == 'R' || x == 'C') && i + 1 < en {
                    assert(rest.skip(2) =~= ev.skip(i + 2));
                    i += 2;
                } else {
                    i += 1;
                }
            }
        }
    }
    assert(ev.skip(en as int) =~= Seq::<Seq<char>>::empty());
    true
}

/// Whether status output can be read without fault, so that
/// [`parse_status`] may be called on it.
pub fn status_text_readable(status_text: &str) -> (r: bool)
    ensures
        r == status_text_ok(status_text@),
{
    let cs = chars_of(status_text);
    if contains_char(&cs, '\0') {
        let es = z_entries_exec(&cs);
        z_readable(&es)
    } else {
        let ls = split_lines(&cs);
        let ghost lv = views(ls@);
        let mut i: usize = 0;
        while i < ls.len()
            invariant
                i <= ls@.len(),
                lv == views(ls@),
                lv == lines(cs@),
                cs@ == status_text@,
                !has_char(status_text@, '\0'),
                forall|k: int| 0 <= k < i ==> line_ok(#[trigger] lv[k]),
            decreases ls@.len() - i,
        {
            if !line_readable(&ls[i]) {
                assert(lv[i as int] == ls@[i as int]@);
                assert(!line_ok(lines(status_text@)[i as int]));
                return false;
            }
            i += 1;
        }
        true
    }
}

/// The status of the repository at `repo_root` that `git status
/// --porcelain=v1 -b` output describes.
pub fn parse_status(repo_root: &str, status_text: &str) -> (r: RepoStatus)
    requires
        status_text_ok(status_text@),
    ensures
        r@ == status_of(repo_root@, status_text@),
{
    let mut result = RepoStatus {
        repo_root: owned(repo_root),
        branch: None,
        upstream: None,
        remote_visibility: None,
        ahead: 0,
        behind: 0,
        has_remote: false,
        is_repo: true,
        merge_in_progress: false,
        rebase_in_progress: false,
        changes: Vec::new(),
    };
    assert(result.changes@.map_values(|c: FileChange| c@) =~= Seq::<ChangeModel>::empty());
    assert(result@ =~= fresh_status(repo_root@));
    let cs = chars_of(status_text);
    if contains_char(&cs, '\0') {
        parse_status_z(status_text, &mut result);
    } else {
        apply_lines_exec(&cs, &mut result);
    }
    result
}


// ---------------------------------------------------------------------
// Laws of reading status output
// ---------------------------------------------------------------------

/// A change whose flags and category follow from its two-character status
/// code and its path.
pub open spec fn change_follows_code(c: ChangeModel) -> bool {
    &&& c.status.len() == 2
    &&& c.staged == (c.status[0] != ' ' && c.status[0] != '?')
    &&& c.unstaged == (c.status[1] != ' ' || c.status[0] == '?')
    &&& c.conflicted == is_conflict_code(c.status[0], c.status[1])
    &&& c.category == category_spec(c.path)
}

/// Every change of a status follows from its code.
pub open spec fn changes_follow_codes(m: StatusModel) -> bool {
    forall|i: int| 0 <= i < m.changes.len() ==> change_follows_code(#[trigger] m.changes[i])
}

/// What reading status output leaves alone: the repository fields, and the
/// changes already read, which stay a prefix.
pub open spec fn keeps_repo_fields(m: StatusModel, r: StatusModel) -> bool {
    &&& r.repo_root == m.repo_root
    &&& r.is_repo == m.is_repo
    &&& r.remote_visibility == m.remote_visibility
    &&& r.merge_in_progress == m.merge_in_progress
    &&& r.rebase_in_progress == m.rebase_in_progress
    &&& r.changes.len() >= m.changes.len()
    &&& r.changes.subrange(0, m.changes.len() as int) == m.changes
}

proof fn lemma_counts_keep(m: StatusModel, parts: Seq<Seq<char>>)
    ensures
        apply_counts(m, parts).changes == m.changes,
        keeps_repo_fields(m, apply_counts(m, parts)),
    decreases parts.len(),
{
    if parts.len() > 0 {
        lemma_counts_keep(m, parts.drop_last());
    }
    assert(apply_counts(m, parts).changes.subrange(0, m.changes.len() as int) =~= m.changes);
}

proof fn lemma_branch_keeps(m: StatusModel, line: Seq<char>)
    ensures
        apply_branch(m, line).changes == m.changes,
        keeps_repo_fields(m, apply_branch(m, line)),
{
    let k = first_occurrence(line, "..."@);
    let branch = if k >= 0 {
        line.take(k)
    } else {
        line
    };
    let m1 = StatusModel { branch: Some(branch), ..m };
    match branch_meta(line) {
        None => {},
        Some(meta) => {
            let up = split_char(meta, ' ')[0];
            let m2 = StatusModel { upstream: Some(up), has_remote: up.len() > 0, ..m1 };
            let a = find_char(meta, '[');
            let b = find_char(meta, ']');
            if a >= 0 && b >= 0 {
                lemma_counts_keep(m2, split_char(meta.subrange(a + 1, b), ','));
            }
        },
    }
    assert(apply_branch(m, line).changes.subrange(0, m.changes.len() as int) =~= m.changes);
}

proof fn lemma_keeps_trans(a: StatusModel, b: StatusModel, c: StatusModel)
    requires
        keeps_repo_fields(a, b),
        keeps_repo_fields(b, c),
    ensures
        keeps_repo_fields(a, c),
{
    assert(c.changes.subrange(0, a.changes.len() as int) =~= b.changes.subrange(
        0,
        a.changes.len() as int,
    ));
}

proof fn lemma_with_change(m: StatusModel, c: ChangeModel)
    requires
        change_follows_code(c),
    ensures
        changes_follow_codes(m) ==> changes_follow_codes(with_change(m, c)),
        keeps_repo_fields(m, with_change(m, c)),
{
    let r = with_change(m, c);
    assert forall|i: int| changes_follow_codes(m) && 0 <= i < r.changes.len() implies change_follows_code(
        #[trigger] r.changes[i],
    ) by {
        if i < m.changes.len() {
            assert(r.changes[i] == m.changes[i]);
        }
    }
    assert(r.changes.subrange(0, m.changes.len() as int) =~= m.changes);
}

proof fn lemma_change_model_follows(x: char, y: char, p: Seq<char>, o: Option<Seq<char>>)
    ensures
        change_follows_code(change_model(x, y, p, o)),
{
}

proof fn lemma_line_keeps(m: StatusModel, l: Seq<char>)
    ensures
        changes_follow_codes(m) ==> changes_follow_codes(apply_line(m, l)),
        keeps_repo_fields(m, apply_line(m, l)),
{
    if starts_with(l, "## "@) {
        lemma_branch_keeps(m, l.skip(3));
    } else if bytes_of(l).len() < 4 {
        assert(m.changes.subrange(0, m.changes.len() as int) =~= m.changes);
    } else {
        let raw = after_code(l);
        let k = first_occurrence(raw, " -> "@);
        let x = code_char(l, 0);
        let y = code_char(l, 1);
        if k >= 0 {
            let c = change_model(x, y, decoded_path(raw.skip(k + 4)), Some(decoded_path(raw.take(k))));
            lemma_change_model_follows(x, y, decoded_path(raw.skip(k + 4)), Some(decoded_path(raw.take(k))));
            lemma_with_change(m, c);
        } else {
            lemma_change_model_follows(x, y, decoded_path(raw), None);
            lemma_with_change(m, change_model(x, y, decoded_path(raw), None));
        }
    }
}

proof fn lemma_lines_keep(m: StatusModel, ls: Seq<Seq<char>>)
    ensures
        changes_follow_codes(m) ==> changes_follow_codes(apply_lines(m, ls)),
        keeps_repo_fields(m, apply_lines(m, ls)),
    decreases ls.len(),
{
    if ls.len() == 0 {
        assert(m.changes.subrange(0, m.changes.len() as int) =~= m.changes);
    } else {
        let m1 = apply_line(m, ls[0]);
        lemma_line_keeps(m, ls[0]);
        lemma_lines_keep(m1, ls.drop_first());
        lemma_keeps_trans(m, m1, apply_lines(m1, ls.drop_first()));
    }
}

proof fn lemma_z_keeps(m: StatusModel, es: Seq<Seq<char>>)
    ensures
        changes_follow_codes(m) ==> changes_follow_codes(apply_z(m, es)),
        keeps_repo_fields(m, apply_z(m, es)),
    decreases es.len(),
{
    if es.len() == 0 {
        assert(m.changes.subrange(0, m.changes.len() as int) =~= m.changes);
    } else {
        let e = es[0];
        if starts_with(e, "## "@) {
            let m1 = apply_branch(m, e.skip(3));
            lemma_branch_keeps(m, e.skip(3));
            assert(changes_follow_codes(m) ==> changes_follow_codes(m1));
            lemma_z_keeps(m1, es.drop_first());
            lemma_keeps_trans(m, m1, apply_z(m1, es.drop_first()));
        } else if bytes_of(e).len() < 4 {
            lemma_z_keeps(m, es.drop_first());
        } else {
            let x = code_char(e, 0);
            let y = code_char(e, 1);
            let p = decoded_path(after_code(e));
            if (x == 'R' || x == 'C') && es.len() > 1 {
                let c = change_model(x, y, p, Some(decoded_path(es[1])));
                lemma_change_model_follows(x, y, p, Some(decoded_path(es[1])));
                lemma_with_change(m, c);
                lemma_z_keeps(with_change(m, c), es.skip(2));
                lemma_keeps_trans(m, with_change(m, c), apply_z(with_change(m, c), es.skip(2)));
            } else {
                let c = change_model(x, y, p, None);
                lemma_change_model_follows(x, y, p, None);
                lemma_with_change(m, c);
                lemma_z_keeps(with_change(m, c), es.drop_first());
                lemma_keeps_trans(m, with_change(m, c), apply_z(with_change(m, c), es.drop_first()));
            }
        }
    }
}

/// Reading status output describes the given repository as a repository,
/// and every change it reports has the staged, unstaged and conflicted
/// flags and the category that its status code and path give.
pub proof fn law_status_changes_follow_codes(root: Seq<char>, text: Seq<char>)
    ensures
        status_of(root, text).repo_root == root,
        status_of(root, text).is_repo,
        changes_follow_codes(status_of(root, text)),
{
    if has_char(text, '\0') {
        lemma_z_keeps(fresh_status(root), z_entries(text));
    } else {
        lemma_lines_keep(fresh_status(root), lines(text));
    }
}

/// Reading NUL-separated status output into a status keeps its repository
/// root, repository flag, remote visibility and merge and rebase flags, and
/// keeps the changes it held as a prefix of its changes.
pub proof fn law_z_keeps_earlier_state(m: StatusModel, text: Seq<char>)
    ensures
        apply_z(m, z_entries(text)).repo_root == m.repo_root,
        apply_z(m, z_entries(text)).is_repo == m.is_repo,
        apply_z(m, z_entries(text)).remote_visibility == m.remote_visibility,
        apply_z(m, z_entries(text)).merge_in_progress == m.merge_in_progress,
        apply_z(m, z_entries(text)).rebase_in_progress == m.rebase_in_progress,
        apply_z(m, z_entries(text)).changes.len() >= m.changes.len(),
        apply_z(m, z_entries(text)).changes.subrange(0, m.changes.len() as int) == m.changes,
{
    lemma_z_keeps(m, z_entries(text));
}

/// A line of newline-separated output that reports a change: not a branch
/// line, and at least four bytes long.
pub open spec fn is_change_line(l: Seq<char>) -> bool {
    !starts_with(l, "## "@) && bytes_of(l).len() >= 4
}

/// The change a change line reports: its status code, and its path, or
/// for `OLD -> NEW` the new path with the old one as its original path.
pub open spec fn line_change(l: Seq<char>) -> ChangeModel {
    let raw = after_code(l);
    let k = first_occurrence(raw, " -> "@);
    let x = code_char(l, 0);
    let y = code_char(l, 1);
    if k >= 0 {
        change_model(x, y, decoded_path(raw.skip(k + 4)), Some(decoded_path(raw.take(k))))
    } else {
        change_model(x, y, decoded_path(raw), None)
    }
}

proof fn lemma_filter_front(l: Seq<char>, rest: Seq<Seq<char>>)
    ensures
        (seq![l] + rest).filter(|x: Seq<char>| is_change_line(x)) == if is_change_line(l) {
            seq![l] + rest.filter(|x: Seq<char>| is_change_line(x))
        } else {
            rest.filter(|x: Seq<char>| is_change_line(x))
        },
{
    let f = |x: Seq<char>| is_change_line(x);
    Seq::filter_distributes_over_add(seq![l], rest, f);
    reveal_with_fuel(Seq::filter, 2);
    assert(seq![l].drop_last() =~= Seq::<Seq<char>>::empty());
    if is_change_line(l) {
        assert(seq![l].filter(f) =~= seq![l]);
    } else {
        assert(seq![l].filter(f) =~= Seq::<Seq<char>>::empty());
    }
}

proof fn lemma_lines_changes(m: StatusModel, ls: Seq<Seq<char>>)
    ensures
        apply_lines(m, ls).changes == m.changes + ls.filter(|x: Seq<char>| is_change_line(x)).map_values(
            |x: Seq<char>| line_change(x),
        ),
    decreases ls.len(),
{
    let f = |x: Seq<char>| is_change_line(x);
    let g = |x: Seq<char>| line_change(x);
    if ls.len() == 0 {
        reveal(Seq::filter);
        assert(ls.filter(f).map_values(g) =~= Seq::<ChangeModel>::empty());
        assert(m.changes + Seq::<ChangeModel>::empty() =~= m.changes);
    } else {
        let l = ls[0];
        let rest = ls.drop_first();
        assert(ls =~= seq![l] + rest);
        lemma_filter_front(l, rest);
        let m1 = apply_line(m, l);
        lemma_lines_changes(m1, rest);
        if starts_with(l, "## "@) {
            lemma_branch_keeps(m, l.skip(3));
        } else if bytes_of(l).len() < 4 {
        } else {
            assert(m1.changes == m.changes.push(line_change(l)));
            assert((seq![l] + rest.filter(f)).map_values(g) =~= seq![line_change(l)] + rest.filter(
                f,
            ).map_values(g));
            assert(m.changes.push(line_change(l)) + rest.filter(f).map_values(g) =~= m.changes + (
            seq![line_change(l)] + rest.filter(f).map_values(g)));
        }
    }
}

/// Reading newline-separated status output reports one change per change
/// line, in the order of the lines, each with its status code and paths.
pub proof fn law_line_status_changes(root: Seq<char>, text: Seq<char>)
    requires
        !has_char(text, '\0'),
    ensures
        status_of(root, text).changes == lines(text).filter(|x: Seq<char>| is_change_line(x)).map_values(
            |x: Seq<char>| line_change(x),
        ),
{
    lemma_lines_changes(fresh_status(root), lines(text));
    assert(fresh_status(root).changes + lines(text).filter(|x: Seq<char>| is_change_line(x)).map_values(
        |x: Seq<char>| line_change(x),
    ) =~= lines(text).filter(|x: Seq<char>| is_change_line(x)).map_values(|x: Seq<char>| line_change(x)));
}

/// A change is flagged conflicted exactly when its status code is one of
/// the seven unmerged codes `DD`, `AU`, `UD`, `UA`, `DU`, `AA`, `UU`; so,
/// for one, a file added and then modified again (`AM`) is not conflicted.
pub proof fn law_conflicted_exactly_unmerged(root: Seq<char>, text: Seq<char>, i: int)
    requires
        0 <= i < status_of(root, text).changes.len(),
    ensures
        ({
            let c = status_of(root, text).changes[i];
            &&& c.conflicted <==> (c.status == seq!['D', 'D'] || c.status == seq!['A', 'U']
                || c.status == seq!['U', 'D'] || c.status == seq!['U', 'A'] || c.status == seq![
                'D',
                'U',
            ] || c.status == seq!['A', 'A'] || c.status == seq!['U', 'U'])
            &&& c.status == seq!['A', 'M'] ==> !c.conflicted
        }),
{
    law_status_changes_follow_codes(root, text);
    let c = status_of(root, text).changes[i];
    assert(change_follows_code(c));
    assert(c.status =~= seq![c.status[0], c.status[1]]);
}

proof fn lemma_extension_literals()
    ensures
        "flp"@.len() == 3,
        "wav"@.len() == 3,
        "mp3"@.len() == 3,
        "ogg"@.len() == 3,
        "aiff"@.len() == 4,
        "aif"@.len() == 3,
        "flac"@.len() == 4,
        "mid"@.len() == 3,
        "midi"@.len() == 4,
        "zip"@.len() == 3,
        "rar"@.len() == 3,
        "7z"@.len() == 2,
        "mp4"@.len() == 3,
        "mov"@.len() == 3,
        "json"@.len() == 4,
        "md"@.len() == 2,
        "txt"@.len() == 3,
        "gitattributes"@.len() == 13,
        "gitignore"@.len() == 9,
        "flp"@ == seq!['f', 'l', 'p'],
        "wav"@ == seq!['w', 'a', 'v'],
        "mp3"@ == seq!['m', 'p', '3'],
        "ogg"@ == seq!['o', 'g', 'g'],
        "aiff"@ == seq!['a', 'i', 'f', 'f'],
        "aif"@ == seq!['a', 'i', 'f'],
        "flac"@ == seq!['f', 'l', 'a', 'c'],
        "mid"@ == seq!['m', 'i', 'd'],
        "midi"@ == seq!['m', 'i', 'd', 'i'],
        "zip"@ == seq!['z', 'i', 'p'],
        "rar"@ == seq!['r', 'a', 'r'],
        "7z"@ == seq!['7', 'z'],
        "mp4"@ == seq!['m', 'p', '4'],
        "mov"@ == seq!['m', 'o', 'v'],
        "json"@ == seq!['j', 's', 'o', 'n'],
        "md"@ == seq!['m', 'd'],
        "txt"@ == seq!['t', 'x', 't'],
        "gitattributes"@ == seq!['g', 'i', 't', 'a', 't', 't', 'r', 'i', 'b', 'u', 't', 'e', 's'],
        "gitignore"@ == seq!['g', 'i', 't', 'i', 'g', 'n', 'o', 'r', 'e'],
{
    reveal_strlit("flp");
    reveal_strlit("wav");
    reveal_strlit("mp3");
    reveal_strlit("ogg");
    reveal_strlit("aiff");
    reveal_strlit("aif");
    reveal_strlit("flac");
    reveal_strlit("mid");
    reveal_strlit("midi");
    reveal_strlit("zip");
    reveal_strlit("rar");
    reveal_strlit("7z");
    reveal_strlit("mp4");
    reveal_strlit("mov");
    reveal_strlit("json");
    reveal_strlit("md");
    reveal_strlit("txt");
    reveal_strlit("gitattributes");
    reveal_strlit("gitignore");
    assert("flp"@ =~= seq!['f', 'l', 'p']);
    assert("wav"@ =~= seq!['w', 'a', 'v']);
    assert("mp3"@ =~= seq!['m', 'p', '3']);
    assert("ogg"@ =~= seq!['o', 'g', 'g']);
    assert("aiff"@ =~= seq!['a', 'i', 'f', 'f']);
    assert("aif"@ =~= seq!['a', 'i', 'f']);
    assert("flac"@ =~= seq!['f', 'l', 'a', 'c']);
    assert("mid"@ =~= seq!['m', 'i', 'd']);
    assert("midi"@ =~= seq!['m', 'i', 'd', 'i']);
    assert("zip"@ =~= seq!['z', 'i', 'p']);
    assert("rar"@ =~= seq!['r', 'a', 'r']);
    assert("7z"@ =~= seq!['7', 'z']);
    assert("mp4"@ =~= seq!['m', 'p', '4']);
    assert("mov"@ =~= seq!['m', 'o', 'v']);
    assert("json"@ =~= seq!['j', 's', 'o', 'n']);
    assert("md"@ =~= seq!['m', 'd']);
    assert("txt"@ =~= seq!['t', 'x', 't']);
    assert("gitattributes"@ =~= seq!['g', 'i', 't', 'a', 't', 't', 'r', 'i', 'b', 'u', 't', 'e', 's']);
    assert("gitignore"@ =~= seq!['g', 'i', 't', 'i', 'g', 'n', 'o', 'r', 'e']);
}

/// The category of a changed path by the ASCII-lower-cased extension of
/// its decoded path: `flp` is an FL project; `wav`, `mp3`, `ogg`, `aiff`,
/// `aif`, `flac`, `mid` and `midi` are samples; `zip`, `rar`, `7z`, `mp4`
/// and `mov` are exports; `json`, `md`, `txt`, `gitattributes` and
/// `gitignore` are metadata; any other extension, or none, is other.
pub proof fn law_category_by_extension(path: Seq<char>)
    ensures
        ({
            let l = match extension(decoded_path(path)) {
                Some(e) => to_ascii_lower(e),
                None => Seq::<char>::empty(),
            };
            &&& l == "flp"@ ==> category_spec(path) == ChangeCategory::Flp
            &&& (l == "wav"@ || l == "mp3"@ || l == "ogg"@ || l == "aiff"@ || l == "aif"@ || l == "flac"@ || l == "mid"@ || l == "midi"@) ==> category_spec(path)
                == ChangeCategory::Samples
            &&& (l == "zip"@ || l == "rar"@ || l == "7z"@ || l == "mp4"@ || l == "mov"@) ==> category_spec(path) == ChangeCategory::Exports
            &&& (l == "json"@ || l == "md"@ || l == "txt"@ || l == "gitattributes"@ || l == "gitignore"@) ==> category_spec(path)
                == ChangeCategory::Metadata
            &&& !(l == "flp"@ || l == "wav"@ || l == "mp3"@ || l == "ogg"@ || l == "aiff"@ || l == "aif"@ || l == "flac"@ || l == "mid"@ || l == "midi"@ || l == "zip"@ || l == "rar"@ || l == "7z"@ || l == "mp4"@ || l == "mov"@ || l == "json"@ || l == "md"@ || l == "txt"@ || l == "gitattributes"@ || l == "gitignore"@) ==> category_spec(path) == ChangeCategory::Other
        }),
{
    lemma_extension_literals();
}

} // verus!
