//! Path text as Windows reads it: a drive or UNC prefix, then components
//! separated by `/` or `\`; final components, extensions and parents; and
//! the rules that decide which project paths matter.
use vstd::prelude::*;
use crate::text::{
    chars_of, copy_range, has_sub, has_prefix, has_suffix, lower, replace, rfind, split_at_char,
    string_from_chars, contains, ends_with, replace_char, rfind_char, split_char, starts_with,
    to_ascii_lower, views, lemma_rfind_char, is_literal_chars, find, find_char, lemma_find_char,
    append,
};

verus! {

broadcast use vstd::seq_lib::group_seq_properties;

/// Whether `c` separates path components (`/` or `\`).
pub open spec fn is_sep(c: char) -> bool {
    c == '/' || c == '\\'
}

/// The components of a path, split at either separator.
pub open spec fn components(s: Seq<char>) -> Seq<Seq<char>> {
    split_char(replace_char(s, '\\', '/'), '/')
}

/// The last component that is neither empty nor `.`.
pub open spec fn last_normal(comps: Seq<Seq<char>>) -> Option<Seq<char>>
    decreases comps.len(),
{
    if comps.len() == 0 {
        None
    } else if comps.last() == Seq::<char>::empty() || comps.last() == seq!['.'] {
        last_normal(comps.drop_last())
    } else {
        Some(comps.last())
    }
}

/// An ASCII letter.
pub open spec fn is_ascii_letter(c: char) -> bool {
    ('a' <= c && c <= 'z') || ('A' <= c && c <= 'Z')
}

/// The index of the first separator of `s`, or its length when it has
/// none: the length of its first component.
pub open spec fn first_sep(s: Seq<char>) -> int {
    let a = find_char(replace_char(s, '\\', '/'), '/');
    if a < 0 {
        s.len() as int
    } else {
        a
    }
}

/// The length of a path's Windows prefix: a UNC prefix `\\server\share`
/// (either separator, server and share not empty), a drive `X:`, or none.
pub open spec fn prefix_len(s: Seq<char>) -> int {
    if s.len() >= 2 && is_sep(s[0]) && is_sep(s[1]) {
        let r = s.skip(2);
        let a = first_sep(r);
        if a == 0 || a >= r.len() {
            0
        } else {
            let b = first_sep(r.skip(a + 1));
            if b == 0 {
                0
            } else {
                2 + a + 1 + b
            }
        }
    } else if s.len() >= 2 && is_ascii_letter(s[0]) && s[1] == ':' {
        2
    } else {
        0
    }
}

/// The final component of a path without a prefix: none when it has no
/// component or ends in `..`.
pub open spec fn rest_file_name(s: Seq<char>) -> Option<Seq<char>> {
    match last_normal(components(s)) {
        Some(n) => if n == seq!['.', '.'] {
            None
        } else {
            Some(n)
        },
        None => None,
    }
}

/// The final component of a path (`Path::file_name` on Windows): that of
/// the path after its prefix.
pub open spec fn file_name(s: Seq<char>) -> Option<Seq<char>> {
    rest_file_name(s.skip(prefix_len(s)))
}

/// The extension of a path (`Path::extension`): what follows the last `.`
/// of the final component, unless that `.` is the component's first
/// character or there is none.
pub open spec fn extension(s: Seq<char>) -> Option<Seq<char>> {
    match file_name(s) {
        Some(n) => {
            let i = rfind_char(n, '.');
            if i <= 0 {
                None
            } else {
                Some(n.skip(i + 1))
            }
        },
        None => None,
    }
}

/// `s` without trailing separators.
pub open spec fn strip_trailing_seps(s: Seq<char>) -> Seq<char>
    decreases s.len(),
{
    if s.len() > 0 && is_sep(s.last()) {
        strip_trailing_seps(s.drop_last())
    } else {
        s
    }
}

/// The parent of a path without a prefix: the text before its final
/// component, without trailing separators; the separator is kept when only
/// a root would remain; empty for a single relative component; none for an
/// empty path or a bare root.
pub open spec fn rest_parent(s: Seq<char>) -> Option<Seq<char>> {
    let t = strip_trailing_seps(s);
    if t.len() == 0 {
        None
    } else {
        let i = rfind_char(replace_char(t, '\\', '/'), '/');
        if i < 0 {
            Some(Seq::<char>::empty())
        } else {
            let p = strip_trailing_seps(t.take(i));
            if p.len() == 0 {
                Some(t.take(i + 1))
            } else {
                Some(p)
            }
        }
    }
}

/// The parent of a path (`Path::parent` on Windows): its prefix followed by
/// the parent of the rest; none when nothing but the prefix and a root is
/// left.
pub open spec fn parent(s: Seq<char>) -> Option<Seq<char>> {
    let n = prefix_len(s);
    match rest_parent(s.skip(n)) {
        Some(q) => Some(s.take(n) + q),
        None => None,
    }
}

// ---------------------------------------------------------------------

proof fn lemma_last_normal_step(comps: Seq<Seq<char>>, k: int)
    requires
        0 < k <= comps.len(),
        comps[k - 1] == Seq::<char>::empty() || comps[k - 1] == seq!['.'],
    ensures
        last_normal(comps.take(k)) == last_normal(comps.take(k - 1)),
{
    assert(comps.take(k).drop_last() =~= comps.take(k - 1));
}

/// The length of a path's prefix.
fn prefix_len_of(s: &[char]) -> (r: usize)
    ensures
        r == prefix_len(s@),
        r <= s@.len(),
{
    let n = s.len();
    if n >= 2 && (s[0] == '/' || s[0] == '\\') && (s[1] == '/' || s[1] == '\\') {
        let r = copy_range(s, 2, n);
        assert(r@ =~= s@.skip(2));
        let a = first_sep_of(&r);
        if a == 0 || a >= r.len() {
            return 0;
        }
        let r2 = copy_range(&r, a + 1, r.len());
        assert(r2@ =~= r@.skip(a + 1));
        let b = first_sep_of(&r2);
        if b == 0 {
            0
        } else {
            2 + a + 1 + b
        }
    } else if n >= 2 && (('a' <= s[0] && s[0] <= 'z') || ('A' <= s[0] && s[0] <= 'Z')) && s[1]
        == ':' {
        2
    } else {
        0
    }
}

/// The length of the first component of `s`.
fn first_sep_of(s: &[char]) -> (r: usize)
    ensures
        r == first_sep(s@),
        r <= s@.len(),
{
    let norm = replace(s, '\\', '/');
    proof {
        lemma_find_char(norm@, '/');
    }
    match find(&norm, '/') {
        Some(a) => a,
        None => s.len(),
    }
}

/// The final component of a path.
pub fn file_name_of(s: &[char]) -> (r: Option<Vec<char>>)
    ensures
        r is Some <==> file_name(s@) is Some,
        r is Some ==> r->0@ == file_name(s@)->0,
{
    let n = prefix_len_of(s);
    let rest = copy_range(s, n, s.len());
    assert(rest@ =~= s@.skip(n as int));
    rest_file_name_of(&rest)
}

/// The final component of a path without a prefix.
fn rest_file_name_of(s: &[char]) -> (r: Option<Vec<char>>)
    ensures
        r is Some <==> rest_file_name(s@) is Some,
        r is Some ==> r->0@ == rest_file_name(s@)->0,
{
    let norm = replace(s, '\\', '/');
    let comps = split_at_char(&norm, '/');
    let ghost cs = views(comps@);
    assert(cs == components(s@));
    let mut k: usize = comps.len();
    assert(cs.take(k as int) =~= cs);
    while k > 0
        invariant
            k <= comps@.len(),
            cs == views(comps@),
            cs == components(s@),
            last_normal(cs) == last_normal(cs.take(k as int)),
        decreases k,
    {
        let c = &comps[k - 1];
        if c.len() == 0 || (c.len() == 1 && c[0] == '.') {
            proof {
                if c@.len() == 0 {
                    assert(c@ =~= Seq::<char>::empty());
                } else {
                    assert(c@ =~= seq!['.']);
                }
                lemma_last_normal_step(cs, k as int);
            }
            k -= 1;
        } else {
            proof {
                assert(cs.take(k as int).last() == c@);
                assert(c@ != Seq::<char>::empty());
                if c@.len() == 1 {
                    assert(c@ != seq!['.']);
                }
            }
            assert(last_normal(cs.take(k as int)) == Some(c@));
            if c.len() == 2 && c[0] == '.' && c[1] == '.' {
                assert(c@ =~= seq!['.', '.']);
                return None;
            }
            assert(c@ != seq!['.', '.']);
            return Some(copy_range(c, 0, c.len()));
        }
    }
    None
}

/// The extension of a path.
pub fn extension_of(s: &[char]) -> (r: Option<Vec<char>>)
    ensures
        r is Some <==> extension(s@) is Some,
        r is Some ==> r->0@ == extension(s@)->0,
{
    match file_name_of(s) {
        Some(n) => {
            match rfind(&n, '.') {
                Some(i) => {
                    let nl = n.len();
                    proof {
                        lemma_rfind_char(n@, '.');
                    }
                    if i == 0 {
                        None
                    } else {
                        Some(copy_range(&n, i + 1, n.len()))
                    }
                },
                None => None,
            }
        },
        None => None,
    }
}

/// The extension of a path, lower-cased, or empty when it has none.
pub fn lower_extension(s: &[char]) -> (r: Vec<char>)
    ensures
        r@ == match extension(s@) {
            Some(e) => to_ascii_lower(e),
            None => Seq::<char>::empty(),
        },
{
    match extension_of(s) {
        Some(e) => lower(&e),
        None => Vec::new(),
    }
}

proof fn lemma_strip_step(s: Seq<char>, j: int)
    requires
        0 < j <= s.len(),
        is_sep(s[j - 1]),
    ensures
        strip_trailing_seps(s.take(j)) == strip_trailing_seps(s.take(j - 1)),
{
    assert(s.take(j).drop_last() =~= s.take(j - 1));
}

/// The length of `s[..n]` without trailing separators.
fn strip_seps_len(s: &[char], n: usize) -> (r: usize)
    requires
        n <= s@.len(),
    ensures
        r <= n,
        s@.take(r as int) == strip_trailing_seps(s@.take(n as int)),
{
    let mut j = n;
    while j > 0 && (s[j - 1] == '/' || s[j - 1] == '\\')
        invariant
            j <= n <= s@.len(),
            strip_trailing_seps(s@.take(n as int)) == strip_trailing_seps(s@.take(j as int)),
        decreases j,
    {
        proof {
            lemma_strip_step(s@, j as int);
        }
        j -= 1;
    }
    proof {
        if j > 0 {
            assert(s@.take(j as int).last() == s@[j - 1]);
        }
    }
    j
}

/// The parent of a path.
pub fn parent_of(s: &[char]) -> (r: Option<Vec<char>>)
    ensures
        r is Some <==> parent(s@) is Some,
        r is Some ==> r->0@ == parent(s@)->0,
{
    let n = prefix_len_of(s);
    let rest = copy_range(s, n, s.len());
    assert(rest@ =~= s@.skip(n as int));
    match rest_parent_of(&rest) {
        Some(q) => {
            let mut r = copy_range(s, 0, n);
            assert(r@ =~= s@.take(n as int));
            append(&mut r, &q);
            Some(r)
        },
        None => None,
    }
}

/// The parent of a path without a prefix.
#[verifier::rlimit(40)]
fn rest_parent_of(s: &[char]) -> (r: Option<Vec<char>>)
    ensures
        r is Some <==> rest_parent(s@) is Some,
        r is Some ==> r->0@ == rest_parent(s@)->0,
{
    let tl = strip_seps_len(s, s.len());
    assert(s@.take(s@.len() as int) =~= s@);
    if tl == 0 {
        return None;
    }
    let t = copy_range(s, 0, tl);
    assert(t@ =~= strip_trailing_seps(s@));
    let norm = replace(&t, '\\', '/');
    match rfind(&norm, '/') {
        None => Some(Vec::new()),
        Some(i) => {
            proof {
                lemma_rfind_char(norm@, '/');
            }
            let pl = strip_seps_len(&t, i);
            parent_tail(&t, i, pl)
        },
    }
}

fn parent_tail(t: &Vec<char>, i: usize, pl: usize) -> (r: Option<Vec<char>>)
    requires
        i < t@.len(),
        pl <= i,
        t@.take(pl as int) == strip_trailing_seps(t@.take(i as int)),
    ensures
        r is Some,
        r->0@ == (if pl == 0 {
            t@.take(i + 1)
        } else {
            strip_trailing_seps(t@.take(i as int))
        }),
{
    let n = t.len();
    if pl == 0 {
        assert(i + 1 <= n);
        Some(copy_range(t, 0, i + 1))
    } else {
        Some(copy_range(t, 0, pl))
    }
}

// ---------------------------------------------------------------------
// Project path rules
// ---------------------------------------------------------------------

/// Whether a repository-relative path lies in FL Studio's `Backup` folder
/// (any case, either separator).
pub open spec fn is_backup_spec(path: Seq<char>) -> bool {
    let n = to_ascii_lower(replace_char(path, '\\', '/'));
    ||| n == "backup"@
    ||| starts_with(n, "backup/"@)
    ||| contains(n, "/backup/"@)
}

/// Whether a repository-relative path lies in FL Studio's `Backup` folder.
pub fn is_backup_path(path: &str) -> (r: bool)
    ensures
        r == is_backup_spec(path@),
{
    let cs = chars_of(path);
    let n = lower(&replace(&cs, '\\', '/'));
    let a = chars_of("backup");
    let b = chars_of("backup/");
    let c = chars_of("/backup/");
    let eq = n.len() == a.len() && has_prefix(&n, &a);
    proof {
        if n@.len() == a@.len() && starts_with(n@, a@) {
            assert(n@.take(a@.len() as int) =~= n@);
        }
    }
    eq || has_prefix(&n, &b) || has_sub(&n, &c)
}

/// A path with Windows' verbatim prefix (`\\?\` or `\\?\UNC\`) taken off,
/// so that Git's command line accepts it.
pub open spec fn strip_verbatim(path: Seq<char>) -> Seq<char> {
    if starts_with(path, "\\\\?\\UNC\\"@) {
        "\\\\"@ + path.skip(8)
    } else if starts_with(path, "\\\\?\\"@) {
        path.skip(4)
    } else {
        path
    }
}

/// A path with Windows' verbatim prefix taken off.
pub fn normalize_windows_verbatim_path(path: &str) -> (r: String)
    ensures
        r@ == strip_verbatim(path@),
{
    let cs = chars_of(path);
    let unc = chars_of("\\\\?\\UNC\\");
    let plain = chars_of("\\\\?\\");
    proof {
        reveal_strlit("\\\\?\\UNC\\");
        reveal_strlit("\\\\?\\");
    }
    if has_prefix(&cs, &unc) {
        let mut out = chars_of("\\\\");
        let rest = copy_range(&cs, 8, cs.len());
        let mut i: usize = 0;
        let ghost start = out@;
        while i < rest.len()
            invariant
                i <= rest@.len(),
                out@ == start + rest@.take(i as int),
            decreases rest@.len() - i,
        {
            out.push(rest[i]);
            i += 1;
            assert(out@ =~= start + rest@.take(i as int));
        }
        assert(rest@.take(rest@.len() as int) =~= rest@);
        string_from_chars(&out)
    } else if has_prefix(&cs, &plain) {
        let rest = copy_range(&cs, 4, cs.len());
        string_from_chars(&rest)
    } else {
        string_from_chars(&cs)
    }
}

/// Whether a file-system change at `path` matters to the project: not in a
/// `Backup` folder; inside `.git` only the index, `HEAD`, refs and merge or
/// rebase state; elsewhere files with a project extension, or the Git
/// ignore and attribute files.
pub open spec fn project_change_matters(path: Seq<char>) -> bool {
    let n = replace_char(path, '\\', '/');
    if contains(n, "/Backup/"@) || ends_with(n, "/Backup"@) {
        false
    } else if contains(n, "/.git/"@) {
        ||| ends_with(n, "/index"@)
        ||| ends_with(n, "/HEAD"@)
        ||| contains(n, "/refs/"@)
        ||| contains(n, "/MERGE_"@)
        ||| contains(n, "/rebase-"@)
    } else {
        match extension(path) {
            None => ends_with(n, ".gitignore"@) || ends_with(n, ".gitattributes"@),
            Some(e) => {
                let l = to_ascii_lower(e);
                ||| l == "flp"@
                ||| l == "wav"@
                ||| l == "mp3"@
                ||| l == "ogg"@
                ||| l == "aiff"@
                ||| l == "aif"@
                ||| l == "flac"@
                ||| l == "fst"@
                ||| l == "json"@
                ||| l == "md"@
            },
        }
    }
}

/// Whether `s` holds the literal `lit`.
fn holds(s: &[char], lit: &str) -> (r: bool)
    ensures
        r == contains(s@, lit@),
{
    let b = chars_of(lit);
    has_sub(s, &b)
}

/// Whether `s` ends with the literal `lit`.
fn ends(s: &[char], lit: &str) -> (r: bool)
    ensures
        r == ends_with(s@, lit@),
{
    let b = chars_of(lit);
    has_suffix(s, &b)
}

/// Whether a file-system change at `path` matters to the project.
pub fn should_emit_project_change(path: &str) -> (r: bool)
    ensures
        r == project_change_matters(path@),
{
    let cs = chars_of(path);
    let n = replace(&cs, '\\', '/');
    if holds(&n, "/Backup/") || ends(&n, "/Backup") {
        return false;
    }
    if holds(&n, "/.git/") {
        return ends(&n, "/index") || ends(&n, "/HEAD") || holds(&n, "/refs/") || holds(
            &n,
            "/MERGE_",
        ) || holds(&n, "/rebase-");
    }
    match extension_of(&cs) {
        None => ends(&n, ".gitignore") || ends(&n, ".gitattributes"),
        Some(e) => {
            let l = lower(&e);
            is_literal_chars(&l, "flp") || is_literal_chars(&l, "wav") || is_literal_chars(&l, "mp3")
                || is_literal_chars(&l, "ogg") || is_literal_chars(&l, "aiff") || is_literal_chars(&l, "aif")
                || is_literal_chars(&l, "flac") || is_literal_chars(&l, "fst") || is_literal_chars(&l, "json")
                || is_literal_chars(&l, "md")
        },
    }
}

/// A character that may stand in a temporary file name as it is.
pub open spec fn temp_name_char(c: char) -> char {
    if ('a' <= c && c <= 'z') || ('A' <= c && c <= 'Z') || ('0' <= c && c <= '9') || c == '.'
        || c == '-' {
        c
    } else {
        '_'
    }
}

/// A path turned into a file name: ASCII letters, digits, `.` and `-` kept,
/// every other character replaced by `_`.
pub fn sanitize_temp_file_name(path: &str) -> (r: String)
    ensures
        r@ == path@.map_values(|c: char| temp_name_char(c)),
{
    let cs = chars_of(path);
    let mut out: Vec<char> = Vec::new();
    let mut i: usize = 0;
    while i < cs.len()
        invariant
            i <= cs@.len(),
            out@ == cs@.take(i as int).map_values(|c: char| temp_name_char(c)),
        decreases cs@.len() - i,
    {
        let c = cs[i];
        let d = if ('a' <= c && c <= 'z') || ('A' <= c && c <= 'Z') || ('0' <= c && c <= '9')
            || c == '.' || c == '-' {
            c
        } else {
            '_'
        };
        out.push(d);
        i += 1;
        assert(out@ =~= cs@.take(i as int).map_values(|c: char| temp_name_char(c)));
    }
    assert(cs@.take(cs@.len() as int) =~= cs@);
    string_from_chars(&out)
}


/// Outside a `Backup` folder and outside `.git`, a change to a path with an
/// extension matters exactly when that extension, ASCII-lower-cased, is one
/// of `flp`, `wav`, `mp3`, `ogg`, `aiff`, `aif`, `flac`, `fst`, `json`,
/// `md`; a change inside a `Backup` folder never matters; inside `.git`
/// only the index, `HEAD`, refs, and merge and rebase state matter; and a
/// path without an extension matters only as `.gitignore` or
/// `.gitattributes`.
pub proof fn law_project_change_extensions(path: Seq<char>)
    ensures
        ({
            let n = replace_char(path, '\\', '/');
            &&& (contains(n, "/Backup/"@) || ends_with(n, "/Backup"@)) ==> !project_change_matters(
                path,
            )
            &&& (!contains(n, "/Backup/"@) && !ends_with(n, "/Backup"@) && !contains(n, "/.git/"@))
                ==> (forall|e: Seq<char>|
                extension(path) == Some(e) ==> (project_change_matters(path) <==> (to_ascii_lower(e) == "flp"@ || to_ascii_lower(e) == "wav"@ || to_ascii_lower(e) == "mp3"@ || to_ascii_lower(e) == "ogg"@ || to_ascii_lower(e) == "aiff"@ || to_ascii_lower(e) == "aif"@ || to_ascii_lower(e) == "flac"@ || to_ascii_lower(e) == "fst"@ || to_ascii_lower(e) == "json"@ || to_ascii_lower(e) == "md"@)))
            &&& (!contains(n, "/Backup/"@) && !ends_with(n, "/Backup"@) && contains(n, "/.git/"@))
                ==> (project_change_matters(path) <==> (ends_with(n, "/index"@) || ends_with(
                n,
                "/HEAD"@,
            ) || contains(n, "/refs/"@) || contains(n, "/MERGE_"@) || contains(n, "/rebase-"@)))
            &&& (!contains(n, "/Backup/"@) && !ends_with(n, "/Backup"@) && !contains(n, "/.git/"@)
                && extension(path) is None) ==> (project_change_matters(path) <==> (ends_with(
                n,
                ".gitignore"@,
            ) || ends_with(n, ".gitattributes"@)))
        }),
{
}

/// A temporary file name made from a path has one character per character
/// of the path: ASCII letters, digits, `.` and `-` as they are, `_` for any
/// other.
pub proof fn law_temp_name_characters(path: Seq<char>)
    ensures
        path.map_values(|c: char| temp_name_char(c)).len() == path.len(),
        forall|i: int| #![trigger path[i]] 0 <= i < path.len() ==> {
            let c = path[i];
            let d = path.map_values(|c: char| temp_name_char(c))[i];
            &&& (('a' <= c && c <= 'z') || ('A' <= c && c <= 'Z') || ('0' <= c && c <= '9') || c
                == '.' || c == '-') ==> d == c
            &&& !(('a' <= c && c <= 'z') || ('A' <= c && c <= 'Z') || ('0' <= c && c <= '9') || c
                == '.' || c == '-') ==> d == '_'
        },
{
}
} // verus!
