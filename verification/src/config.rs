//! The app's preferences and project binding, the validation of what the
//! user enters for a project, and the binding of a project folder.
use vstd::prelude::*;
use crate::text::{
    append_str, chars_of, contains_char, has_char, has_prefix, is_ws, is_whitespace, lower, owned,
    starts_with, string_from_chars, string_views, strs, to_ascii_lower, trim, trim_end, trim_start,
    trimmed, views, chars_of_all, strings_of, is_literal_chars,
};
use crate::paths::{extension, file_name, file_name_of, lower_extension, parent, parent_of};
use crate::order::{sorted, sort_strings, lemma_sorted_unique};

verus! {

broadcast use vstd::seq_lib::group_seq_properties;

/// Where the overlay sits next to FL Studio.
#[derive(Clone, Copy, Debug, PartialEq, Eq, Structural)]
pub enum OverlayPlacement {
    Left,
    Right,
    Floating,
}

impl Default for OverlayPlacement {
    fn default() -> (r: Self)
        ensures
            r == OverlayPlacement::Right,
    {
        OverlayPlacement::Right
    }
}

/// The size and position of the expanded overlay, in physical pixels.
#[derive(Clone, Copy, Debug, PartialEq, Eq, Structural)]
pub struct SavedWindowGeometry {
    pub x: i32,
    pub y: i32,
    pub width: u32,
    pub height: u32,
}

/// The app's stored preferences and project binding.
#[derive(Debug)]
pub struct AppConfig {
    pub bound_project_path: Option<String>,
    pub repo_root: Option<String>,
    pub project_name: Option<String>,
    pub last_selected_branch: Option<String>,
    pub overlay_placement: OverlayPlacement,
    pub overlay_expanded: bool,
    pub expanded_position: Option<SavedWindowGeometry>,
    pub flpdiff_path: Option<String>,
    pub git_path: Option<String>,
    pub git_lfs_path: Option<String>,
}

/// The model of an `AppConfig`.
pub struct ConfigModel {
    pub bound_project_path: Option<Seq<char>>,
    pub repo_root: Option<Seq<char>>,
    pub project_name: Option<Seq<char>>,
    pub last_selected_branch: Option<Seq<char>>,
    pub overlay_placement: OverlayPlacement,
    pub overlay_expanded: bool,
    pub expanded_position: Option<SavedWindowGeometry>,
    pub flpdiff_path: Option<Seq<char>>,
    pub git_path: Option<Seq<char>>,
    pub git_lfs_path: Option<Seq<char>>,
}

/// The view of an optional string.
pub open spec fn opt_seq(o: Option<String>) -> Option<Seq<char>> {
    match o {
        Some(s) => Some(s@),
        None => None,
    }
}

impl View for AppConfig {
    type V = ConfigModel;

    open spec fn view(&self) -> ConfigModel {
        ConfigModel {
            bound_project_path: opt_seq(self.bound_project_path),
            repo_root: opt_seq(self.repo_root),
            project_name: opt_seq(self.project_name),
            last_selected_branch: opt_seq(self.last_selected_branch),
            overlay_placement: self.overlay_placement,
            overlay_expanded: self.overlay_expanded,
            expanded_position: self.expanded_position,
            flpdiff_path: opt_seq(self.flpdiff_path),
            git_path: opt_seq(self.git_path),
            git_lfs_path: opt_seq(self.git_lfs_path),
        }
    }
}

/// The configuration of a first start: no project bound, the overlay
/// expanded on the right, no tool paths set.
pub open spec fn default_config() -> ConfigModel {
    ConfigModel {
        bound_project_path: None,
        repo_root: None,
        project_name: None,
        last_selected_branch: None,
        overlay_placement: OverlayPlacement::Right,
        overlay_expanded: true,
        expanded_position: None,
        flpdiff_path: None,
        git_path: None,
        git_lfs_path: None,
    }
}

impl Default for AppConfig {
    fn default() -> (r: Self)
        ensures
            r@ == default_config(),
    {
        AppConfig {
            bound_project_path: None,
            repo_root: None,
            project_name: None,
            last_selected_branch: None,
            overlay_placement: OverlayPlacement::Right,
            overlay_expanded: true,
            expanded_position: None,
            flpdiff_path: None,
            git_path: None,
            git_lfs_path: None,
        }
    }
}

/// The configuration after closing: the project binding, branch and saved
/// overlay geometry forgotten and the overlay expanded again; the placement
/// and the tool paths kept.
pub open spec fn closed_config(c: ConfigModel) -> ConfigModel {
    ConfigModel {
        bound_project_path: None,
        repo_root: None,
        project_name: None,
        last_selected_branch: None,
        expanded_position: None,
        overlay_expanded: true,
        ..c
    }
}

/// Forgets the project when the app closes, keeping global preferences.
pub fn reset_project_state_for_close(config: &mut AppConfig)
    ensures
        final(config)@ == closed_config(old(config)@),
{
    config.bound_project_path = None;
    config.repo_root = None;
    config.project_name = None;
    config.last_selected_branch = None;
    config.expanded_position = None;
    config.overlay_expanded = true;
}

// ---------------------------------------------------------------------
// Project names
// ---------------------------------------------------------------------

/// A character that Windows refuses in a file or folder name.
pub open spec fn is_reserved_name_char(c: char) -> bool {
    c == '/' || c == '\\' || c == ':' || c == '*' || c == '?' || c == '"' || c == '<' || c == '>'
        || c == '|'
}

/// Whether `s` holds a character that Windows refuses in a name.
pub open spec fn has_reserved_name_char(s: Seq<char>) -> bool {
    exists|i: int| 0 <= i < s.len() && #[trigger] is_reserved_name_char(s[i])
}

/// The project name that a typed name gives: trimmed; an error when blank
/// or when it holds a character Windows refuses in a name.
pub open spec fn project_name_spec(name: Seq<char>) -> Result<Seq<char>, Seq<char>> {
    let t = trim(name);
    if t.len() == 0 {
        Err("Project name is required"@)
    } else if has_reserved_name_char(t) {
        Err("Project name cannot contain Windows path separator characters"@)
    } else {
        Ok(t)
    }
}

/// The view of a string result.
pub open spec fn str_result(r: Result<String, String>) -> Result<Seq<char>, Seq<char>> {
    match r {
        Ok(s) => Ok(s@),
        Err(e) => Err(e@),
    }
}

/// The project name that a typed name gives.
pub fn sanitize_project_name(project_name: &str) -> (r: Result<String, String>)
    ensures
        str_result(r) == project_name_spec(project_name@),
{
    let t = trimmed(&chars_of(project_name));
    if t.len() == 0 {
        return Err(owned("Project name is required"));
    }
    let mut i: usize = 0;
    while i < t.len()
        invariant
            i <= t@.len(),
            t@ == trim(project_name@),
            t@.len() > 0,
            forall|j: int| 0 <= j < i ==> !is_reserved_name_char(#[trigger] t@[j]),
        decreases t@.len() - i,
    {
        let c = t[i];
        if c == '/' || c == '\\' || c == ':' || c == '*' || c == '?' || c == '"' || c == '<' || c
            == '>' || c == '|' {
            assert(is_reserved_name_char(t@[i as int]));
            return Err(owned("Project name cannot contain Windows path separator characters"));
        }
        i += 1;
    }
    Ok(string_from_chars(&t))
}

proof fn lemma_trim_start_shape(s: Seq<char>)
    ensures
        trim_start(s).len() > 0 ==> !is_ws(trim_start(s)[0]),
        trim_start(s) == s.skip(s.len() - trim_start(s).len()),
        trim_start(s).len() <= s.len(),
    decreases s.len(),
{
    if s.len() > 0 && is_ws(s[0]) {
        lemma_trim_start_shape(s.drop_first());
        assert(s.drop_first().skip(s.drop_first().len() - trim_start(s.drop_first()).len()) =~= s.skip(
            s.len() - trim_start(s).len(),
        ));
    } else {
        assert(s.skip(0) =~= s);
    }
}

proof fn lemma_trim_end_shape(s: Seq<char>)
    ensures
        trim_end(s).len() > 0 ==> !is_ws(trim_end(s).last()),
        trim_end(s) == s.take(trim_end(s).len() as int),
        trim_end(s).len() <= s.len(),
    decreases s.len(),
{
    if s.len() > 0 && is_ws(s.last()) {
        lemma_trim_end_shape(s.drop_last());
        assert(s.drop_last().take(trim_end(s.drop_last()).len() as int) =~= s.take(
            trim_end(s).len() as int,
        ));
    } else {
        assert(s.take(s.len() as int) =~= s);
    }
}

/// Trimming a text that starts with no white space leaves its start.
proof fn lemma_trim_start_noop(s: Seq<char>)
    requires
        s.len() > 0 ==> !is_ws(s[0]),
    ensures
        trim_start(s) == s,
{
}

/// A trimmed text neither starts nor ends with white space.
pub proof fn lemma_trim_shape(s: Seq<char>)
    ensures
        trim(s).len() > 0 ==> !is_ws(trim(s)[0]) && !is_ws(trim(s).last()),
{
    lemma_trim_start_shape(s);
    let a = trim_start(s);
    lemma_trim_end_shape(a);
    if trim(s).len() > 0 {
        assert(trim(s)[0] == a[0]);
    }
}

/// Trimming is idempotent.
pub proof fn lemma_trim_idempotent(s: Seq<char>)
    ensures
        trim(trim(s)) == trim(s),
{
    lemma_trim_shape(s);
    let t = trim(s);
    lemma_trim_start_noop(t);
    if t.len() > 0 {
        assert(trim_end(t) == t);
    }
}

/// Sanitizing a project name that was accepted gives it back unchanged,
/// and the accepted name is never blank and holds no reserved character.
pub proof fn law_project_name_stable(name: Seq<char>)
    requires
        project_name_spec(name) is Ok,
    ensures
        project_name_spec(project_name_spec(name)->Ok_0) == project_name_spec(name),
        project_name_spec(name)->Ok_0.len() > 0,
        !has_reserved_name_char(project_name_spec(name)->Ok_0),
{
    lemma_trim_idempotent(name);
}

// ---------------------------------------------------------------------
// Cloning
// ---------------------------------------------------------------------

/// Whether `s` starts with `p`.
fn begins(s: &[char], p: &str) -> (r: bool)
    ensures
        r == starts_with(s@, p@),
{
    has_prefix(s, &chars_of(p))
}

/// Whether a remote address (lower-cased) names GitHub over HTTP(S) or
/// SSH, any SSH host, or a `file://` URL.
pub open spec fn known_remote_scheme(lower: Seq<char>) -> bool {
    ||| starts_with(lower, "https://github.com/"@)
    ||| starts_with(lower, "http://github.com/"@)
    ||| starts_with(lower, "ssh://"@)
    ||| starts_with(lower, "git@github.com:"@)
    ||| starts_with(lower, "file://"@)
}

/// Whether `s` holds white space.
pub open spec fn has_ws(s: Seq<char>) -> bool {
    exists|i: int| 0 <= i < s.len() && #[trigger] is_ws(s[i])
}

/// The remote address that a typed one gives for cloning: trimmed; refused
/// when blank, when it holds a NUL, when it is neither a known scheme nor
/// an existing local path, or when a non-local address holds white space.
pub open spec fn clone_remote_spec(url: Seq<char>, is_local_path: bool) -> Result<
    Seq<char>,
    Seq<char>,
> {
    let t = trim(url);
    if t.len() == 0 {
        Err("Remote URL is required"@)
    } else if has_char(t, '\0') {
        Err("Remote URL contains an invalid character"@)
    } else if !(known_remote_scheme(to_ascii_lower(t)) || is_local_path) {
        Err("Enter a GitHub HTTPS or SSH remote URL"@)
    } else if !is_local_path && has_ws(t) {
        Err("Remote URL cannot contain spaces"@)
    } else {
        Ok(t)
    }
}

/// The remote address that a typed one gives for cloning;
/// `is_local_path` tells whether the trimmed address names an existing
/// path on this machine.
pub fn validate_clone_remote_url(remote_url: &str, is_local_path: bool) -> (r: Result<
    String,
    String,
>)
    ensures
        str_result(r) == clone_remote_spec(remote_url@, is_local_path),
{
    let t = trimmed(&chars_of(remote_url));
    if t.len() == 0 {
        return Err(owned("Remote URL is required"));
    }
    if contains_char(&t, '\0') {
        return Err(owned("Remote URL contains an invalid character"));
    }
    let l = lower(&t);
    let valid = begins(&l, "https://github.com/") || begins(&l, "http://github.com/") || begins(
        &l,
        "ssh://",
    ) || begins(&l, "git@github.com:") || begins(&l, "file://") || is_local_path;
    if !valid {
        return Err(owned("Enter a GitHub HTTPS or SSH remote URL"));
    }
    if !is_local_path {
        let mut i: usize = 0;
        while i < t.len()
            invariant
                i <= t@.len(),
                t@ == trim(remote_url@),
                t@.len() > 0,
                !has_char(t@, '\0'),
                known_remote_scheme(to_ascii_lower(t@)) || is_local_path,
                !is_local_path,
                forall|j: int| 0 <= j < i ==> !is_ws(#[trigger] t@[j]),
            decreases t@.len() - i,
        {
            if is_whitespace(t[i]) {
                assert(is_ws(t@[i as int]));
                return Err(owned("Remote URL cannot contain spaces"));
            }
            i += 1;
        }
    }
    Ok(string_from_chars(&t))
}

/// An accepted project name is the typed name trimmed, not blank, and holds
/// none of `/`, `\`, `:`, `*`, `?`, `"`, `<`, `>`, `|`; a trimmed name that
/// holds one of them is refused with the separator error.
pub proof fn law_project_name_characters(name: Seq<char>)
    ensures
        project_name_spec(name) matches Ok(t) ==> t == trim(name) && t.len() > 0 && forall|i: int|
            0 <= i < t.len() ==> t[i] != '/' && t[i] != '\\' && t[i] != ':' && t[i] != '*' && t[i] != '?' && t[i] != '"' && t[i] != '<' && t[i] != '>' && t[i] != '|',
        (trim(name).len() > 0 && exists|i: int| 0 <= i < trim(name).len() && (trim(name)[i] == '/' || trim(name)[i] == '\\' || trim(name)[i] == ':' || trim(name)[i] == '*' || trim(name)[i] == '?' || trim(name)[i] == '"' || trim(name)[i] == '<' || trim(name)[i] == '>' || trim(name)[i] == '|'))
            ==> project_name_spec(name) == Err::<Seq<char>, Seq<char>>(
            "Project name cannot contain Windows path separator characters"@,
        ),
{
    let t = trim(name);
    if t.len() > 0 && exists|i: int| 0 <= i < t.len() && (t[i] == '/' || t[i] == '\\' || t[i] == ':' || t[i] == '*' || t[i] == '?' || t[i] == '"' || t[i] == '<' || t[i] == '>' || t[i] == '|') {
        let i = choose|i: int| 0 <= i < t.len() && (t[i] == '/' || t[i] == '\\' || t[i] == ':' || t[i] == '*' || t[i] == '?' || t[i] == '"' || t[i] == '<' || t[i] == '>' || t[i] == '|');
        assert(is_reserved_name_char(t[i]));
    }
    if project_name_spec(name) is Ok {
        assert forall|i: int| 0 <= i < t.len() implies t[i] != '/' && t[i] != '\\' && t[i] != ':' && t[i] != '*' && t[i] != '?' && t[i] != '"' && t[i] != '<' && t[i] != '>' && t[i] != '|' by {
            if is_reserved_name_char(t[i]) {
                assert(has_reserved_name_char(t));
            }
        }
    }
}

/// A trimmed address that is not blank, holds no NUL and no white space,
/// and whose ASCII-lower-cased form starts with `https://github.com/`,
/// `http://github.com/`, `ssh://`, `git@github.com:` or `file://` is
/// accepted as it is; a non-blank, NUL-free address that starts with none
/// of them and is no local path is refused with the scheme error.
pub proof fn law_clone_remote_schemes(url: Seq<char>, is_local_path: bool)
    ensures
        ({
            let t = trim(url);
            let l = to_ascii_lower(t);
            let known = starts_with(l, "https://github.com/"@) || starts_with(
                l,
                "http://github.com/"@,
            ) || starts_with(l, "ssh://"@) || starts_with(l, "git@github.com:"@) || starts_with(
                l,
                "file://"@,
            );
            &&& (t.len() > 0 && !has_char(t, '\0') && (forall|i: int|
                0 <= i < t.len() ==> !is_ws(#[trigger] t[i])) && known) ==> clone_remote_spec(
                url,
                is_local_path,
            ) == Ok::<Seq<char>, Seq<char>>(t)
            &&& (t.len() > 0 && !has_char(t, '\0') && !known && !is_local_path) ==> clone_remote_spec(
                url,
                is_local_path,
            ) == Err::<Seq<char>, Seq<char>>("Enter a GitHub HTTPS or SSH remote URL"@)
        }),
{
}

/// An accepted remote address is accepted again, unchanged.
pub proof fn law_clone_remote_stable(url: Seq<char>, is_local_path: bool)
    requires
        clone_remote_spec(url, is_local_path) is Ok,
    ensures
        clone_remote_spec(clone_remote_spec(url, is_local_path)->Ok_0, is_local_path)
            == clone_remote_spec(url, is_local_path),
{
    lemma_trim_idempotent(url);
}

/// Whether a clone may go into a destination: not into a Git repository,
/// and, when it exists, only into an empty folder.
pub open spec fn clone_destination_spec(
    has_git_dir: bool,
    exists: bool,
    is_dir: bool,
    has_entries: bool,
) -> Result<(), Seq<char>> {
    if has_git_dir {
        Err("Destination already contains a Git repo"@)
    } else if exists && !is_dir {
        Err("Clone destination must be a folder"@)
    } else if exists && has_entries {
        Err("Clone destination must be empty"@)
    } else {
        Ok(())
    }
}

/// Whether a clone may go into a destination, from what the file system
/// shows of it: a `.git` inside, whether it exists, is a folder, and holds
/// an entry (looked at only for an existing folder).
pub fn validate_clone_destination(
    has_git_dir: bool,
    exists: bool,
    is_dir: bool,
    has_entries: bool,
) -> (r: Result<(), String>)
    ensures
        match (r, clone_destination_spec(has_git_dir, exists, is_dir, has_entries)) {
            (Ok(()), Ok(())) => true,
            (Err(e), Err(f)) => e@ == f,
            _ => false,
        },
{
    if has_git_dir {
        return Err(owned("Destination already contains a Git repo"));
    }
    if exists {
        if !is_dir {
            return Err(owned("Clone destination must be a folder"));
        }
        if has_entries {
            return Err(owned("Clone destination must be empty"));
        }
    }
    Ok(())
}

/// The folder a clone is run from: the destination's parent, or `.`.
pub fn clone_parent(destination: &str) -> (r: String)
    ensures
        r@ == match parent(destination@) {
            Some(p) => p,
            None => "."@,
        },
{
    match parent_of(&chars_of(destination)) {
        Some(p) => string_from_chars(&p),
        None => owned("."),
    }
}

/// The arguments that clone a remote into a destination.
pub fn clone_args(remote_url: &str, destination: &str) -> (r: Vec<String>)
    ensures
        string_views(r@) == seq!["clone"@, remote_url@, destination@],
{
    let items: [&str; 3] = ["clone", remote_url, destination];
    let r = strs(&items);
    assert(string_views(r@) =~= seq!["clone"@, remote_url@, destination@]);
    r
}

// ---------------------------------------------------------------------
// Binding a project
// ---------------------------------------------------------------------

/// The outcome of binding a project.
#[derive(Debug)]
pub struct BindProjectResult {
    pub bound_project_path: String,
    pub repo_root: String,
    pub is_repo: bool,
    pub project_name: Option<String>,
    pub flp_files: Vec<String>,
}

/// The folder a bound path stands for: the parent of a file, the path
/// itself otherwise; an error for a file without a parent.
pub fn repo_candidate(bound_path: &str, is_file: bool) -> (r: Result<String, String>)
    ensures
        str_result(r) == if is_file {
            match parent(bound_path@) {
                Some(p) => Ok(p),
                None => Err("Selected file has no parent directory"@),
            }
        } else {
            Ok(bound_path@)
        },
{
    if is_file {
        match parent_of(&chars_of(bound_path)) {
            Some(p) => Ok(string_from_chars(&p)),
            None => Err(owned("Selected file has no parent directory")),
        }
    } else {
        Ok(owned(bound_path))
    }
}

/// The repository root: Git's top-level directory around the candidate
/// folder, or the candidate folder itself.
pub fn choose_repo_root(candidate: &str, toplevel: Option<String>) -> (r: String)
    ensures
        r@ == match toplevel {
            Some(t) => t@,
            None => candidate@,
        },
{
    match toplevel {
        Some(t) => t,
        None => owned(candidate),
    }
}

/// The name of a bound project: the name stored in its metadata, else the
/// repository folder's name.
pub open spec fn project_name_of(metadata_name: Option<Seq<char>>, repo_root: Seq<char>) -> Option<
    Seq<char>,
> {
    match metadata_name {
        Some(n) => Some(n),
        None => file_name(repo_root),
    }
}

/// The configuration after binding a project.
pub open spec fn bound_config(
    c: ConfigModel,
    bound: Seq<char>,
    root: Seq<char>,
    name: Option<Seq<char>>,
) -> ConfigModel {
    ConfigModel {
        bound_project_path: Some(bound),
        repo_root: Some(root),
        project_name: name,
        ..c
    }
}

/// Binds a project: records the bound path, its repository root and its
/// name in the configuration, and reports them with the project's FL
/// files.
pub fn bind_project_path(
    config: &mut AppConfig,
    bound_path: &str,
    repo_root: &str,
    is_repo: bool,
    flp_files: Vec<String>,
    metadata_name: Option<String>,
) -> (r: BindProjectResult)
    ensures
        final(config)@ == bound_config(
            old(config)@,
            bound_path@,
            repo_root@,
            project_name_of(opt_seq(metadata_name), repo_root@),
        ),
        r.bound_project_path@ == bound_path@,
        r.repo_root@ == repo_root@,
        r.is_repo == is_repo,
        opt_seq(r.project_name) == project_name_of(opt_seq(metadata_name), repo_root@),
        r.flp_files@ == flp_files@,
{
    let name: Option<String> = match metadata_name {
        Some(n) => Some(n),
        None => match file_name_of(&chars_of(repo_root)) {
            Some(f) => Some(string_from_chars(&f)),
            None => None,
        },
    };
    config.bound_project_path = Some(owned(bound_path));
    config.repo_root = Some(owned(repo_root));
    config.project_name = match &name {
        Some(n) => Some(n.clone()),
        None => None,
    };
    BindProjectResult {
        bound_project_path: owned(bound_path),
        repo_root: owned(repo_root),
        is_repo,
        project_name: name,
        flp_files,
    }
}

/// An entry of a folder: its path and whether it is a file.
#[derive(Debug)]
pub struct DirEntryInfo {
    pub path: String,
    pub is_file: bool,
}

/// Whether a path has the `flp` extension, in any case.
pub open spec fn is_flp_path(p: Seq<char>) -> bool {
    match extension(p) {
        Some(e) => to_ascii_lower(e) == "flp"@,
        None => false,
    }
}

/// Whether a path's final component is `Backup`, in any case.
pub open spec fn is_backup_folder(p: Seq<char>) -> bool {
    match file_name(p) {
        Some(n) => to_ascii_lower(n) == "backup"@,
        None => false,
    }
}

/// The entries that are FL project files outside a `Backup` folder.
pub open spec fn flp_entries(entries: Seq<(Seq<char>, bool)>) -> Seq<Seq<char>> {
    entries.filter(|e: (Seq<char>, bool)| !is_backup_folder(e.0) && e.1 && is_flp_path(e.0)).map_values(
        |e: (Seq<char>, bool)| e.0,
    )
}

/// The models of folder entries.
pub open spec fn entry_views(v: Seq<DirEntryInfo>) -> Seq<(Seq<char>, bool)> {
    v.map_values(|e: DirEntryInfo| (e.path@, e.is_file))
}

fn is_flp(p: &[char]) -> (r: bool)
    ensures
        r == is_flp_path(p@),
{
    let e = lower_extension(p);
    proof {
        reveal_strlit("flp");
    }
    let r = is_literal_chars(&e, "flp");
    proof {
        if extension(p@) is None {
            assert(e@.len() == 0);
            assert("flp"@.len() == 3);
        }
    }
    r
}

fn is_backup_dir(p: &[char]) -> (r: bool)
    ensures
        r == is_backup_folder(p@),
{
    match file_name_of(p) {
        Some(n) => is_literal_chars(&lower(&n), "backup"),
        None => false,
    }
}

/// The FL project files of a bound path: the path itself when it is a file
/// with the `flp` extension (none when it is another file); for a folder,
/// its entries that are FL project files outside `Backup`, sorted.
pub fn list_flp_files(path: &str, is_file: bool, entries: &Vec<DirEntryInfo>) -> (r: Vec<String>)
    ensures
        is_file ==> string_views(r@) == if is_flp_path(path@) {
            seq![path@]
        } else {
            seq![]
        },
        !is_file ==> sorted(string_views(r@)) && string_views(r@).to_multiset() == flp_entries(
            entry_views(entries@),
        ).to_multiset(),
{
    if is_file {
        let mut r: Vec<String> = Vec::new();
        if is_flp(&chars_of(path)) {
            r.push(owned(path));
        }
        assert(string_views(r@) =~= if is_flp_path(path@) {
            seq![path@]
        } else {
            seq![]
        });
        return r;
    }
    let ghost ev = entry_views(entries@);
    let ghost pred = |e: (Seq<char>, bool)| !is_backup_folder(e.0) && e.1 && is_flp_path(e.0);
    let mut kept: Vec<Vec<char>> = Vec::new();
    let mut i: usize = 0;
    assert(ev.take(0).filter(pred) =~= Seq::<(Seq<char>, bool)>::empty());
    while i < entries.len()
        invariant
            i <= entries@.len(),
            ev == entry_views(entries@),
            pred == (|e: (Seq<char>, bool)| !is_backup_folder(e.0) && e.1 && is_flp_path(e.0)),
            views(kept@) == ev.take(i as int).filter(pred).map_values(|e: (Seq<char>, bool)| e.0),
        decreases entries@.len() - i,
    {
        let e = &entries[i];
        let p = chars_of(e.path.as_str());
        proof {
            assert(ev[i as int] == (e.path@, e.is_file));
            assert(ev.take(i + 1) =~= ev.take(i as int).push(ev[i as int]));
            ev.take(i as int).lemma_filter_push(ev[i as int], pred);
        }
        if !is_backup_dir(&p) && e.is_file && is_flp(&p) {
            let ghost prev = kept@;
            let ghost f = ev.take(i as int).filter(pred);
            kept.push(p);
            assert(views(kept@) =~= views(prev).push(e.path@));
            assert(views(kept@) =~= f.push(ev[i as int]).map_values(|e: (Seq<char>, bool)| e.0));
        }
        i += 1;
    }
    assert(ev.take(ev.len() as int) =~= ev);
    let s = sort_strings(&kept);
    strings_of(&s)
}

// ---------------------------------------------------------------------
// Setting up a repository
// ---------------------------------------------------------------------

/// The branch a new repository starts on: the requested one when it is not
/// blank, else `main`.
pub fn default_branch_name(branch: Option<String>) -> (r: String)
    ensures
        r@ == match branch {
            Some(b) => if trim(b@).len() > 0 {
                b@
            } else {
                "main"@
            },
            None => "main"@,
        },
{
    match branch {
        Some(b) => {
            if trimmed(&chars_of(b.as_str())).len() > 0 {
                b
            } else {
                owned("main")
            }
        },
        None => owned("main"),
    }
}

/// The arguments that put a repository on its branch: `branch -M` when it
/// already exists, `init --initial-branch` when it does not.
pub fn init_args(has_git_dir: bool, branch: &str) -> (r: Vec<String>)
    ensures
        string_views(r@) == if has_git_dir {
            seq!["branch"@, "-M"@, branch@]
        } else {
            seq!["init"@, "--initial-branch"@, branch@]
        },
{
    if has_git_dir {
        let items: [&str; 3] = ["branch", "-M", branch];
        let r = strs(&items);
        assert(string_views(r@) =~= seq!["branch"@, "-M"@, branch@]);
        r
    } else {
        let items: [&str; 3] = ["init", "--initial-branch", branch];
        let r = strs(&items);
        assert(string_views(r@) =~= seq!["init"@, "--initial-branch"@, branch@]);
        r
    }
}

/// Records a freshly set-up repository and its project name.
pub fn record_initialized_project(config: &mut AppConfig, repo_root: &str, project_name: &str)
    ensures
        final(config)@ == (ConfigModel {
            repo_root: Some(repo_root@),
            project_name: Some(project_name@),
            ..old(config)@
        }),
{
    config.repo_root = Some(owned(repo_root));
    config.project_name = Some(owned(project_name));
}

/// The flpdiff program to run: the one given, else the one found, else
/// `flpdiff` on the search path.
pub fn flpdiff_exe(given: Option<String>, found: Option<String>) -> (r: String)
    ensures
        r@ == match (given, found) {
            (Some(g), _) => g@,
            (None, Some(f)) => f@,
            (None, None) => "flpdiff"@,
        },
{
    match given {
        Some(g) => g,
        None => match found {
            Some(f) => f,
            None => owned("flpdiff"),
        },
    }
}

/// The arguments that ask flpdiff to describe an FL project file as JSON.
pub fn flpdiff_info_args(file_path: &str) -> (r: Vec<String>)
    ensures
        string_views(r@) == seq!["info"@, file_path@, "--format"@, "json"@],
{
    let items: [&str; 4] = ["info", file_path, "--format", "json"];
    let r = strs(&items);
    assert(string_views(r@) =~= seq!["info"@, file_path@, "--format"@, "json"@]);
    r
}

/// The arguments that register flpdiff as the local diff driver for FL
/// project files.
pub fn flpdiff_driver_config_args(exe: &str) -> (r: Vec<String>)
    ensures
        string_views(r@) == seq!["config"@, "--local"@, "diff.flp.command"@, exe@],
{
    let items: [&str; 4] = ["config", "--local", "diff.flp.command", exe];
    let r = strs(&items);
    assert(string_views(r@) =~= seq!["config"@, "--local"@, "diff.flp.command"@, exe@]);
    r
}

// ---------------------------------------------------------------------
// Publishing and locking
// ---------------------------------------------------------------------

/// The GitHub CLI flag for a requested visibility: public, internal, or
/// (for anything else, and by default) private.
pub fn visibility_flag(visibility: &Option<String>) -> (r: String)
    ensures
        r@ == match visibility {
            Some(v) => if v@ == "public"@ {
                "--public"@
            } else if v@ == "internal"@ {
                "--internal"@
            } else {
                "--private"@
            },
            None => "--private"@,
        },
{
    match visibility {
        Some(v) => {
            let c = chars_of(v.as_str());
            if is_literal_chars(&c, "public") {
                owned("--public")
            } else if is_literal_chars(&c, "internal") {
                owned("--internal")
            } else {
                owned("--private")
            }
        },
        None => owned("--private"),
    }
}

/// The GitHub CLI arguments that create a repository from the project and
/// push it as `origin`.
pub fn publish_args(repo_name: &str, flag: &str) -> (r: Vec<String>)
    ensures
        string_views(r@) == seq![
            "repo"@,
            "create"@,
            repo_name@,
            "--source"@,
            "."@,
            "--remote"@,
            "origin"@,
            "--push"@,
            flag@,
        ],
{
    let items: [&str; 9] = [
        "repo",
        "create",
        repo_name,
        "--source",
        ".",
        "--remote",
        "origin",
        "--push",
        flag,
    ];
    let r = strs(&items);
    assert(string_views(r@) =~= seq![
        "repo"@,
        "create"@,
        repo_name@,
        "--source"@,
        "."@,
        "--remote"@,
        "origin"@,
        "--push"@,
        flag@,
    ]);
    r
}

/// The edit lock of a project.
#[derive(Debug)]
pub struct ProjectLock {
    pub active: bool,
    pub owner: Option<String>,
    pub created_at_unix: Option<u64>,
}

/// A new active lock, owned by the configured user (or an unknown
/// collaborator), taken at `now`.
pub fn new_project_lock(owner: Option<String>, now: u64) -> (r: ProjectLock)
    ensures
        r.active,
        opt_seq(r.owner) == Some(
            match owner {
                Some(o) => o@,
                None => "Unknown collaborator"@,
            },
        ),
        r.created_at_unix == Some(now),
{
    let name = match owner {
        Some(o) => o,
        None => owned("Unknown collaborator"),
    };
    ProjectLock { active: true, owner: Some(name), created_at_unix: Some(now) }
}

/// Which tools are available, and their versions.
#[derive(Debug)]
pub struct PrerequisiteStatus {
    pub git_available: bool,
    pub git_lfs_available: bool,
    pub github_cli_available: bool,
    pub flpdiff_available: bool,
    pub git_version: Option<String>,
    pub git_lfs_version: Option<String>,
    pub github_cli_version: Option<String>,
    pub flpdiff_version: Option<String>,
}

/// The availability of the tools: a tool is available exactly when it
/// reported a version.
pub fn prerequisite_status(
    git: Option<String>,
    git_lfs: Option<String>,
    github_cli: Option<String>,
    flpdiff: Option<String>,
) -> (r: PrerequisiteStatus)
    ensures
        r.git_available == git is Some,
        r.git_lfs_available == git_lfs is Some,
        r.github_cli_available == github_cli is Some,
        r.flpdiff_available == flpdiff is Some,
        r.git_version == git,
        r.git_lfs_version == git_lfs,
        r.github_cli_version == github_cli,
        r.flpdiff_version == flpdiff,
{
    PrerequisiteStatus {
        git_available: git.is_some(),
        git_lfs_available: git_lfs.is_some(),
        github_cli_available: github_cli.is_some(),
        flpdiff_available: flpdiff.is_some(),
        git_version: git,
        git_lfs_version: git_lfs,
        github_cli_version: github_cli,
        flpdiff_version: flpdiff,
    }
}

/// An entry that a project file listing holds.
pub open spec fn listed_entry(entries: Seq<(Seq<char>, bool)>, p: Seq<char>) -> bool {
    exists|e: (Seq<char>, bool)|
        #[trigger] entries.contains(e) && e.0 == p && e.1 && is_flp_path(e.0) && !is_backup_folder(e.0)
}

proof fn lemma_listed_is_entry(entries: Seq<(Seq<char>, bool)>, p: Seq<char>)
    requires
        flp_entries(entries).contains(p),
    ensures
        listed_entry(entries, p),
{
    let keep = |e: (Seq<char>, bool)| !is_backup_folder(e.0) && e.1 && is_flp_path(e.0);
    let kept = entries.filter(keep);
    let j = choose|j: int| 0 <= j < flp_entries(entries).len() && flp_entries(entries)[j] == p;
    assert(flp_entries(entries)[j] == kept[j].0);
    entries.lemma_filter_pred(keep, j);
    assert(kept.contains(kept[j]));
    entries.lemma_filter_contains_rev(keep, kept[j]);
    assert(entries.contains(kept[j]));
}

/// A folder's FL project file listing is determined by the folder's
/// entries: two sorted listings that hold its FL project files outside
/// `Backup`, each as often as the entries do, are the same listing, and
/// each listed path is an entry that is a file with the `flp` extension and
/// not a `Backup` folder.
pub proof fn law_flp_listing_determined(
    entries: Seq<(Seq<char>, bool)>,
    a: Seq<Seq<char>>,
    b: Seq<Seq<char>>,
)
    requires
        sorted(a),
        sorted(b),
        a.to_multiset() == flp_entries(entries).to_multiset(),
        b.to_multiset() == flp_entries(entries).to_multiset(),
    ensures
        a == b,
        forall|k: int| 0 <= k < a.len() ==> listed_entry(entries, #[trigger] a[k]),
{
    broadcast use vstd::seq_lib::group_to_multiset_ensures;

    lemma_sorted_unique(a, b);
    assert forall|k: int| 0 <= k < a.len() implies listed_entry(entries, #[trigger] a[k]) by {
        assert(a.contains(a[k]));
        assert(flp_entries(entries).to_multiset().count(a[k]) > 0);
        lemma_listed_is_entry(entries, a[k]);
    }
}

// ---------------------------------------------------------------------
// Laws of the binding
// ---------------------------------------------------------------------

/// Closing after binding a project forgets the binding and keeps the
/// preferences that were set before the binding.
pub proof fn law_close_forgets_binding(
    c: ConfigModel,
    bound: Seq<char>,
    root: Seq<char>,
    name: Option<Seq<char>>,
)
    ensures
        closed_config(bound_config(c, bound, root, name)) == closed_config(c),
        closed_config(bound_config(c, bound, root, name)).bound_project_path is None,
        closed_config(bound_config(c, bound, root, name)).repo_root is None,
        closed_config(bound_config(c, bound, root, name)).overlay_placement == c.overlay_placement,
        closed_config(bound_config(c, bound, root, name)).git_path == c.git_path,
        closed_config(bound_config(c, bound, root, name)).git_lfs_path == c.git_lfs_path,
        closed_config(bound_config(c, bound, root, name)).flpdiff_path == c.flpdiff_path,
{
}

/// Closing twice is closing once; a closed configuration opens expanded
/// with no project bound, like a first start.
pub proof fn law_close_idempotent(c: ConfigModel)
    ensures
        closed_config(closed_config(c)) == closed_config(c),
        closed_config(c).overlay_expanded == default_config().overlay_expanded,
        closed_config(c).bound_project_path == default_config().bound_project_path,
        closed_config(c).repo_root == default_config().repo_root,
        closed_config(c).expanded_position == default_config().expanded_position,
{
}

} // verus!
