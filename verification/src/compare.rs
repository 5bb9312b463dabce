//! Comparing two commits: the Git commands that list the surface changes
//! and the changed FL project files, and the report that combines them with
//! flpdiff's semantic diff of each FL project file.
use vstd::prelude::*;
use crate::text::{
    append, append_str, chars_of, copy_range, is_blank, join, join_with, lines, owned, replace,
    replace_char, split_lines, string_from_chars, string_views, strs, take_chars, trim, trimmed,
    views, extend_strings, chars_of_all,
};
use crate::commands::{compare_surface_pathspecs, surface_pathspecs};
use crate::git::{GitOutput, OutputModel, output};
use crate::paths::{sanitize_temp_file_name, temp_name_char};

verus! {

broadcast use vstd::seq_lib::group_seq_properties;

/// The command lines of a comparison: the summary and the patch of the
/// surface files, and the names of the changed FL project files.
pub fn diff_commits_args(base: &str, head: &str) -> (r: (Vec<String>, Vec<String>, Vec<String>))
    ensures
        string_views(r.0@) == seq!["diff"@, "--stat"@, "--summary"@, base@, head@]
            + surface_pathspecs(),
        string_views(r.1@) == seq!["diff"@, base@, head@] + surface_pathspecs(),
        string_views(r.2@) == seq![
            "diff"@,
            "--name-only"@,
            base@,
            head@,
            "--"@,
            "*.flp"@,
            "*.FLP"@,
        ],
{
    let items: [&str; 5] = ["diff", "--stat", "--summary", base, head];
    let mut summary = strs(&items);
    assert(string_views(summary@) =~= seq!["diff"@, "--stat"@, "--summary"@, base@, head@]);
    extend_strings(&mut summary, compare_surface_pathspecs());
    let items: [&str; 3] = ["diff", base, head];
    let mut patch = strs(&items);
    assert(string_views(patch@) =~= seq!["diff"@, base@, head@]);
    extend_strings(&mut patch, compare_surface_pathspecs());
    let items: [&str; 7] = ["diff", "--name-only", base, head, "--", "*.flp", "*.FLP"];
    let names = strs(&items);
    assert(string_views(names@) =~= seq![
        "diff"@,
        "--name-only"@,
        base@,
        head@,
        "--"@,
        "*.flp"@,
        "*.FLP"@,
    ]);
    (summary, patch, names)
}

/// The first twelve characters of a revision (all of it when shorter).
pub open spec fn short_revision(r: Seq<char>) -> Seq<char> {
    if r.len() <= 12 {
        r
    } else {
        r.take(12)
    }
}

/// The surface part of a comparison: the trimmed summary and patch that are
/// not empty, separated by a blank line.
pub open spec fn surface_text(summary: Seq<char>, patch: Seq<char>) -> Seq<char> {
    join_with(seq![trim(summary), trim(patch)].filter(|p: Seq<char>| p.len() > 0), "\n\n"@)
}

/// The report of a comparison: a heading naming both revisions; the surface
/// diff, or a note that Git returned none; then the semantic FLP diff when
/// it is not blank.
pub open spec fn comparison_text(
    base: Seq<char>,
    head: Seq<char>,
    summary: Seq<char>,
    patch: Seq<char>,
    semantic: Seq<char>,
) -> Seq<char> {
    let surface = surface_text(summary, patch);
    "Comparing "@ + short_revision(base) + ".."@ + short_revision(head) + "\n\n"@ + (if surface.len()
        == 0 {
        "No surface file changes were returned by Git.\n"@
    } else {
        "Git file diff:\n"@ + surface + "\n"@
    }) + (if trim(semantic).len() > 0 {
        "\n"@ + semantic
    } else {
        seq![]
    })
}

/// The error texts of a comparison's commands that are not blank, one per
/// line.
pub open spec fn comparison_errors(a: Seq<char>, b: Seq<char>, c: Seq<char>) -> Seq<char> {
    join_with(seq![a, b, c].filter(|p: Seq<char>| trim(p).len() > 0), "\n"@)
}

proof fn lemma_filter_pair(a: Seq<char>, b: Seq<char>)
    ensures
        seq![a, b].filter(|p: Seq<char>| p.len() > 0) == (if a.len() > 0 {
            seq![a]
        } else {
            seq![]
        }) + (if b.len() > 0 {
            seq![b]
        } else {
            seq![]
        }),
{
    let f = |p: Seq<char>| p.len() > 0;
    let e = Seq::<Seq<char>>::empty();
    assert(seq![a] =~= e.push(a));
    assert(seq![a, b] =~= e.push(a).push(b));
    e.lemma_filter_push(a, f);
    e.push(a).lemma_filter_push(b, f);
    assert(e.filter(f) =~= e);
    assert(seq![a, b].filter(f) =~= (if a.len() > 0 {
        seq![a]
    } else {
        seq![]
    }) + (if b.len() > 0 {
        seq![b]
    } else {
        seq![]
    }));
}

proof fn lemma_filter_triple(a: Seq<char>, b: Seq<char>, c: Seq<char>)
    ensures
        seq![a, b, c].filter(|p: Seq<char>| trim(p).len() > 0) == (if trim(a).len() > 0 {
            seq![a]
        } else {
            seq![]
        }) + (if trim(b).len() > 0 {
            seq![b]
        } else {
            seq![]
        }) + (if trim(c).len() > 0 {
            seq![c]
        } else {
            seq![]
        }),
{
    let f = |p: Seq<char>| trim(p).len() > 0;
    let e = Seq::<Seq<char>>::empty();
    assert(seq![a, b, c] =~= e.push(a).push(b).push(c));
    e.lemma_filter_push(a, f);
    e.push(a).lemma_filter_push(b, f);
    e.push(a).push(b).lemma_filter_push(c, f);
    assert(e.filter(f) =~= e);
    assert(seq![a, b, c].filter(f) =~= (if trim(a).len() > 0 {
        seq![a]
    } else {
        seq![]
    }) + (if trim(b).len() > 0 {
        seq![b]
    } else {
        seq![]
    }) + (if trim(c).len() > 0 {
        seq![c]
    } else {
        seq![]
    }));
}

fn push_piece(v: &mut Vec<Vec<char>>, x: Vec<char>)
    ensures
        views(final(v)@) == views(old(v)@) + seq![x@],
{
    let ghost prev = views(v@);
    v.push(x);
    assert(views(v@) =~= prev + seq![x@]);
}

/// The combined outcome of a comparison: all three commands' success, the
/// report, and their error texts.
pub fn diff_commits(
    base: &str,
    head: &str,
    summary: &GitOutput,
    patch: &GitOutput,
    flp_paths: &GitOutput,
    semantic: &str,
) -> (r: GitOutput)
    ensures
        r@ == output(
            summary.ok && patch.ok && flp_paths.ok,
            comparison_text(base@, head@, summary.stdout@, patch.stdout@, semantic@),
            comparison_errors(summary.stderr@, patch.stderr@, flp_paths.stderr@),
        ),
{
    let mut out = chars_of("Comparing ");
    append(&mut out, &take_chars(&chars_of(base), 12));
    append_str(&mut out, "..");
    append(&mut out, &take_chars(&chars_of(head), 12));
    append_str(&mut out, "\n\n");
    let s = trimmed(&chars_of(summary.stdout.as_str()));
    let p = trimmed(&chars_of(patch.stdout.as_str()));
    let mut parts: Vec<Vec<char>> = Vec::new();
    assert(views(parts@) =~= Seq::<Seq<char>>::empty());
    let ghost sv = s@;
    let ghost pv = p@;
    if s.len() > 0 {
        push_piece(&mut parts, s);
    }
    if p.len() > 0 {
        push_piece(&mut parts, p);
    }
    proof {
        lemma_filter_pair(sv, pv);
        assert(views(parts@) =~= seq![sv, pv].filter(|p: Seq<char>| p.len() > 0));
    }
    let surface = join(&parts, &chars_of("\n\n"));
    if surface.len() == 0 {
        append_str(&mut out, "No surface file changes were returned by Git.\n");
    } else {
        append_str(&mut out, "Git file diff:\n");
        append(&mut out, &surface);
        append_str(&mut out, "\n");
    }
    if !is_blank(semantic) {
        append_str(&mut out, "\n");
        append_str(&mut out, semantic);
    }
    let mut errs: Vec<Vec<char>> = Vec::new();
    assert(views(errs@) =~= Seq::<Seq<char>>::empty());
    if !is_blank(summary.stderr.as_str()) {
        push_piece(&mut errs, chars_of(summary.stderr.as_str()));
    }
    if !is_blank(patch.stderr.as_str()) {
        push_piece(&mut errs, chars_of(patch.stderr.as_str()));
    }
    if !is_blank(flp_paths.stderr.as_str()) {
        push_piece(&mut errs, chars_of(flp_paths.stderr.as_str()));
    }
    proof {
        lemma_filter_triple(summary.stderr@, patch.stderr@, flp_paths.stderr@);
        assert(views(errs@) =~= seq![summary.stderr@, patch.stderr@, flp_paths.stderr@].filter(
            |p: Seq<char>| trim(p).len() > 0,
        ));
    }
    let err = join(&errs, &chars_of("\n"));
    proof {
        if out@.len() > 0 {
        }
    }
    assert(out@ =~= comparison_text(base@, head@, summary.stdout@, patch.stdout@, semantic@));
    GitOutput {
        ok: summary.ok && patch.ok && flp_paths.ok,
        stdout: string_from_chars(&out),
        stderr: string_from_chars(&err),
    }
}

// ---------------------------------------------------------------------
// The semantic FLP diff
// ---------------------------------------------------------------------

/// The FL project files that `git diff --name-only` listed: its non-blank
/// lines, trimmed, with `/` separators.
pub open spec fn flp_diff_paths(text: Seq<char>) -> Seq<Seq<char>> {
    lines(text).map_values(|l: Seq<char>| trim(l)).filter(|p: Seq<char>| p.len() > 0).map_values(
        |p: Seq<char>| replace_char(p, '\\', '/'),
    )
}

/// The FL project files that `git diff --name-only` listed.
pub fn semantic_diff_paths(paths_text: &str) -> (r: Vec<String>)
    ensures
        string_views(r@) == flp_diff_paths(paths_text@),
{
    let ls = split_lines(&chars_of(paths_text));
    let ghost lv = views(ls@);
    let ghost tv = lv.map_values(|l: Seq<char>| trim(l));
    let mut r: Vec<String> = Vec::new();
    let mut i: usize = 0;
    assert(tv.take(0).filter(|p: Seq<char>| p.len() > 0) =~= Seq::<Seq<char>>::empty());
    while i < ls.len()
        invariant
            i <= ls@.len(),
            lv == views(ls@),
            tv == lv.map_values(|l: Seq<char>| trim(l)),
            string_views(r@) == tv.take(i as int).filter(|p: Seq<char>| p.len() > 0).map_values(
                |p: Seq<char>| replace_char(p, '\\', '/'),
            ),
        decreases ls@.len() - i,
    {
        let t = trimmed(&ls[i]);
        proof {
            assert(tv[i as int] == t@);
            assert(tv.take(i + 1) =~= tv.take(i as int).push(t@));
            tv.take(i as int).lemma_filter_push(t@, |p: Seq<char>| p.len() > 0);
        }
        if t.len() > 0 {
            let n = replace(&t, '\\', '/');
            let ghost prev = r@;
            let ghost kept = tv.take(i as int).filter(|p: Seq<char>| p.len() > 0);
            r.push(string_from_chars(&n));
            assert(string_views(r@) =~= string_views(prev).push(n@));
            assert(string_views(r@) =~= kept.push(t@).map_values(
                |p: Seq<char>| replace_char(p, '\\', '/'),
            ));
        }
        i += 1;
    }
    assert(tv.take(tv.len() as int) =~= tv);
    r
}

/// The names of the two temporary files an FL project file is extracted to.
pub fn flp_temp_names(path: &str) -> (r: (String, String))
    ensures
        r.0@ == "base-"@ + path@.map_values(|c: char| temp_name_char(c)),
        r.1@ == "head-"@ + path@.map_values(|c: char| temp_name_char(c)),
{
    let safe = sanitize_temp_file_name(path);
    let mut a = chars_of("base-");
    append_str(&mut a, safe.as_str());
    let mut b = chars_of("head-");
    append_str(&mut b, safe.as_str());
    (string_from_chars(&a), string_from_chars(&b))
}

/// The section of the semantic diff for one FL project file.
pub open spec fn flp_entry_text(
    path: Seq<char>,
    base_error: Option<Seq<char>>,
    head_error: Option<Seq<char>>,
    diff: Option<OutputModel>,
) -> Seq<char> {
    "\n--- "@ + path + "\n"@ + match (base_error, head_error) {
        (None, None) => match diff {
            Some(d) => if trim(d.stdout).len() == 0 && trim(d.stderr).len() == 0 {
                "No semantic FLP changes reported.\n"@
            } else {
                trim(d.stdout) + (if trim(d.stderr).len() > 0 {
                    "\n"@ + trim(d.stderr)
                } else {
                    seq![]
                }) + "\n"@
            },
            None => seq![],
        },
        (Some(_), None) => "FLP added in selected range.\n"@,
        (None, Some(_)) => "FLP removed in selected range.\n"@,
        (Some(b), Some(h)) => "Could not extract FLP from either revision.\nbase: "@ + b
            + "\nhead: "@ + h + "\n"@,
    }
}

/// The semantic diff report: nothing when no FL project file changed;
/// else the heading followed by each file's section in turn.
pub fn semantic_report(sections: &Vec<String>) -> (r: String)
    ensures
        r@ == if sections@.len() == 0 {
            Seq::<char>::empty()
        } else {
            "Semantic FLP diff:\n"@ + join_with(string_views(sections@), seq![])
        },
{
    if sections.len() == 0 {
        return String::new();
    }
    let mut out = chars_of("Semantic FLP diff:\n");
    let parts = chars_of_all(sections);
    let body = join(&parts, &[]);
    append(&mut out, &body);
    string_from_chars(&out)
}

/// The view of an optional string.
pub open spec fn opt_str(o: Option<String>) -> Option<Seq<char>> {
    match o {
        Some(s) => Some(s@),
        None => None,
    }
}

/// The section of the semantic diff for one FL project file, from why its
/// base and head versions could not be read (none when they could), and
/// flpdiff's output, which exists exactly when both could be read.
pub fn semantic_flp_entry(
    path: &str,
    base_error: &Option<String>,
    head_error: &Option<String>,
    diff: &Option<GitOutput>,
) -> (r: String)
    requires
        diff is Some <==> (base_error is None && head_error is None),
    ensures
        r@ == flp_entry_text(
            path@,
            opt_str(*base_error),
            opt_str(*head_error),
            crate::git::opt_output(*diff),
        ),
{
    let mut out = chars_of("\n--- ");
    append_str(&mut out, path);
    append_str(&mut out, "\n");
    match (base_error, head_error) {
        (None, None) => {
            match diff {
                Some(d) => {
                    let so = trimmed(&chars_of(d.stdout.as_str()));
                    let se = trimmed(&chars_of(d.stderr.as_str()));
                    if so.len() == 0 && se.len() == 0 {
                        append_str(&mut out, "No semantic FLP changes reported.\n");
                    } else {
                        append(&mut out, &so);
                        if se.len() > 0 {
                            append_str(&mut out, "\n");
                            append(&mut out, &se);
                        }
                        append_str(&mut out, "\n");
                    }
                },
                None => {},
            }
        },
        (Some(_), None) => {
            append_str(&mut out, "FLP added in selected range.\n");
        },
        (None, Some(_)) => {
            append_str(&mut out, "FLP removed in selected range.\n");
        },
        (Some(b), Some(h)) => {
            append_str(&mut out, "Could not extract FLP from either revision.\nbase: ");
            append_str(&mut out, b.as_str());
            append_str(&mut out, "\nhead: ");
            append_str(&mut out, h.as_str());
            append_str(&mut out, "\n");
        },
    }
    assert(out@ =~= flp_entry_text(
        path@,
        opt_str(*base_error),
        opt_str(*head_error),
        crate::git::opt_output(*diff),
    ));
    string_from_chars(&out)
}

} // verus!
