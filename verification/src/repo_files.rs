//! The line-set files that the library keeps in a repository:
//! `.gitattributes`, `.gitignore` and `.git/info/attributes`.
//!
//! Each is rewritten as the sorted set of its existing lines and the lines
//! the project needs, one per line, with a final newline.
use vstd::prelude::*;
use crate::text::{chars_of, has_char, lines, string_from_chars, views, find_char, strip_cr,
    lemma_find_char, lemma_find_char_at};
use crate::order::{sorted_union, strictly_sorted, lemma_strictly_sorted_unique, lex_lt,
    lemma_lex_transitive, lemma_lex_total};

verus! {

broadcast use vstd::seq_lib::group_seq_properties;

/// Each string followed by a newline.
pub open spec fn terminated(s: Seq<Seq<char>>) -> Seq<char>
    decreases s.len(),
{
    if s.len() == 0 {
        seq![]
    } else {
        s[0] + seq!['\n'] + terminated(s.drop_first())
    }
}

/// The strings joined with newlines, plus a final newline (`join("\n")`
/// then `push('\n')`).
pub open spec fn file_text(s: Seq<Seq<char>>) -> Seq<char> {
    if s.len() == 0 {
        seq!['\n']
    } else {
        terminated(s)
    }
}

/// The lines of a set, in order.
pub open spec fn in_order(set: Set<Seq<char>>) -> Seq<Seq<char>> {
    choose|r: Seq<Seq<char>>| strictly_sorted(r) && r.to_set() == set
}

/// The file holding, in order and once each, the lines of `existing` and
/// the `required` lines.
pub open spec fn line_set_file(existing: Seq<char>, required: Seq<Seq<char>>) -> Seq<char> {
    file_text(in_order(lines(existing).to_set() + required.to_set()))
}

/// A line that a file can hold and give back unchanged: no newline in it,
/// and no carriage return at its end.
pub open spec fn plain_line(l: Seq<char>) -> bool {
    !has_char(l, '\n') && !(l.len() > 0 && l.last() == '\r')
}

/// The Git attributes that an FL Studio project needs: FL project files and
/// audio through Git LFS, FL project files diffed by flpdiff.
pub open spec fn gitattributes_rules() -> Seq<Seq<char>> {
    seq![
        "*.flp filter=lfs diff=flp merge=lfs -text"@,
        "*.FLP filter=lfs diff=flp merge=lfs -text"@,
        "*.zip filter=lfs diff=lfs merge=lfs -text"@,
        "*.ZIP filter=lfs diff=lfs merge=lfs -text"@,
        "*.wav filter=lfs diff=lfs merge=lfs -text"@,
        "*.WAV filter=lfs diff=lfs merge=lfs -text"@,
        "*.mp3 filter=lfs diff=lfs merge=lfs -text"@,
        "*.MP3 filter=lfs diff=lfs merge=lfs -text"@,
        "*.ogg filter=lfs diff=lfs merge=lfs -text"@,
        "*.OGG filter=lfs diff=lfs merge=lfs -text"@,
        "*.aiff filter=lfs diff=lfs merge=lfs -text"@,
        "*.AIFF filter=lfs diff=lfs merge=lfs -text"@,
        "*.aif filter=lfs diff=lfs merge=lfs -text"@,
        "*.AIF filter=lfs diff=lfs merge=lfs -text"@,
        "*.flac filter=lfs diff=lfs merge=lfs -text"@,
        "*.FLAC filter=lfs diff=lfs merge=lfs -text"@,
        "*.fst filter=lfs diff=lfs merge=lfs -text"@,
        "*.FST filter=lfs diff=lfs merge=lfs -text"@,
    ]
}

/// The ignore rules that an FL Studio project needs: FL's `Backup` folder,
/// temporary files and the library's own logs.
pub open spec fn gitignore_rules() -> Seq<Seq<char>> {
    seq!["Backup/"@, "Backup/**"@, "*.tmp"@, "*.bak"@, ".flgit/logs/"@]
}

/// The local attributes that route FL project files to the flpdiff driver.
pub open spec fn flpdiff_driver_rules() -> Seq<Seq<char>> {
    seq!["*.flp diff=flp"@, "*.FLP diff=flp"@]
}

// ---------------------------------------------------------------------
// Lemmas
// ---------------------------------------------------------------------

proof fn lemma_terminated_push(s: Seq<Seq<char>>, e: Seq<char>)
    ensures
        terminated(s.push(e)) == terminated(s) + e + seq!['\n'],
    decreases s.len(),
{
    if s.len() == 0 {
        assert(s.push(e).drop_first() =~= Seq::<Seq<char>>::empty());
        assert(terminated(s.push(e)) =~= e + seq!['\n']);
    } else {
        assert(s.push(e).drop_first() =~= s.drop_first().push(e));
        lemma_terminated_push(s.drop_first(), e);
        assert(terminated(s.push(e)) =~= terminated(s) + e + seq!['\n']);
    }
}

/// No line that `lines` yields holds a newline.
pub proof fn lemma_lines_have_no_newline(s: Seq<char>)
    ensures
        forall|k: int| 0 <= k < lines(s).len() ==> !has_char(#[trigger] lines(s)[k], '\n'),
    decreases s.len(),
{
    if s.len() > 0 {
        let i = find_char(s, '\n');
        lemma_find_char(s, '\n');
        if i >= 0 {
            lemma_lines_have_no_newline(s.skip(i + 1));
            let first = strip_cr(s.take(i));
            assert(!has_char(first, '\n')) by {
                if has_char(first, '\n') {
                    let j = choose|j: int| 0 <= j < first.len() && first[j] == '\n';
                    assert(s[j] == '\n');
                }
            }
            assert forall|k: int| 0 <= k < lines(s).len() implies !has_char(
                #[trigger] lines(s)[k],
                '\n',
            ) by {
                if k > 0 {
                    assert(lines(s)[k] == lines(s.skip(i + 1))[k - 1]);
                }
            }
        } else {
            assert(lines(s) == seq![s]);
            assert(!has_char(s, '\n'));
        }
    }
}

/// A file written from plain lines reads back as those lines.
pub proof fn lemma_lines_of_terminated(s: Seq<Seq<char>>)
    requires
        forall|k: int| 0 <= k < s.len() ==> plain_line(#[trigger] s[k]),
    ensures
        lines(terminated(s)) == s,
    decreases s.len(),
{
    if s.len() > 0 {
        let rest = s.drop_first();
        lemma_lines_of_terminated(rest);
        let t = terminated(s);
        let n = s[0].len() as int;
        assert(plain_line(s[0]));
        assert(t =~= s[0] + seq!['\n'] + terminated(rest));
        assert forall|j: int| 0 <= j < n implies t[j] != '\n' by {
            assert(t[j] == s[0][j]);
        }
        lemma_find_char_at(t, '\n', n);
        assert(t.take(n) =~= s[0]);
        assert(t.skip(n + 1) =~= terminated(rest));
        assert(lines(t) =~= seq![s[0]] + rest);
        assert(s =~= seq![s[0]] + rest);
    }
}

/// A strictly sorted sequence is the in-order listing of its set.
proof fn lemma_in_order(r: Seq<Seq<char>>)
    requires
        strictly_sorted(r),
    ensures
        in_order(r.to_set()) == r,
{
    let c = in_order(r.to_set());
    assert(strictly_sorted(c) && c.to_set() == r.to_set());
    lemma_strictly_sorted_unique(c, r);
}

proof fn lemma_views_push(v: Seq<Vec<char>>, x: Vec<char>)
    ensures
        views(v.push(x)) == views(v).push(x@),
{
    assert(views(v.push(x)) =~= views(v).push(x@));
}

// ---------------------------------------------------------------------
// Executable
// ---------------------------------------------------------------------

/// The text of a file holding the given lines, in the order given.
fn write_lines(r: &Vec<Vec<char>>) -> (out: Vec<char>)
    ensures
        out@ == file_text(views(r@)),
{
    if r.len() == 0 {
        let mut out: Vec<char> = Vec::new();
        out.push('\n');
        return out;
    }
    let mut out: Vec<char> = Vec::new();
    let mut k: usize = 0;
    assert(views(r@).take(0) =~= Seq::<Seq<char>>::empty());
    while k < r.len()
        invariant
            k <= r@.len(),
            out@ == terminated(views(r@).take(k as int)),
        decreases r@.len() - k,
    {
        let line = &r[k];
        let mut j: usize = 0;
        let ghost before = out@;
        while j < line.len()
            invariant
                j <= line@.len(),
                out@ == before + line@.take(j as int),
            decreases line@.len() - j,
        {
            out.push(line[j]);
            j += 1;
            assert(out@ =~= before + line@.take(j as int));
        }
        out.push('\n');
        proof {
            assert(line@.take(line@.len() as int) =~= line@);
            assert(views(r@).take(k + 1) =~= views(r@).take(k as int).push(line@));
            lemma_terminated_push(views(r@).take(k as int), line@);
        }
        k += 1;
    }
    assert(views(r@).take(r@.len() as int) =~= views(r@));
    out
}

/// The exact lines of a list of literals.
fn literal_lines(items: &[&str]) -> (r: Vec<Vec<char>>)
    ensures
        views(r@) == items@.map_values(|s: &str| s@),
{
    let mut r: Vec<Vec<char>> = Vec::new();
    let mut i: usize = 0;
    while i < items.len()
        invariant
            i <= items@.len(),
            views(r@) == items@.take(i as int).map_values(|s: &str| s@),
        decreases items@.len() - i,
    {
        let line = chars_of(items[i]);
        proof {
            lemma_views_push(r@, line);
        }
        r.push(line);
        i += 1;
        assert(views(r@) =~= items@.take(i as int).map_values(|s: &str| s@));
    }
    assert(items@.take(items@.len() as int) =~= items@);
    r
}

/// The file holding, in order and once each, the lines of `existing` and
/// the `required` lines.
fn merge_line_file(existing: &str, required: &Vec<Vec<char>>) -> (out: String)
    ensures
        out@ == line_set_file(existing@, views(required@)),
{
    let cs = chars_of(existing);
    let have = crate::text::split_lines(&cs);
    let all = sorted_union(&have, required);
    proof {
        lemma_in_order(views(all@));
    }
    let text = write_lines(&all);
    string_from_chars(&text)
}

/// The rewritten `.gitattributes`: its existing rules kept, the project's
/// LFS and flpdiff rules added, every rule once, in order.
pub fn update_gitattributes(existing: &str) -> (out: String)
    ensures
        out@ == line_set_file(existing@, gitattributes_rules()),
{
    let items: [&str; 18] = [
        "*.flp filter=lfs diff=flp merge=lfs -text",
        "*.FLP filter=lfs diff=flp merge=lfs -text",
        "*.zip filter=lfs diff=lfs merge=lfs -text",
        "*.ZIP filter=lfs diff=lfs merge=lfs -text",
        "*.wav filter=lfs diff=lfs merge=lfs -text",
        "*.WAV filter=lfs diff=lfs merge=lfs -text",
        "*.mp3 filter=lfs diff=lfs merge=lfs -text",
        "*.MP3 filter=lfs diff=lfs merge=lfs -text",
        "*.ogg filter=lfs diff=lfs merge=lfs -text",
        "*.OGG filter=lfs diff=lfs merge=lfs -text",
        "*.aiff filter=lfs diff=lfs merge=lfs -text",
        "*.AIFF filter=lfs diff=lfs merge=lfs -text",
        "*.aif filter=lfs diff=lfs merge=lfs -text",
        "*.AIF filter=lfs diff=lfs merge=lfs -text",
        "*.flac filter=lfs diff=lfs merge=lfs -text",
        "*.FLAC filter=lfs diff=lfs merge=lfs -text",
        "*.fst filter=lfs diff=lfs merge=lfs -text",
        "*.FST filter=lfs diff=lfs merge=lfs -text",
    ];
    let required = literal_lines(&items);
    assert(views(required@) =~= gitattributes_rules());
    merge_line_file(existing, &required)
}

/// The rewritten `.gitignore`: its existing rules kept, the project's
/// ignore rules added, every rule once, in order.
pub fn update_gitignore(existing: &str) -> (out: String)
    ensures
        out@ == line_set_file(existing@, gitignore_rules()),
{
    let items: [&str; 5] = ["Backup/", "Backup/**", "*.tmp", "*.bak", ".flgit/logs/"];
    let required = literal_lines(&items);
    assert(views(required@) =~= gitignore_rules());
    merge_line_file(existing, &required)
}

/// The rewritten `.git/info/attributes`: its existing rules kept, the
/// flpdiff driver rules added, every rule once, in order.
pub fn flpdiff_driver_attributes(existing: &str) -> (out: String)
    ensures
        out@ == line_set_file(existing@, flpdiff_driver_rules()),
{
    let items: [&str; 2] = ["*.flp diff=flp", "*.FLP diff=flp"];
    let required = literal_lines(&items);
    assert(views(required@) =~= flpdiff_driver_rules());
    merge_line_file(existing, &required)
}


// ---------------------------------------------------------------------
// Every finite collection of lines has an in-order listing
// ---------------------------------------------------------------------

proof fn insert_position(r: Seq<Seq<char>>, x: Seq<char>) -> (i: int)
    requires
        strictly_sorted(r),
    ensures
        0 <= i <= r.len(),
        forall|j: int| 0 <= j < i ==> lex_lt(#[trigger] r[j], x),
        forall|j: int| i <= j < r.len() ==> !lex_lt(#[trigger] r[j], x),
    decreases r.len(),
{
    if r.len() == 0 {
        0
    } else if lex_lt(r.last(), x) {
        assert forall|j: int| 0 <= j < r.len() implies lex_lt(#[trigger] r[j], x) by {
            if j < r.len() - 1 {
                lemma_lex_transitive(r[j], r.last(), x);
            }
        }
        r.len() as int
    } else {
        let i = insert_position(r.drop_last(), x);
        assert forall|j: int| 0 <= j < i implies lex_lt(#[trigger] r[j], x) by {
            assert(r[j] == r.drop_last()[j]);
        }
        assert forall|j: int| i <= j < r.len() implies !lex_lt(#[trigger] r[j], x) by {
            if j < r.len() - 1 {
                assert(r[j] == r.drop_last()[j]);
            }
        }
        i
    }
}

proof fn sorted_set_insert(r: Seq<Seq<char>>, x: Seq<char>) -> (t: Seq<Seq<char>>)
    requires
        strictly_sorted(r),
    ensures
        strictly_sorted(t),
        t.to_set() == r.to_set().insert(x),
{
    let i = insert_position(r, x);
    if i < r.len() && r[i] == x {
        assert(r.contains(x));
        assert(r.to_set().insert(x) =~= r.to_set());
        r
    } else {
        if i < r.len() {
            lemma_lex_total(r[i], x);
        }
        assert forall|j: int| i <= j < r.len() implies lex_lt(x, r[j]) by {
            if j > i {
                lemma_lex_transitive(x, r[i], r[j]);
            }
        }
        let t = r.insert(i, x);
        r.insert_ensures(i, x);
        assert forall|a: int, b: int| 0 <= a < b < t.len() implies lex_lt(
            #[trigger] t[a],
            #[trigger] t[b],
        ) by {
            if b < i {
            } else if b == i {
            } else if a < i {
                assert(t[b] == r[b - 1]);
                lemma_lex_transitive(t[a], x, t[b]);
            } else if a == i {
                assert(t[b] == r[b - 1]);
            } else {
                assert(t[a] == r[a - 1]);
                assert(t[b] == r[b - 1]);
            }
        }
        assert(t.to_set() =~= r.to_set().insert(x)) by {
            assert forall|e: Seq<char>| t.contains(e) implies r.to_set().insert(x).contains(e) by {
                let k = choose|k: int| 0 <= k < t.len() && t[k] == e;
                if k < i {
                    assert(r[k] == e);
                } else if k > i {
                    assert(r[k - 1] == e);
                }
            }
            assert forall|e: Seq<char>| r.to_set().insert(x).contains(e) implies t.contains(e) by {
                if e == x {
                    assert(t[i] == e);
                } else {
                    let k = choose|k: int| 0 <= k < r.len() && r[k] == e;
                    if k < i {
                        assert(t[k] == e);
                    } else {
                        assert(t[k + 1] == e);
                    }
                }
            }
        }
        t
    }
}

proof fn sorted_set_of(a: Seq<Seq<char>>) -> (r: Seq<Seq<char>>)
    ensures
        strictly_sorted(r),
        r.to_set() == a.to_set(),
    decreases a.len(),
{
    if a.len() == 0 {
        let r = Seq::<Seq<char>>::empty();
        assert(r.to_set() =~= a.to_set());
        r
    } else {
        let r0 = sorted_set_of(a.drop_last());
        let r = sorted_set_insert(r0, a.last());
        assert(a =~= a.drop_last().push(a.last()));
        assert(a.to_set() =~= a.drop_last().to_set().insert(a.last()));
        r
    }
}

/// The in-order listing of the lines of a collection is strictly sorted and
/// holds exactly those lines.
pub proof fn lemma_in_order_of(a: Seq<Seq<char>>)
    ensures
        strictly_sorted(in_order(a.to_set())),
        in_order(a.to_set()).to_set() == a.to_set(),
{
    let r = sorted_set_of(a);
    assert(strictly_sorted(r) && r.to_set() == a.to_set());
}

// ---------------------------------------------------------------------
// Laws of the line-set files
// ---------------------------------------------------------------------

/// No line of the text ends with a carriage return.
pub open spec fn no_cr_endings(s: Seq<char>) -> bool {
    forall|k: int|
        0 <= k < lines(s).len() ==> !(#[trigger] lines(s)[k].len() > 0 && lines(s)[k].last()
            == '\r')
}

proof fn lemma_rules_plain()
    ensures
        forall|k: int| 0 <= k < gitattributes_rules().len() ==> plain_line(#[trigger] gitattributes_rules()[k]),
        forall|k: int| 0 <= k < gitignore_rules().len() ==> plain_line(#[trigger] gitignore_rules()[k]),
        forall|k: int| 0 <= k < flpdiff_driver_rules().len() ==> plain_line(#[trigger] flpdiff_driver_rules()[k]),
{
    reveal_strlit("*.flp filter=lfs diff=flp merge=lfs -text");
    reveal_strlit("*.FLP filter=lfs diff=flp merge=lfs -text");
    reveal_strlit("*.zip filter=lfs diff=lfs merge=lfs -text");
    reveal_strlit("*.ZIP filter=lfs diff=lfs merge=lfs -text");
    reveal_strlit("*.wav filter=lfs diff=lfs merge=lfs -text");
    reveal_strlit("*.WAV filter=lfs diff=lfs merge=lfs -text");
    reveal_strlit("*.mp3 filter=lfs diff=lfs merge=lfs -text");
    reveal_strlit("*.MP3 filter=lfs diff=lfs merge=lfs -text");
    reveal_strlit("*.ogg filter=lfs diff=lfs merge=lfs -text");
    reveal_strlit("*.OGG filter=lfs diff=lfs merge=lfs -text");
    reveal_strlit("*.aiff filter=lfs diff=lfs merge=lfs -text");
    reveal_strlit("*.AIFF filter=lfs diff=lfs merge=lfs -text");
    reveal_strlit("*.aif filter=lfs diff=lfs merge=lfs -text");
    reveal_strlit("*.AIF filter=lfs diff=lfs merge=lfs -text");
    reveal_strlit("*.flac filter=lfs diff=lfs merge=lfs -text");
    reveal_strlit("*.FLAC filter=lfs diff=lfs merge=lfs -text");
    reveal_strlit("*.fst filter=lfs diff=lfs merge=lfs -text");
    reveal_strlit("*.FST filter=lfs diff=lfs merge=lfs -text");
    reveal_strlit("Backup/");
    reveal_strlit("Backup/**");
    reveal_strlit("*.tmp");
    reveal_strlit("*.bak");
    reveal_strlit(".flgit/logs/");
    reveal_strlit("*.flp diff=flp");
    reveal_strlit("*.FLP diff=flp");
}

/// The lines of a merged file are its set in order, when the text's lines
/// and the required lines are plain.
proof fn lemma_merged_lines(existing: Seq<char>, required: Seq<Seq<char>>)
    requires
        no_cr_endings(existing),
        required.len() > 0,
        forall|k: int| 0 <= k < required.len() ==> plain_line(#[trigger] required[k]),
    ensures
        lines(line_set_file(existing, required)) == in_order(
            lines(existing).to_set() + required.to_set(),
        ),
{
    let set = lines(existing).to_set() + required.to_set();
    let all = lines(existing) + required;
    assert(all.to_set() =~= set);
    lemma_in_order_of(all);
    let r = in_order(set);
    lemma_lines_have_no_newline(existing);
    assert forall|k: int| 0 <= k < r.len() implies plain_line(#[trigger] r[k]) by {
        assert(r.to_set().contains(r[k]));
        assert(set.contains(r[k]));
        if lines(existing).contains(r[k]) {
            let m = choose|m: int| 0 <= m < lines(existing).len() && lines(existing)[m] == r[k];
            assert(!has_char(lines(existing)[m], '\n'));
        } else {
            let m = choose|m: int| 0 <= m < required.len() && required[m] == r[k];
            assert(plain_line(required[m]));
        }
    }
    assert(r.len() > 0) by {
        assert(set.contains(required[0]));
        assert(r.to_set().contains(required[0]));
    }
    lemma_lines_of_terminated(r);
}

/// Rewriting a line-set file is idempotent: a second rewrite with the same
/// required lines leaves the file as the first one wrote it.
pub proof fn lemma_line_set_file_idempotent(existing: Seq<char>, required: Seq<Seq<char>>)
    requires
        no_cr_endings(existing),
        required.len() > 0,
        forall|k: int| 0 <= k < required.len() ==> plain_line(#[trigger] required[k]),
    ensures
        line_set_file(line_set_file(existing, required), required) == line_set_file(
            existing,
            required,
        ),
{
    let set = lines(existing).to_set() + required.to_set();
    lemma_merged_lines(existing, required);
    let once = line_set_file(existing, required);
    let r = in_order(set);
    assert(lines(once) == r);
    lemma_in_order_of(lines(existing) + required);
    assert((lines(existing) + required).to_set() =~= set);
    assert(r.to_set() + required.to_set() =~= set);
}

/// Rewriting `.gitattributes` keeps every existing rule and adds every
/// project rule, each once and in order; its lines are exactly those.
pub proof fn law_gitattributes_keeps_rules(existing: Seq<char>)
    requires
        no_cr_endings(existing),
    ensures
        strictly_sorted(lines(line_set_file(existing, gitattributes_rules()))),
        lines(line_set_file(existing, gitattributes_rules())).to_set() == lines(existing).to_set()
            + gitattributes_rules().to_set(),
{
    lemma_rules_plain();
    lemma_merged_lines(existing, gitattributes_rules());
    lemma_in_order_of(lines(existing) + gitattributes_rules());
    assert((lines(existing) + gitattributes_rules()).to_set() =~= lines(existing).to_set()
        + gitattributes_rules().to_set());
}

/// Rewriting `.gitignore` keeps every existing rule and adds every project
/// rule, each once and in order; its lines are exactly those.
pub proof fn law_gitignore_keeps_rules(existing: Seq<char>)
    requires
        no_cr_endings(existing),
    ensures
        strictly_sorted(lines(line_set_file(existing, gitignore_rules()))),
        lines(line_set_file(existing, gitignore_rules())).to_set() == lines(existing).to_set()
            + gitignore_rules().to_set(),
{
    lemma_rules_plain();
    lemma_merged_lines(existing, gitignore_rules());
    lemma_in_order_of(lines(existing) + gitignore_rules());
    assert((lines(existing) + gitignore_rules()).to_set() =~= lines(existing).to_set()
        + gitignore_rules().to_set());
}

/// Rewriting `.git/info/attributes` keeps every existing rule and adds the
/// flpdiff driver rules, each once and in order; its lines are exactly those.
pub proof fn law_driver_attributes_keep_rules(existing: Seq<char>)
    requires
        no_cr_endings(existing),
    ensures
        strictly_sorted(lines(line_set_file(existing, flpdiff_driver_rules()))),
        lines(line_set_file(existing, flpdiff_driver_rules())).to_set() == lines(existing).to_set()
            + flpdiff_driver_rules().to_set(),
{
    lemma_rules_plain();
    lemma_merged_lines(existing, flpdiff_driver_rules());
    lemma_in_order_of(lines(existing) + flpdiff_driver_rules());
    assert((lines(existing) + flpdiff_driver_rules()).to_set() =~= lines(existing).to_set()
        + flpdiff_driver_rules().to_set());
}

/// Rewriting `.gitattributes` twice gives what rewriting it once gives.
pub proof fn law_gitattributes_idempotent(existing: Seq<char>)
    requires
        no_cr_endings(existing),
    ensures
        line_set_file(line_set_file(existing, gitattributes_rules()), gitattributes_rules())
            == line_set_file(existing, gitattributes_rules()),
{
    lemma_rules_plain();
    lemma_line_set_file_idempotent(existing, gitattributes_rules());
}

/// Rewriting `.gitignore` twice gives what rewriting it once gives.
pub proof fn law_gitignore_idempotent(existing: Seq<char>)
    requires
        no_cr_endings(existing),
    ensures
        line_set_file(line_set_file(existing, gitignore_rules()), gitignore_rules())
            == line_set_file(existing, gitignore_rules()),
{
    lemma_rules_plain();
    lemma_line_set_file_idempotent(existing, gitignore_rules());
}

/// Rewriting `.git/info/attributes` twice gives what rewriting it once gives.
pub proof fn law_driver_attributes_idempotent(existing: Seq<char>)
    requires
        no_cr_endings(existing),
    ensures
        line_set_file(line_set_file(existing, flpdiff_driver_rules()), flpdiff_driver_rules())
            == line_set_file(existing, flpdiff_driver_rules()),
{
    lemma_rules_plain();
    lemma_line_set_file_idempotent(existing, flpdiff_driver_rules());
}

} // verus!
