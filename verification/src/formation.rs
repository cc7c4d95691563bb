//! The formation: the folder of notes that is open.
use vstd::prelude::*;
use crate::error::AppError;
use crate::formation_state::FormationNote;
use crate::paths;
use crate::text;

verus! {

broadcast use vstd::string::group_string_axioms;

/// The folder inside a formation that holds the program's own state.
pub const APP_DIR: &'static str = ".chat-notes";

/// A formation that was opened.
#[derive(Debug, PartialEq, Eq)]
pub struct FormationSummary {
    pub path: String,
    pub note_count: usize,
}

/// The program's own folder, and the folders in it that opening a formation makes.
pub fn skeleton_dirs(formation: &str) -> (r: Vec<String>)
    ensures
        ({
            let app = paths::joined_path(formation@, APP_DIR@);
            text::texts(r@) == seq![
                paths::joined_path(app, "snapshots"@),
                paths::joined_path(app, "staging"@),
                paths::joined_path(app, "chat-history"@),
            ]
        }),
{
    let app = paths::join(formation, APP_DIR);
    let out: Vec<String> = vec![
        paths::join(app.as_str(), "snapshots"),
        paths::join(app.as_str(), "staging"),
        paths::join(app.as_str(), "chat-history"),
    ];
    assert(text::texts(out@) =~= seq![out@[0]@, out@[1]@, out@[2]@]);
    out
}

/// The formation that a launch restores: the remembered one if it is still a
/// folder. The second result tells whether the memory of it is to be cleared.
pub fn restore_last(last: Option<String>, is_dir: bool) -> (r: (Option<String>, bool))
    ensures
        match last {
            None => r.0 is None && !r.1,
            Some(p) => if is_dir {
                text::opt_text(r.0) == Some(p@) && !r.1
            } else {
                r.0 is None && r.1
            },
        },
{
    match last {
        None => (None, false),
        Some(p) => if is_dir {
            (Some(p), false)
        } else {
            (None, true)
        },
    }
}

/// Whether the walk over the notes goes into, or takes, an entry: all but the
/// program's own folder.
pub fn keeps_entry(is_dir: bool, name: &str) -> (r: bool)
    ensures
        r == !(is_dir && name@ == APP_DIR@),
{
    !(is_dir && text::same(name, APP_DIR))
}

/// A file that a walk came upon: its path below the formation, and when it was
/// last changed, if that is known.
#[derive(Debug, PartialEq, Eq)]
pub struct FoundFile {
    pub path: String,
    pub modified_secs: Option<i64>,
}

/// The file is a note: its extension is `md`.
pub open spec fn is_note(path: Seq<char>) -> bool {
    paths::extension_of(path) == Some("md"@)
}

/// A note as it is listed: with forward slashes, and time 0 where it is unknown.
pub open spec fn listed(f: FoundFile) -> (Seq<char>, int) {
    (
        text::with_char_replaced(f.path@, '\\', '/'),
        match f.modified_secs {
            Some(t) => t as int,
            None => 0,
        },
    )
}

/// The notes among the files, in their order.
pub open spec fn notes_in(files: Seq<FoundFile>) -> Seq<(Seq<char>, int)>
    decreases files.len(),
{
    if files.len() == 0 {
        Seq::empty()
    } else {
        let before = notes_in(files.drop_last());
        if is_note(files.last().path@) {
            before.push(listed(files.last()))
        } else {
            before
        }
    }
}

/// `list`, latest first, with `x` put behind every note that is not older.
pub open spec fn inserted(list: Seq<(Seq<char>, int)>, x: (Seq<char>, int)) -> Seq<(Seq<char>, int)>
    decreases list.len(),
{
    if list.len() == 0 || list.last().1 >= x.1 {
        list.push(x)
    } else {
        inserted(list.drop_last(), x).push(list.last())
    }
}

/// The notes latest first; notes of one time stay as they stood.
pub open spec fn latest_first(list: Seq<(Seq<char>, int)>) -> Seq<(Seq<char>, int)>
    decreases list.len(),
{
    if list.len() == 0 {
        Seq::empty()
    } else {
        inserted(latest_first(list.drop_last()), list.last())
    }
}

/// The views of a list of notes.
pub open spec fn note_views(v: Seq<FormationNote>) -> Seq<(Seq<char>, int)> {
    v.map_values(|n: FormationNote| (n.relative_path@, n.modified_secs as int))
}

fn insert_note(list: &mut Vec<FormationNote>, x: FormationNote)
    ensures
        note_views(final(list)@) == inserted(
            note_views(old(list)@),
            (x.relative_path@, x.modified_secs as int),
        ),
{
    let ghost start = note_views(list@);
    let ghost v = (x.relative_path@, x.modified_secs as int);
    let n: usize = list.len();
    let mut i: usize = n;
    assert(start.take(n as int) =~= start);
    assert(inserted(start, v) =~= inserted(start.take(i as int), v) + start.skip(i as int));
    while i > 0 && list[i - 1].modified_secs < x.modified_secs
        invariant
            i <= n,
            n == list.len(),
            start == note_views(list@),
            v == (x.relative_path@, x.modified_secs as int),
            inserted(start, v) == inserted(start.take(i as int), v) + start.skip(i as int),
        decreases i,
    {
        assert(start.take(i as int).last() == start[i - 1]);
        assert(start.take(i as int).drop_last() =~= start.take(i - 1));
        assert(inserted(start.take(i - 1), v).push(start[i - 1]) + start.skip(i as int)
            =~= inserted(start.take(i - 1), v) + start.skip(i - 1));
        i -= 1;
    }
    assert(i > 0 ==> start.take(i as int).last() == start[i - 1]);
    assert(inserted(start.take(i as int), v) =~= start.take(i as int).push(v));
    list.insert(i, x);
    assert(note_views(list@) =~= start.take(i as int).push(v) + start.skip(i as int));
}

/// The notes among the files of a formation, the latest first.
pub fn walk_notes(files: &Vec<FoundFile>) -> (r: Vec<FormationNote>)
    ensures
        note_views(r@) == latest_first(notes_in(files@)),
{
    let mut out: Vec<FormationNote> = Vec::new();
    let mut i: usize = 0;
    assert(files@.take(0) =~= Seq::<FoundFile>::empty());
    assert(note_views(out@) =~= Seq::<(Seq<char>, int)>::empty());
    while i < files.len()
        invariant
            i <= files.len(),
            note_views(out@) == latest_first(notes_in(files@.take(i as int))),
        decreases files.len() - i,
    {
        let f = &files[i];
        let ghost so_far = notes_in(files@.take(i as int));
        assert(files@.take(i + 1).drop_last() =~= files@.take(i as int));
        assert(files@.take(i + 1).last() == *f);
        let md = match paths::extension(f.path.as_str()) {
            Some(e) => text::same(e.as_str(), "md"),
            None => false,
        };
        if md {
            let modified_secs: i64 = match f.modified_secs {
                Some(t) => t,
                None => 0,
            };
            let note = FormationNote {
                relative_path: text::replace_char(f.path.as_str(), '\\', '/'),
                modified_secs,
            };
            insert_note(&mut out, note);
            assert(so_far.push(listed(*f)).drop_last() =~= so_far);
        }
        i += 1;
    }
    assert(files@.take(i as int) =~= files@);
    out
}

/// `p` is `dir` or lies below it, both in the canonical form of the machine: `p` is
/// `dir`, or goes on after it with a separator.
pub open spec fn within(p: Seq<char>, dir: Seq<char>, windows: bool) -> bool {
    &&& text::begins(p, dir)
    &&& (p.len() == dir.len() || (dir.len() > 0 && paths::separates(dir.last(), windows))
        || paths::separates(p[dir.len() as int], windows))
}

/// Admits a path into the formation, both in the canonical form of the machine, or
/// refuses it.
pub fn resolve_in_formation(canonical: &str, formation_canonical: &str, windows: bool) -> (r: Result<
    String,
    AppError,
>)
    ensures
        if within(canonical@, formation_canonical@, windows) {
            r matches Ok(p) && p@ == canonical@
        } else {
            r matches Err(e) && e.text() == "path escapes formation"@
        },
{
    let inside = if text::starts_with(canonical, formation_canonical) {
        let c = text::chars_of(canonical);
        let d = text::chars_of(formation_canonical);
        c.len() == d.len() || (d.len() > 0 && paths::is_separator(d[d.len() - 1], windows))
            || paths::is_separator(c[d.len()], windows)
    } else {
        false
    };
    if inside {
        Ok(canonical.to_owned())
    } else {
        Err(AppError::other("path escapes formation"))
    }
}

/// The canonical path of a note that is not there yet, from its parent's.
pub fn resolve_new(parent_canonical: &str, candidate: &str, windows: bool) -> (r: Result<
    String,
    AppError,
>)
    ensures
        match paths::name_of(paths::slashed(candidate@, windows)) {
            Some(n) => r matches Ok(p) && p@ == paths::native_path(parent_canonical@, n, windows),
            None => r matches Err(e) && e.text() == "invalid file name"@,
        },
{
    match paths::file_name(paths::with_slashes(candidate, windows).as_str()) {
        Some(n) => Ok(paths::join_native(parent_canonical, n.as_str(), windows)),
        None => Err(AppError::other("invalid file name")),
    }
}

/// The path of a new note lies in the folder that the note is made in.
pub proof fn law_new_notes_are_admitted(folder: Seq<char>, name: Seq<char>, windows: bool)
    requires
        folder.len() > 0,
        name.len() > 0,
        !paths::separates(name[0], windows),
    ensures
        within(paths::native_path(folder, name, windows), folder, windows),
{
    let p = paths::native_path(folder, name, windows);
    assert(p.take(folder.len() as int) =~= folder);
}

/// Whether writing a file asks for it to be indexed again.
pub fn reindexes(relative_path: &str) -> (r: bool)
    ensures
        r == text::ends(relative_path@, ".md"@),
{
    text::ends_with(relative_path, ".md")
}

/// The notes, the latest first.
pub open spec fn is_latest_first(list: Seq<(Seq<char>, int)>) -> bool {
    forall|i: int, j: int| 0 <= i < j < list.len() ==> (#[trigger] list[i]).1 >= (#[trigger] list[j]).1
}

proof fn lemma_inserted(list: Seq<(Seq<char>, int)>, x: (Seq<char>, int))
    requires
        is_latest_first(list),
    ensures
        is_latest_first(inserted(list, x)),
        inserted(list, x).to_multiset() == list.to_multiset().insert(x),
        forall|k: int|
            0 <= k < inserted(list, x).len() ==> (#[trigger] inserted(list, x)[k]) == x
                || list.contains(inserted(list, x)[k]),
    decreases list.len(),
{
    broadcast use vstd::seq_lib::group_to_multiset_ensures;

    if list.len() == 0 || list.last().1 >= x.1 {
        let out = list.push(x);
        assert forall|i: int, j: int| 0 <= i < j < out.len() implies (#[trigger] out[i]).1 >= (
        #[trigger] out[j]).1 by {
            if j == list.len() && i < list.len() - 1 {
                assert(list[i].1 >= list[list.len() - 1].1);
            }
        }
        assert forall|k: int| 0 <= k < out.len() implies #[trigger] out[k] == x || list.contains(
            out[k],
        ) by {
            if k < list.len() {
                assert(list[k] == out[k]);
            }
        }
    } else {
        let front = list.drop_last();
        let last = list.last();
        assert(is_latest_first(front)) by {
            assert forall|i: int, j: int| 0 <= i < j < front.len() implies (#[trigger] front[i]).1
                >= (#[trigger] front[j]).1 by {
                assert(list[i].1 >= list[j].1);
            }
        }
        lemma_inserted(front, x);
        let mid = inserted(front, x);
        let out = mid.push(last);
        assert forall|k: int| 0 <= k < mid.len() implies (#[trigger] mid[k]).1 >= last.1 by {
            if mid[k] != x {
                let q = choose|q: int| 0 <= q < front.len() && front[q] == mid[k];
                assert(list[q].1 >= list[list.len() - 1].1);
            }
        }
        assert forall|k: int| 0 <= k < out.len() implies #[trigger] out[k] == x || list.contains(
            out[k],
        ) by {
            if k < mid.len() {
                if mid[k] != x {
                    let q = choose|q: int| 0 <= q < front.len() && front[q] == mid[k];
                    assert(list[q] == out[k]);
                }
            } else {
                assert(list[list.len() - 1] == out[k]);
            }
        }
        assert(list =~= front.push(last));
        assert(front.to_multiset().insert(x).insert(last) =~= front.to_multiset().insert(
            last,
        ).insert(x));
    }
}

/// The notes are listed latest first, none lost and none added.
pub proof fn law_notes_are_latest_first(list: Seq<(Seq<char>, int)>)
    ensures
        is_latest_first(latest_first(list)),
        latest_first(list).to_multiset() == list.to_multiset(),
    decreases list.len(),
{
    broadcast use vstd::seq_lib::group_to_multiset_ensures;

    if list.len() > 0 {
        law_notes_are_latest_first(list.drop_last());
        lemma_inserted(latest_first(list.drop_last()), list.last());
        assert(list =~= list.drop_last().push(list.last()));
    } else {
        assert(latest_first(list) =~= list);
    }
}

/// A folder whose name merely begins like the formation's is not inside it.
pub proof fn law_siblings_are_outside(dir: Seq<char>, more: Seq<char>, windows: bool)
    requires
        more.len() > 0,
        !paths::separates(more[0], windows),
        dir.len() > 0,
        !paths::separates(dir.last(), windows),
    ensures
        !within(dir + more, dir, windows),
{
    assert((dir + more)[dir.len() as int] == more[0]);
}

/// The formation itself and everything below it is admitted, and nothing that does not
/// begin with its path.
pub proof fn law_what_is_below_is_inside(dir: Seq<char>, more: Seq<char>, windows: bool)
    ensures
        within(dir, dir, windows),
        within(dir + seq!['/'] + more, dir, windows),
        windows ==> within(dir + seq!['\\'] + more, dir, windows),
        !text::begins(more, dir) ==> !within(more, dir, windows),
{
    assert(dir.take(dir.len() as int) =~= dir);
    let a = dir + seq!['/'] + more;
    let b = dir + seq!['\\'] + more;
    assert(a.take(dir.len() as int) =~= dir);
    assert(b.take(dir.len() as int) =~= dir);
    assert(a[dir.len() as int] == '/');
    assert(b[dir.len() as int] == '\\');
}

/// The notes of a formation are its Markdown files and no others, each under its own path
/// with forward slashes and with the time it was changed at.
pub proof fn law_markdown_files_are_notes(files: Seq<FoundFile>, f: FoundFile)
    ensures
        ({
            let before = notes_in(files);
            let after = notes_in(files.push(f));
            if paths::extension_of(f.path@) == Some("md"@) {
                &&& after.len() == before.len() + 1
                &&& after.drop_last() == before
                &&& after.last().0.len() == f.path@.len()
                &&& forall|i: int|
                    0 <= i < f.path@.len() ==> #[trigger] after.last().0[i] == (if f.path@[i]
                        == '\\' {
                        '/'
                    } else {
                        f.path@[i]
                    })
                &&& f.modified_secs matches Some(t) ==> after.last().1 == t
                &&& f.modified_secs is None ==> after.last().1 == 0
            } else {
                after == before
            }
        }),
{
    assert(files.push(f).drop_last() =~= files);
    let after = notes_in(files.push(f));
    if after.len() > notes_in(files).len() {
        assert(after.drop_last() =~= notes_in(files));
    }
}

/// A note that is no later than any other is listed last, behind those of its own time.
pub proof fn law_oldest_notes_are_listed_last(list: Seq<(Seq<char>, int)>, x: (Seq<char>, int))
    requires
        forall|i: int| 0 <= i < list.len() ==> (#[trigger] list[i]).1 >= x.1,
    ensures
        latest_first(list.push(x)) == latest_first(list).push(x),
{
    assert(list.push(x).drop_last() =~= list);
    let listed = latest_first(list);
    law_notes_are_latest_first(list);
    if listed.len() > 0 {
        broadcast use vstd::seq_lib::group_to_multiset_ensures;

        let last = listed.last();
        assert(listed[listed.len() - 1] == last);
        assert(listed.to_multiset().contains(last));
        assert(list.contains(last));
        let i = choose|i: int| 0 <= i < list.len() && list[i] == last;
        assert(list[i].1 >= x.1);
    }
}

} // verus!
