//! Paths as text, `/` between their parts. Where a path comes from the machine, which
//! may be one with Windows, a backslash separates too.
use vstd::prelude::*;
use crate::text;

verus! {

/// `leaf` under `base`: `leaf` itself if it is absolute, else the two with one
/// `/` between them, which is left out where `base` is empty or ends in one.
pub open spec fn joined_path(base: Seq<char>, leaf: Seq<char>) -> Seq<char> {
    if leaf.len() > 0 && leaf[0] == '/' {
        leaf
    } else if base.len() == 0 || base.last() == '/' {
        base + leaf
    } else {
        base.push('/') + leaf
    }
}

/// `Path::join`.
pub fn join(base: &str, leaf: &str) -> (r: String)
    ensures
        r@ == joined_path(base@, leaf@),
{
    let l = text::chars_of(leaf);
    if l.len() > 0 && l[0] == '/' {
        return leaf.to_owned();
    }
    let b = text::chars_of(base);
    let mut s = base.to_owned();
    if b.len() > 0 && b[b.len() - 1] != '/' {
        s.push('/');
    }
    s.append(leaf);
    s
}

/// The character separates the parts of a path: `/` does, and on Windows a backslash.
pub open spec fn separates(c: char, windows: bool) -> bool {
    c == '/' || (windows && c == '\\')
}

/// Whether a character separates the parts of a path.
pub fn is_separator(c: char, windows: bool) -> (r: bool)
    ensures
        r == separates(c, windows),
{
    c == '/' || (windows && c == '\\')
}

/// A path of the machine with `/` between its parts.
pub open spec fn slashed(p: Seq<char>, windows: bool) -> Seq<char> {
    if windows {
        text::with_char_replaced(p, '\\', '/')
    } else {
        p
    }
}

/// A path of the machine with `/` between its parts.
pub fn with_slashes(p: &str, windows: bool) -> (r: String)
    ensures
        r@ == slashed(p@, windows),
{
    if windows {
        text::replace_char(p, '\\', '/')
    } else {
        p.to_owned()
    }
}

/// A name in a folder of the machine, with the machine's separator between them.
pub open spec fn native_path(base: Seq<char>, leaf: Seq<char>, windows: bool) -> Seq<char> {
    if !windows {
        joined_path(base, leaf)
    } else if base.len() == 0 || separates(base.last(), windows) {
        base + leaf
    } else {
        base.push('\\') + leaf
    }
}

/// Puts a name into a folder of the machine.
pub fn join_native(base: &str, leaf: &str, windows: bool) -> (r: String)
    ensures
        r@ == native_path(base@, leaf@, windows),
{
    if !windows {
        return join(base, leaf);
    }
    let b = text::chars_of(base);
    let mut s = base.to_owned();
    if b.len() > 0 && !is_separator(b[b.len() - 1], windows) {
        s.push('\\');
    }
    s.append(leaf);
    s
}

/// The path without the separators, and the `.` parts, it ends with.
pub open spec fn without_dot_tail(p: Seq<char>) -> Seq<char>
    decreases p.len(),
{
    if p.len() > 0 && p.last() == '/' {
        without_dot_tail(p.drop_last())
    } else if p.len() > 1 && p.last() == '.' && p[p.len() - 2] == '/' {
        without_dot_tail(p.take(p.len() - 2))
    } else {
        p
    }
}

/// What follows the last `/`.
pub open spec fn after_slash(p: Seq<char>) -> Seq<char>
    decreases p.len(),
{
    if p.len() == 0 || p.last() == '/' {
        Seq::empty()
    } else {
        after_slash(p.drop_last()).push(p.last())
    }
}

/// The last part of a path, if that is a name.
pub open spec fn name_of(p: Seq<char>) -> Option<Seq<char>> {
    let t = after_slash(without_dot_tail(p));
    if t.len() == 0 || t == seq!['.'] || t == seq!['.', '.'] {
        None
    } else {
        Some(t)
    }
}

/// The place of the last `c` in `s`; -1 if there is none.
pub open spec fn last_place(s: Seq<char>, c: char) -> int
    decreases s.len(),
{
    if s.len() == 0 {
        -1
    } else if s.last() == c {
        s.len() - 1
    } else {
        last_place(s.drop_last(), c)
    }
}

/// What follows the last `.` of the file name, unless that `.` begins it.
pub open spec fn extension_of(p: Seq<char>) -> Option<Seq<char>> {
    match name_of(p) {
        None => None,
        Some(n) => {
            let dot = last_place(n, '.');
            if dot <= 0 {
                None
            } else {
                Some(n.skip(dot + 1))
            }
        },
    }
}

/// `Path::file_name`.
pub fn file_name(path: &str) -> (r: Option<String>)
    ensures
        text::opt_text(r) == name_of(path@),
{
    let cs = text::chars_of(path);
    let mut end: usize = cs.len();
    assert(cs@.take(cs@.len() as int) =~= cs@);
    loop
        invariant
            end <= cs.len(),
            without_dot_tail(cs@) == without_dot_tail(cs@.take(end as int)),
        ensures
            end <= cs.len(),
            without_dot_tail(cs@) == cs@.take(end as int),
        decreases end,
    {
        if end > 0 && cs[end - 1] == '/' {
            assert(cs@.take(end as int).drop_last() =~= cs@.take(end - 1));
            end -= 1;
        } else if end > 1 && cs[end - 1] == '.' && cs[end - 2] == '/' {
            assert(cs@.take(end as int).take(end - 2) =~= cs@.take(end - 2));
            end -= 2;
        } else {
            break;
        }
    }
    let ghost t = cs@.take(end as int);
    let mut start: usize = end;
    assert(t.take(start as int) =~= t);
    assert(after_slash(t) =~= after_slash(t.take(start as int)) + t.subrange(
        start as int,
        end as int,
    ));
    while start > 0 && cs[start - 1] != '/'
        invariant
            start <= end <= cs.len(),
            t == cs@.take(end as int),
            after_slash(t) == after_slash(t.take(start as int)) + t.subrange(
                start as int,
                end as int,
            ),
        decreases start,
    {
        assert(t.take(start as int).drop_last() =~= t.take(start - 1));
        assert(after_slash(t.take(start - 1)).push(t[start - 1]) + t.subrange(
            start as int,
            end as int,
        ) =~= after_slash(t.take(start - 1)) + t.subrange(start - 1, end as int));
        start -= 1;
    }
    assert(after_slash(t.take(start as int)) =~= Seq::<char>::empty());
    let name = text::string_of(vstd::slice::slice_subrange(cs.as_slice(), start, end));
    assert(name@ =~= after_slash(t));
    proof {
        reveal_strlit(".");
        reveal_strlit("..");
        assert("."@ =~= seq!['.']);
        assert(".."@ =~= seq!['.', '.']);
    }
    if name.as_str().is_empty() || text::same(name.as_str(), ".") || text::same(
        name.as_str(),
        "..",
    ) {
        None
    } else {
        Some(name)
    }
}

/// `Path::extension`.
pub fn extension(path: &str) -> (r: Option<String>)
    ensures
        text::opt_text(r) == extension_of(path@),
{
    match file_name(path) {
        None => None,
        Some(name) => {
            let cs = text::chars_of(name.as_str());
            let mut i: usize = cs.len();
            assert(cs@.take(cs@.len() as int) =~= cs@);
            while i > 0 && cs[i - 1] != '.'
                invariant
                    i <= cs.len(),
                    last_place(cs@, '.') == last_place(cs@.take(i as int), '.'),
                decreases i,
            {
                assert(cs@.take(i as int).drop_last() =~= cs@.take(i - 1));
                i -= 1;
            }
            if i <= 1 {
                None
            } else {
                assert(last_place(cs@, '.') == i - 1);
                let e = text::string_of(vstd::slice::slice_subrange(cs.as_slice(), i, cs.len()));
                assert(e@ =~= cs@.skip(i as int));
                Some(e)
            }
        },
    }
}

/// A path below a folder is the folder, one `/` and the path, whether or not the folder
/// is written with the `/`; an absolute path stands for itself.
pub proof fn law_joining_puts_one_slash(base: Seq<char>, leaf: Seq<char>)
    requires
        base.len() > 0,
        leaf.len() > 0,
    ensures
        leaf[0] == '/' ==> joined_path(base, leaf) == leaf,
        leaf[0] != '/' && base.last() != '/' ==> joined_path(base, leaf) == base + seq!['/'] + leaf
            && joined_path(base.push('/'), leaf) == joined_path(base, leaf),
{
    if leaf[0] != '/' && base.last() != '/' {
        assert(joined_path(base, leaf) =~= base + seq!['/'] + leaf);
    }
}

/// The name of a file is what stands behind the last `/`, whatever folder it is in.
pub proof fn law_names_stand_behind_the_last_slash(folder: Seq<char>, name: Seq<char>)
    requires
        name.len() > 0,
        text::free_of(name, '/'),
        name != seq!['.'],
        name != seq!['.', '.'],
    ensures
        name_of(name) == Some(name),
        name_of(folder + seq!['/'] + name) == Some(name),
{
    let p = folder + seq!['/'] + name;
    assert(name[name.len() - 1] != '/');
    assert(p.last() == name.last());
    if name.last() == '.' {
        assert(name.len() > 1) by {
            if name.len() == 1 {
                assert(name =~= seq!['.']);
            }
        }
        assert(name[name.len() - 2] != '/');
        assert(p[p.len() - 2] == name[name.len() - 2]);
    }
    assert(without_dot_tail(name) == name);
    assert(without_dot_tail(p) == p);
    lemma_after_slash(Seq::empty(), name);
    lemma_after_slash(folder + seq!['/'], name);
    assert(Seq::<char>::empty() + name =~= name);
}

proof fn lemma_after_slash(head: Seq<char>, name: Seq<char>)
    requires
        text::free_of(name, '/'),
        head.len() == 0 || head.last() == '/',
    ensures
        after_slash(head + name) == name,
    decreases name.len(),
{
    if name.len() == 0 {
        assert(head + name =~= head);
        assert(after_slash(head) =~= name);
    } else {
        let front = name.drop_last();
        assert(name[name.len() - 1] != '/');
        assert forall|i: int| 0 <= i < front.len() implies front[i] != '/' by {
            assert(name[i] != '/');
        }
        assert((head + name).drop_last() =~= head + front);
        lemma_after_slash(head, front);
        assert(front.push(name.last()) =~= name);
    }
}

/// The extension of a file is what stands behind the last dot of its name; a name that
/// only begins with a dot has none.
pub proof fn law_extensions_stand_behind_the_last_dot(
    folder: Seq<char>,
    stem: Seq<char>,
    ext: Seq<char>,
)
    requires
        stem.len() > 0,
        text::free_of(stem, '/'),
        text::free_of(ext, '/'),
        text::free_of(ext, '.'),
        stem != seq!['.'] || ext.len() > 0,
    ensures
        extension_of(folder + seq!['/'] + (stem + seq!['.'] + ext)) == Some(ext),
        ext.len() > 0 ==> extension_of(folder + seq!['/'] + (seq!['.'] + ext)) is None,
{
    let name = stem + seq!['.'] + ext;
    assert forall|i: int| 0 <= i < name.len() implies name[i] != '/' by {
        if i < stem.len() {
            assert(stem[i] != '/');
        } else if i > stem.len() {
            assert(ext[i - stem.len() - 1] != '/');
        }
    }
    assert(name.len() >= 2);
    if name == seq!['.', '.'] {
        assert(name.len() == 2);
        assert(stem =~= seq!['.']);
        assert(ext.len() == 0);
    }
    law_names_stand_behind_the_last_slash(folder, name);
    lemma_last_place(stem, ext);
    assert(name.skip(stem.len() as int + 1) =~= ext);
    if ext.len() > 0 {
        let hidden = seq!['.'] + ext;
        assert forall|i: int| 0 <= i < hidden.len() implies hidden[i] != '/' by {
            if i > 0 {
                assert(ext[i - 1] != '/');
            }
        }
        if hidden == seq!['.', '.'] {
            assert(hidden[1] == ext[0]);
            assert(ext[0] != '.');
        }
        law_names_stand_behind_the_last_slash(folder, hidden);
        lemma_last_place(Seq::empty(), ext);
        assert(Seq::<char>::empty() + seq!['.'] + ext =~= hidden);
    }
}

proof fn lemma_last_place(head: Seq<char>, ext: Seq<char>)
    requires
        text::free_of(ext, '.'),
    ensures
        last_place(head + seq!['.'] + ext, '.') == head.len(),
    decreases ext.len(),
{
    let s = head + seq!['.'] + ext;
    if ext.len() > 0 {
        let front = ext.drop_last();
        assert(ext[ext.len() - 1] != '.');
        assert forall|i: int| 0 <= i < front.len() implies front[i] != '.' by {
            assert(ext[i] != '.');
        }
        assert(s.drop_last() =~= head + seq!['.'] + front);
        lemma_last_place(head, front);
    }
}

/// On Windows a backslash separates as a slash does; elsewhere it is part of a name.
pub proof fn law_backslashes_separate_on_windows(p: Seq<char>, i: int)
    requires
        0 <= i < p.len(),
    ensures
        slashed(p, false) == p,
        slashed(p, true).len() == p.len(),
        p[i] == '\\' ==> slashed(p, true)[i] == '/',
        p[i] != '\\' ==> slashed(p, true)[i] == p[i],
        separates('/', true) && separates('/', false) && separates('\\', true) && !separates(
            '\\',
            false,
        ),
{
}

/// On Windows a name stands behind a backslash, unless the folder ends in a separator;
/// elsewhere it is joined as every path is.
pub proof fn law_the_machines_separator_is_used(base: Seq<char>, leaf: Seq<char>)
    ensures
        native_path(base, leaf, false) == joined_path(base, leaf),
        native_path(Seq::empty(), leaf, true) == leaf,
        base.len() > 0 && !separates(base.last(), true) ==> {
            &&& native_path(base, leaf, true) == base + seq!['\\'] + leaf
            &&& native_path(base.push('\\'), leaf, true) == native_path(base, leaf, true)
        },
{
    assert(Seq::<char>::empty() + leaf =~= leaf);
}

} // verus!
