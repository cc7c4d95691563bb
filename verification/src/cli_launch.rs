//! How a command-line program is found and started.
//!
//! Off Windows the resolved program is started as it is. On Windows a program
//! installed by npm is a `.cmd` script beside a bare shell script, neither of
//! which the system starts directly, so they go through `cmd /C`.
use vstd::prelude::*;
use crate::paths;
use crate::text;

verus! {

/// `leaf` in the Windows folder `base`.
pub open spec fn windows_path(base: Seq<char>, leaf: Seq<char>) -> Seq<char> {
    if base.len() == 0 || base.last() == '\\' || base.last() == '/' {
        base + leaf
    } else {
        base.push('\\') + leaf
    }
}

/// `leaf` in the Windows folder `base`.
fn windows_join(base: &str, leaf: &str) -> (r: String)
    ensures
        r@ == windows_path(base@, leaf@),
{
    let b = text::chars_of(base);
    let mut s = base.to_owned();
    if b.len() > 0 && b[b.len() - 1] != '\\' && b[b.len() - 1] != '/' {
        s.push('\\');
    }
    s.append(leaf);
    s
}

/// Where npm puts `bin` under the folder `appdata`: a real `.exe`, then the
/// `.cmd` script. Nothing off Windows or without that folder.
pub fn windows_npm_candidates(windows: bool, appdata: Option<&str>, bin: &str) -> (r: Vec<String>)
    ensures
        text::texts(r@) == (if windows && appdata is Some {
            let npm = windows_path(appdata->0@, "npm"@);
            seq![windows_path(npm, bin@ + ".exe"@), windows_path(npm, bin@ + ".cmd"@)]
        } else {
            Seq::<Seq<char>>::empty()
        }),
{
    let mut out: Vec<String> = Vec::new();
    if windows {
        match appdata {
            Some(dir) => {
                let npm = windows_join(dir, "npm");
                let mut exe = bin.to_owned();
                exe.append(".exe");
                let mut script = bin.to_owned();
                script.append(".cmd");
                out.push(windows_join(npm.as_str(), exe.as_str()));
                out.push(windows_join(npm.as_str(), script.as_str()));
                assert(text::texts(out@) =~= seq![out@[0]@, out@[1]@]);
            },
            None => {
                assert(text::texts(out@) =~= Seq::<Seq<char>>::empty());
            },
        }
    } else {
        assert(text::texts(out@) =~= Seq::<Seq<char>>::empty());
    }
    out
}

/// The program is not a real `.exe`.
pub open spec fn not_exe(binary: Seq<char>) -> bool {
    match paths::extension_of(binary) {
        Some(e) => text::ascii_lower(e) != "exe"@,
        None => true,
    }
}

/// Whether `binary` has to be started through `cmd /C`: on Windows, where it
/// is not a real `.exe`.
pub fn needs_cmd_shim(windows: bool, binary: &str) -> (r: bool)
    ensures
        r == (windows && not_exe(binary@)),
{
    if !windows {
        return false;
    }
    match paths::extension(binary) {
        Some(e) => {
            let lower = text::to_ascii_lower(e.as_str());
            !text::same(lower.as_str(), "exe")
        },
        None => true,
    }
}

/// A program and its arguments.
#[derive(Debug, PartialEq, Eq)]
pub struct LaunchPlan {
    pub program: String,
    pub args: Vec<String>,
}

/// How to start `binary` with `args`.
pub fn launch_plan(windows: bool, binary: &str, args: &Vec<String>) -> (r: LaunchPlan)
    ensures
        if windows && not_exe(binary@) {
            r.program@ == "cmd"@ && text::texts(r.args@) == seq!["/C"@, binary@] + text::texts(
                args@,
            )
        } else {
            r.program@ == binary@ && text::texts(r.args@) == text::texts(args@)
        },
{
    let shim = needs_cmd_shim(windows, binary);
    let mut out: Vec<String> = Vec::new();
    let ghost lead = if shim {
        seq!["/C"@, binary@]
    } else {
        Seq::<Seq<char>>::empty()
    };
    if shim {
        out.push("/C".to_owned());
        out.push(binary.to_owned());
    }
    assert(text::texts(out@) =~= lead);
    let mut i: usize = 0;
    while i < args.len()
        invariant
            i <= args.len(),
            text::texts(out@) =~= lead + text::texts(args@).take(i as int),
        decreases args.len() - i,
    {
        let a = args[i].clone();
        proof {
            text::lemma_texts_push(out@, a);
        }
        out.push(a);
        i += 1;
    }
    assert(text::texts(args@).take(i as int) =~= text::texts(args@));
    assert(lead.len() == 0 ==> lead + text::texts(args@) =~= text::texts(args@));
    if shim {
        LaunchPlan { program: "cmd".to_owned(), args: out }
    } else {
        LaunchPlan { program: binary.to_owned(), args: out }
    }
}

/// How readily a path starts, by its extension: `.exe`, `.cmd`, `.bat`, then
/// everything else.
pub open spec fn launch_rank(p: Seq<char>) -> int {
    match paths::extension_of(p) {
        Some(e) => {
            let l = text::ascii_lower(e);
            if l == "exe"@ {
                0
            } else if l == "cmd"@ {
                1
            } else if l == "bat"@ {
                2
            } else {
                3
            }
        },
        None => 3,
    }
}

/// The launch rank of a path.
pub fn ext_rank(p: &str) -> (r: u8)
    ensures
        r == launch_rank(p@),
{
    match paths::extension(p) {
        Some(e) => {
            let l = text::to_ascii_lower(e.as_str());
            if text::same(l.as_str(), "exe") {
                0
            } else if text::same(l.as_str(), "cmd") {
                1
            } else if text::same(l.as_str(), "bat") {
                2
            } else {
                3
            }
        },
        None => 3,
    }
}

/// The paths in a listing: its lines, trimmed, the blank ones left out.
pub open spec fn listed_paths(lines: Seq<Seq<char>>) -> Seq<Seq<char>>
    decreases lines.len(),
{
    if lines.len() == 0 {
        Seq::empty()
    } else {
        let before = listed_paths(lines.drop_last());
        let t = text::trimmed(lines.last());
        if t.len() == 0 {
            before
        } else {
            before.push(t)
        }
    }
}

/// The most launchable of a listing's paths, one path a line: the first of
/// those with the least rank; `None` if the listing names none.
pub fn most_launchable(where_output: &str) -> (r: Option<String>)
    ensures
        ({
            let all = listed_paths(text::lines_of(where_output@));
            match r {
                None => all.len() == 0,
                Some(p) => exists|k: int|
                    0 <= k < all.len() && #[trigger] all[k] == p@ && (forall|j: int|
                        0 <= j < all.len() ==> launch_rank(all[k]) <= launch_rank(
                            #[trigger] all[j],
                        )) && (forall|j: int|
                        0 <= j < k ==> launch_rank(all[k]) < launch_rank(#[trigger] all[j])),
            }
        }),
{
    let lines = text::lines(where_output);
    let ghost ls = text::texts(lines@);
    let mut best: Option<String> = None;
    let mut best_rank: u8 = 0;
    let ghost mut at: int = 0;
    let mut i: usize = 0;
    assert(ls.take(0) =~= Seq::<Seq<char>>::empty());
    while i < lines.len()
        invariant
            i <= lines.len(),
            ls == text::texts(lines@),
            best is None ==> listed_paths(ls.take(i as int)).len() == 0,
            best matches Some(p) ==> {
                let all = listed_paths(ls.take(i as int));
                &&& 0 <= at < all.len()
                &&& all[at] == p@
                &&& best_rank == launch_rank(p@)
                &&& forall|j: int|
                    0 <= j < all.len() ==> launch_rank(all[at]) <= launch_rank(#[trigger] all[j])
                &&& forall|j: int| 0 <= j < at ==> launch_rank(all[at]) < launch_rank(#[trigger] all[j])
            },
        decreases lines.len() - i,
    {
        let ghost before = listed_paths(ls.take(i as int));
        assert(ls.take(i + 1).drop_last() =~= ls.take(i as int));
        assert(ls.take(i + 1).last() == ls[i as int]);
        let t = text::trim(lines[i].as_str());
        if !t.is_empty() {
            let rank: u8 = ext_rank(t);
            let ghost all = before.push(t@);
            assert(forall|j: int| 0 <= j < before.len() ==> all[j] == before[j]);
            assert(all[before.len() as int] == t@);
            if best.is_none() || rank < best_rank {
                best = Some(t.to_owned());
                best_rank = rank;
                proof {
                    at = before.len() as int;
                }
            }
        }
        i += 1;
    }
    assert(ls.take(i as int) =~= ls);
    best
}

/// Each line that is not blank names a path, in its order.
pub proof fn law_lines_name_paths(lines: Seq<Seq<char>>, line: Seq<char>)
    ensures
        listed_paths(Seq::empty()).len() == 0,
        text::blank(line) ==> listed_paths(lines.push(line)) == listed_paths(lines),
        !text::blank(line) ==> listed_paths(lines.push(line)) == listed_paths(lines).push(
            text::trimmed(line),
        ),
{
    text::law_blank_texts_are_trimmed_away(line);
    assert(lines.push(line).drop_last() =~= lines);
}

/// A program starts more readily than a `.cmd` script, that than a `.bat` one, and that
/// than anything else; case does not matter. Only a program is started as it is.
pub proof fn law_programs_start_first(folder: Seq<char>, stem: Seq<char>, ext: Seq<char>)
    requires
        stem.len() > 0,
        text::free_of(stem, '/'),
        text::free_of(ext, '/'),
        text::free_of(ext, '.'),
        ext.len() > 0,
    ensures
        ({
            let p = folder + seq!['/'] + (stem + seq!['.'] + ext);
            let l = text::ascii_lower(ext);
            &&& l == "exe"@ ==> launch_rank(p) == 0 && !not_exe(p)
            &&& l == "cmd"@ ==> launch_rank(p) == 1 && not_exe(p)
            &&& l == "bat"@ ==> launch_rank(p) == 2 && not_exe(p)
            &&& l != "exe"@ && l != "cmd"@ && l != "bat"@ ==> launch_rank(p) == 3 && not_exe(p)
        }),
{
    paths::law_extensions_stand_behind_the_last_dot(folder, stem, ext);
    reveal_strlit("exe");
    reveal_strlit("cmd");
    reveal_strlit("bat");
    assert("exe"@[0] == 'e');
    assert("cmd"@[0] == 'c');
    assert("bat"@[0] == 'b');
}

/// One backslash stands between a Windows folder and what is in it, unless the folder
/// ends in a separator.
pub proof fn law_windows_paths_have_one_separator(base: Seq<char>, leaf: Seq<char>)
    requires
        base.len() > 0,
        base.last() != '\\',
        base.last() != '/',
    ensures
        windows_path(base, leaf) == base + seq!['\\'] + leaf,
        windows_path(base.push('\\'), leaf) == windows_path(base, leaf),
        windows_path(base.push('/'), leaf) == base + seq!['/'] + leaf,
{
}

} // verus!
