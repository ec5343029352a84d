//! The script registry behind `SET_BASE_SCRIPTS`, `include`,
//! `include_local` and `include_dir`: the base directories searched, in the
//! order they were added, and the set of files included so far.

use vstd::prelude::*;
use crate::text::text_equal;
use crate::path::{child_path, joins_as_child, path_is_relative, plainly_relative, starts_with_double_slash};

verus! {

/// The directory, under the current one, that `include_local` falls back to.
pub const SCRIPTS_DIR: &'static str = "scripts";

/// The views of a list of strings.
pub open spec fn strings_view(v: Seq<String>) -> Seq<Seq<char>> {
    v.map_values(|s: String| s@)
}

/// No string occurs twice.
pub open spec fn no_duplicates(v: Seq<Seq<char>>) -> bool {
    forall|i: int, j: int| 0 <= i < v.len() && 0 <= j < v.len() && i != j ==> v[i] != v[j]
}

/// Base directories and included files.
pub struct ScriptRegistry {
    base_dirs: Vec<String>,
    included: Vec<String>,
}

/// A copy of a list of strings.
fn copy_strings(v: &Vec<String>) -> (res: Vec<String>)
    ensures
        strings_view(res@) == strings_view(v@),
{
    let mut out: Vec<String> = Vec::new();
    let mut i: usize = 0;
    while i < v.len()
        invariant
            i <= v.len(),
            strings_view(out@) == strings_view(v@).take(i as int),
        decreases v.len() - i,
    {
        let c = v[i].clone();
        assert(c@ == v@[i as int]@);
        let ghost before = out@;
        out.push(c);
        assert(strings_view(out@) =~= strings_view(before).push(c@));
        assert(strings_view(v@).take(i + 1) =~= strings_view(v@).take(i as int).push(v@[i as int]@));
        i += 1;
    }
    assert(strings_view(v@).take(v@.len() as int) =~= strings_view(v@));
    out
}

impl ScriptRegistry {
    /// No file is recorded twice.
    #[verifier::type_invariant]
    spec fn files_unique(self) -> bool {
        no_duplicates(strings_view(self.included@))
    }

    /// The base directories, in the order they were added.
    pub closed spec fn base_dirs(self) -> Seq<Seq<char>> {
        strings_view(self.base_dirs@)
    }

    /// The files included so far.
    pub closed spec fn included(self) -> Set<Seq<char>> {
        strings_view(self.included@).to_set()
    }

    /// No base directories and no files included.
    pub fn new() -> (res: ScriptRegistry)
        ensures
            res.base_dirs() == Seq::<Seq<char>>::empty(),
            res.included() == Set::<Seq<char>>::empty(),
    {
        let res = ScriptRegistry { base_dirs: Vec::new(), included: Vec::new() };
        assert(res.base_dirs() =~= Seq::<Seq<char>>::empty());
        assert(res.included() =~= Set::<Seq<char>>::empty());
        res
    }

    /// Adds a base directory at the end of the search order.
    pub fn add_base_dir(&mut self, dir: String)
        ensures
            final(self).base_dirs() == old(self).base_dirs().push(dir@),
            final(self).included() == old(self).included(),
    {
        proof {
            use_type_invariant(&*self);
        }
        let ghost before = self.base_dirs@;
        let mut dirs: Vec<String> = Vec::new();
        std::mem::swap(&mut dirs, &mut self.base_dirs);
        dirs.push(dir);
        self.base_dirs = dirs;
        assert(strings_view(self.base_dirs@) =~= strings_view(before).push(dir@));
    }

    /// `GET_BASE_SCRIPTS`: the base directories, in search order.
    pub fn base_dir_list(&self) -> (res: Vec<String>)
        ensures
            strings_view(res@) == self.base_dirs(),
    {
        copy_strings(&self.base_dirs)
    }

    /// Whether `path` has been included.
    pub fn is_included(&self, path: &str) -> (res: bool)
        ensures
            res == self.included().contains(path@),
    {
        let mut i: usize = 0;
        while i < self.included.len()
            invariant
                i <= self.included.len(),
                forall|j: int| 0 <= j < i ==> self.included@[j]@ != path@,
            decreases self.included.len() - i,
        {
            if text_equal(self.included[i].as_str(), path) {
                assert(strings_view(self.included@)[i as int] == path@);
                return true;
            }
            i += 1;
        }
        proof {
            if strings_view(self.included@).to_set().contains(path@) {
                let k = choose|k: int| 0 <= k < strings_view(self.included@).len() && strings_view(self.included@)[k] == path@;
                assert(self.included@[k]@ == path@);
            }
        }
        false
    }

    /// Records that `path` was included; recording it again changes nothing.
    pub fn record_included(&mut self, path: String)
        ensures
            final(self).included() == old(self).included().insert(path@),
            final(self).base_dirs() == old(self).base_dirs(),
    {
        proof {
            use_type_invariant(&*self);
        }
        if self.is_included(path.as_str()) {
            assert(self.included().insert(path@) =~= self.included());
            return;
        }
        let ghost before = self.included@;
        let mut files: Vec<String> = Vec::new();
        std::mem::swap(&mut files, &mut self.included);
        files.push(path);
        proof {
            assert(strings_view(files@) =~= strings_view(before).push(path@));
            let sv = strings_view(files@);
            assert(sv.drop_last() =~= strings_view(before));
            assert(sv.last() == path@);
            assert(sv.drop_last().to_set().insert(sv.last()) =~= sv.to_set());
            assert forall|i: int, j: int|
                0 <= i < strings_view(files@).len() && 0 <= j < strings_view(files@).len() && i != j
                implies strings_view(files@)[i] != strings_view(files@)[j] by {
                if i < before.len() && j < before.len() {
                } else if i == before.len() {
                    assert(strings_view(before).contains(strings_view(before)[j]));
                } else {
                    assert(strings_view(before).contains(strings_view(before)[i]));
                }
            }
        }
        self.included = files;
    }

    /// `get_included_files`: every file included so far, each once.
    pub fn included_files(&self) -> (res: Vec<String>)
        ensures
            strings_view(res@).to_set() == self.included(),
            no_duplicates(strings_view(res@)),
    {
        proof {
            use_type_invariant(self);
        }
        copy_strings(&self.included)
    }

    /// The paths `include_local` tries for `path`, in order: `path` adjoined
    /// to each base directory, then to the `scripts` directory of the
    /// current directory when that is known (`joins_as_child`).
    pub fn local_candidates(&self, path: &str, current_dir: Option<String>) -> (res: Vec<String>)
        ensures
            current_dir is None ==> res@.len() == self.base_dirs().len(),
            current_dir is Some ==> res@.len() == self.base_dirs().len() + 1,
            forall|i: int|
                0 <= i < self.base_dirs().len() ==> joins_as_child(
                    #[trigger] self.base_dirs()[i],
                    path@,
                    res@[i]@,
                ),
            current_dir matches Some(d) ==> exists|s: Seq<char>|
                joins_as_child(d@, SCRIPTS_DIR@, s) && joins_as_child(s, path@, #[trigger] res@.last()@),
    {
        let mut out: Vec<String> = Vec::new();
        let mut i: usize = 0;
        while i < self.base_dirs.len()
            invariant
                i <= self.base_dirs.len(),
                out@.len() == i,
                forall|j: int|
                    0 <= j < i ==> joins_as_child(#[trigger] self.base_dirs()[j], path@, out@[j]@),
            decreases self.base_dirs.len() - i,
        {
            out.push(child_path(self.base_dirs[i].as_str(), path));
            i += 1;
        }
        if let Some(dir) = current_dir {
            let scripts = child_path(dir.as_str(), SCRIPTS_DIR);
            out.push(child_path(scripts.as_str(), path));
            assert(joins_as_child(dir@, SCRIPTS_DIR@, scripts@) && joins_as_child(scripts@, path@, out@.last()@));
        }
        out
    }
}

/// Whether `SET_BASE_SCRIPTS` replaces `requested` by the current
/// directory: it does for a relative path (std's `is_relative`) and keeps an
/// absolute one. On every platform a path with neither a root nor a prefix is
/// relative and a path starting with `//` is absolute; which other paths are
/// is the platform's.
pub fn needs_current_dir(requested: &str) -> (res: bool)
    ensures
        plainly_relative(requested@) ==> res,
        starts_with_double_slash(requested@) ==> !res,
{
    path_is_relative(requested)
}

/// Whether `include_dir` loads a file with this extension: `luau` or `lua`.
pub fn is_script_extension(extension: &Option<String>) -> (res: bool)
    ensures
        res == (extension matches Some(e) && (e@ == "luau"@ || e@ == "lua"@)),
{
    match extension {
        Some(e) => text_equal(e.as_str(), "luau") || text_equal(e.as_str(), "lua"),
        None => false,
    }
}

/// The script that runs when none is named on the command line.
pub const DEFAULT_SCRIPT: &'static str = "scripts\\main.luau";

/// The script to run: the one named on the command line, else
/// `scripts\\main.luau`.
pub fn script_to_run(named: Option<String>) -> (res: String)
    ensures
        named matches Some(s) ==> res@ == s@,
        named is None ==> res@ == DEFAULT_SCRIPT@,
{
    match named {
        Some(s) => s,
        None => DEFAULT_SCRIPT.to_owned(),
    }
}

} // verus!
