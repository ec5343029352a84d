//! Copying a directory tree: which entries are left out, and what is done
//! with each entry of each directory still to copy.

use vstd::prelude::*;
use crate::text::{contains_seq, occurs_at, text_contains, text_equal};
use crate::path::{child_path, joins_as_child};

verus! {

/// `pattern` leaves out an entry named `name`: it is the name, or occurs in it.
pub open spec fn name_matches(pattern: Seq<char>, name: Seq<char>) -> bool {
    pattern == name || contains_seq(name, pattern)
}

/// Some pattern of `list` leaves out an entry named `name`.
pub open spec fn name_ignored(list: Seq<String>, name: Seq<char>) -> bool {
    exists|i: int| 0 <= i < list.len() && name_matches(#[trigger] list[i]@, name)
}

/// An entry is left out exactly when some pattern of the list occurs in its
/// name (a pattern equal to the name occurs in it too); so only a pattern no
/// longer than the name can leave it out.
pub proof fn lemma_ignored_iff_pattern_in_name(list: Seq<String>, name: Seq<char>)
    ensures
        name_ignored(list, name) <==> exists|i: int| 0 <= i < list.len() && contains_seq(name, #[trigger] list[i]@),
        name_ignored(list, name) ==> exists|i: int| 0 <= i < list.len() && (#[trigger] list[i]@).len() <= name.len(),
{
    if name_ignored(list, name) {
        let i = choose|i: int| 0 <= i < list.len() && name_matches(#[trigger] list[i]@, name);
        if list[i]@ == name {
            assert(name.subrange(0, name.len() as int) =~= name);
            assert(occurs_at(name, list[i]@, 0));
        }
        assert(contains_seq(name, list[i]@));
        let k = choose|k: int| occurs_at(name, list[i]@, k);
        assert(list[i]@.len() <= name.len());
    }
    if exists|i: int| 0 <= i < list.len() && contains_seq(name, #[trigger] list[i]@) {
        let i = choose|i: int| 0 <= i < list.len() && contains_seq(name, #[trigger] list[i]@);
        assert(name_matches(list[i]@, name));
    }
}

/// Whether `copy_dir` leaves out an entry named `name`.
pub fn is_ignored(name: &str, list: &Vec<String>) -> (res: bool)
    ensures
        res == name_ignored(list@, name@),
{
    let mut i: usize = 0;
    while i < list.len()
        invariant
            i <= list.len(),
            forall|j: int| 0 <= j < i ==> !name_matches(#[trigger] list@[j]@, name@),
        decreases list.len() - i,
    {
        let pattern = list[i].as_str();
        if text_equal(pattern, name) || text_contains(name, pattern) {
            assert(name_matches(list@[i as int]@, name@));
            return true;
        }
        i += 1;
    }
    false
}

/// What a directory entry is.
#[derive(PartialEq, Eq, Structural, Clone, Copy, Debug)]
pub enum EntryKind {
    Dir,
    File,
    Symlink,
    Other,
}

/// What to do with one entry.
pub enum CopyStep {
    /// Leave the entry out.
    Skip,
    /// Create the directory `to`; its entries are copied from `from` later.
    Descend { from: String, to: String },
    /// Copy the file `from` to `to`.
    CopyFile { from: String, to: String },
    /// Recreate the symbolic link `from` at `to`.
    CopyLink { from: String, to: String },
}

/// The directories still to copy, each as a source and a destination,
/// visited last in first out, and the names to leave out.
pub struct DirCopy {
    pending: Vec<(String, String)>,
    ignore: Vec<String>,
}

/// The views of a list of (source, destination) pairs.
pub open spec fn pairs_view(v: Seq<(String, String)>) -> Seq<(Seq<char>, Seq<char>)> {
    v.map_values(|p: (String, String)| (p.0@, p.1@))
}

impl DirCopy {
    /// The directories still to copy; the last is visited next.
    pub closed spec fn pending(self) -> Seq<(Seq<char>, Seq<char>)> {
        pairs_view(self.pending@)
    }

    /// The names to leave out.
    pub closed spec fn ignore_list(self) -> Seq<String> {
        self.ignore@
    }

    /// A copy of the tree at `src` into `dst`: only the top directory is
    /// pending.
    pub fn new(src: String, dst: String, ignore: Vec<String>) -> (res: DirCopy)
        ensures
            res.pending() == seq![(src@, dst@)],
            res.ignore_list() == ignore@,
    {
        let mut pending: Vec<(String, String)> = Vec::new();
        pending.push((src, dst));
        let res = DirCopy { pending, ignore };
        assert(res.pending() =~= seq![(src@, dst@)]);
        res
    }

    /// The next directory to copy, the one pending last; `None` when the
    /// copy is complete.
    pub fn next_dir(&mut self) -> (res: Option<(String, String)>)
        ensures
            final(self).ignore_list() == old(self).ignore_list(),
            old(self).pending().len() == 0 ==> res is None && final(self).pending() == old(self).pending(),
            old(self).pending().len() > 0 ==> (res matches Some(p) && (p.0@, p.1@) == old(self).pending().last())
                && final(self).pending() == old(self).pending().drop_last(),
    {
        let res = self.pending.pop();
        proof {
            assert(pairs_view(self.pending@) =~= pairs_view(old(self).pending@).drop_last()
                || old(self).pending@.len() == 0);
        }
        res
    }

    /// What to do with the entry `name`, of kind `kind`, found at `from` in a
    /// directory being copied to `to_dir`. Left-out names are skipped; a
    /// directory is pending from then on; a file or a link is copied; any
    /// other entry is skipped. The destination is `name` adjoined to
    /// `to_dir` (`joins_as_child`).
    pub fn entry(&mut self, to_dir: &str, name: &str, from: String, kind: EntryKind) -> (res: CopyStep)
        ensures
            final(self).ignore_list() == old(self).ignore_list(),
            name_ignored(old(self).ignore_list(), name@) ==> res is Skip,
            !name_ignored(old(self).ignore_list(), name@) ==> match kind {
                EntryKind::Dir => res matches CopyStep::Descend { from: f, to: t } && f@ == from@
                    && joins_as_child(to_dir@, name@, t@)
                    && final(self).pending() == old(self).pending().push((from@, t@)),
                EntryKind::File => res matches CopyStep::CopyFile { from: f, to: t } && f@ == from@
                    && joins_as_child(to_dir@, name@, t@),
                EntryKind::Symlink => res matches CopyStep::CopyLink { from: f, to: t } && f@ == from@
                    && joins_as_child(to_dir@, name@, t@),
                EntryKind::Other => res is Skip,
            },
            !(res is Descend) ==> final(self).pending() == old(self).pending(),
    {
        if is_ignored(name, &self.ignore) {
            return CopyStep::Skip;
        }
        match kind {
            EntryKind::Dir => {
                let to = child_path(to_dir, name);
                let ghost before = self.pending@;
                self.pending.push((from.clone(), to.clone()));
                proof {
                    assert(pairs_view(self.pending@) =~= pairs_view(before).push((from@, to@)));
                }
                CopyStep::Descend { from, to }
            },
            EntryKind::File => CopyStep::CopyFile { to: child_path(to_dir, name), from },
            EntryKind::Symlink => CopyStep::CopyLink { to: child_path(to_dir, name), from },
            EntryKind::Other => CopyStep::Skip,
        }
    }
}

} // verus!
