use vstd::prelude::*;

use crate::path::{relative_parts, FsPath};

verus! {

/// The component sequences of a sequence of paths.
pub open spec fn paths(v: Seq<FsPath>) -> Seq<Seq<Seq<char>>> {
    v.map_values(|p: FsPath| p@)
}

/// Where an archive entry named `name` lands under `root`.
pub open spec fn entry_target(root: Seq<Seq<char>>, name: Seq<char>) -> Seq<Seq<char>> {
    root + relative_parts(name)
}

/// The directory that must exist for an entry: the entry itself for a
/// directory entry, its parent for a file entry.
pub open spec fn holder_of(target: Seq<Seq<char>>, is_dir: bool) -> Seq<Seq<char>> {
    if is_dir || target.len() == 0 {
        target
    } else {
        target.drop_last()
    }
}

/// The shallowest depth at which a directory is made for an installation
/// under a root of `root_len` components.
pub open spec fn first_depth(root_len: int) -> int {
    if root_len >= 1 {
        root_len
    } else {
        1
    }
}

/// The directories from the root down to `dir`, shallowest first, that an
/// installation under a root of `root_len` components makes sure exist.
pub open spec fn dir_chain(root_len: int, dir: Seq<Seq<char>>) -> Seq<Seq<Seq<char>>> {
    let lo = first_depth(root_len);
    if dir.len() < lo {
        Seq::empty()
    } else {
        Seq::new((dir.len() - lo + 1) as nat, |j: int| dir.subrange(0, lo + j))
    }
}

/// The paths of `dirs` whose flag in `existed` is false, in order.
pub open spec fn fresh_dirs(dirs: Seq<Seq<Seq<char>>>, existed: Seq<bool>) -> Seq<Seq<Seq<char>>>
    decreases dirs.len(),
{
    if dirs.len() == 0 {
        Seq::empty()
    } else {
        let rest = fresh_dirs(dirs.drop_last(), existed);
        if existed[dirs.len() - 1] {
            rest
        } else {
            rest.push(dirs.last())
        }
    }
}

/// `ps` with `p` added at the end unless it is already there.
pub open spec fn with_path(ps: Seq<Seq<Seq<char>>>, p: Seq<Seq<char>>) -> Seq<Seq<Seq<char>>> {
    if ps.contains(p) {
        ps
    } else {
        ps.push(p)
    }
}

/// `ps` with each of `more` added in turn unless already there.
pub open spec fn with_paths(ps: Seq<Seq<Seq<char>>>, more: Seq<Seq<Seq<char>>>) -> Seq<Seq<Seq<char>>>
    decreases more.len(),
{
    if more.len() == 0 {
        ps
    } else {
        with_path(with_paths(ps, more.drop_last()), more.last())
    }
}

/// What one archive entry asks of the filesystem: the directories that must
/// exist, shallowest first, and the file to write, if it is a file entry.
#[derive(Debug)]
pub struct EntryPlan {
    pub dirs: Vec<FsPath>,
    pub file: Option<FsPath>,
}

/// What one installation created: the files it wrote, in order, and the
/// directories that did not exist before it.
#[derive(Debug)]
pub struct InstallRecord {
    pub installed_files: Vec<FsPath>,
    pub created_dirs: Vec<FsPath>,
}

impl InstallRecord {
    pub open spec fn files(&self) -> Seq<Seq<Seq<char>>> {
        paths(self.installed_files@)
    }

    pub open spec fn dirs(&self) -> Seq<Seq<Seq<char>>> {
        paths(self.created_dirs@)
    }

    /// Neither list names a path twice.
    pub open spec fn wf(&self) -> bool {
        self.files().no_duplicates() && self.dirs().no_duplicates()
    }

    /// The record of an installation that has not written anything yet.
    pub fn new() -> (r: InstallRecord)
        ensures
            r.files() == Seq::<Seq<Seq<char>>>::empty(),
            r.dirs() == Seq::<Seq<Seq<char>>>::empty(),
            r.wf(),
    {
        let r = InstallRecord { installed_files: Vec::new(), created_dirs: Vec::new() };
        assert(r.files() =~= Seq::<Seq<Seq<char>>>::empty());
        assert(r.dirs() =~= Seq::<Seq<Seq<char>>>::empty());
        r
    }

    /// Records one extracted entry: the directories of its plan that did not
    /// exist before (`existed` holds one flag per directory), and its file.
    pub fn note_entry(&mut self, plan: &EntryPlan, existed: &Vec<bool>)
        requires
            existed@.len() == plan.dirs@.len(),
        ensures
            final(self).dirs() == with_paths(old(self).dirs(), fresh_dirs(paths(plan.dirs@), existed@)),
            final(self).files() == match plan.file {
                Some(f) => with_path(old(self).files(), f@),
                None => old(self).files(),
            },
            old(self).wf() ==> final(self).wf(),
    {
        let mut i: usize = 0;
        while i < plan.dirs.len()
            invariant
                existed@.len() == plan.dirs@.len(),
                i <= plan.dirs@.len(),
                self.files() == old(self).files(),
                self.dirs() == with_paths(
                    old(self).dirs(),
                    fresh_dirs(paths(plan.dirs@).subrange(0, i as int), existed@),
                ),
                old(self).wf() ==> self.wf(),
            decreases plan.dirs@.len() - i,
        {
            let ghost pre = paths(plan.dirs@).subrange(0, i as int);
            let ghost next = paths(plan.dirs@).subrange(0, i + 1);
            assert(next.drop_last() =~= pre);
            if !existed[i] {
                let ghost fresh = fresh_dirs(next, existed@);
                assert(fresh == fresh_dirs(pre, existed@).push(plan.dirs@[i as int]@));
                assert(fresh.drop_last() =~= fresh_dirs(pre, existed@));
                add_unique(&mut self.created_dirs, &plan.dirs[i]);
            }
            i = i + 1;
        }
        assert(paths(plan.dirs@).subrange(0, i as int) =~= paths(plan.dirs@));
        match &plan.file {
            Some(f) => {
                add_unique(&mut self.installed_files, f);
            },
            None => {},
        }
    }
}

/// Whether `p` is one of `ps`.
pub fn holds_path(ps: &Vec<FsPath>, p: &FsPath) -> (r: bool)
    ensures
        r == paths(ps@).contains(p@),
{
    let mut i: usize = 0;
    while i < ps.len()
        invariant
            i <= ps@.len(),
            forall|j: int| 0 <= j < i ==> ps@[j]@ != p@,
        decreases ps@.len() - i,
    {
        if ps[i].same(p) {
            assert(paths(ps@)[i as int] == p@);
            return true;
        }
        i = i + 1;
    }
    assert forall|j: int| 0 <= j < paths(ps@).len() implies paths(ps@)[j] != p@ by {
        assert(paths(ps@)[j] == ps@[j]@);
    }
    false
}

/// Adds `p` to the end of `ps` unless it is already there.
fn add_unique(ps: &mut Vec<FsPath>, p: &FsPath)
    ensures
        paths(final(ps)@) == with_path(paths(old(ps)@), p@),
        paths(old(ps)@).no_duplicates() ==> paths(final(ps)@).no_duplicates(),
{
    if !holds_path(ps, p) {
        let q = p.duplicate();
        ps.push(q);
        assert(paths(ps@) =~= paths(old(ps)@).push(p@));
    }
}

/// Plans the extraction of the archive entry `name` under `root`.
pub fn plan_entry(root: &FsPath, name: &str, is_dir: bool) -> (r: EntryPlan)
    ensures
        paths(r.dirs@) == dir_chain(root@.len() as int, holder_of(entry_target(root@, name@), is_dir)),
        is_dir ==> r.file is None,
        !is_dir ==> (r.file matches Some(f) && f@ == entry_target(root@, name@)),
{
    let target = root.join(name);
    let n = target.depth();
    let k: usize = if is_dir || n == 0 {
        n
    } else {
        n - 1
    };
    let holder = target.prefix(k);
    assert(holder@ =~= holder_of(entry_target(root@, name@), is_dir));
    let lo: usize = if root.depth() >= 1 {
        root.depth()
    } else {
        1
    };
    let mut dirs: Vec<FsPath> = Vec::new();
    if lo <= k {
        let mut d: usize = lo;
        loop
            invariant_except_break
                paths(dirs@) =~= Seq::new((d - lo) as nat, |j: int| holder@.subrange(0, lo + j)),
            invariant
                holder@.len() == k,
                lo <= d <= k,
            ensures
                paths(dirs@) =~= Seq::new((k - lo + 1) as nat, |j: int| holder@.subrange(0, lo + j)),
            decreases k - d,
        {
            let ghost before = dirs@;
            dirs.push(holder.prefix(d));
            assert(paths(dirs@) =~= paths(before).push(holder@.subrange(0, d as int)));
            if d == k {
                break;
            }
            d = d + 1;
        }
    }
    assert(paths(dirs@) =~= dir_chain(root@.len() as int, holder@));
    let file = if is_dir {
        None
    } else {
        Some(target)
    };
    EntryPlan { dirs, file }
}

} // verus!
