use vstd::prelude::*;

use crate::extract::{paths, InstallRecord};
use crate::path::{strictly_under, FsPath};

verus! {

/// The paths of `ps` that lie strictly beneath `root`, in order.
pub open spec fn kept_under(ps: Seq<Seq<Seq<char>>>, root: Seq<Seq<char>>) -> Seq<Seq<Seq<char>>>
    decreases ps.len(),
{
    if ps.len() == 0 {
        Seq::empty()
    } else {
        let rest = kept_under(ps.drop_last(), root);
        if strictly_under(ps.last(), root) {
            rest.push(ps.last())
        } else {
            rest
        }
    }
}

/// The paths of `ps` of exactly `k` components that lie strictly beneath
/// `root`, in order.
pub open spec fn at_depth(ps: Seq<Seq<Seq<char>>>, root: Seq<Seq<char>>, k: int) -> Seq<Seq<Seq<char>>>
    decreases ps.len(),
{
    if ps.len() == 0 {
        Seq::empty()
    } else {
        let rest = at_depth(ps.drop_last(), root, k);
        if strictly_under(ps.last(), root) && ps.last().len() == k {
            rest.push(ps.last())
        } else {
            rest
        }
    }
}

/// The greatest number of components among `ps`.
pub open spec fn max_depth(ps: Seq<Seq<Seq<char>>>) -> nat
    decreases ps.len(),
{
    if ps.len() == 0 {
        0
    } else {
        let rest = max_depth(ps.drop_last());
        if ps.last().len() > rest {
            ps.last().len()
        } else {
            rest
        }
    }
}

/// The paths of `ps` strictly beneath `root` with at most `k` components,
/// deepest first; paths of one depth keep their order.
pub open spec fn deepest_first(ps: Seq<Seq<Seq<char>>>, root: Seq<Seq<char>>, k: int) -> Seq<Seq<Seq<char>>>
    decreases k,
{
    if k <= root.len() {
        Seq::empty()
    } else {
        at_depth(ps, root, k) + deepest_first(ps, root, k - 1)
    }
}

/// The order in which a clean-up prunes the directories of a record.
pub open spec fn prune_order(dirs: Seq<Seq<Seq<char>>>, root: Seq<Seq<char>>) -> Seq<Seq<Seq<char>>> {
    deepest_first(dirs, root, max_depth(dirs) as int)
}

/// What a clean-up does: delete `files` where they still exist, then try to
/// remove each of `dirs`, in that order, leaving those that are not empty.
#[derive(Debug)]
pub struct CleanupPlan {
    pub files: Vec<FsPath>,
    pub dirs: Vec<FsPath>,
}

/// Plans the clean-up of an installation under `install_root`: the recorded
/// files and created directories that lie strictly beneath the root, the
/// directories deepest first.
pub fn clean_install(record: &InstallRecord, install_root: &FsPath) -> (r: CleanupPlan)
    ensures
        paths(r.files@) == kept_under(record.files(), install_root@),
        paths(r.dirs@) == prune_order(record.dirs(), install_root@),
{
    let ghost fs = record.files();
    let ghost ds = record.dirs();
    let mut files: Vec<FsPath> = Vec::new();
    let mut i: usize = 0;
    while i < record.installed_files.len()
        invariant
            fs == paths(record.installed_files@),
            i <= fs.len(),
            paths(files@) == kept_under(fs.subrange(0, i as int), install_root@),
        decreases fs.len() - i,
    {
        assert(fs.subrange(0, i + 1).drop_last() =~= fs.subrange(0, i as int));
        let f = &record.installed_files[i];
        if f.is_strictly_under(install_root) {
            let ghost before = files@;
            files.push(f.duplicate());
            assert(paths(files@) =~= paths(before).push(f@));
        }
        i = i + 1;
    }
    assert(fs.subrange(0, i as int) =~= fs);

    let mut m: usize = 0;
    let mut i: usize = 0;
    while i < record.created_dirs.len()
        invariant
            ds == paths(record.created_dirs@),
            i <= ds.len(),
            m == max_depth(ds.subrange(0, i as int)),
        decreases ds.len() - i,
    {
        assert(ds.subrange(0, i + 1).drop_last() =~= ds.subrange(0, i as int));
        let dd = record.created_dirs[i].depth();
        if dd > m {
            m = dd;
        }
        i = i + 1;
    }
    assert(ds.subrange(0, i as int) =~= ds);

    let mut dirs: Vec<FsPath> = Vec::new();
    let base = install_root.depth();
    let mut k: usize = m;
    while k > base
        invariant
            ds == paths(record.created_dirs@),
            base == install_root@.len(),
            paths(dirs@) + deepest_first(ds, install_root@, k as int) == prune_order(ds, install_root@),
        decreases k,
    {
        let ghost outer = paths(dirs@);
        let mut j: usize = 0;
        while j < record.created_dirs.len()
            invariant
                ds == paths(record.created_dirs@),
                j <= ds.len(),
                paths(dirs@) == outer + at_depth(ds.subrange(0, j as int), install_root@, k as int),
            decreases ds.len() - j,
        {
            assert(ds.subrange(0, j + 1).drop_last() =~= ds.subrange(0, j as int));
            let d = &record.created_dirs[j];
            if d.depth() == k && d.is_strictly_under(install_root) {
                let ghost before = dirs@;
                dirs.push(d.duplicate());
                assert(paths(dirs@) =~= paths(before).push(d@));
                assert(paths(dirs@) =~= outer + at_depth(ds.subrange(0, j + 1), install_root@, k as int));
            }
            j = j + 1;
        }
        assert(ds.subrange(0, j as int) =~= ds);
        assert(paths(dirs@) + deepest_first(ds, install_root@, k - 1) =~= outer + deepest_first(
            ds,
            install_root@,
            k as int,
        ));
        k = k - 1;
    }
    assert(paths(dirs@) =~= paths(dirs@) + deepest_first(ds, install_root@, k as int));
    CleanupPlan { files, dirs }
}

} // verus!
