use vstd::prelude::*;

use crate::extract::{dir_chain, entry_target, fresh_dirs, holder_of, with_path, with_paths};
use crate::path::relative_parts;
use crate::path::{strictly_under, within};
use crate::rollback::{at_depth, deepest_first, kept_under, max_depth, prune_order};

verus! {

/// Something exists strictly beneath `d`.
pub open spec fn has_entry_under(fs: Set<Seq<Seq<char>>>, d: Seq<Seq<char>>) -> bool {
    exists|q: Seq<Seq<char>>| fs.contains(q) && #[trigger] strictly_under(q, d)
}

/// The filesystem, as the set of its existing paths, once `files` are
/// deleted; a file that is already gone is no error.
pub open spec fn after_deletes(fs: Set<Seq<Seq<char>>>, files: Seq<Seq<Seq<char>>>) -> Set<Seq<Seq<char>>> {
    fs.difference(files.to_set())
}

/// The filesystem once each of `dirs` in turn has been removed if it exists
/// and nothing lies beneath it, and left alone otherwise.
pub open spec fn after_prunes(fs: Set<Seq<Seq<char>>>, dirs: Seq<Seq<Seq<char>>>) -> Set<Seq<Seq<char>>>
    decreases dirs.len(),
{
    if dirs.len() == 0 {
        fs
    } else {
        let d = dirs[0];
        let next = if fs.contains(d) && !has_entry_under(fs, d) {
            fs.remove(d)
        } else {
            fs
        };
        after_prunes(next, dirs.subrange(1, dirs.len() as int))
    }
}

/// The filesystem after carrying out the clean-up plan of a record with
/// `files` and `dirs` under `root`.
pub open spec fn after_cleanup(
    fs: Set<Seq<Seq<char>>>,
    files: Seq<Seq<Seq<char>>>,
    dirs: Seq<Seq<Seq<char>>>,
    root: Seq<Seq<char>>,
) -> Set<Seq<Seq<char>>> {
    after_prunes(after_deletes(fs, kept_under(files, root)), prune_order(dirs, root))
}

pub open spec fn deepest_to_shallowest(ps: Seq<Seq<Seq<char>>>) -> bool {
    forall|i: int, j: int| 0 <= i < j < ps.len() ==> #[trigger] ps[i].len() >= #[trigger] ps[j].len()
}

proof fn lemma_under_trans(q: Seq<Seq<char>>, d: Seq<Seq<char>>, r: Seq<Seq<char>>)
    requires
        strictly_under(q, d),
        strictly_under(d, r),
    ensures
        strictly_under(q, r),
{
    assert(q.subrange(0, r.len() as int) =~= q.subrange(0, d.len() as int).subrange(0, r.len() as int));
}

proof fn lemma_kept_under(ps: Seq<Seq<Seq<char>>>, root: Seq<Seq<char>>)
    ensures
        forall|i: int| 0 <= i < kept_under(ps, root).len() ==> strictly_under(#[trigger] kept_under(ps, root)[i], root),
        forall|i: int| 0 <= i < ps.len() && strictly_under(ps[i], root) ==> kept_under(ps, root).contains(#[trigger] ps[i]),
    decreases ps.len(),
{
    if ps.len() > 0 {
        lemma_kept_under(ps.drop_last(), root);
        let rest = kept_under(ps.drop_last(), root);
        assert forall|i: int| 0 <= i < ps.len() && strictly_under(ps[i], root) implies kept_under(ps, root).contains(#[trigger] ps[i]) by {
            if i < ps.len() - 1 {
                assert(ps.drop_last()[i] == ps[i]);
                let k = choose|k: int| 0 <= k < rest.len() && rest[k] == ps[i];
                assert(kept_under(ps, root)[k] == ps[i]);
            } else {
                assert(kept_under(ps, root).last() == ps[i]);
            }
        }
    }
}

proof fn lemma_at_depth(ps: Seq<Seq<Seq<char>>>, root: Seq<Seq<char>>, k: int)
    ensures
        forall|i: int| 0 <= i < at_depth(ps, root, k).len() ==> strictly_under(#[trigger] at_depth(ps, root, k)[i], root)
            && at_depth(ps, root, k)[i].len() == k,
        forall|i: int| 0 <= i < ps.len() && strictly_under(ps[i], root) && ps[i].len() == k ==> at_depth(ps, root, k).contains(#[trigger] ps[i]),
    decreases ps.len(),
{
    if ps.len() > 0 {
        lemma_at_depth(ps.drop_last(), root, k);
        let rest = at_depth(ps.drop_last(), root, k);
        assert forall|i: int| 0 <= i < ps.len() && strictly_under(ps[i], root) && ps[i].len() == k implies at_depth(ps, root, k).contains(#[trigger] ps[i]) by {
            if i < ps.len() - 1 {
                assert(ps.drop_last()[i] == ps[i]);
                let j = choose|j: int| 0 <= j < rest.len() && rest[j] == ps[i];
                assert(at_depth(ps, root, k)[j] == ps[i]);
            } else {
                assert(at_depth(ps, root, k).last() == ps[i]);
            }
        }
    }
}

proof fn lemma_max_depth(ps: Seq<Seq<Seq<char>>>)
    ensures
        forall|i: int| 0 <= i < ps.len() ==> #[trigger] ps[i].len() <= max_depth(ps),
    decreases ps.len(),
{
    if ps.len() > 0 {
        lemma_max_depth(ps.drop_last());
        assert forall|i: int| 0 <= i < ps.len() implies #[trigger] ps[i].len() <= max_depth(ps) by {
            if i < ps.len() - 1 {
                assert(ps.drop_last()[i] == ps[i]);
            }
        }
    }
}

proof fn lemma_deepest_first(ps: Seq<Seq<Seq<char>>>, root: Seq<Seq<char>>, k: int)
    ensures
        forall|i: int| 0 <= i < deepest_first(ps, root, k).len() ==> strictly_under(#[trigger] deepest_first(ps, root, k)[i], root)
            && deepest_first(ps, root, k)[i].len() <= k,
        deepest_to_shallowest(deepest_first(ps, root, k)),
        forall|i: int| 0 <= i < ps.len() && strictly_under(ps[i], root) && ps[i].len() <= k ==> deepest_first(ps, root, k).contains(#[trigger] ps[i]),
    decreases k,
{
    if k > root.len() {
        lemma_at_depth(ps, root, k);
        lemma_deepest_first(ps, root, k - 1);
        let a = at_depth(ps, root, k);
        let b = deepest_first(ps, root, k - 1);
        let all = a + b;
        assert(all == deepest_first(ps, root, k));
        assert forall|i: int| 0 <= i < all.len() implies strictly_under(#[trigger] all[i], root) && all[i].len() <= k by {
            if i >= a.len() {
                assert(all[i] == b[i - a.len()]);
            }
        }
        assert forall|i: int, j: int| 0 <= i < j < all.len() implies #[trigger] all[i].len() >= #[trigger] all[j].len() by {
            if i >= a.len() {
                assert(all[i] == b[i - a.len()]);
                assert(all[j] == b[j - a.len()]);
            } else if j >= a.len() {
                assert(all[j] == b[j - a.len()]);
            }
        }
        assert forall|i: int| 0 <= i < ps.len() && strictly_under(ps[i], root) && ps[i].len() <= k implies all.contains(#[trigger] ps[i]) by {
            if ps[i].len() == k {
                let j = choose|j: int| 0 <= j < a.len() && a[j] == ps[i];
                assert(all[j] == ps[i]);
            } else {
                let j = choose|j: int| 0 <= j < b.len() && b[j] == ps[i];
                assert(all[j + a.len()] == ps[i]);
            }
        }
    }
}

proof fn lemma_prune_order(dirs: Seq<Seq<Seq<char>>>, root: Seq<Seq<char>>)
    ensures
        forall|i: int| 0 <= i < prune_order(dirs, root).len() ==> strictly_under(#[trigger] prune_order(dirs, root)[i], root),
        deepest_to_shallowest(prune_order(dirs, root)),
        forall|i: int| 0 <= i < dirs.len() && strictly_under(dirs[i], root) ==> prune_order(dirs, root).contains(#[trigger] dirs[i]),
{
    lemma_max_depth(dirs);
    lemma_deepest_first(dirs, root, max_depth(dirs) as int);
}

/// Pruning removes only paths of `dirs` and adds nothing.
proof fn lemma_prunes_frame(fs: Set<Seq<Seq<char>>>, dirs: Seq<Seq<Seq<char>>>)
    ensures
        after_prunes(fs, dirs).subset_of(fs),
        forall|x: Seq<Seq<char>>| fs.contains(x) && !dirs.contains(x) ==> #[trigger] after_prunes(fs, dirs).contains(x),
    decreases dirs.len(),
{
    if dirs.len() > 0 {
        let d = dirs[0];
        let next = if fs.contains(d) && !has_entry_under(fs, d) {
            fs.remove(d)
        } else {
            fs
        };
        let rest = dirs.subrange(1, dirs.len() as int);
        lemma_prunes_frame(next, rest);
        assert forall|x: Seq<Seq<char>>| fs.contains(x) && !dirs.contains(x) implies #[trigger] after_prunes(fs, dirs).contains(x) by {
            assert(x != dirs[0]);
            if rest.contains(x) {
                let j = choose|j: int| 0 <= j < rest.len() && rest[j] == x;
                assert(dirs[j + 1] == x);
            }
        }
    }
}

/// Pruning leaves alone a filesystem in which every listed directory that
/// exists has something beneath it.
proof fn lemma_prunes_stable(fs: Set<Seq<Seq<char>>>, dirs: Seq<Seq<Seq<char>>>)
    requires
        forall|i: int| 0 <= i < dirs.len() && fs.contains(#[trigger] dirs[i]) ==> has_entry_under(fs, dirs[i]),
    ensures
        after_prunes(fs, dirs) == fs,
    decreases dirs.len(),
{
    if dirs.len() > 0 {
        let rest = dirs.subrange(1, dirs.len() as int);
        assert forall|i: int| 0 <= i < rest.len() && fs.contains(#[trigger] rest[i]) implies has_entry_under(fs, rest[i]) by {
            assert(rest[i] == dirs[i + 1]);
        }
        lemma_prunes_stable(fs, rest);
    }
}

/// After pruning deepest first, every listed directory that is still there
/// has something beneath it.
proof fn lemma_prunes_settle(fs: Set<Seq<Seq<char>>>, dirs: Seq<Seq<Seq<char>>>)
    requires
        deepest_to_shallowest(dirs),
    ensures
        forall|i: int| 0 <= i < dirs.len() && after_prunes(fs, dirs).contains(#[trigger] dirs[i]) ==> has_entry_under(
            after_prunes(fs, dirs),
            dirs[i],
        ),
    decreases dirs.len(),
{
    if dirs.len() > 0 {
        let d = dirs[0];
        let next = if fs.contains(d) && !has_entry_under(fs, d) {
            fs.remove(d)
        } else {
            fs
        };
        let rest = dirs.subrange(1, dirs.len() as int);
        let g = after_prunes(fs, dirs);
        assert(g == after_prunes(next, rest));
        assert(deepest_to_shallowest(rest)) by {
            assert forall|i: int, j: int| 0 <= i < j < rest.len() implies #[trigger] rest[i].len() >= #[trigger] rest[j].len() by {
                assert(rest[i] == dirs[i + 1]);
                assert(rest[j] == dirs[j + 1]);
            }
        }
        lemma_prunes_settle(next, rest);
        lemma_prunes_frame(next, rest);
        assert forall|i: int| 0 <= i < dirs.len() && g.contains(#[trigger] dirs[i]) implies has_entry_under(g, dirs[i]) by {
            if i > 0 {
                assert(rest[i - 1] == dirs[i]);
            } else if fs.contains(d) && has_entry_under(fs, d) {
                let q = choose|q: Seq<Seq<char>>| fs.contains(q) && #[trigger] strictly_under(q, d);
                if rest.contains(q) {
                    let j = choose|j: int| 0 <= j < rest.len() && rest[j] == q;
                    assert(dirs[j + 1] == q);
                    assert(dirs[0].len() >= dirs[j + 1].len());
                }
                assert(g.contains(q));
            } else {
                assert(!next.contains(d));
            }
        }
    }
}

/// When everything beneath `root` is listed in `dirs`, deepest first, and
/// all of `dirs` lie beneath `root`, pruning leaves nothing beneath `root`.
proof fn lemma_prunes_clear(fs: Set<Seq<Seq<char>>>, dirs: Seq<Seq<Seq<char>>>, root: Seq<Seq<char>>)
    requires
        deepest_to_shallowest(dirs),
        forall|i: int| 0 <= i < dirs.len() ==> strictly_under(#[trigger] dirs[i], root),
        forall|q: Seq<Seq<char>>| fs.contains(q) && strictly_under(q, root) ==> dirs.contains(q),
    ensures
        forall|q: Seq<Seq<char>>| strictly_under(q, root) ==> !#[trigger] after_prunes(fs, dirs).contains(q),
    decreases dirs.len(),
{
    if dirs.len() == 0 {
        assert forall|q: Seq<Seq<char>>| strictly_under(q, root) implies !#[trigger] after_prunes(fs, dirs).contains(q) by {
            if fs.contains(q) {
                assert(dirs.contains(q));
            }
        }
    } else {
        let d = dirs[0];
        assert(strictly_under(d, root));
        assert(!has_entry_under(fs, d)) by {
            if has_entry_under(fs, d) {
                let q = choose|q: Seq<Seq<char>>| fs.contains(q) && #[trigger] strictly_under(q, d);
                lemma_under_trans(q, d, root);
                let j = choose|j: int| 0 <= j < dirs.len() && dirs[j] == q;
                if j > 0 {
                    assert(dirs[0].len() >= dirs[j].len());
                }
            }
        }
        let next = if fs.contains(d) {
            fs.remove(d)
        } else {
            fs
        };
        let rest = dirs.subrange(1, dirs.len() as int);
        assert(after_prunes(fs, dirs) == after_prunes(next, rest));
        assert(deepest_to_shallowest(rest)) by {
            assert forall|i: int, j: int| 0 <= i < j < rest.len() implies #[trigger] rest[i].len() >= #[trigger] rest[j].len() by {
                assert(rest[i] == dirs[i + 1]);
                assert(rest[j] == dirs[j + 1]);
            }
        }
        assert forall|i: int| 0 <= i < rest.len() implies strictly_under(#[trigger] rest[i], root) by {
            assert(rest[i] == dirs[i + 1]);
        }
        assert forall|q: Seq<Seq<char>>| next.contains(q) && strictly_under(q, root) implies rest.contains(q) by {
            let j = choose|j: int| 0 <= j < dirs.len() && dirs[j] == q;
            assert(j != 0);
            assert(rest[j - 1] == q);
        }
        lemma_prunes_clear(next, rest, root);
    }
}

/// No escape: a clean-up under `root` leaves every path that is not strictly
/// beneath `root` as it was, whatever the record names, so neither a path
/// outside `root` nor `root` itself is ever removed.
pub proof fn lemma_cleanup_stays_under_root(
    fs: Set<Seq<Seq<char>>>,
    files: Seq<Seq<Seq<char>>>,
    dirs: Seq<Seq<Seq<char>>>,
    root: Seq<Seq<char>>,
)
    ensures
        forall|i: int| 0 <= i < kept_under(files, root).len() ==> strictly_under(#[trigger] kept_under(files, root)[i], root),
        forall|i: int| 0 <= i < prune_order(dirs, root).len() ==> strictly_under(#[trigger] prune_order(dirs, root)[i], root),
        forall|q: Seq<Seq<char>>| !strictly_under(q, root) ==> (#[trigger] after_cleanup(fs, files, dirs, root).contains(q) <==> fs.contains(q)),
{
    lemma_kept_under(files, root);
    lemma_prune_order(dirs, root);
    let f = kept_under(files, root);
    let d = prune_order(dirs, root);
    let s = after_deletes(fs, f);
    lemma_prunes_frame(s, d);
    assert forall|q: Seq<Seq<char>>| !strictly_under(q, root) implies (#[trigger] after_cleanup(fs, files, dirs, root).contains(q) <==> fs.contains(q)) by {
        if f.contains(q) {
            let j = choose|j: int| 0 <= j < f.len() && f[j] == q;
        }
        if d.contains(q) {
            let j = choose|j: int| 0 <= j < d.len() && d[j] == q;
        }
    }
}

/// The root stays: a clean-up never lists `root` for removal, even when the
/// record names it among the directories it created, and an existing root
/// still exists afterwards.
pub proof fn lemma_cleanup_keeps_root(
    fs: Set<Seq<Seq<char>>>,
    files: Seq<Seq<Seq<char>>>,
    dirs: Seq<Seq<Seq<char>>>,
    root: Seq<Seq<char>>,
)
    ensures
        !prune_order(dirs, root).contains(root),
        !kept_under(files, root).contains(root),
        fs.contains(root) ==> after_cleanup(fs, files, dirs, root).contains(root),
{
    lemma_cleanup_stays_under_root(fs, files, dirs, root);
    if prune_order(dirs, root).contains(root) {
        let j = choose|j: int| 0 <= j < prune_order(dirs, root).len() && prune_order(dirs, root)[j] == root;
    }
    if kept_under(files, root).contains(root) {
        let j = choose|j: int| 0 <= j < kept_under(files, root).len() && kept_under(files, root)[j] == root;
    }
}

/// Rollback is idempotent: a second clean-up with the same record and root
/// changes nothing.
pub proof fn lemma_cleanup_idempotent(
    fs: Set<Seq<Seq<char>>>,
    files: Seq<Seq<Seq<char>>>,
    dirs: Seq<Seq<Seq<char>>>,
    root: Seq<Seq<char>>,
)
    ensures
        after_cleanup(after_cleanup(fs, files, dirs, root), files, dirs, root) == after_cleanup(
            fs,
            files,
            dirs,
            root,
        ),
{
    let f = kept_under(files, root);
    let d = prune_order(dirs, root);
    lemma_prune_order(dirs, root);
    let s = after_deletes(fs, f);
    let g = after_prunes(s, d);
    lemma_prunes_frame(s, d);
    lemma_prunes_settle(s, d);
    assert(after_deletes(g, f) =~= g);
    lemma_prunes_stable(g, d);
}

/// Round trip: extracting into a directory with nothing beneath it, so that
/// the record's files lie beneath `root` and its created directories within
/// it, and then cleaning up leaves nothing beneath `root` and every other
/// path as the extraction left it.
pub proof fn lemma_round_trip(
    before: Set<Seq<Seq<char>>>,
    files: Seq<Seq<Seq<char>>>,
    dirs: Seq<Seq<Seq<char>>>,
    root: Seq<Seq<char>>,
)
    requires
        forall|q: Seq<Seq<char>>| before.contains(q) ==> !strictly_under(q, root),
        forall|i: int| 0 <= i < files.len() ==> strictly_under(#[trigger] files[i], root),
        forall|i: int| 0 <= i < dirs.len() ==> within(#[trigger] dirs[i], root),
    ensures
        ({
            let after = before + files.to_set() + dirs.to_set();
            let back = after_cleanup(after, files, dirs, root);
            &&& forall|q: Seq<Seq<char>>| strictly_under(q, root) ==> !#[trigger] back.contains(q)
            &&& forall|q: Seq<Seq<char>>| !strictly_under(q, root) ==> (#[trigger] back.contains(q) <==> after.contains(q))
        }),
{
    let after = before + files.to_set() + dirs.to_set();
    lemma_cleanup_stays_under_root(after, files, dirs, root);
    lemma_kept_under(files, root);
    lemma_prune_order(dirs, root);
    let f = kept_under(files, root);
    let d = prune_order(dirs, root);
    let s = after_deletes(after, f);
    assert forall|q: Seq<Seq<char>>| s.contains(q) && strictly_under(q, root) implies d.contains(q) by {
        if files.to_set().contains(q) {
            let j = choose|j: int| 0 <= j < files.len() && files[j] == q;
            assert(f.contains(files[j]));
        } else {
            assert(dirs.to_set().contains(q));
            let j = choose|j: int| 0 <= j < dirs.len() && dirs[j] == q;
            assert(d.contains(dirs[j]));
        }
    }
    lemma_prunes_clear(s, d, root);
}

/// Conflict overwrite: recording a file that the record already holds keeps
/// a single entry for it, and recording a new one adds exactly one.
pub proof fn lemma_overwrite_recorded_once(files: Seq<Seq<Seq<char>>>, f: Seq<Seq<char>>)
    requires
        files.no_duplicates(),
    ensures
        with_path(files, f).contains(f),
        with_path(files, f).no_duplicates(),
        forall|i: int, j: int| 0 <= i < with_path(files, f).len() && 0 <= j < with_path(files, f).len()
            && with_path(files, f)[i] == f && with_path(files, f)[j] == f ==> i == j,
{
    if !files.contains(f) {
        assert(with_path(files, f)[files.len() as int] == f);
    }
}

/// Every directory that an entry's plan makes sure of lies within `root`, and
/// a file entry with a non-empty name lands strictly beneath it. Components
/// are taken as they are written: `..` names no parent here.
pub proof fn lemma_entry_lands_under_root(root: Seq<Seq<char>>, name: Seq<char>, is_dir: bool)
    requires
        root.len() >= 1,
    ensures
        forall|i: int| 0 <= i < dir_chain(root.len() as int, holder_of(entry_target(root, name), is_dir)).len()
            ==> within(#[trigger] dir_chain(root.len() as int, holder_of(entry_target(root, name), is_dir))[i], root),
        !is_dir && relative_parts(name).len() > 0 ==> strictly_under(entry_target(root, name), root),
{
    let t = entry_target(root, name);
    let h = holder_of(t, is_dir);
    let c = dir_chain(root.len() as int, h);
    assert(t.subrange(0, root.len() as int) =~= root);
    assert forall|i: int| 0 <= i < c.len() implies within(#[trigger] c[i], root) by {
        assert(c[i] == h.subrange(0, root.len() + i));
        assert(c[i].subrange(0, root.len() as int) =~= root);
        if i == 0 {
            assert(c[i] =~= root);
        }
    }
}

/// A path of the record after an entry is noted was in it before or comes
/// from the entry's plan.
pub proof fn lemma_noted_paths_come_from_plan(
    ps: Seq<Seq<Seq<char>>>,
    dirs: Seq<Seq<Seq<char>>>,
    existed: Seq<bool>,
    x: Seq<Seq<char>>,
)
    requires
        with_paths(ps, fresh_dirs(dirs, existed)).contains(x),
    ensures
        ps.contains(x) || dirs.contains(x),
{
    lemma_with_paths_from(ps, fresh_dirs(dirs, existed), x);
    if fresh_dirs(dirs, existed).contains(x) {
        lemma_fresh_from(dirs, existed, x);
    }
}

proof fn lemma_with_paths_from(ps: Seq<Seq<Seq<char>>>, more: Seq<Seq<Seq<char>>>, x: Seq<Seq<char>>)
    requires
        with_paths(ps, more).contains(x),
    ensures
        ps.contains(x) || more.contains(x),
    decreases more.len(),
{
    if more.len() > 0 {
        let w = with_paths(ps, more.drop_last());
        if w.contains(x) {
            lemma_with_paths_from(ps, more.drop_last(), x);
            if more.drop_last().contains(x) {
                let j = choose|j: int| 0 <= j < more.drop_last().len() && more.drop_last()[j] == x;
                assert(more[j] == x);
            }
        } else {
            let j = choose|j: int| 0 <= j < with_path(w, more.last()).len() && with_path(w, more.last())[j] == x;
            assert(more[more.len() - 1] == x);
        }
    }
}

proof fn lemma_fresh_from(dirs: Seq<Seq<Seq<char>>>, existed: Seq<bool>, x: Seq<Seq<char>>)
    requires
        fresh_dirs(dirs, existed).contains(x),
    ensures
        dirs.contains(x),
    decreases dirs.len(),
{
    if dirs.len() > 0 {
        let rest = fresh_dirs(dirs.drop_last(), existed);
        if rest.contains(x) {
            lemma_fresh_from(dirs.drop_last(), existed, x);
            let j = choose|j: int| 0 <= j < dirs.drop_last().len() && dirs.drop_last()[j] == x;
            assert(dirs[j] == x);
        } else {
            let j = choose|j: int| 0 <= j < fresh_dirs(dirs, existed).len() && fresh_dirs(dirs, existed)[j] == x;
            assert(dirs[dirs.len() - 1] == x);
        }
    }
}

} // verus!
