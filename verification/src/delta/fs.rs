//! Ephemeral filesystem inode diffing engine.
use vstd::prelude::*;
use crate::delta::macos_fs::{copy_bytes, same_bytes};
use crate::delta::pagemap::{compute_slice_deltas, copy_range, describes_diff_runs};
use crate::delta::types::{ByteDelta, ByteDeltaView, FsMutation, FsMutationView, byte_deltas_view};

verus! {

/// Minimal inode metadata snapshot for efficient delta evaluation.
#[derive(Debug, Clone, Copy, PartialEq, Eq, Structural)]
pub struct InodeRecord {
    pub ino: u64,
    pub mode: u32,
    pub size: u64,
    pub mtime_sec: i64,
    pub mtime_nsec: u32,
}

/// The map from relative path to inode record and contents described by a list of
/// entries; a later entry for a path replaces an earlier one.
pub open spec fn records_map(s: Seq<(String, InodeRecord, Vec<u8>)>) -> Map<Seq<char>, (InodeRecord, Seq<u8>)>
    decreases s.len(),
{
    if s.len() == 0 {
        Map::empty()
    } else {
        records_map(s.drop_last()).insert(s.last().0@, (s.last().1, s.last().2@))
    }
}

/// No relative path occurs twice.
pub open spec fn paths_unique(s: Seq<(String, InodeRecord, Vec<u8>)>) -> bool {
    forall|i: int, j: int| 0 <= i < s.len() && 0 <= j < s.len() && i != j ==> s[i].0@ != s[j].0@
}

/// Filesystem snapshot: one entry per relative path, holding the inode record and the
/// contents of a regular file (empty for any other inode).
#[derive(Debug, Clone)]
pub struct FsSnapshot {
    pub root: String,
    pub records: Vec<(String, InodeRecord, Vec<u8>)>,
}

/// A change observed between two snapshots, before its byte deltas are written out: a
/// modified file is given by its contents before and after.
pub enum FsChange {
    Created { path: Seq<char>, mode: u32, size: u64 },
    Modified { path: Seq<char>, original: Seq<u8>, mutated: Seq<u8> },
    Deleted { path: Seq<char> },
}

/// The change observed for one current entry, given the baseline record and contents at its
/// path.
///
/// A new path, or a path whose inode was replaced, counts as created; the same inode with a
/// different size, modification time or contents counts as modified; anything else is
/// unchanged.
pub open spec fn classify_current(
    prev: Option<(InodeRecord, Seq<u8>)>,
    path: Seq<char>,
    cur: InodeRecord,
    content: Seq<u8>,
) -> Option<FsChange> {
    match prev {
        None => Some(FsChange::Created { path, mode: cur.mode, size: cur.size }),
        Some((p, pc)) => if p.ino == cur.ino {
            if p.size != cur.size || p.mtime_sec != cur.mtime_sec || p.mtime_nsec != cur.mtime_nsec || pc != content {
                Some(FsChange::Modified { path, original: pc, mutated: content })
            } else {
                None
            }
        } else {
            Some(FsChange::Created { path, mode: cur.mode, size: cur.size })
        },
    }
}

/// The created and modified inodes among `cur`, in the order of `cur`.
pub open spec fn created_or_modified(
    base: Map<Seq<char>, (InodeRecord, Seq<u8>)>,
    cur: Seq<(String, InodeRecord, Vec<u8>)>,
) -> Seq<FsChange>
    decreases cur.len(),
{
    if cur.len() == 0 {
        Seq::empty()
    } else {
        let e = cur.last();
        let prev = if base.contains_key(e.0@) { Some(base[e.0@]) } else { None };
        created_or_modified(base, cur.drop_last()) + match classify_current(prev, e.0@, e.1, e.2@) {
            Some(m) => seq![m],
            None => Seq::empty(),
        }
    }
}

/// The baseline paths absent from `cur`, in the order of `base`.
pub open spec fn deleted_paths(
    base: Seq<(String, InodeRecord, Vec<u8>)>,
    cur: Map<Seq<char>, (InodeRecord, Seq<u8>)>,
) -> Seq<FsChange>
    decreases base.len(),
{
    if base.len() == 0 {
        Seq::empty()
    } else {
        deleted_paths(base.drop_last(), cur) + if cur.contains_key(base.last().0@) {
            Seq::empty()
        } else {
            seq![FsChange::Deleted { path: base.last().0@ }]
        }
    }
}

/// The changes between a baseline and a current listing: created and modified inodes in
/// current order, then deleted paths in baseline order.
pub open spec fn fs_delta(base: Seq<(String, InodeRecord, Vec<u8>)>, cur: Seq<(String, InodeRecord, Vec<u8>)>) -> Seq<FsChange> {
    created_or_modified(records_map(base), cur) + deleted_paths(base, records_map(cur))
}

/// Length of the common prefix span of two contents.
pub open spec fn common_len(old: Seq<u8>, new: Seq<u8>) -> int {
    if old.len() <= new.len() {
        old.len() as int
    } else {
        new.len() as int
    }
}

/// `ds` gives the exact byte modifications turning `old` into `new`: the maximal runs of
/// differing bytes over the span both contents cover, in ascending order and with offsets
/// from the start of the file, followed, when the length changed, by one delta at the end of
/// that span holding the rest of each content.
pub open spec fn is_file_delta(old: Seq<u8>, new: Seq<u8>, ds: Seq<ByteDeltaView>) -> bool {
    let n = common_len(old, new);
    if old.len() == new.len() {
        describes_diff_runs(0, old, new, ds)
    } else {
        &&& ds.len() > 0
        &&& describes_diff_runs(0, old.take(n), new.take(n), ds.drop_last())
        &&& ds.last() == ByteDeltaView { offset: n as usize, original: old.skip(n), mutated: new.skip(n) }
    }
}

/// `m` reports the change `c`: created and deleted inodes as they are, a modified file with
/// its exact byte deltas.
pub open spec fn reports_change(c: FsChange, m: FsMutationView) -> bool {
    match c {
        FsChange::Created { path, mode, size } => m == FsMutationView::Created { path, mode, size },
        FsChange::Deleted { path } => m == FsMutationView::Deleted { path },
        FsChange::Modified { path, original, mutated } => m matches FsMutationView::Modified { path: p, deltas }
            && p == path && is_file_delta(original, mutated, deltas),
    }
}

/// `ms` reports the changes `cs`, one mutation per change, in order.
pub open spec fn reports_changes(cs: Seq<FsChange>, ms: Seq<FsMutation>) -> bool {
    &&& cs.len() == ms.len()
    &&& forall|k: int| 0 <= k < cs.len() ==> reports_change(#[trigger] cs[k], ms[k]@)
}

proof fn lemma_reports_push(cs: Seq<FsChange>, ms: Seq<FsMutation>, c: FsChange, m: FsMutation)
    requires
        reports_changes(cs, ms),
        reports_change(c, m@),
    ensures
        reports_changes(cs.push(c), ms.push(m)),
{
    assert forall|k: int| 0 <= k < cs.len() + 1 implies reports_change(#[trigger] cs.push(c)[k], ms.push(m)[k]@) by {
        if k < cs.len() {
            assert(cs.push(c)[k] == cs[k]);
            assert(ms.push(m)[k] == ms[k]);
        }
    }
}

/// The exact byte modifications turning the contents `old` of a file into `new`.
pub fn file_deltas(old: &[u8], new: &[u8]) -> (r: Vec<ByteDelta>)
    ensures
        is_file_delta(old@, new@, byte_deltas_view(r@)),
{
    let n = if old.len() <= new.len() { old.len() } else { new.len() };
    let old_common = &old[0..n];
    let new_common = &new[0..n];
    assert(old_common@ =~= old@.take(n as int));
    assert(new_common@ =~= new@.take(n as int));
    let mut ds = compute_slice_deltas(0, old_common, new_common);
    if old.len() == new.len() {
        assert(old@.take(n as int) =~= old@);
        assert(new@.take(n as int) =~= new@);
        return ds;
    }
    let ghost before = ds@;
    let original = copy_range(old, n, old.len());
    let mutated = copy_range(new, n, new.len());
    ds.push(ByteDelta { offset: n, original, mutated });
    assert(byte_deltas_view(ds@).drop_last() =~= byte_deltas_view(before));
    assert(old@.subrange(n as int, old@.len() as int) =~= old@.skip(n as int));
    assert(new@.subrange(n as int, new@.len() as int) =~= new@.skip(n as int));
    ds
}

proof fn lemma_records_map_lookup(s: Seq<(String, InodeRecord, Vec<u8>)>, p: Seq<char>)
    requires
        paths_unique(s),
    ensures
        records_map(s).contains_key(p) <==> exists|i: int| 0 <= i < s.len() && #[trigger] s[i].0@ == p,
        forall|i: int| 0 <= i < s.len() && #[trigger] s[i].0@ == p ==> records_map(s)[p] == (s[i].1, s[i].2@),
    decreases s.len(),
{
    if s.len() > 0 {
        let t = s.drop_last();
        assert(paths_unique(t));
        lemma_records_map_lookup(t, p);
        assert forall|i: int| 0 <= i < s.len() && #[trigger] s[i].0@ == p implies records_map(s)[p] == (s[i].1, s[i].2@) by {
            if i < s.len() - 1 {
                assert(t[i] == s[i]);
            }
        }
        if records_map(s).contains_key(p) && s.last().0@ != p {
            let i = choose|i: int| 0 <= i < t.len() && #[trigger] t[i].0@ == p;
            assert(s[i] == t[i]);
        }
        if exists|i: int| 0 <= i < s.len() && #[trigger] s[i].0@ == p {
            let i = choose|i: int| 0 <= i < s.len() && #[trigger] s[i].0@ == p;
            if i < s.len() - 1 {
                assert(t[i] == s[i]);
            }
        }
    }
}

proof fn lemma_records_map_update(s: Seq<(String, InodeRecord, Vec<u8>)>, i: int, e: (String, InodeRecord, Vec<u8>))
    requires
        paths_unique(s),
        0 <= i < s.len(),
        s[i].0@ == e.0@,
    ensures
        paths_unique(s.update(i, e)),
        records_map(s.update(i, e)) == records_map(s).insert(e.0@, (e.1, e.2@)),
    decreases s.len(),
{
    let u = s.update(i, e);
    assert(paths_unique(u)) by {
        assert forall|a: int, b: int| 0 <= a < u.len() && 0 <= b < u.len() && a != b implies u[a].0@ != u[b].0@ by {
            assert(u[a].0@ == s[a].0@);
            assert(u[b].0@ == s[b].0@);
        }
    }
    if i == s.len() - 1 {
        assert(u.drop_last() =~= s.drop_last());
        assert(records_map(u) =~= records_map(s).insert(e.0@, (e.1, e.2@)));
    } else {
        let t = s.drop_last();
        assert(paths_unique(t));
        lemma_records_map_update(t, i, e);
        assert(u.drop_last() =~= t.update(i, e));
        assert(s.last().0@ != e.0@);
        assert(records_map(u) =~= records_map(s).insert(e.0@, (e.1, e.2@)));
    }
}

/// The baseline record and contents at `path`, if the baseline has one.
pub open spec fn prev_at(base: Map<Seq<char>, (InodeRecord, Seq<u8>)>, path: Seq<char>) -> Option<(InodeRecord, Seq<u8>)> {
    if base.contains_key(path) { Some(base[path]) } else { None }
}

proof fn lemma_created_or_modified_members(base: Map<Seq<char>, (InodeRecord, Seq<u8>)>, cur: Seq<(String, InodeRecord, Vec<u8>)>)
    ensures
        forall|k: int|
            0 <= k < created_or_modified(base, cur).len() ==> exists|i: int|
                0 <= i < cur.len() && classify_current(prev_at(base, cur[i].0@), cur[i].0@, cur[i].1, cur[i].2@)
                    == Some(#[trigger] created_or_modified(base, cur)[k]),
        forall|i: int|
            0 <= i < cur.len() && (#[trigger] classify_current(prev_at(base, cur[i].0@), cur[i].0@, cur[i].1, cur[i].2@)) is Some
                ==> exists|k: int|
                0 <= k < created_or_modified(base, cur).len() && created_or_modified(base, cur)[k]
                    == classify_current(prev_at(base, cur[i].0@), cur[i].0@, cur[i].1, cur[i].2@)->0,
    decreases cur.len(),
{
    if cur.len() > 0 {
        let t = cur.drop_last();
        lemma_created_or_modified_members(base, t);
        let pre = created_or_modified(base, t);
        let e = cur.last();
        let c = classify_current(prev_at(base, e.0@), e.0@, e.1, e.2@);
        let all = created_or_modified(base, cur);
        assert(all == pre + match c { Some(m) => seq![m], None => Seq::empty() });
        assert forall|k: int| 0 <= k < all.len() implies exists|i: int|
            0 <= i < cur.len() && classify_current(prev_at(base, cur[i].0@), cur[i].0@, cur[i].1, cur[i].2@)
                == Some(#[trigger] all[k]) by {
            if k < pre.len() {
                let i = choose|i: int| 0 <= i < t.len() && classify_current(prev_at(base, t[i].0@), t[i].0@, t[i].1, t[i].2@)
                    == Some(#[trigger] pre[k]);
                assert(t[i] == cur[i]);
                assert(all[k] == pre[k]);
            } else {
                assert(cur[cur.len() - 1] == e);
            }
        }
        assert forall|i: int|
            0 <= i < cur.len() && (#[trigger] classify_current(prev_at(base, cur[i].0@), cur[i].0@, cur[i].1, cur[i].2@)) is Some
            implies exists|k: int|
                0 <= k < all.len() && all[k] == classify_current(prev_at(base, cur[i].0@), cur[i].0@, cur[i].1, cur[i].2@)->0 by {
            if i < cur.len() - 1 {
                assert(t[i] == cur[i]);
                assert(classify_current(prev_at(base, t[i].0@), t[i].0@, t[i].1, t[i].2@) is Some);
                let k = choose|k: int| 0 <= k < pre.len() && pre[k]
                    == classify_current(prev_at(base, t[i].0@), t[i].0@, t[i].1, t[i].2@)->0;
                assert(all[k] == pre[k]);
            } else {
                assert(cur[i] == e);
                assert(all[pre.len() as int] == c->0);
            }
        }
    }
}

proof fn lemma_deleted_members(base: Seq<(String, InodeRecord, Vec<u8>)>, cur: Map<Seq<char>, (InodeRecord, Seq<u8>)>)
    ensures
        forall|k: int|
            0 <= k < deleted_paths(base, cur).len() ==> exists|i: int|
                0 <= i < base.len() && !cur.contains_key(base[i].0@) && #[trigger] deleted_paths(base, cur)[k]
                    == (FsChange::Deleted { path: base[i].0@ }),
        forall|i: int|
            0 <= i < base.len() && !cur.contains_key(#[trigger] base[i].0@) ==> exists|k: int|
                0 <= k < deleted_paths(base, cur).len() && deleted_paths(base, cur)[k] == (FsChange::Deleted { path: base[i].0@ }),
    decreases base.len(),
{
    if base.len() > 0 {
        let t = base.drop_last();
        lemma_deleted_members(t, cur);
        let pre = deleted_paths(t, cur);
        let e = base.last();
        let all = deleted_paths(base, cur);
        assert forall|k: int| 0 <= k < all.len() implies exists|i: int|
            0 <= i < base.len() && !cur.contains_key(base[i].0@) && #[trigger] all[k] == (FsChange::Deleted { path: base[i].0@ }) by {
            if k < pre.len() {
                let i = choose|i: int| 0 <= i < t.len() && !cur.contains_key(t[i].0@) && #[trigger] pre[k]
                    == (FsChange::Deleted { path: t[i].0@ });
                assert(t[i] == base[i]);
                assert(all[k] == pre[k]);
            } else {
                assert(base[base.len() - 1] == e);
            }
        }
        assert forall|i: int| 0 <= i < base.len() && !cur.contains_key(#[trigger] base[i].0@) implies exists|k: int|
            0 <= k < all.len() && all[k] == (FsChange::Deleted { path: base[i].0@ }) by {
            if i < base.len() - 1 {
                assert(t[i] == base[i]);
                assert(!cur.contains_key(t[i].0@));
                let k = choose|k: int| 0 <= k < pre.len() && pre[k] == (FsChange::Deleted { path: t[i].0@ });
                assert(all[k] == pre[k]);
            } else {
                assert(base[i] == e);
                assert(all[pre.len() as int] == (FsChange::Deleted { path: e.0@ }));
            }
        }
    }
}

/// What the delta between two snapshots reports is what the snapshots show at each path: a
/// created entry carries the mode and size of the current inode at a path that is new or
/// whose inode was replaced; a modified entry names a path whose inode stayed and carries
/// the path's baseline and current contents; a deleted entry names a path gone from the
/// current snapshot. Conversely every new or replaced path is reported created, every path
/// whose inode stayed but whose contents changed is reported modified, and every vanished
/// path is reported deleted.
pub proof fn lemma_fs_delta_follows_snapshots(base: Seq<(String, InodeRecord, Vec<u8>)>, cur: Seq<(String, InodeRecord, Vec<u8>)>)
    requires
        paths_unique(base),
        paths_unique(cur),
    ensures
        forall|k: int|
            0 <= k < fs_delta(base, cur).len() ==> match #[trigger] fs_delta(base, cur)[k] {
                FsChange::Created { path, mode, size } => {
                    &&& records_map(cur).contains_key(path)
                    &&& records_map(cur)[path].0.mode == mode
                    &&& records_map(cur)[path].0.size == size
                    &&& (records_map(base).contains_key(path) ==> records_map(base)[path].0.ino != records_map(cur)[path].0.ino)
                },
                FsChange::Modified { path, original, mutated } => {
                    &&& records_map(cur).contains_key(path)
                    &&& records_map(base).contains_key(path)
                    &&& records_map(base)[path].0.ino == records_map(cur)[path].0.ino
                    &&& original == records_map(base)[path].1
                    &&& mutated == records_map(cur)[path].1
                },
                FsChange::Deleted { path } => records_map(base).contains_key(path) && !records_map(cur).contains_key(path),
            },
        forall|path: Seq<char>|
            #[trigger] records_map(cur).contains_key(path) && (records_map(base).contains_key(path)
                ==> records_map(base)[path].0.ino != records_map(cur)[path].0.ino) ==> exists|k: int|
                0 <= k < fs_delta(base, cur).len() && fs_delta(base, cur)[k] == (FsChange::Created {
                    path,
                    mode: records_map(cur)[path].0.mode,
                    size: records_map(cur)[path].0.size,
                }),
        forall|path: Seq<char>|
            #[trigger] records_map(cur).contains_key(path) && records_map(base).contains_key(path)
                && records_map(base)[path].0.ino == records_map(cur)[path].0.ino && records_map(base)[path].1
                != records_map(cur)[path].1 ==> exists|k: int|
                0 <= k < fs_delta(base, cur).len() && fs_delta(base, cur)[k] == (FsChange::Modified {
                    path,
                    original: records_map(base)[path].1,
                    mutated: records_map(cur)[path].1,
                }),
        forall|path: Seq<char>|
            #[trigger] records_map(base).contains_key(path) && !records_map(cur).contains_key(path) ==> exists|k: int|
                0 <= k < fs_delta(base, cur).len() && fs_delta(base, cur)[k] == (FsChange::Deleted { path }),
{
    let bm = records_map(base);
    let cm = records_map(cur);
    let com = created_or_modified(bm, cur);
    let del = deleted_paths(base, cm);
    let d = fs_delta(base, cur);
    lemma_created_or_modified_members(bm, cur);
    lemma_deleted_members(base, cm);
    assert forall|k: int| 0 <= k < d.len() implies match #[trigger] d[k] {
        FsChange::Created { path, mode, size } => {
            &&& cm.contains_key(path)
            &&& cm[path].0.mode == mode
            &&& cm[path].0.size == size
            &&& (bm.contains_key(path) ==> bm[path].0.ino != cm[path].0.ino)
        },
        FsChange::Modified { path, original, mutated } => {
            &&& cm.contains_key(path)
            &&& bm.contains_key(path)
            &&& bm[path].0.ino == cm[path].0.ino
            &&& original == bm[path].1
            &&& mutated == cm[path].1
        },
        FsChange::Deleted { path } => bm.contains_key(path) && !cm.contains_key(path),
    } by {
        if k < com.len() {
            assert(d[k] == com[k]);
            let i = choose|i: int| 0 <= i < cur.len() && classify_current(prev_at(bm, cur[i].0@), cur[i].0@, cur[i].1, cur[i].2@)
                == Some(#[trigger] com[k]);
            lemma_records_map_lookup(cur, cur[i].0@);
            lemma_records_map_lookup(base, cur[i].0@);
            assert(cm[cur[i].0@] == (cur[i].1, cur[i].2@));
        } else {
            assert(d[k] == del[k - com.len()]);
            let i = choose|i: int| 0 <= i < base.len() && !cm.contains_key(base[i].0@) && #[trigger] del[k - com.len()]
                == (FsChange::Deleted { path: base[i].0@ });
            lemma_records_map_lookup(base, base[i].0@);
        }
    }
    assert forall|path: Seq<char>|
        #[trigger] cm.contains_key(path) && (bm.contains_key(path) ==> bm[path].0.ino != cm[path].0.ino) implies exists|k: int|
            0 <= k < d.len() && d[k] == (FsChange::Created { path, mode: cm[path].0.mode, size: cm[path].0.size }) by {
        lemma_records_map_lookup(cur, path);
        let i = choose|i: int| 0 <= i < cur.len() && #[trigger] cur[i].0@ == path;
        assert(cm[path] == (cur[i].1, cur[i].2@));
        assert(classify_current(prev_at(bm, cur[i].0@), cur[i].0@, cur[i].1, cur[i].2@) is Some);
        let k = choose|k: int| 0 <= k < com.len() && com[k] == classify_current(prev_at(bm, cur[i].0@), cur[i].0@, cur[i].1, cur[i].2@)->0;
        assert(d[k] == com[k]);
    }
    assert forall|path: Seq<char>|
        #[trigger] cm.contains_key(path) && bm.contains_key(path) && bm[path].0.ino == cm[path].0.ino && bm[path].1 != cm[path].1
        implies exists|k: int|
            0 <= k < d.len() && d[k] == (FsChange::Modified { path, original: bm[path].1, mutated: cm[path].1 }) by {
        lemma_records_map_lookup(cur, path);
        let i = choose|i: int| 0 <= i < cur.len() && #[trigger] cur[i].0@ == path;
        assert(cm[path] == (cur[i].1, cur[i].2@));
        assert(classify_current(prev_at(bm, cur[i].0@), cur[i].0@, cur[i].1, cur[i].2@) is Some);
        let k = choose|k: int| 0 <= k < com.len() && com[k] == classify_current(prev_at(bm, cur[i].0@), cur[i].0@, cur[i].1, cur[i].2@)->0;
        assert(d[k] == com[k]);
    }
    assert forall|path: Seq<char>| #[trigger] bm.contains_key(path) && !cm.contains_key(path) implies exists|k: int|
        0 <= k < d.len() && d[k] == (FsChange::Deleted { path }) by {
        lemma_records_map_lookup(base, path);
        let i = choose|i: int| 0 <= i < base.len() && #[trigger] base[i].0@ == path;
        assert(!cm.contains_key(base[i].0@));
        let k = choose|k: int| 0 <= k < del.len() && del[k] == (FsChange::Deleted { path: base[i].0@ });
        assert(d[com.len() + k] == del[k]);
    }
}

/// Index of the entry for `path`, if any.
fn find_record(records: &Vec<(String, InodeRecord, Vec<u8>)>, path: &String) -> (r: Option<usize>)
    ensures
        r matches Some(i) ==> i < records@.len() && records@[i as int].0@ == path@,
        r is None ==> forall|i: int| 0 <= i < records@.len() ==> #[trigger] records@[i].0@ != path@,
{
    let mut i: usize = 0;
    while i < records.len()
        invariant
            i <= records@.len(),
            forall|j: int| 0 <= j < i ==> #[trigger] records@[j].0@ != path@,
        decreases records@.len() - i,
    {
        if records[i].0 == *path {
            return Some(i);
        }
        i = i + 1;
    }
    None
}

impl FsSnapshot {
    /// Every relative path is recorded at most once.
    pub open spec fn well_formed(&self) -> bool {
        paths_unique(self.records@)
    }

    /// Records a baseline snapshot of `root` from the `(relative path, inode record,
    /// contents)` entries met while traversing it; a later entry for a path replaces an
    /// earlier one.
    pub fn capture(root: String, entries: Vec<(String, InodeRecord, Vec<u8>)>) -> (r: Self)
        ensures
            r.well_formed(),
            r.root == root,
            records_map(r.records@) == records_map(entries@),
    {
        let mut records: Vec<(String, InodeRecord, Vec<u8>)> = Vec::new();
        let mut k: usize = 0;
        while k < entries.len()
            invariant
                k <= entries@.len(),
                paths_unique(records@),
                records_map(records@) == records_map(entries@.take(k as int)),
            decreases entries@.len() - k,
        {
            let path = entries[k].0.clone();
            let record = entries[k].1;
            let content = copy_bytes(&entries[k].2);
            assert(entries@.take(k + 1).drop_last() =~= entries@.take(k as int));
            match find_record(&records, &path) {
                Some(i) => {
                    proof {
                        lemma_records_map_update(records@, i as int, (path, record, content));
                    }
                    records.set(i, (path, record, content));
                },
                None => {
                    let ghost old_records = records@;
                    records.push((path, record, content));
                    assert(records@.drop_last() =~= old_records);
                    assert(paths_unique(records@)) by {
                        assert forall|a: int, b: int| 0 <= a < records@.len() && 0 <= b < records@.len() && a != b
                            implies records@[a].0@ != records@[b].0@ by {
                            if a < old_records.len() && b < old_records.len() {
                                assert(records@[a] == old_records[a]);
                                assert(records@[b] == old_records[b]);
                            } else if a < old_records.len() {
                                assert(records@[a] == old_records[a]);
                            } else {
                                assert(records@[b] == old_records[b]);
                            }
                        }
                    }
                },
            }
            k = k + 1;
        }
        assert(entries@.take(entries@.len() as int) =~= entries@);
        FsSnapshot { root, records }
    }

    /// Deterministic filesystem delta of this baseline against a snapshot of the same root
    /// taken after execution: created and modified inodes in the order of the current
    /// snapshot, each modified file with the exact byte deltas of its contents, then deleted
    /// paths in baseline order.
    pub fn compute_delta(&self, current: &FsSnapshot) -> (r: Vec<FsMutation>)
        requires
            self.well_formed(),
            current.well_formed(),
        ensures
            reports_changes(fs_delta(self.records@, current.records@), r@),
            forall|k: int|
                0 <= k < r@.len() ==> match #[trigger] r@[k] {
                    FsMutation::Created { path, mode, size } => {
                        &&& records_map(current.records@).contains_key(path@)
                        &&& records_map(current.records@)[path@].0.mode == mode
                        &&& records_map(current.records@)[path@].0.size == size
                    },
                    FsMutation::Modified { path, deltas } => {
                        &&& records_map(self.records@).contains_key(path@)
                        &&& records_map(current.records@).contains_key(path@)
                        &&& is_file_delta(
                            records_map(self.records@)[path@].1,
                            records_map(current.records@)[path@].1,
                            byte_deltas_view(deltas@),
                        )
                    },
                    FsMutation::Deleted { path } => records_map(self.records@).contains_key(path@)
                        && !records_map(current.records@).contains_key(path@),
                },
            forall|path: Seq<char>|
                #[trigger] records_map(current.records@).contains_key(path) && (records_map(self.records@).contains_key(path)
                    ==> records_map(self.records@)[path].0.ino != records_map(current.records@)[path].0.ino)
                    ==> exists|k: int| 0 <= k < r@.len() && r@[k]@ == (FsMutationView::Created {
                    path,
                    mode: records_map(current.records@)[path].0.mode,
                    size: records_map(current.records@)[path].0.size,
                }),
            forall|path: Seq<char>|
                #[trigger] records_map(current.records@).contains_key(path) && records_map(self.records@).contains_key(path)
                    && records_map(self.records@)[path].0.ino == records_map(current.records@)[path].0.ino
                    && records_map(self.records@)[path].1 != records_map(current.records@)[path].1 ==> exists|k: int|
                    0 <= k < r@.len() && ((#[trigger] r@[k])@ matches FsMutationView::Modified { path: p, .. } && p == path),
            forall|path: Seq<char>|
                #[trigger] records_map(self.records@).contains_key(path) && !records_map(current.records@).contains_key(path)
                    ==> exists|k: int| 0 <= k < r@.len() && r@[k]@ == (FsMutationView::Deleted { path }),
    {
        let ghost base_map = records_map(self.records@);
        let ghost cur_map = records_map(current.records@);
        let mut mutations: Vec<FsMutation> = Vec::new();
        let mut k: usize = 0;
        while k < current.records.len()
            invariant
                paths_unique(self.records@),
                paths_unique(current.records@),
                base_map == records_map(self.records@),
                k <= current.records@.len(),
                reports_changes(created_or_modified(base_map, current.records@.take(k as int)), mutations@),
            decreases current.records@.len() - k,
        {
            let path = &current.records[k].0;
            let cur = current.records[k].1;
            let content = &current.records[k].2;
            let ghost cs = current.records@.take(k + 1);
            assert(cs.drop_last() =~= current.records@.take(k as int));
            assert(cs.last() == current.records@[k as int]);
            proof {
                lemma_records_map_lookup(self.records@, path@);
            }
            let found = find_record(&self.records, path);
            let ghost prev = if base_map.contains_key(path@) { Some(base_map[path@]) } else { None };
            let ghost change = classify_current(prev, path@, cur, content@);
            let m: Option<FsMutation> = match found {
                None => Some(FsMutation::Created { path: path.clone(), mode: cur.mode, size: cur.size }),
                Some(i) => {
                    let p = self.records[i].1;
                    let old_content = &self.records[i].2;
                    assert(self.records@[i as int].0@ == path@);
                    assert(prev == Some((p, old_content@)));
                    if p.ino == cur.ino {
                        let same = same_bytes(old_content, content);
                        if p.size != cur.size || p.mtime_sec != cur.mtime_sec || p.mtime_nsec != cur.mtime_nsec || !same {
                            let deltas = file_deltas(old_content.as_slice(), content.as_slice());
                            Some(FsMutation::Modified { path: path.clone(), deltas })
                        } else {
                            None
                        }
                    } else {
                        Some(FsMutation::Created { path: path.clone(), mode: cur.mode, size: cur.size })
                    }
                },
            };
            assert(m matches Some(mm) ==> change matches Some(c) && reports_change(c, mm@));
            assert(m is None ==> change is None);
            let ghost old_m = mutations@;
            match m {
                Some(mm) => {
                    proof {
                        lemma_reports_push(created_or_modified(base_map, current.records@.take(k as int)), old_m, change->0, mm);
                    }
                    mutations.push(mm);
                    assert(created_or_modified(base_map, cs) =~= created_or_modified(base_map, current.records@.take(k as int)).push(change->0));
                },
                None => {
                    assert(created_or_modified(base_map, cs) =~= created_or_modified(base_map, current.records@.take(k as int)));
                },
            }
            k = k + 1;
        }
        assert(current.records@.take(current.records@.len() as int) =~= current.records@);
        let ghost first = created_or_modified(base_map, current.records@);
        let mut k: usize = 0;
        assert(first + deleted_paths(self.records@.take(0), cur_map) =~= first);
        while k < self.records.len()
            invariant
                paths_unique(self.records@),
                paths_unique(current.records@),
                cur_map == records_map(current.records@),
                k <= self.records@.len(),
                reports_changes(first + deleted_paths(self.records@.take(k as int), cur_map), mutations@),
            decreases self.records@.len() - k,
        {
            let path = &self.records[k].0;
            let ghost bs = self.records@.take(k + 1);
            let ghost done = first + deleted_paths(self.records@.take(k as int), cur_map);
            assert(bs.drop_last() =~= self.records@.take(k as int));
            assert(bs.last() == self.records@[k as int]);
            proof {
                lemma_records_map_lookup(current.records@, path@);
            }
            let ghost old_m = mutations@;
            match find_record(&current.records, path) {
                None => {
                    let d = FsMutation::Deleted { path: path.clone() };
                    proof {
                        lemma_reports_push(done, old_m, FsChange::Deleted { path: path@ }, d);
                    }
                    mutations.push(d);
                    assert(first + deleted_paths(bs, cur_map) =~= done.push(FsChange::Deleted { path: path@ }));
                },
                Some(_) => {
                    assert(first + deleted_paths(bs, cur_map) =~= done);
                },
            }
            k = k + 1;
        }
        assert(self.records@.take(self.records@.len() as int) =~= self.records@);
        proof {
            let d = fs_delta(self.records@, current.records@);
            let bm = records_map(self.records@);
            let cm = records_map(current.records@);
            lemma_fs_delta_follows_snapshots(self.records@, current.records@);
            assert forall|k: int| 0 <= k < mutations@.len() implies match #[trigger] mutations@[k] {
                FsMutation::Created { path, mode, size } => {
                    &&& cm.contains_key(path@)
                    &&& cm[path@].0.mode == mode
                    &&& cm[path@].0.size == size
                },
                FsMutation::Modified { path, deltas } => {
                    &&& bm.contains_key(path@)
                    &&& cm.contains_key(path@)
                    &&& is_file_delta(bm[path@].1, cm[path@].1, byte_deltas_view(deltas@))
                },
                FsMutation::Deleted { path } => bm.contains_key(path@) && !cm.contains_key(path@),
            } by {
                assert(reports_change(d[k], mutations@[k]@));
            }
            assert forall|path: Seq<char>|
                #[trigger] cm.contains_key(path) && (bm.contains_key(path) ==> bm[path].0.ino != cm[path].0.ino) implies exists|k: int|
                0 <= k < mutations@.len() && mutations@[k]@ == (FsMutationView::Created {
                    path,
                    mode: cm[path].0.mode,
                    size: cm[path].0.size,
                }) by {
                let k = choose|k: int| 0 <= k < d.len() && d[k] == (FsChange::Created {
                    path,
                    mode: cm[path].0.mode,
                    size: cm[path].0.size,
                });
                assert(reports_change(d[k], mutations@[k]@));
            }
            assert forall|path: Seq<char>|
                #[trigger] cm.contains_key(path) && bm.contains_key(path) && bm[path].0.ino == cm[path].0.ino && bm[path].1
                    != cm[path].1 implies exists|k: int|
                    0 <= k < mutations@.len() && ((#[trigger] mutations@[k])@ matches FsMutationView::Modified { path: p, .. } && p == path) by {
                let k = choose|k: int| 0 <= k < d.len() && d[k] == (FsChange::Modified {
                    path,
                    original: bm[path].1,
                    mutated: cm[path].1,
                });
                assert(reports_change(d[k], mutations@[k]@));
            }
            assert forall|path: Seq<char>| #[trigger] bm.contains_key(path) && !cm.contains_key(path) implies exists|k: int|
                0 <= k < mutations@.len() && mutations@[k]@ == (FsMutationView::Deleted { path }) by {
                let k = choose|k: int| 0 <= k < d.len() && d[k] == (FsChange::Deleted { path });
                assert(reports_change(d[k], mutations@[k]@));
            }
        }
        mutations
    }
}

/// Comparing a snapshot with an identical later snapshot yields no change at all.
pub proof fn lemma_unchanged_snapshot_has_empty_delta(s: Seq<(String, InodeRecord, Vec<u8>)>)
    requires
        paths_unique(s),
    ensures
        fs_delta(s, s) == Seq::<FsChange>::empty(),
{
    let m = records_map(s);
    assert forall|k: int| 0 <= k <= s.len() implies #[trigger] created_or_modified(m, s.take(k)) == Seq::<FsChange>::empty()
        && deleted_paths(s.take(k), m) == Seq::<FsChange>::empty() by {
        lemma_no_change_prefix(s, k);
    }
    assert(s.take(s.len() as int) =~= s);
}

proof fn lemma_no_change_prefix(s: Seq<(String, InodeRecord, Vec<u8>)>, k: int)
    requires
        paths_unique(s),
        0 <= k <= s.len(),
    ensures
        created_or_modified(records_map(s), s.take(k)) == Seq::<FsChange>::empty(),
        deleted_paths(s.take(k), records_map(s)) == Seq::<FsChange>::empty(),
    decreases k,
{
    if k > 0 {
        lemma_no_change_prefix(s, k - 1);
        let t = s.take(k);
        assert(t.drop_last() =~= s.take(k - 1));
        assert(t.last() == s[k - 1]);
        lemma_records_map_lookup(s, s[k - 1].0@);
        assert(records_map(s)[s[k - 1].0@] == (s[k - 1].1, s[k - 1].2@));
    }
}

} // verus!
