//! Filesystem delta between a baseline tree and its copy-on-write ephemeral clone.
//!
//! Both trees are described by their walk listings: one [`FsEntry`] per directory entry,
//! named by its path components relative to the tree's root.
use vstd::prelude::*;
use crate::delta::types::{ByteDelta, ByteDeltaView, FsMutation, FsMutationView, fs_mutations_view};

verus! {

/// One entry met while walking a directory tree.
#[derive(Debug, Clone)]
pub struct FsEntry {
    /// Path components relative to the tree's root.
    pub components: Vec<String>,
    /// Whether the entry is a directory.
    pub is_dir: bool,
    /// Permission and type bits.
    pub mode: u32,
    /// Length in bytes reported by the entry's metadata.
    pub size: u64,
    /// Contents of a regular file (empty for a directory).
    pub content: Vec<u8>,
}

/// The path components of an entry, as character sequences.
pub open spec fn components_of(e: FsEntry) -> Seq<Seq<char>> {
    e.components@.map_values(|c: String| c@)
}

/// Components joined with `/`, as a relative path.
pub open spec fn join_path(cs: Seq<Seq<char>>) -> Seq<char>
    decreases cs.len(),
{
    if cs.len() == 0 {
        Seq::empty()
    } else if cs.len() == 1 {
        cs[0]
    } else {
        join_path(cs.drop_last()) + seq!['/'] + cs.last()
    }
}

/// Some entry of `listing` has exactly the components `cs`.
pub open spec fn listed(listing: Seq<FsEntry>, cs: Seq<Seq<char>>) -> bool {
    exists|i: int| 0 <= i < listing.len() && components_of(#[trigger] listing[i]) == cs
}

/// No two entries of a listing have the same components.
pub open spec fn listing_paths_distinct(listing: Seq<FsEntry>) -> bool {
    forall|i: int, j: int|
        0 <= i < listing.len() && 0 <= j < listing.len() && i != j ==> components_of(#[trigger] listing[i])
            != components_of(#[trigger] listing[j])
}

/// The baseline entry at the components `cs`.
pub open spec fn baseline_entry(base: Seq<FsEntry>, cs: Seq<Seq<char>>) -> FsEntry {
    base[choose|i: int| 0 <= i < base.len() && components_of(#[trigger] base[i]) == cs]
}

/// The mutation observed for an entry of the ephemeral tree: a file absent from the baseline
/// is created; a file whose baseline counterpart differs in length or contents is modified,
/// with a single delta at offset 0 holding both whole contents.
pub open spec fn ephemeral_mutation(base: Option<Seq<FsEntry>>, e: FsEntry) -> Option<FsMutationView> {
    let cs = components_of(e);
    if e.is_dir {
        None
    } else if !(base matches Some(b) && listed(b, cs)) {
        Some(FsMutationView::Created { path: join_path(cs), mode: e.mode, size: e.size })
    } else {
        let b = baseline_entry(base->0, cs);
        if b.size != e.size || b.content@ != e.content@ {
            Some(
                FsMutationView::Modified {
                    path: join_path(cs),
                    deltas: seq![ByteDeltaView { offset: 0, original: b.content@, mutated: e.content@ }],
                },
            )
        } else {
            None
        }
    }
}

/// The walk of the baseline reaches an entry when every directory above it still exists in
/// the ephemeral tree.
pub open spec fn reached_by_deletion_walk(eph: Seq<FsEntry>, cs: Seq<Seq<char>>) -> bool {
    forall|l: int| 1 <= l < cs.len() ==> #[trigger] listed(eph, cs.take(l))
}

/// Created and modified files among the first `k` entries of the ephemeral listing.
pub open spec fn ephemeral_mutations(base: Option<Seq<FsEntry>>, eph: Seq<FsEntry>, k: int) -> Seq<FsMutationView>
    decreases k,
{
    if k <= 0 {
        Seq::empty()
    } else {
        ephemeral_mutations(base, eph, k - 1) + match ephemeral_mutation(base, eph[k - 1]) {
            Some(m) => seq![m],
            None => Seq::empty(),
        }
    }
}

/// Deleted entries among the first `k` entries of the baseline listing.
pub open spec fn baseline_deletions(base: Seq<FsEntry>, eph: Seq<FsEntry>, k: int) -> Seq<FsMutationView>
    decreases k,
{
    if k <= 0 {
        Seq::empty()
    } else {
        let cs = components_of(base[k - 1]);
        baseline_deletions(base, eph, k - 1) + if reached_by_deletion_walk(eph, cs) && !listed(eph, cs) {
            seq![FsMutationView::Deleted { path: join_path(cs) }]
        } else {
            Seq::empty()
        }
    }
}

/// The delta of an ephemeral tree against its baseline (`None` for a tree that does not
/// exist): nothing when the ephemeral tree is missing; otherwise its created and modified
/// files in walk order, then the baseline entries the walk finds deleted, in walk order.
pub open spec fn macos_fs_delta(base: Option<Seq<FsEntry>>, eph: Option<Seq<FsEntry>>) -> Seq<FsMutationView> {
    match eph {
        None => Seq::empty(),
        Some(e) => ephemeral_mutations(base, e, e.len() as int) + match base {
            Some(b) => baseline_deletions(b, e, b.len() as int),
            None => Seq::empty(),
        },
    }
}

/// Whether the first `l` components of `cs` are exactly the components of `e`.
fn components_match(e: &FsEntry, cs: &Vec<String>, l: usize) -> (r: bool)
    requires
        l <= cs@.len(),
    ensures
        r == (components_of(*e) == cs@.map_values(|c: String| c@).take(l as int)),
{
    let ghost target = cs@.map_values(|c: String| c@).take(l as int);
    if e.components.len() != l {
        assert(components_of(*e).len() != target.len());
        return false;
    }
    let mut i: usize = 0;
    while i < l
        invariant
            l == e.components@.len(),
            l <= cs@.len(),
            i <= l,
            target == cs@.map_values(|c: String| c@).take(l as int),
            forall|j: int| 0 <= j < i ==> components_of(*e)[j] == target[j],
        decreases l - i,
    {
        if e.components[i] != cs[i] {
            assert(components_of(*e)[i as int] != target[i as int]);
            return false;
        }
        i = i + 1;
    }
    assert(components_of(*e) =~= target);
    true
}

/// Index of the entry of `listing` whose components are the first `l` of `cs`, if any.
fn find_entry(listing: &Vec<FsEntry>, cs: &Vec<String>, l: usize) -> (r: Option<usize>)
    requires
        l <= cs@.len(),
    ensures
        r matches Some(i) ==> i < listing@.len() && components_of(listing@[i as int]) == cs@.map_values(|c: String| c@).take(l as int),
        r is None <==> !listed(listing@, cs@.map_values(|c: String| c@).take(l as int)),
{
    let ghost target = cs@.map_values(|c: String| c@).take(l as int);
    let mut i: usize = 0;
    while i < listing.len()
        invariant
            l <= cs@.len(),
            target == cs@.map_values(|c: String| c@).take(l as int),
            i <= listing@.len(),
            forall|j: int| 0 <= j < i ==> components_of(#[trigger] listing@[j]) != target,
        decreases listing@.len() - i,
    {
        if components_match(&listing[i], cs, l) {
            return Some(i);
        }
        i = i + 1;
    }
    None
}

/// The relative path of an entry: its components joined with `/`.
fn path_string(e: &FsEntry) -> (r: String)
    ensures
        r@ == join_path(components_of(*e)),
{
    let mut r = String::new();
    let mut i: usize = 0;
    while i < e.components.len()
        invariant
            i <= e.components@.len(),
            r@ == join_path(components_of(*e).take(i as int)),
        decreases e.components@.len() - i,
    {
        let ghost cs = components_of(*e).take(i + 1);
        assert(cs.drop_last() =~= components_of(*e).take(i as int));
        if i > 0 {
            proof {
                reveal_strlit("/");
            }
            r.append("/");
        }
        r.append(e.components[i].as_str());
        assert(r@ =~= join_path(cs));
        i = i + 1;
    }
    assert(components_of(*e).take(e.components@.len() as int) =~= components_of(*e));
    r
}

/// Whether two byte vectors hold the same bytes.
pub(crate) fn same_bytes(a: &Vec<u8>, b: &Vec<u8>) -> (r: bool)
    ensures
        r == (a@ == b@),
{
    if a.len() != b.len() {
        return false;
    }
    let mut i: usize = 0;
    while i < a.len()
        invariant
            a@.len() == b@.len(),
            i <= a@.len(),
            forall|j: int| 0 <= j < i ==> a@[j] == b@[j],
        decreases a@.len() - i,
    {
        if a[i] != b[i] {
            return false;
        }
        i = i + 1;
    }
    assert(a@ =~= b@);
    true
}

/// Copies a byte vector.
pub(crate) fn copy_bytes(a: &Vec<u8>) -> (r: Vec<u8>)
    ensures
        r@ == a@,
{
    let mut r: Vec<u8> = Vec::new();
    let mut i: usize = 0;
    while i < a.len()
        invariant
            i <= a@.len(),
            r@ == a@.take(i as int),
        decreases a@.len() - i,
    {
        r.push(a[i]);
        i = i + 1;
    }
    assert(a@.take(a@.len() as int) =~= a@);
    r
}

/// Computes the filesystem state delta between the baseline tree and its ephemeral clone,
/// given the walk listing of each (`None` for a tree whose root does not exist).
pub fn compute_macos_fs_delta(baseline: Option<&Vec<FsEntry>>, ephemeral: Option<&Vec<FsEntry>>) -> (r: Vec<FsMutation>)
    requires
        baseline matches Some(b) ==> listing_paths_distinct(b@),
    ensures
        fs_mutations_view(r@) == macos_fs_delta(
            match baseline { Some(b) => Some(b@), None => None },
            match ephemeral { Some(e) => Some(e@), None => None },
        ),
        baseline matches Some(b) ==> (ephemeral matches Some(e) ==> forall|i: int, j: int|
            0 <= i < e@.len() && 0 <= j < b@.len() && !(#[trigger] e@[i]).is_dir
                && components_of(#[trigger] b@[j]) == components_of(e@[i]) && (b@[j].size != e@[i].size
                || b@[j].content@ != e@[i].content@) ==> exists|k: int|
                0 <= k < r@.len() && r@[k]@ == (FsMutationView::Modified {
                    path: join_path(components_of(e@[i])),
                    deltas: seq![ByteDeltaView { offset: 0, original: b@[j].content@, mutated: e@[i].content@ }],
                })),
{
    let ghost base = match baseline { Some(b) => Some(b@), None => None };
    let mut mutations: Vec<FsMutation> = Vec::new();
    let eph = match ephemeral {
        None => {
            return mutations;
        },
        Some(e) => e,
    };
    let mut k: usize = 0;
    while k < eph.len()
        invariant
            base == match baseline { Some(b) => Some(b@), None => None },
            baseline matches Some(b) ==> listing_paths_distinct(b@),
            k <= eph@.len(),
            fs_mutations_view(mutations@) == ephemeral_mutations(base, eph@, k as int),
        decreases eph@.len() - k,
    {
        let e = &eph[k];
        let ghost cs = components_of(*e);
        assert(e.components@.map_values(|c: String| c@).take(e.components@.len() as int) =~= cs);
        let ghost old_m = mutations@;
        if !e.is_dir {
            let found = match baseline {
                Some(b) => match find_entry(b, &e.components, e.components.len()) {
                    Some(i) => Some(&b[i]),
                    None => None,
                },
                None => None,
            };
            match found {
                None => {
                    let m = FsMutation::Created { path: path_string(e), mode: e.mode, size: e.size };
                    mutations.push(m);
                    assert(fs_mutations_view(mutations@) =~= fs_mutations_view(old_m) + seq![m@]);
                },
                Some(be) => {
                    proof {
                        let bl = base->0;
                        let i = choose|i: int| 0 <= i < bl.len() && components_of(#[trigger] bl[i]) == cs;
                        assert(components_of(bl[i]) == components_of(*be));
                    }
                    if be.size != e.size || !same_bytes(&be.content, &e.content) {
                        let d = ByteDelta { offset: 0, original: copy_bytes(&be.content), mutated: copy_bytes(&e.content) };
                        let mut deltas: Vec<ByteDelta> = Vec::new();
                        deltas.push(d);
                        let m = FsMutation::Modified { path: path_string(e), deltas };
                        mutations.push(m);
                        assert(crate::delta::types::byte_deltas_view(deltas@) =~= seq![d@]);
                        assert(fs_mutations_view(mutations@) =~= fs_mutations_view(old_m) + seq![m@]);
                    }
                },
            }
        }
        assert(fs_mutations_view(mutations@) =~= ephemeral_mutations(base, eph@, k + 1));
        k = k + 1;
    }
    let ghost first = mutations@;
    match baseline {
        None => {},
        Some(b) => {
            let mut k: usize = 0;
            while k < b.len()
                invariant
                    k <= b@.len(),
                    fs_mutations_view(mutations@) == fs_mutations_view(first) + baseline_deletions(b@, eph@, k as int),
                decreases b@.len() - k,
            {
                let be = &b[k];
                let ghost cs = components_of(*be);
                assert(be.components@.map_values(|c: String| c@).take(be.components@.len() as int) =~= cs);
                let n = be.components.len();
                let mut reached = true;
                let mut l: usize = 1;
                while l < n && reached
                    invariant
                        n == be.components@.len(),
                        cs == components_of(*be),
                        1 <= l,
                        l <= n || n == 0,
                        reached ==> forall|j: int| 1 <= j < l && j < n ==> #[trigger] listed(eph@, cs.take(j)),
                        !reached ==> !reached_by_deletion_walk(eph@, cs),
                    decreases n - l,
                {
                    assert(be.components@.map_values(|c: String| c@).take(l as int) =~= cs.take(l as int));
                    if find_entry(eph, &be.components, l).is_none() {
                        reached = false;
                    }
                    l = l + 1;
                }
                assert(reached == reached_by_deletion_walk(eph@, cs));
                let ghost old_m = mutations@;
                if reached && find_entry(eph, &be.components, n).is_none() {
                    let m = FsMutation::Deleted { path: path_string(be) };
                    mutations.push(m);
                    assert(fs_mutations_view(mutations@) =~= fs_mutations_view(old_m) + seq![m@]);
                }
                assert(fs_mutations_view(mutations@) =~= fs_mutations_view(first) + baseline_deletions(b@, eph@, k + 1));
                k = k + 1;
            }
        },
    }
    proof {
        match baseline {
            Some(b) => {
                lemma_clone_delta_reports_changed_files(b@, eph@);
                let d = macos_fs_delta(Some(b@), Some(eph@));
                assert forall|i: int, j: int|
                    0 <= i < eph@.len() && 0 <= j < b@.len() && !(#[trigger] eph@[i]).is_dir
                        && components_of(#[trigger] b@[j]) == components_of(eph@[i]) && (b@[j].size != eph@[i].size
                        || b@[j].content@ != eph@[i].content@) implies exists|k: int|
                        0 <= k < mutations@.len() && mutations@[k]@ == (FsMutationView::Modified {
                            path: join_path(components_of(eph@[i])),
                            deltas: seq![ByteDeltaView { offset: 0, original: b@[j].content@, mutated: eph@[i].content@ }],
                        }) by {
                    let k = choose|k: int| 0 <= k < d.len() && d[k] == (FsMutationView::Modified {
                        path: join_path(components_of(eph@[i])),
                        deltas: seq![ByteDeltaView { offset: 0, original: b@[j].content@, mutated: eph@[i].content@ }],
                    });
                    assert(fs_mutations_view(mutations@)[k] == mutations@[k]@);
                }
            },
            None => {},
        }
    }
    mutations
}

proof fn lemma_ephemeral_members(base: Option<Seq<FsEntry>>, eph: Seq<FsEntry>, n: int)
    requires
        0 <= n <= eph.len(),
    ensures
        forall|i: int|
            0 <= i < n && (#[trigger] ephemeral_mutation(base, eph[i])) is Some ==> exists|k: int|
                0 <= k < ephemeral_mutations(base, eph, n).len() && ephemeral_mutations(base, eph, n)[k]
                    == ephemeral_mutation(base, eph[i])->0,
        forall|k: int|
            0 <= k < ephemeral_mutations(base, eph, n).len() ==> exists|i: int|
                0 <= i < n && ephemeral_mutation(base, eph[i]) == Some(#[trigger] ephemeral_mutations(base, eph, n)[k]),
    decreases n,
{
    if n > 0 {
        lemma_ephemeral_members(base, eph, n - 1);
        let pre = ephemeral_mutations(base, eph, n - 1);
        let all = ephemeral_mutations(base, eph, n);
        let c = ephemeral_mutation(base, eph[n - 1]);
        assert(all == pre + match c { Some(m) => seq![m], None => Seq::empty() });
        assert forall|i: int| 0 <= i < n && (#[trigger] ephemeral_mutation(base, eph[i])) is Some implies exists|k: int|
            0 <= k < all.len() && all[k] == ephemeral_mutation(base, eph[i])->0 by {
            if i < n - 1 {
                let k = choose|k: int| 0 <= k < pre.len() && pre[k] == ephemeral_mutation(base, eph[i])->0;
                assert(all[k] == pre[k]);
            } else {
                assert(all[pre.len() as int] == c->0);
            }
        }
        assert forall|k: int| 0 <= k < all.len() implies exists|i: int|
            0 <= i < n && ephemeral_mutation(base, eph[i]) == Some(#[trigger] all[k]) by {
            if k < pre.len() {
                let i = choose|i: int| 0 <= i < n - 1 && ephemeral_mutation(base, eph[i]) == Some(#[trigger] pre[k]);
                assert(all[k] == pre[k]);
            }
        }
    }
}

/// The baseline entry a clone's entry is compared with is the one with its components.
proof fn lemma_baseline_entry_is(b: Seq<FsEntry>, j: int)
    requires
        listing_paths_distinct(b),
        0 <= j < b.len(),
    ensures
        listed(b, components_of(b[j])),
        baseline_entry(b, components_of(b[j])) == b[j],
{
    let cs = components_of(b[j]);
    assert(listed(b, cs));
    let i = choose|i: int| 0 <= i < b.len() && components_of(#[trigger] b[i]) == cs;
    assert(i == j);
}

/// What the delta of a clone against its baseline reports of the clone's files: a file whose
/// baseline counterpart has other contents or another length is reported modified, with one
/// delta at offset 0 holding both whole contents; a file without a baseline counterpart is
/// reported created with its own mode and size; and a reported modification always names
/// such a file whose contents or length changed.
pub proof fn lemma_clone_delta_reports_changed_files(b: Seq<FsEntry>, eph: Seq<FsEntry>)
    requires
        listing_paths_distinct(b),
    ensures
        forall|i: int, j: int|
            0 <= i < eph.len() && 0 <= j < b.len() && !(#[trigger] eph[i]).is_dir
                && components_of(#[trigger] b[j]) == components_of(eph[i]) && (b[j].size != eph[i].size
                || b[j].content@ != eph[i].content@) ==> exists|k: int|
                0 <= k < macos_fs_delta(Some(b), Some(eph)).len() && macos_fs_delta(Some(b), Some(eph))[k] == (FsMutationView::Modified {
                    path: join_path(components_of(eph[i])),
                    deltas: seq![ByteDeltaView { offset: 0, original: b[j].content@, mutated: eph[i].content@ }],
                }),
        forall|i: int|
            0 <= i < eph.len() && !(#[trigger] eph[i]).is_dir && !listed(b, components_of(eph[i])) ==> exists|k: int|
                0 <= k < macos_fs_delta(Some(b), Some(eph)).len() && macos_fs_delta(Some(b), Some(eph))[k] == (FsMutationView::Created {
                    path: join_path(components_of(eph[i])),
                    mode: eph[i].mode,
                    size: eph[i].size,
                }),
        forall|k: int|
            0 <= k < macos_fs_delta(Some(b), Some(eph)).len() && (#[trigger] macos_fs_delta(Some(b), Some(eph))[k]) is Modified
                ==> exists|i: int, j: int|
                0 <= i < eph.len() && 0 <= j < b.len() && !eph[i].is_dir && components_of(b[j]) == components_of(eph[i])
                    && (b[j].size != eph[i].size || b[j].content@ != eph[i].content@)
                    && macos_fs_delta(Some(b), Some(eph))[k] == (FsMutationView::Modified {
                    path: join_path(components_of(eph[i])),
                    deltas: seq![ByteDeltaView { offset: 0, original: b[j].content@, mutated: eph[i].content@ }],
                }),
{
    let base = Some(b);
    let n = eph.len() as int;
    let em = ephemeral_mutations(base, eph, n);
    let d = macos_fs_delta(base, Some(eph));
    let dels = baseline_deletions(b, eph, b.len() as int);
    assert(d == em + dels);
    lemma_ephemeral_members(base, eph, n);
    assert forall|i: int, j: int|
        0 <= i < eph.len() && 0 <= j < b.len() && !(#[trigger] eph[i]).is_dir
            && components_of(#[trigger] b[j]) == components_of(eph[i]) && (b[j].size != eph[i].size
            || b[j].content@ != eph[i].content@) implies exists|k: int|
            0 <= k < d.len() && d[k] == (FsMutationView::Modified {
                path: join_path(components_of(eph[i])),
                deltas: seq![ByteDeltaView { offset: 0, original: b[j].content@, mutated: eph[i].content@ }],
            }) by {
        lemma_baseline_entry_is(b, j);
        assert(ephemeral_mutation(base, eph[i]) is Some);
        let k = choose|k: int| 0 <= k < em.len() && em[k] == ephemeral_mutation(base, eph[i])->0;
        assert(d[k] == em[k]);
    }
    assert forall|i: int|
        0 <= i < eph.len() && !(#[trigger] eph[i]).is_dir && !listed(b, components_of(eph[i])) implies exists|k: int|
            0 <= k < d.len() && d[k] == (FsMutationView::Created {
                path: join_path(components_of(eph[i])),
                mode: eph[i].mode,
                size: eph[i].size,
            }) by {
        assert(ephemeral_mutation(base, eph[i]) is Some);
        let k = choose|k: int| 0 <= k < em.len() && em[k] == ephemeral_mutation(base, eph[i])->0;
        assert(d[k] == em[k]);
    }
    assert forall|k: int| 0 <= k < d.len() && (#[trigger] d[k]) is Modified implies exists|i: int, j: int|
        0 <= i < eph.len() && 0 <= j < b.len() && !eph[i].is_dir && components_of(b[j]) == components_of(eph[i])
            && (b[j].size != eph[i].size || b[j].content@ != eph[i].content@)
            && d[k] == (FsMutationView::Modified {
            path: join_path(components_of(eph[i])),
            deltas: seq![ByteDeltaView { offset: 0, original: b[j].content@, mutated: eph[i].content@ }],
        }) by {
        if k >= em.len() {
            lemma_deletions_are_deleted(b, eph, b.len() as int, k - em.len());
            assert(d[k] == dels[k - em.len()]);
        } else {
            assert(d[k] == em[k]);
            let i = choose|i: int| 0 <= i < n && ephemeral_mutation(base, eph[i]) == Some(#[trigger] em[k]);
            let cs = components_of(eph[i]);
            let j = choose|j: int| 0 <= j < b.len() && components_of(#[trigger] b[j]) == cs;
            lemma_baseline_entry_is(b, j);
        }
    }
}

/// A creation reported in the delta of a clone always names a clone file without a
/// baseline counterpart, with that file's mode and size.
pub proof fn lemma_clone_delta_creations_are_new(b: Seq<FsEntry>, eph: Seq<FsEntry>)
    requires
        listing_paths_distinct(b),
    ensures
        forall|k: int|
            0 <= k < macos_fs_delta(Some(b), Some(eph)).len() && (#[trigger] macos_fs_delta(Some(b), Some(eph))[k]) is Created
                ==> exists|i: int|
                0 <= i < eph.len() && !eph[i].is_dir && !listed(b, components_of(eph[i]))
                    && macos_fs_delta(Some(b), Some(eph))[k] == (FsMutationView::Created {
                    path: join_path(components_of(eph[i])),
                    mode: eph[i].mode,
                    size: eph[i].size,
                }),
{
    let base = Some(b);
    let n = eph.len() as int;
    let em = ephemeral_mutations(base, eph, n);
    let d = macos_fs_delta(base, Some(eph));
    let dels = baseline_deletions(b, eph, b.len() as int);
    assert(d == em + dels);
    lemma_ephemeral_members(base, eph, n);
    assert forall|k: int| 0 <= k < d.len() && (#[trigger] d[k]) is Created implies exists|i: int|
        0 <= i < eph.len() && !eph[i].is_dir && !listed(b, components_of(eph[i])) && d[k] == (FsMutationView::Created {
            path: join_path(components_of(eph[i])),
            mode: eph[i].mode,
            size: eph[i].size,
        }) by {
        if k >= em.len() {
            lemma_deletions_are_deleted(b, eph, b.len() as int, k - em.len());
            assert(d[k] == dels[k - em.len()]);
        } else {
            assert(d[k] == em[k]);
            let i = choose|i: int| 0 <= i < n && ephemeral_mutation(base, eph[i]) == Some(#[trigger] em[k]);
            if listed(b, components_of(eph[i])) {
                let cs = components_of(eph[i]);
                let j = choose|j: int| 0 <= j < b.len() && components_of(#[trigger] b[j]) == cs;
                lemma_baseline_entry_is(b, j);
            }
        }
    }
}

proof fn lemma_deletions_are_deleted(b: Seq<FsEntry>, eph: Seq<FsEntry>, n: int, k: int)
    requires
        0 <= n <= b.len(),
        0 <= k < baseline_deletions(b, eph, n).len(),
    ensures
        baseline_deletions(b, eph, n)[k] is Deleted,
    decreases n,
{
    if n > 0 {
        let pre = baseline_deletions(b, eph, n - 1);
        if k < pre.len() {
            lemma_deletions_are_deleted(b, eph, n - 1, k);
        }
    }
}

proof fn lemma_deletion_members(b: Seq<FsEntry>, eph: Seq<FsEntry>, n: int)
    requires
        0 <= n <= b.len(),
    ensures
        forall|j: int|
            0 <= j < n && reached_by_deletion_walk(eph, components_of(#[trigger] b[j])) && !listed(eph, components_of(b[j]))
                ==> exists|k: int|
                0 <= k < baseline_deletions(b, eph, n).len() && baseline_deletions(b, eph, n)[k]
                    == (FsMutationView::Deleted { path: join_path(components_of(b[j])) }),
        forall|k: int|
            0 <= k < baseline_deletions(b, eph, n).len() ==> exists|j: int|
                0 <= j < n && !listed(eph, components_of(b[j])) && #[trigger] baseline_deletions(b, eph, n)[k]
                    == (FsMutationView::Deleted { path: join_path(components_of(b[j])) }),
    decreases n,
{
    if n > 0 {
        lemma_deletion_members(b, eph, n - 1);
        let pre = baseline_deletions(b, eph, n - 1);
        let all = baseline_deletions(b, eph, n);
        let cs = components_of(b[n - 1]);
        let hit = reached_by_deletion_walk(eph, cs) && !listed(eph, cs);
        assert(all == pre + if hit { seq![FsMutationView::Deleted { path: join_path(cs) }] } else { Seq::empty() });
        assert forall|j: int|
            0 <= j < n && reached_by_deletion_walk(eph, components_of(#[trigger] b[j])) && !listed(eph, components_of(b[j]))
            implies exists|k: int| 0 <= k < all.len() && all[k] == (FsMutationView::Deleted { path: join_path(components_of(b[j])) }) by {
            if j < n - 1 {
                let k = choose|k: int| 0 <= k < pre.len() && pre[k] == (FsMutationView::Deleted { path: join_path(components_of(b[j])) });
                assert(all[k] == pre[k]);
            } else {
                assert(all[pre.len() as int] == (FsMutationView::Deleted { path: join_path(cs) }));
            }
        }
        assert forall|k: int| 0 <= k < all.len() implies exists|j: int|
            0 <= j < n && !listed(eph, components_of(b[j])) && #[trigger] all[k]
                == (FsMutationView::Deleted { path: join_path(components_of(b[j])) }) by {
            if k < pre.len() {
                let j = choose|j: int| 0 <= j < n - 1 && !listed(eph, components_of(b[j])) && #[trigger] pre[k]
                    == (FsMutationView::Deleted { path: join_path(components_of(b[j])) });
                assert(all[k] == pre[k]);
            }
        }
    }
}

proof fn lemma_ephemeral_never_deleted(base: Option<Seq<FsEntry>>, eph: Seq<FsEntry>, n: int, k: int)
    requires
        0 <= n <= eph.len(),
        0 <= k < ephemeral_mutations(base, eph, n).len(),
    ensures
        !(ephemeral_mutations(base, eph, n)[k] is Deleted),
    decreases n,
{
    if n > 0 {
        let pre = ephemeral_mutations(base, eph, n - 1);
        if k < pre.len() {
            lemma_ephemeral_never_deleted(base, eph, n - 1, k);
        }
    }
}

/// What the delta of a clone against its baseline reports as deleted: every baseline entry
/// that is missing from the clone while each directory above it is still there is reported
/// deleted, and every reported deletion names a baseline entry missing from the clone.
pub proof fn lemma_clone_delta_reports_deletions(b: Seq<FsEntry>, eph: Seq<FsEntry>)
    ensures
        forall|j: int|
            0 <= j < b.len() && !listed(eph, components_of(#[trigger] b[j])) && (forall|l: int|
                1 <= l < components_of(b[j]).len() ==> #[trigger] listed(eph, components_of(b[j]).take(l))) ==> exists|k: int|
                0 <= k < macos_fs_delta(Some(b), Some(eph)).len() && macos_fs_delta(Some(b), Some(eph))[k]
                    == (FsMutationView::Deleted { path: join_path(components_of(b[j])) }),
        forall|k: int|
            0 <= k < macos_fs_delta(Some(b), Some(eph)).len() && (#[trigger] macos_fs_delta(Some(b), Some(eph))[k]) is Deleted
                ==> exists|j: int|
                0 <= j < b.len() && !listed(eph, components_of(b[j])) && macos_fs_delta(Some(b), Some(eph))[k]
                    == (FsMutationView::Deleted { path: join_path(components_of(b[j])) }),
{
    let n = eph.len() as int;
    let em = ephemeral_mutations(Some(b), eph, n);
    let dels = baseline_deletions(b, eph, b.len() as int);
    let d = macos_fs_delta(Some(b), Some(eph));
    assert(d == em + dels);
    lemma_deletion_members(b, eph, b.len() as int);
    assert forall|j: int|
        0 <= j < b.len() && !listed(eph, components_of(#[trigger] b[j])) && (forall|l: int|
            1 <= l < components_of(b[j]).len() ==> #[trigger] listed(eph, components_of(b[j]).take(l))) implies exists|k: int|
            0 <= k < d.len() && d[k] == (FsMutationView::Deleted { path: join_path(components_of(b[j])) }) by {
        assert(reached_by_deletion_walk(eph, components_of(b[j])));
        let k = choose|k: int| 0 <= k < dels.len() && dels[k] == (FsMutationView::Deleted { path: join_path(components_of(b[j])) });
        assert(d[em.len() + k] == dels[k]);
    }
    assert forall|k: int| 0 <= k < d.len() && (#[trigger] d[k]) is Deleted implies exists|j: int|
        0 <= j < b.len() && !listed(eph, components_of(b[j])) && d[k] == (FsMutationView::Deleted { path: join_path(components_of(b[j])) }) by {
        if k < em.len() {
            lemma_ephemeral_never_deleted(Some(b), eph, n, k);
            assert(d[k] == em[k]);
        } else {
            assert(d[k] == dels[k - em.len()]);
            let j = choose|j: int| 0 <= j < b.len() && !listed(eph, components_of(b[j])) && #[trigger] dels[k - em.len()]
                == (FsMutationView::Deleted { path: join_path(components_of(b[j])) });
        }
    }
}

/// A clone that the isolated process left untouched has an empty delta against its baseline.
pub proof fn lemma_untouched_clone_has_empty_delta(listing: Seq<FsEntry>)
    requires
        listing_paths_distinct(listing),
    ensures
        macos_fs_delta(Some(listing), Some(listing)) == Seq::<FsMutationView>::empty(),
{
    assert forall|k: int| 0 <= k <= listing.len() implies #[trigger] ephemeral_mutations(Some(listing), listing, k)
        == Seq::<FsMutationView>::empty() && baseline_deletions(listing, listing, k) == Seq::<FsMutationView>::empty() by {
        lemma_untouched_prefix(listing, k);
    }
}

proof fn lemma_untouched_prefix(listing: Seq<FsEntry>, k: int)
    requires
        listing_paths_distinct(listing),
        0 <= k <= listing.len(),
    ensures
        ephemeral_mutations(Some(listing), listing, k) == Seq::<FsMutationView>::empty(),
        baseline_deletions(listing, listing, k) == Seq::<FsMutationView>::empty(),
    decreases k,
{
    if k > 0 {
        lemma_untouched_prefix(listing, k - 1);
        let e = listing[k - 1];
        let cs = components_of(e);
        assert(listed(listing, cs));
        let i = choose|i: int| 0 <= i < listing.len() && components_of(#[trigger] listing[i]) == cs;
        assert(i == k - 1);
        assert(baseline_entry(listing, cs) == e);
        assert(ephemeral_mutation(Some(listing), e) is None);
        assert(ephemeral_mutations(Some(listing), listing, k) =~= ephemeral_mutations(Some(listing), listing, k - 1));
        assert(baseline_deletions(listing, listing, k) =~= baseline_deletions(listing, listing, k - 1));
    }
}

} // verus!
