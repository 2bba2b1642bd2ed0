use vstd::prelude::*;
use crate::modes::FileMode;
use crate::store::{
    TargetV, EntryV, StoreV, store_wf, store_leq, base_ok, base_entries, child_tree_of,
    spec_upsert, spec_write_tree, spec_write_blob, upsert_entries, entries_wf, names_unique,
    entries_sorted, target_wf, find_name, find_name_from, find_tree_from, find_blob_from,
    lemma_find_name_from, lemma_find_tree_from, lemma_find_tree_at, lemma_upsert_entries,
    lemma_entries_wf_leq, lemma_store_leq_trans, lemma_spec_write_tree,
};

verus! {

/// What `find_blob_from` finds: the first index at or after `j` whose blob
/// equals `data`, with nothing before it.
pub proof fn lemma_find_blob_from(blobs: Seq<Seq<u8>>, data: Seq<u8>, j: int)
    requires
        0 <= j <= blobs.len(),
    ensures
        -1 <= find_blob_from(blobs, data, j),
        find_blob_from(blobs, data, j) == -1 ==> forall|k: int|
            j <= k < blobs.len() ==> (#[trigger] blobs[k]) != data,
        find_blob_from(blobs, data, j) >= 0 ==> j <= find_blob_from(blobs, data, j) < blobs.len()
            && blobs[find_blob_from(blobs, data, j)] == data,
    decreases blobs.len() - j,
{
    if j < blobs.len() && blobs[j] != data {
        lemma_find_blob_from(blobs, data, j + 1);
    }
}

/// `find_blob` returns `i` when blob `i` equals `data` and no earlier blob
/// does.
pub proof fn lemma_find_blob_at(blobs: Seq<Seq<u8>>, data: Seq<u8>, j: int, i: int)
    requires
        0 <= j <= i < blobs.len(),
        blobs[i] == data,
        forall|k: int| j <= k < i ==> (#[trigger] blobs[k]) != data,
    ensures
        find_blob_from(blobs, data, j) == i,
    decreases i - j,
{
    if j < i {
        lemma_find_blob_at(blobs, data, j + 1, i);
    }
}

/// A tree found at `idx` is still the first tree with that entry list in
/// any larger store.
pub proof fn lemma_find_tree_leq(sa: StoreV, sb: StoreV, es: Seq<EntryV>)
    requires
        store_leq(sa, sb),
        find_tree_from(sa.trees, es, 0) >= 0,
    ensures
        find_tree_from(sb.trees, es, 0) == find_tree_from(sa.trees, es, 0),
{
    let idx = find_tree_from(sa.trees, es, 0);
    lemma_find_tree_from(sa.trees, es, 0);
    assert forall|k: int| 0 <= k < idx implies (#[trigger] sb.trees[k]) != es by {
        assert(sb.trees[k] == sa.trees[k]);
        assert(sa.trees[k] != es);
    }
    assert(sb.trees[idx] == sa.trees[idx]);
    lemma_find_tree_at(sb.trees, es, 0, idx);
}

/// The frame of one upsert: the store only grows, by at most one tree per
/// path level; blobs are untouched; the returned handle names the rebuilt
/// root, whose entry list is exactly `upsert_entries` of the base level.
pub proof fn lemma_spec_upsert_frame(
    s: StoreV,
    base: Option<int>,
    comps: Seq<Seq<u8>>,
    i: int,
    target: TargetV,
    mode: FileMode,
)
    requires
        store_wf(s),
        0 <= i < comps.len(),
        base_ok(s, base),
        target_wf(s, target),
    ensures
        ({
            let (s2, id) = spec_upsert(s, base, comps, i, target, mode);
            &&& store_wf(s2)
            &&& store_leq(s, s2)
            &&& s2.blobs == s.blobs
            &&& s2.trees.len() <= s.trees.len() + comps.len() - i
            &&& 0 <= id < s2.trees.len()
            &&& s2.trees[id] == (if i + 1 >= comps.len() {
                upsert_entries(base_entries(s, base), comps[i], mode, target)
            } else {
                upsert_entries(
                    base_entries(s, base),
                    comps[i],
                    FileMode::Directory,
                    TargetV::Tree(
                        spec_upsert(
                            s,
                            child_tree_of(base_entries(s, base), comps[i]),
                            comps,
                            i + 1,
                            target,
                            mode,
                        ).1,
                    ),
                )
            })
            &&& find_tree_from(s2.trees, s2.trees[id], 0) == id
        }),
    decreases comps.len() - i,
{
    let es = base_entries(s, base);
    if base is Some {
        assert(entries_wf(s, s.trees[base->0]));
        assert(names_unique(s.trees[base->0]));
        assert(entries_sorted(s.trees[base->0]));
    }
    assert(entries_sorted(es));
    if i + 1 >= comps.len() {
        lemma_upsert_entries(s, es, comps[i], mode, target);
        lemma_spec_write_tree(s, upsert_entries(es, comps[i], mode, target));
    } else {
        let cb = child_tree_of(es, comps[i]);
        lemma_find_name_from(es, comps[i], 0);
        assert(base_ok(s, cb));
        lemma_spec_upsert_frame(s, cb, comps, i + 1, target, mode);
        let r = spec_upsert(s, cb, comps, i + 1, target, mode);
        lemma_entries_wf_leq(s, r.0, es);
        lemma_upsert_entries(r.0, es, comps[i], FileMode::Directory, TargetV::Tree(r.1));
        let es2 = upsert_entries(es, comps[i], FileMode::Directory, TargetV::Tree(r.1));
        lemma_spec_write_tree(r.0, es2);
        lemma_store_leq_trans(s, r.0, spec_write_tree(r.0, es2).0);
    }
}

/// Once an upsert has been applied, applying the same upsert to any store
/// that already holds its result changes nothing and returns the same
/// handle.
pub proof fn lemma_upsert_stable(
    s: StoreV,
    base: Option<int>,
    comps: Seq<Seq<u8>>,
    i: int,
    target: TargetV,
    mode: FileMode,
    sb: StoreV,
)
    requires
        store_wf(s),
        0 <= i < comps.len(),
        base_ok(s, base),
        target_wf(s, target),
        store_leq(spec_upsert(s, base, comps, i, target, mode).0, sb),
    ensures
        spec_upsert(sb, base, comps, i, target, mode) == (
            sb,
            spec_upsert(s, base, comps, i, target, mode).1,
        ),
    decreases comps.len() - i,
{
    lemma_spec_upsert_frame(s, base, comps, i, target, mode);
    let (s2, id) = spec_upsert(s, base, comps, i, target, mode);
    let es = base_entries(s, base);
    assert(base_entries(sb, base) == es);
    if i + 1 >= comps.len() {
        let es2 = upsert_entries(es, comps[i], mode, target);
        lemma_find_tree_leq(s2, sb, es2);
        assert(spec_write_tree(sb, es2) == (sb, id));
    } else {
        let cb = child_tree_of(es, comps[i]);
        lemma_find_name_from(es, comps[i], 0);
        if base is Some {
            assert(entries_wf(s, s.trees[base->0]));
            assert(entries_sorted(s.trees[base->0]));
        }
        assert(entries_sorted(es));
        assert(base_ok(s, cb));
        lemma_spec_upsert_frame(s, cb, comps, i + 1, target, mode);
        let r = spec_upsert(s, cb, comps, i + 1, target, mode);
        lemma_entries_wf_leq(s, r.0, es);
        lemma_upsert_entries(r.0, es, comps[i], FileMode::Directory, TargetV::Tree(r.1));
        let es2 = upsert_entries(es, comps[i], FileMode::Directory, TargetV::Tree(r.1));
        lemma_spec_write_tree(r.0, es2);
        lemma_store_leq_trans(r.0, s2, sb);
        lemma_upsert_stable(s, cb, comps, i + 1, target, mode, sb);
        assert(spec_upsert(sb, cb, comps, i + 1, target, mode) == (sb, r.1));
        lemma_find_tree_leq(s2, sb, es2);
        assert(spec_write_tree(sb, es2) == (sb, id));
    }
}

/// Determinism of the upsert: its result is a pure function of base tree,
/// path, target and mode, and running the identical upsert again on the
/// store it produced returns the identical root handle and leaves the
/// store unchanged.
pub proof fn lemma_upsert_deterministic(
    s: StoreV,
    base: Option<int>,
    comps: Seq<Seq<u8>>,
    i: int,
    target: TargetV,
    mode: FileMode,
)
    requires
        store_wf(s),
        0 <= i < comps.len(),
        base_ok(s, base),
        target_wf(s, target),
    ensures
        spec_upsert(
            spec_upsert(s, base, comps, i, target, mode).0,
            base,
            comps,
            i,
            target,
            mode,
        ) == (
            spec_upsert(s, base, comps, i, target, mode).0,
            spec_upsert(s, base, comps, i, target, mode).1,
        ),
{
    lemma_spec_upsert_frame(s, base, comps, i, target, mode);
    lemma_upsert_stable(s, base, comps, i, target, mode, spec_upsert(s, base, comps, i, target, mode).0);
}

/// Writing an identical blob into the store a write of it produced reuses
/// the handle and changes nothing.
pub proof fn lemma_write_blob_idem(s: StoreV, data: Seq<u8>)
    ensures
        spec_write_blob(spec_write_blob(s, data).0, data) == (
            spec_write_blob(s, data).0,
            spec_write_blob(s, data).1,
        ),
{
    let (s1, b) = spec_write_blob(s, data);
    lemma_find_blob_from(s.blobs, data, 0);
    if find_blob_from(s.blobs, data, 0) >= 0 {
    } else {
        assert(s1.blobs[s.blobs.len() as int] == data);
        assert forall|k: int| 0 <= k < s.blobs.len() implies (#[trigger] s1.blobs[k]) != data by {
            assert(s1.blobs[k] == s.blobs[k]);
        }
        lemma_find_blob_at(s1.blobs, data, 0, s.blobs.len() as int);
    }
}

/// What stands at a path: descend along `comps[i..]` from tree `t`,
/// following entries by name, and return the leaf entry, if every step
/// exists and every inner step is a tree.
pub open spec fn read_path(s: StoreV, t: int, comps: Seq<Seq<u8>>, i: int) -> Option<EntryV>
    decreases comps.len() - i,
{
    if i < 0 || i >= comps.len() || t < 0 || t >= s.trees.len() {
        None
    } else {
        let es = s.trees[t];
        let j = find_name(es, comps[i]);
        if j < 0 {
            None
        } else if i + 1 >= comps.len() {
            Some(es[j])
        } else {
            match es[j].target {
                TargetV::Tree(c) => read_path(s, c, comps, i + 1),
                TargetV::Blob(_) => None,
            }
        }
    }
}

/// Reading a path starting inside a store sees the same entries in any
/// larger store.
pub proof fn lemma_read_path_leq(sa: StoreV, sb: StoreV, t: int, comps: Seq<Seq<u8>>, i: int)
    requires
        store_wf(sa),
        store_leq(sa, sb),
        0 <= t < sa.trees.len(),
    ensures
        read_path(sb, t, comps, i) == read_path(sa, t, comps, i),
    decreases comps.len() - i,
{
    if 0 <= i < comps.len() {
        let es = sa.trees[t];
        assert(sb.trees[t] == es);
        let j = find_name(es, comps[i]);
        lemma_find_name_from(es, comps[i], 0);
        if j >= 0 && i + 1 < comps.len() {
            match es[j].target {
                TargetV::Tree(c) => {
                    assert(entries_wf(sa, sa.trees[t as int]));
                    assert(target_wf(sa, es[j].target));
                    lemma_read_path_leq(sa, sb, c, comps, i + 1);
                },
                TargetV::Blob(_) => {},
            }
        }
    }
}

/// The round trip: after an upsert, reading the same path from the rebuilt
/// root finds exactly the leaf entry that was written, with its target and
/// mode.
pub proof fn lemma_upsert_round_trip(
    s: StoreV,
    base: Option<int>,
    comps: Seq<Seq<u8>>,
    i: int,
    target: TargetV,
    mode: FileMode,
)
    requires
        store_wf(s),
        0 <= i < comps.len(),
        base_ok(s, base),
        target_wf(s, target),
    ensures
        read_path(
            spec_upsert(s, base, comps, i, target, mode).0,
            spec_upsert(s, base, comps, i, target, mode).1,
            comps,
            i,
        ) == Some(EntryV { name: comps[comps.len() - 1], mode, target }),
    decreases comps.len() - i,
{
    lemma_spec_upsert_frame(s, base, comps, i, target, mode);
    let (s2, id) = spec_upsert(s, base, comps, i, target, mode);
    let es = base_entries(s, base);
    if base is Some {
        assert(entries_wf(s, s.trees[base->0]));
        assert(names_unique(s.trees[base->0]));
        assert(entries_sorted(s.trees[base->0]));
    }
    assert(entries_sorted(es));
    if i + 1 >= comps.len() {
        lemma_upsert_entries(s, es, comps[i], mode, target);
        let rs = s2.trees[id];
        lemma_find_name_from(rs, comps[i], 0);
    } else {
        let cb = child_tree_of(es, comps[i]);
        lemma_find_name_from(es, comps[i], 0);
        assert(base_ok(s, cb));
        lemma_spec_upsert_frame(s, cb, comps, i + 1, target, mode);
        let r = spec_upsert(s, cb, comps, i + 1, target, mode);
        lemma_entries_wf_leq(s, r.0, es);
        lemma_upsert_entries(r.0, es, comps[i], FileMode::Directory, TargetV::Tree(r.1));
        let es2 = upsert_entries(es, comps[i], FileMode::Directory, TargetV::Tree(r.1));
        lemma_spec_write_tree(r.0, es2);
        lemma_upsert_round_trip(s, cb, comps, i + 1, target, mode);
        lemma_read_path_leq(r.0, s2, r.1, comps, i + 1);
        let rs = s2.trees[id];
        lemma_find_name_from(rs, comps[i], 0);
    }
}

/// Sibling invariance, stated level by level: along the whole root-to-leaf
/// chain of the upsert, every entry of the old level whose name is not the
/// chain component is still present, unchanged and at its position, in the
/// rebuilt level.
pub open spec fn siblings_preserved(
    s: StoreV,
    base: Option<int>,
    comps: Seq<Seq<u8>>,
    i: int,
    s2: StoreV,
    root: int,
) -> bool
    decreases comps.len() - i,
{
    let es = base_entries(s, base);
    let rs = s2.trees[root];
    &&& 0 <= root < s2.trees.len()
    &&& forall|k: int|
        0 <= k < es.len() && (#[trigger] es[k]).name != comps[i] ==> exists|m: int|
            0 <= m < rs.len() && rs[m] == es[k]
    &&& (0 <= i && i + 1 < comps.len() ==> {
        let jj = find_name(rs, comps[i]);
        &&& jj >= 0
        &&& match rs[jj].target {
            TargetV::Tree(c) => siblings_preserved(
                s,
                child_tree_of(es, comps[i]),
                comps,
                i + 1,
                s2,
                c,
            ),
            TargetV::Blob(_) => false,
        }
    })
}

/// `siblings_preserved` keeps holding in any larger result store.
pub proof fn lemma_siblings_preserved_leq(
    s: StoreV,
    base: Option<int>,
    comps: Seq<Seq<u8>>,
    i: int,
    sa: StoreV,
    sb: StoreV,
    root: int,
)
    requires
        0 <= i < comps.len(),
        siblings_preserved(s, base, comps, i, sa, root),
        store_leq(sa, sb),
    ensures
        siblings_preserved(s, base, comps, i, sb, root),
    decreases comps.len() - i,
{
    assert(sb.trees[root] == sa.trees[root]);
    if i + 1 < comps.len() {
        let es = base_entries(s, base);
        let rs = sa.trees[root];
        let jj = find_name(rs, comps[i]);
        lemma_find_name_from(rs, comps[i], 0);
        match rs[jj].target {
            TargetV::Tree(c) => {
                lemma_siblings_preserved_leq(s, child_tree_of(es, comps[i]), comps, i + 1, sa, sb, c);
            },
            TargetV::Blob(_) => {},
        }
    }
}

/// Sibling invariance: an upsert preserves, at every level of the
/// root-to-leaf chain, every entry whose name is not on the chain, with
/// identical name, mode and target.
pub proof fn lemma_sibling_invariance(
    s: StoreV,
    base: Option<int>,
    comps: Seq<Seq<u8>>,
    i: int,
    target: TargetV,
    mode: FileMode,
)
    requires
        store_wf(s),
        0 <= i < comps.len(),
        base_ok(s, base),
        target_wf(s, target),
    ensures
        siblings_preserved(
            s,
            base,
            comps,
            i,
            spec_upsert(s, base, comps, i, target, mode).0,
            spec_upsert(s, base, comps, i, target, mode).1,
        ),
    decreases comps.len() - i,
{
    lemma_spec_upsert_frame(s, base, comps, i, target, mode);
    let (s2, id) = spec_upsert(s, base, comps, i, target, mode);
    let es = base_entries(s, base);
    if base is Some {
        assert(entries_wf(s, s.trees[base->0]));
        assert(names_unique(s.trees[base->0]));
        assert(entries_sorted(s.trees[base->0]));
    }
    assert(entries_sorted(es));
    lemma_find_name_from(es, comps[i], 0);
    if i + 1 >= comps.len() {
        lemma_upsert_entries(s, es, comps[i], mode, target);
    } else {
        let cb = child_tree_of(es, comps[i]);
        assert(base_ok(s, cb));
        lemma_spec_upsert_frame(s, cb, comps, i + 1, target, mode);
        let r = spec_upsert(s, cb, comps, i + 1, target, mode);
        lemma_entries_wf_leq(s, r.0, es);
        lemma_upsert_entries(r.0, es, comps[i], FileMode::Directory, TargetV::Tree(r.1));
        let es2 = upsert_entries(es, comps[i], FileMode::Directory, TargetV::Tree(r.1));
        lemma_spec_write_tree(r.0, es2);
        lemma_sibling_invariance(s, cb, comps, i + 1, target, mode);
        lemma_siblings_preserved_leq(s, cb, comps, i + 1, r.0, s2, r.1);
        let rs = s2.trees[id];
        lemma_find_name_from(rs, comps[i], 0);
    }
}

/// The shape of a freshly created directory chain: each level holds
/// exactly one entry, named by its component; inner levels are directory
/// entries pointing at the next level, and the last level is the leaf with
/// the upserted mode and target.
pub open spec fn chain_shape(
    s: StoreV,
    t: int,
    comps: Seq<Seq<u8>>,
    i: int,
    target: TargetV,
    mode: FileMode,
) -> bool
    decreases comps.len() - i,
{
    &&& 0 <= t < s.trees.len()
    &&& 0 <= i < comps.len()
    &&& s.trees[t].len() == 1
    &&& s.trees[t][0].name == comps[i]
    &&& if i + 1 >= comps.len() {
        s.trees[t][0].mode == mode && s.trees[t][0].target == target
    } else {
        &&& s.trees[t][0].mode == FileMode::Directory
        &&& match s.trees[t][0].target {
            TargetV::Tree(c) => chain_shape(s, c, comps, i + 1, target, mode),
            TargetV::Blob(_) => false,
        }
    }
}

/// `chain_shape` keeps holding in any larger store.
pub proof fn lemma_chain_shape_leq(
    sa: StoreV,
    sb: StoreV,
    t: int,
    comps: Seq<Seq<u8>>,
    i: int,
    target: TargetV,
    mode: FileMode,
)
    requires
        chain_shape(sa, t, comps, i, target, mode),
        store_leq(sa, sb),
    ensures
        chain_shape(sb, t, comps, i, target, mode),
    decreases comps.len() - i,
{
    assert(sb.trees[t] == sa.trees[t]);
    if i + 1 < comps.len() {
        match sa.trees[t][0].target {
            TargetV::Tree(c) => {
                lemma_chain_shape_leq(sa, sb, c, comps, i + 1, target, mode);
            },
            TargetV::Blob(_) => {},
        }
    }
}

/// Upserting into an empty base creates exactly the chain of directories
/// named by the components, each containing only the next element of the
/// chain, with the leaf at the end.
pub proof fn lemma_upsert_creates_chain(
    s: StoreV,
    base: Option<int>,
    comps: Seq<Seq<u8>>,
    i: int,
    target: TargetV,
    mode: FileMode,
)
    requires
        store_wf(s),
        0 <= i < comps.len(),
        base_ok(s, base),
        target_wf(s, target),
        base_entries(s, base).len() == 0,
    ensures
        chain_shape(
            spec_upsert(s, base, comps, i, target, mode).0,
            spec_upsert(s, base, comps, i, target, mode).1,
            comps,
            i,
            target,
            mode,
        ),
    decreases comps.len() - i,
{
    lemma_spec_upsert_frame(s, base, comps, i, target, mode);
    let (s2, id) = spec_upsert(s, base, comps, i, target, mode);
    let es = base_entries(s, base);
    assert(entries_sorted(es));
    lemma_find_name_from(es, comps[i], 0);
    if i + 1 >= comps.len() {
        lemma_upsert_entries(s, es, comps[i], mode, target);
    } else {
        let cb = child_tree_of(es, comps[i]);
        assert(cb is None);
        lemma_spec_upsert_frame(s, cb, comps, i + 1, target, mode);
        let r = spec_upsert(s, cb, comps, i + 1, target, mode);
        lemma_entries_wf_leq(s, r.0, es);
        lemma_upsert_entries(r.0, es, comps[i], FileMode::Directory, TargetV::Tree(r.1));
        let es2 = upsert_entries(es, comps[i], FileMode::Directory, TargetV::Tree(r.1));
        lemma_spec_write_tree(r.0, es2);
        lemma_upsert_creates_chain(s, cb, comps, i + 1, target, mode);
        lemma_chain_shape_leq(r.0, s2, r.1, comps, i + 1, target, mode);
    }
}

/// Determinism of the whole file step: writing the identical content and
/// upserting it at the identical path a second time, on the store the
/// first run produced, returns the identical blob and root handles and
/// leaves the store unchanged.  The result never depends on a commit
/// message or a timestamp: neither is an argument of the step.
pub proof fn lemma_upsert_file_deterministic(
    s: StoreV,
    base: Option<int>,
    comps: Seq<Seq<u8>>,
    content: Seq<u8>,
    mode: FileMode,
)
    requires
        store_wf(s),
        0 < comps.len(),
        base_ok(s, base),
    ensures
        ({
            let (s1, b) = spec_write_blob(s, content);
            let (s2, id) = spec_upsert(s1, base, comps, 0, TargetV::Blob(b), mode);
            &&& spec_write_blob(s2, content) == (s2, b)
            &&& spec_upsert(s2, base, comps, 0, TargetV::Blob(b), mode) == (s2, id)
        }),
{
    let (s1, b) = spec_write_blob(s, content);
    lemma_find_blob_from(s.blobs, content, 0);
    lemma_write_blob_idem(s, content);
    assert forall|t: int|
        0 <= t < s1.trees.len() implies entries_wf(s1, #[trigger] s1.trees[t]) && names_unique(
        s1.trees[t],
    ) && entries_sorted(s1.trees[t]) by {
        assert(s1.trees[t] == s.trees[t]);
        assert(entries_wf(s, s.trees[t]));
        assert forall|k: int|
            0 <= k < s1.trees[t].len() implies target_wf(s1, (#[trigger] s1.trees[t][k]).target) by {
            assert(target_wf(s, s.trees[t][k].target));
        }
    }
    assert(store_wf(s1));
    assert(target_wf(s1, TargetV::Blob(b)));
    lemma_spec_upsert_frame(s1, base, comps, 0, TargetV::Blob(b), mode);
    let (s2, id) = spec_upsert(s1, base, comps, 0, TargetV::Blob(b), mode);
    assert(s2.blobs == s1.blobs);
    lemma_upsert_deterministic(s1, base, comps, 0, TargetV::Blob(b), mode);
    assert(spec_write_blob(s2, content) == (s2, b)) by {
        assert(spec_write_blob(s1, content) == (s1, b));
    }
}

/// The round trip of the whole file step: after writing `content` as a
/// blob and upserting it at `comps`, reading that path from the rebuilt
/// root finds a leaf whose blob holds exactly the bytes written.
pub proof fn lemma_upsert_file_round_trip(
    s: StoreV,
    base: Option<int>,
    comps: Seq<Seq<u8>>,
    content: Seq<u8>,
    mode: FileMode,
)
    requires
        store_wf(s),
        0 < comps.len(),
        base_ok(s, base),
    ensures
        ({
            let (s1, b) = spec_write_blob(s, content);
            let (s2, id) = spec_upsert(s1, base, comps, 0, TargetV::Blob(b), mode);
            &&& read_path(s2, id, comps, 0) == Some(
                EntryV { name: comps[comps.len() - 1], mode, target: TargetV::Blob(b) },
            )
            &&& 0 <= b < s2.blobs.len()
            &&& s2.blobs[b] == content
        }),
{
    let (s1, b) = spec_write_blob(s, content);
    lemma_find_blob_from(s.blobs, content, 0);
    assert forall|t: int|
        0 <= t < s1.trees.len() implies entries_wf(s1, #[trigger] s1.trees[t]) && names_unique(
        s1.trees[t],
    ) && entries_sorted(s1.trees[t]) by {
        assert(s1.trees[t] == s.trees[t]);
        assert(entries_wf(s, s.trees[t]));
        assert forall|k: int|
            0 <= k < s1.trees[t].len() implies target_wf(s1, (#[trigger] s1.trees[t][k]).target) by {
            assert(target_wf(s, s.trees[t][k].target));
        }
    }
    assert(store_wf(s1));
    lemma_spec_upsert_frame(s1, base, comps, 0, TargetV::Blob(b), mode);
    lemma_upsert_round_trip(s1, base, comps, 0, TargetV::Blob(b), mode);
}

} // verus!
