use vstd::prelude::*;
use vstd::pervasive::VecAdditionalExecFns;
use crate::modes::FileMode;
use crate::errors::CommitError;

verus! {

/// What a tree entry points at: a blob or a subtree, named by its handle in
/// the store.  Handles are content-addressed: writing the same content twice
/// yields the same handle.
#[derive(Clone, Copy, PartialEq, Eq, Structural, Debug)]
pub enum Target {
    Blob(usize),
    Tree(usize),
}

/// One named entry of a tree: a name, an entry mode, and the object the
/// entry points at.
#[derive(Debug)]
pub struct Entry {
    pub name: Vec<u8>,
    pub mode: FileMode,
    pub target: Target,
}

/// Mathematical model of a target: handles as unbounded integers.
pub enum TargetV {
    Blob(int),
    Tree(int),
}

/// The model of a target.
pub open spec fn tv(t: Target) -> TargetV {
    match t {
        Target::Blob(b) => TargetV::Blob(b as int),
        Target::Tree(tr) => TargetV::Tree(tr as int),
    }
}

/// The model of an optional tree handle.
pub open spec fn bv(b: Option<usize>) -> Option<int> {
    match b {
        Some(t) => Some(t as int),
        None => None,
    }
}

/// Mathematical model of one entry.
#[verifier::ext_equal]
pub struct EntryV {
    pub name: Seq<u8>,
    pub mode: FileMode,
    pub target: TargetV,
}

impl View for Entry {
    type V = EntryV;

    open spec fn view(&self) -> EntryV {
        EntryV { name: self.name@, mode: self.mode, target: tv(self.target) }
    }
}

/// The model of a sequence of entries.
pub open spec fn esv(v: Seq<Entry>) -> Seq<EntryV> {
    Seq::new(v.len(), |i: int| v[i]@)
}

/// Mathematical model of the store: the contents of every blob and the
/// entry list of every tree, by handle.
#[verifier::ext_equal]
pub struct StoreV {
    pub blobs: Seq<Seq<u8>>,
    pub trees: Seq<Seq<EntryV>>,
}

/// A content-addressed object store for blobs and trees.  Objects are
/// immutable once written; writing deduplicates, so a handle is a pure
/// function of content and two trees with identical entry lists have the
/// identical handle.
pub struct Store {
    pub blobs: Vec<Vec<u8>>,
    pub trees: Vec<Vec<Entry>>,
}

impl View for Store {
    type V = StoreV;

    open spec fn view(&self) -> StoreV {
        StoreV {
            blobs: Seq::new(self.blobs@.len(), |i: int| self.blobs@[i]@),
            trees: Seq::new(self.trees@.len(), |i: int| esv(self.trees@[i]@)),
        }
    }
}

/// A target is well formed when its handle lies inside the store.
pub open spec fn target_wf(s: StoreV, t: TargetV) -> bool {
    match t {
        TargetV::Blob(b) => 0 <= b < s.blobs.len(),
        TargetV::Tree(tr) => 0 <= tr < s.trees.len(),
    }
}

/// Every target of the entry list lies inside the store.
pub open spec fn entries_wf(s: StoreV, es: Seq<EntryV>) -> bool {
    forall|k: int| 0 <= k < es.len() ==> target_wf(s, (#[trigger] es[k]).target)
}

/// Names within one entry list never repeat.
pub open spec fn names_unique(es: Seq<EntryV>) -> bool {
    forall|j: int, k: int|
        0 <= j < k < es.len() ==> (#[trigger] es[j]).name != (#[trigger] es[k]).name
}

/// Strict bytewise lexicographic order, compared from position `j` on: a
/// proper prefix sorts first, else the first differing byte decides.
pub open spec fn lex_lt_from(a: Seq<u8>, b: Seq<u8>, j: int) -> bool
    decreases a.len() - j,
{
    if j < 0 || j >= b.len() {
        false
    } else if j >= a.len() {
        true
    } else if a[j] < b[j] {
        true
    } else if a[j] > b[j] {
        false
    } else {
        lex_lt_from(a, b, j + 1)
    }
}

/// Strict bytewise lexicographic order on names.
pub open spec fn lex_lt(a: Seq<u8>, b: Seq<u8>) -> bool {
    lex_lt_from(a, b, 0)
}

/// The entry list is in the canonical order: names strictly ascending,
/// plain bytewise.  Any fixed total order makes the identity of an entry
/// set deterministic; the store does not reproduce git's on-disk order,
/// which compares directory names with a trailing slash.
pub open spec fn entries_sorted(es: Seq<EntryV>) -> bool {
    forall|j: int, k: int|
        0 <= j < k < es.len() ==> lex_lt((#[trigger] es[j]).name, (#[trigger] es[k]).name)
}

/// Every tree of the store has in-range targets, unique names, and its
/// entries in the canonical sort order.
pub open spec fn store_wf(s: StoreV) -> bool {
    forall|i: int|
        0 <= i < s.trees.len() ==> entries_wf(s, #[trigger] s.trees[i]) && names_unique(
            s.trees[i],
        ) && entries_sorted(s.trees[i])
}

/// Nothing is lexicographically below itself.
pub proof fn lemma_lex_lt_irreflexive(a: Seq<u8>, j: int)
    requires
        0 <= j <= a.len(),
    ensures
        !lex_lt_from(a, a, j),
    decreases a.len() - j,
{
    if j < a.len() {
        lemma_lex_lt_irreflexive(a, j + 1);
    }
}

/// Two distinct names are lexicographically ordered one way or the other.
pub proof fn lemma_lex_lt_connected(a: Seq<u8>, b: Seq<u8>, j: int)
    requires
        0 <= j <= a.len(),
        j <= b.len(),
        forall|k: int| 0 <= k < j ==> a[k] == b[k],
    ensures
        lex_lt_from(a, b, j) || lex_lt_from(b, a, j) || a == b,
    decreases a.len() - j,
{
    if j >= b.len() {
        if j >= a.len() {
            assert(a =~= b);
        } else {
            assert(lex_lt_from(b, a, j));
        }
    } else if j >= a.len() {
        assert(lex_lt_from(a, b, j));
    } else if a[j] == b[j] {
        lemma_lex_lt_connected(a, b, j + 1);
    }
}

/// The lexicographic order is transitive.
pub proof fn lemma_lex_lt_transitive(a: Seq<u8>, b: Seq<u8>, c: Seq<u8>, j: int)
    requires
        0 <= j <= a.len(),
        j <= b.len(),
        j <= c.len(),
        lex_lt_from(a, b, j),
        lex_lt_from(b, c, j),
    ensures
        lex_lt_from(a, c, j),
    decreases a.len() - j,
{
    if j < a.len() && j < b.len() && j < c.len() && a[j] == b[j] && b[j] == c[j] {
        lemma_lex_lt_transitive(a, b, c, j + 1);
    }
}

/// A strictly ascending entry list never repeats a name.
pub proof fn lemma_sorted_unique(es: Seq<EntryV>)
    requires
        entries_sorted(es),
    ensures
        names_unique(es),
{
    assert forall|j: int, k: int|
        0 <= j < k < es.len() implies (#[trigger] es[j]).name != (#[trigger] es[k]).name by {
        assert(lex_lt(es[j].name, es[k].name));
        lemma_lex_lt_irreflexive(es[k].name, 0);
    }
}

/// The canonical position for a fresh `name` at or after `j`: the first
/// index whose entry name sorts above it, or the end.
pub open spec fn insert_pos_from(es: Seq<EntryV>, name: Seq<u8>, j: int) -> int
    decreases es.len() - j,
{
    if j < 0 || j >= es.len() {
        es.len() as int
    } else if lex_lt(name, es[j].name) {
        j
    } else {
        insert_pos_from(es, name, j + 1)
    }
}

/// The canonical position for a fresh `name`.
pub open spec fn insert_pos(es: Seq<EntryV>, name: Seq<u8>) -> int {
    insert_pos_from(es, name, 0)
}

/// What `insert_pos_from` finds: everything before it sorts at or below
/// `name`, and the entry at it (if any) sorts above.
pub proof fn lemma_insert_pos_from(es: Seq<EntryV>, name: Seq<u8>, j: int)
    requires
        0 <= j <= es.len(),
    ensures
        j <= insert_pos_from(es, name, j) <= es.len(),
        forall|k: int|
            j <= k < insert_pos_from(es, name, j) ==> !lex_lt(name, (#[trigger] es[k]).name),
        insert_pos_from(es, name, j) < es.len() ==> lex_lt(
            name,
            es[insert_pos_from(es, name, j)].name,
        ),
    decreases es.len() - j,
{
    if j < es.len() && !lex_lt(name, es[j].name) {
        lemma_insert_pos_from(es, name, j + 1);
    }
}

/// The base of an upsert is either absent or an existing tree handle.
pub open spec fn base_ok(s: StoreV, base: Option<int>) -> bool {
    match base {
        Some(t) => 0 <= t < s.trees.len(),
        None => true,
    }
}

/// `s2` holds every object of `s1`, under the same handle.
pub open spec fn store_leq(s1: StoreV, s2: StoreV) -> bool {
    &&& s1.blobs.len() <= s2.blobs.len()
    &&& forall|i: int| 0 <= i < s1.blobs.len() ==> s2.blobs[i] == #[trigger] s1.blobs[i]
    &&& s1.trees.len() <= s2.trees.len()
    &&& forall|i: int| 0 <= i < s1.trees.len() ==> s2.trees[i] == #[trigger] s1.trees[i]
}

/// Index of the first entry named `name` at or after `j`, or -1.
pub open spec fn find_name_from(es: Seq<EntryV>, name: Seq<u8>, j: int) -> int
    decreases es.len() - j,
{
    if j < 0 || j >= es.len() {
        -1
    } else if es[j].name == name {
        j
    } else {
        find_name_from(es, name, j + 1)
    }
}

/// Index of the first entry named `name`, or -1.
pub open spec fn find_name(es: Seq<EntryV>, name: Seq<u8>) -> int {
    find_name_from(es, name, 0)
}

/// Index of the first blob with content `data` at or after `j`, or -1.
pub open spec fn find_blob_from(blobs: Seq<Seq<u8>>, data: Seq<u8>, j: int) -> int
    decreases blobs.len() - j,
{
    if j < 0 || j >= blobs.len() {
        -1
    } else if blobs[j] == data {
        j
    } else {
        find_blob_from(blobs, data, j + 1)
    }
}

/// Index of the first tree with entry list `es` at or after `j`, or -1.
pub open spec fn find_tree_from(trees: Seq<Seq<EntryV>>, es: Seq<EntryV>, j: int) -> int
    decreases trees.len() - j,
{
    if j < 0 || j >= trees.len() {
        -1
    } else if trees[j] == es {
        j
    } else {
        find_tree_from(trees, es, j + 1)
    }
}

/// What writing a blob does: reuse the handle of an identical blob, or
/// append the content under a fresh handle.
pub open spec fn spec_write_blob(s: StoreV, data: Seq<u8>) -> (StoreV, int) {
    let i = find_blob_from(s.blobs, data, 0);
    if i >= 0 {
        (s, i)
    } else {
        (StoreV { blobs: s.blobs.push(data), trees: s.trees }, s.blobs.len() as int)
    }
}

/// What writing a tree does: reuse the handle of a tree with the identical
/// entry list, or append the entry list under a fresh handle.
pub open spec fn spec_write_tree(s: StoreV, es: Seq<EntryV>) -> (StoreV, int) {
    let i = find_tree_from(s.trees, es, 0);
    if i >= 0 {
        (s, i)
    } else {
        (StoreV { blobs: s.blobs, trees: s.trees.push(es) }, s.trees.len() as int)
    }
}

/// Insert or replace the entry named `name`: an entry with that name is
/// replaced in place, and an absent name is inserted at its canonical
/// position, so a sorted entry list stays sorted.  Every other entry keeps
/// its name, mode and target.
pub open spec fn upsert_entries(
    es: Seq<EntryV>,
    name: Seq<u8>,
    mode: FileMode,
    target: TargetV,
) -> Seq<EntryV> {
    let e = EntryV { name, mode, target };
    let i = find_name(es, name);
    if i >= 0 {
        es.update(i, e)
    } else {
        es.insert(insert_pos(es, name), e)
    }
}

/// The entry list an upsert starts from: the base tree's, or empty.
pub open spec fn base_entries(s: StoreV, base: Option<int>) -> Seq<EntryV> {
    match base {
        Some(t) => s.trees[t],
        None => Seq::empty(),
    }
}

/// The subtree handle behind `name`, if an entry with that name exists and
/// points at a tree; a same-named blob entry counts as no subtree.
pub open spec fn child_tree_of(es: Seq<EntryV>, name: Seq<u8>) -> Option<int> {
    let i = find_name(es, name);
    if i >= 0 {
        match es[i].target {
            TargetV::Tree(t) => Some(t),
            TargetV::Blob(_) => None,
        }
    } else {
        None
    }
}

/// The tree upsert, as a function of the store: descend along
/// `comps[i..]`, replace or add the leaf entry, and rebuild one tree per
/// level on the way back up, writing each into the store.  Returns the new
/// store and the handle of the rebuilt root.
pub open spec fn spec_upsert(
    s: StoreV,
    base: Option<int>,
    comps: Seq<Seq<u8>>,
    i: int,
    target: TargetV,
    mode: FileMode,
) -> (StoreV, int)
    decreases comps.len() - i,
{
    let es = base_entries(s, base);
    if i < 0 || i + 1 >= comps.len() {
        spec_write_tree(s, upsert_entries(es, comps[i], mode, target))
    } else {
        let r = spec_upsert(s, child_tree_of(es, comps[i]), comps, i + 1, target, mode);
        spec_write_tree(
            r.0,
            upsert_entries(es, comps[i], FileMode::Directory, TargetV::Tree(r.1)),
        )
    }
}

/// The model of a component list.
pub open spec fn comps_v(v: Seq<Vec<u8>>) -> Seq<Seq<u8>> {
    Seq::new(v.len(), |i: int| v[i]@)
}

/// What `find_name_from` finds: the first index at or after `j` whose entry
/// carries `name`, with nothing before it.
pub proof fn lemma_find_name_from(es: Seq<EntryV>, name: Seq<u8>, j: int)
    requires
        0 <= j <= es.len(),
    ensures
        -1 <= find_name_from(es, name, j),
        find_name_from(es, name, j) == -1 ==> forall|k: int|
            j <= k < es.len() ==> (#[trigger] es[k]).name != name,
        find_name_from(es, name, j) >= 0 ==> j <= find_name_from(es, name, j) < es.len()
            && es[find_name_from(es, name, j)].name == name && forall|k: int|
            j <= k < find_name_from(es, name, j) ==> (#[trigger] es[k]).name != name,
    decreases es.len() - j,
{
    if j < es.len() && es[j].name != name {
        lemma_find_name_from(es, name, j + 1);
    }
}

/// `find_name` returns `i` when `es[i]` carries `name` and no earlier entry
/// does.
pub proof fn lemma_find_name_at(es: Seq<EntryV>, name: Seq<u8>, j: int, i: int)
    requires
        0 <= j <= i < es.len(),
        es[i].name == name,
        forall|k: int| j <= k < i ==> (#[trigger] es[k]).name != name,
    ensures
        find_name_from(es, name, j) == i,
    decreases i - j,
{
    if j < i {
        lemma_find_name_at(es, name, j + 1, i);
    }
}

/// `find_tree_from` finds the first tree at or after `j` with entry list
/// `es`, with nothing before it.
pub proof fn lemma_find_tree_from(trees: Seq<Seq<EntryV>>, es: Seq<EntryV>, j: int)
    requires
        0 <= j <= trees.len(),
    ensures
        -1 <= find_tree_from(trees, es, j),
        find_tree_from(trees, es, j) == -1 ==> forall|k: int|
            j <= k < trees.len() ==> (#[trigger] trees[k]) != es,
        find_tree_from(trees, es, j) >= 0 ==> j <= find_tree_from(trees, es, j) < trees.len()
            && trees[find_tree_from(trees, es, j)] == es && forall|k: int|
            j <= k < find_tree_from(trees, es, j) ==> (#[trigger] trees[k]) != es,
    decreases trees.len() - j,
{
    if j < trees.len() && trees[j] != es {
        lemma_find_tree_from(trees, es, j + 1);
    }
}

/// `find_tree` returns `i` when tree `i` has entry list `es` and no earlier
/// tree does.
pub proof fn lemma_find_tree_at(trees: Seq<Seq<EntryV>>, es: Seq<EntryV>, j: int, i: int)
    requires
        0 <= j <= i < trees.len(),
        trees[i] == es,
        forall|k: int| j <= k < i ==> (#[trigger] trees[k]) != es,
    ensures
        find_tree_from(trees, es, j) == i,
    decreases i - j,
{
    if j < i {
        lemma_find_tree_at(trees, es, j + 1, i);
    }
}

/// An entry list with in-range targets keeps them in any larger store.
pub proof fn lemma_entries_wf_leq(s1: StoreV, s2: StoreV, es: Seq<EntryV>)
    requires
        entries_wf(s1, es),
        store_leq(s1, s2),
    ensures
        entries_wf(s2, es),
{
    assert forall|k: int| 0 <= k < es.len() implies target_wf(s2, (#[trigger] es[k]).target) by {
        assert(target_wf(s1, es[k].target));
    }
}

/// `store_leq` is transitive.
pub proof fn lemma_store_leq_trans(s1: StoreV, s2: StoreV, s3: StoreV)
    requires
        store_leq(s1, s2),
        store_leq(s2, s3),
    ensures
        store_leq(s1, s3),
{
}

/// Upserting one entry keeps targets in range, the canonical sort order
/// and the uniqueness of names, keeps every entry with a different name
/// present unchanged, and puts the new entry where `find_name` finds it.
pub proof fn lemma_upsert_entries(s: StoreV, es: Seq<EntryV>, name: Seq<u8>, mode: FileMode, target: TargetV)
    requires
        entries_wf(s, es),
        entries_sorted(es),
        target_wf(s, target),
    ensures
        ({
            let r = upsert_entries(es, name, mode, target);
            let j = if find_name(es, name) >= 0 {
                find_name(es, name)
            } else {
                insert_pos(es, name)
            };
            &&& entries_wf(s, r)
            &&& entries_sorted(r)
            &&& names_unique(r)
            &&& es.len() <= r.len() <= es.len() + 1
            &&& 0 <= j < r.len()
            &&& r[j] == (EntryV { name, mode, target })
            &&& find_name(r, name) == j
            &&& forall|k: int|
                0 <= k < es.len() && (#[trigger] es[k]).name != name ==> exists|m: int|
                    0 <= m < r.len() && r[m] == es[k]
            &&& (es.len() == 0 ==> r == seq![EntryV { name, mode, target }])
        }),
{
    lemma_find_name_from(es, name, 0);
    lemma_sorted_unique(es);
    let e = EntryV { name, mode, target };
    let r = upsert_entries(es, name, mode, target);
    let i = find_name(es, name);
    if i >= 0 {
        assert forall|k: int| 0 <= k < r.len() implies target_wf(s, (#[trigger] r[k]).target) by {
            if k != i {
                assert(r[k] == es[k]);
                assert(target_wf(s, es[k].target));
            }
        }
        assert forall|a: int, b: int|
            0 <= a < b < r.len() implies lex_lt((#[trigger] r[a]).name, (#[trigger] r[b]).name) by {
            assert(r[a].name == es[a].name);
            assert(r[b].name == es[b].name);
            assert(lex_lt(es[a].name, es[b].name));
        }
        lemma_sorted_unique(r);
        assert forall|k: int| 0 <= k < i implies (#[trigger] r[k]).name != name by {
            assert(r[k] == es[k]);
        }
        lemma_find_name_at(r, name, 0, i);
        assert forall|k: int|
            0 <= k < es.len() && (#[trigger] es[k]).name != name implies exists|m: int|
                0 <= m < r.len() && r[m] == es[k] by {
            assert(r[k] == es[k]);
        }
    } else {
        let p = insert_pos(es, name);
        lemma_insert_pos_from(es, name, 0);
        es.insert_ensures(p, e);
        assert(r == es.insert(p, e));
        assert forall|k: int| 0 <= k < p implies lex_lt((#[trigger] es[k]).name, name) by {
            lemma_lex_lt_connected(es[k].name, name, 0);
            assert(!lex_lt(name, es[k].name));
            assert(es[k].name != name);
        }
        assert forall|k: int| 0 <= k < r.len() implies target_wf(s, (#[trigger] r[k]).target) by {
            if k < p {
                assert(r[k] == es[k]);
                assert(target_wf(s, es[k].target));
            } else if k > p {
                assert(r[k] == es[k - 1]);
                assert(target_wf(s, es[k - 1].target));
            }
        }
        assert forall|a: int, b: int|
            0 <= a < b < r.len() implies lex_lt((#[trigger] r[a]).name, (#[trigger] r[b]).name) by {
            if b < p {
                assert(r[a] == es[a]);
                assert(r[b] == es[b]);
            } else if a < p && b == p {
                assert(r[a] == es[a]);
                assert(lex_lt(es[a].name, name));
            } else if a < p && b > p {
                assert(r[a] == es[a]);
                assert(r[b] == es[b - 1]);
                assert(lex_lt(es[a].name, es[b - 1].name));
            } else if a == p {
                assert(r[b] == es[b - 1]);
                assert(lex_lt(name, es[p].name));
                if b - 1 > p {
                    assert(lex_lt(es[p].name, es[b - 1].name));
                    lemma_lex_lt_transitive(name, es[p].name, es[b - 1].name, 0);
                }
            } else {
                assert(r[a] == es[a - 1]);
                assert(r[b] == es[b - 1]);
                assert(lex_lt(es[a - 1].name, es[b - 1].name));
            }
        }
        lemma_sorted_unique(r);
        assert forall|k: int| 0 <= k < p implies (#[trigger] r[k]).name != name by {
            assert(r[k] == es[k]);
        }
        lemma_find_name_at(r, name, 0, p);
        assert forall|k: int|
            0 <= k < es.len() && (#[trigger] es[k]).name != name implies exists|m: int|
                0 <= m < r.len() && r[m] == es[k] by {
            if k < p {
                assert(r[k] == es[k]);
            } else {
                assert(r[k + 1] == es[k]);
            }
        }
        if es.len() == 0 {
            assert(r =~= seq![e]);
        }
    }
}

/// Canonical identity: two canonically sorted entry lists that hold the
/// same entries are the same list, so writing either into a store yields
/// the identical tree handle — identical entry sets have identical
/// identity.
pub proof fn lemma_canonical_entry_sets(e1: Seq<EntryV>, e2: Seq<EntryV>)
    requires
        entries_sorted(e1),
        entries_sorted(e2),
        forall|x: EntryV| e1.contains(x) <==> e2.contains(x),
    ensures
        e1 == e2,
    decreases e1.len(),
{
    if e1.len() == 0 {
        if e2.len() > 0 {
            assert(e2.contains(e2[0]));
            assert(e1.contains(e2[0]));
        }
        assert(e1 =~= e2);
    } else {
        assert(e1.contains(e1[0]));
        assert(e2.contains(e1[0]));
        let m = choose|m: int| 0 <= m < e2.len() && e2[m] == e1[0];
        assert(e2.contains(e2[0]));
        assert(e1.contains(e2[0]));
        let k = choose|k: int| 0 <= k < e1.len() && e1[k] == e2[0];
        if m > 0 && k > 0 {
            assert(lex_lt(e2[0].name, e2[m].name));
            assert(lex_lt(e1[0].name, e1[k].name));
            lemma_lex_lt_transitive(e1[0].name, e1[k].name, e2[m].name, 0);
            lemma_lex_lt_irreflexive(e1[0].name, 0);
        }
        assert(e1[0] == e2[0]);
        let t1 = e1.drop_first();
        let t2 = e2.drop_first();
        assert forall|a: int, b: int|
            0 <= a < b < t1.len() implies lex_lt((#[trigger] t1[a]).name, (#[trigger] t1[b]).name) by {
            assert(t1[a] == e1[a + 1]);
            assert(t1[b] == e1[b + 1]);
        }
        assert forall|a: int, b: int|
            0 <= a < b < t2.len() implies lex_lt((#[trigger] t2[a]).name, (#[trigger] t2[b]).name) by {
            assert(t2[a] == e2[a + 1]);
            assert(t2[b] == e2[b + 1]);
        }
        lemma_sorted_unique(e1);
        lemma_sorted_unique(e2);
        assert forall|x: EntryV| t1.contains(x) implies t2.contains(x) by {
            let a = choose|a: int| 0 <= a < t1.len() && t1[a] == x;
            assert(e1[a + 1] == x);
            assert(e1.contains(x));
            assert(e2.contains(x));
            let b = choose|b: int| 0 <= b < e2.len() && e2[b] == x;
            if b == 0 {
                assert(x == e1[0]);
                assert(e1[a + 1].name == e1[0].name);
                assert(lex_lt(e1[0].name, e1[a + 1].name));
                lemma_lex_lt_irreflexive(e1[0].name, 0);
            }
            assert(t2[b - 1] == e2[b]);
            assert(t2.contains(x));
        }
        assert forall|x: EntryV| t2.contains(x) implies t1.contains(x) by {
            let a = choose|a: int| 0 <= a < t2.len() && t2[a] == x;
            assert(e2[a + 1] == x);
            assert(e2.contains(x));
            assert(e1.contains(x));
            let b = choose|b: int| 0 <= b < e1.len() && e1[b] == x;
            if b == 0 {
                assert(x == e2[0]);
                assert(e2[a + 1].name == e2[0].name);
                assert(lex_lt(e2[0].name, e2[a + 1].name));
                lemma_lex_lt_irreflexive(e2[0].name, 0);
            }
            assert(t1[b - 1] == e1[b]);
            assert(t1.contains(x));
        }
        lemma_canonical_entry_sets(t1, t2);
        assert(t1.len() == e1.len() - 1);
        assert(t2.len() == e2.len() - 1);
        assert(e1.len() == e2.len());
        assert forall|m: int| 0 <= m < e1.len() implies e1[m] == e2[m] by {
            if m > 0 {
                assert(t1[m - 1] == e1[m]);
                assert(t2[m - 1] == e2[m]);
            }
        }
        assert(e1 =~= e2);
    }
}

/// Tree identity is a function of the entry set: writing two canonically
/// sorted entry lists that hold identical entries (by name, mode and
/// target) into the store returns the identical handle and the identical
/// store.
pub proof fn lemma_identical_sets_identical_identity(s: StoreV, e1: Seq<EntryV>, e2: Seq<EntryV>)
    requires
        entries_sorted(e1),
        entries_sorted(e2),
        forall|x: EntryV| e1.contains(x) <==> e2.contains(x),
    ensures
        spec_write_tree(s, e1) == spec_write_tree(s, e2),
{
    lemma_canonical_entry_sets(e1, e2);
}

/// Compare two byte strings by content.
pub fn bytes_eq(a: &Vec<u8>, b: &Vec<u8>) -> (r: bool)
    ensures
        r <==> a@ == b@,
{
    if a.len() != b.len() {
        return false;
    }
    let mut i: usize = 0;
    while i < a.len()
        invariant
            a@.len() == b@.len(),
            i <= a@.len(),
            forall|j: int| 0 <= j < i ==> a@[j] == b@[j],
        decreases a@.len() - i,
    {
        if a[i] != b[i] {
            return false;
        }
        i += 1;
    }
    proof {
        assert(a@ =~= b@);
    }
    true
}

/// Copy a byte string.
pub fn copy_bytes(src: &Vec<u8>) -> (r: Vec<u8>)
    ensures
        r@ == src@,
{
    let mut r: Vec<u8> = Vec::new();
    let mut i: usize = 0;
    while i < src.len()
        invariant
            i <= src@.len(),
            r@ == src@.subrange(0, i as int),
        decreases src@.len() - i,
    {
        r.push(src[i]);
        i += 1;
        proof {
            assert(r@ =~= src@.subrange(0, i as int));
        }
    }
    proof {
        assert(src@.subrange(0, src@.len() as int) =~= src@);
    }
    r
}

/// Compare two entries by content.
fn entry_eq(a: &Entry, b: &Entry) -> (r: bool)
    ensures
        r <==> a@ == b@,
{
    bytes_eq(&a.name, &b.name) && a.mode == b.mode && a.target == b.target
}

/// Compare two entry lists by content.
fn entries_eq(a: &Vec<Entry>, b: &Vec<Entry>) -> (r: bool)
    ensures
        r <==> esv(a@) == esv(b@),
{
    proof {
        assert(esv(a@).len() == a@.len());
        assert(esv(b@).len() == b@.len());
    }
    if a.len() != b.len() {
        return false;
    }
    let mut i: usize = 0;
    while i < a.len()
        invariant
            a@.len() == b@.len(),
            i <= a@.len(),
            forall|j: int| 0 <= j < i ==> esv(a@)[j] == esv(b@)[j],
        decreases a@.len() - i,
    {
        if !entry_eq(&a[i], &b[i]) {
            proof {
                assert(esv(a@)[i as int] == a@[i as int]@);
                assert(esv(b@)[i as int] == b@[i as int]@);
            }
            return false;
        }
        i += 1;
    }
    proof {
        assert(esv(a@) =~= esv(b@));
    }
    true
}

/// Compare two byte strings in the canonical order.
pub fn bytes_lt(a: &Vec<u8>, b: &Vec<u8>) -> (r: bool)
    ensures
        r <==> lex_lt(a@, b@),
{
    let mut i: usize = 0;
    while i < a.len() && i < b.len()
        invariant
            i <= a@.len(),
            i <= b@.len(),
            lex_lt_from(a@, b@, 0) == lex_lt_from(a@, b@, i as int),
        decreases a@.len() - i,
    {
        if a[i] < b[i] {
            return true;
        }
        if a[i] > b[i] {
            return false;
        }
        proof {
            assert(lex_lt_from(a@, b@, i as int) == lex_lt_from(a@, b@, i + 1));
        }
        i += 1;
    }
    a.len() < b.len()
}

/// The canonical position for `name` in a sorted entry list, as an index.
fn insert_idx(es: &Vec<Entry>, name: &Vec<u8>) -> (p: usize)
    ensures
        p as int == insert_pos(esv(es@), name@),
{
    let mut i: usize = 0;
    while i < es.len()
        invariant
            i <= es@.len(),
            insert_pos_from(esv(es@), name@, 0) == insert_pos_from(esv(es@), name@, i as int),
        decreases es@.len() - i,
    {
        if bytes_lt(name, &es[i].name) {
            return i;
        }
        proof {
            assert(insert_pos_from(esv(es@), name@, i as int) == insert_pos_from(
                esv(es@),
                name@,
                i + 1,
            ));
        }
        i += 1;
    }
    i
}

/// First entry named `name`, as an index.
fn find_name_idx(es: &Vec<Entry>, name: &Vec<u8>) -> (r: Option<usize>)
    ensures
        r matches Some(j) ==> j < es@.len() && find_name(esv(es@), name@) == j as int,
        r is None ==> find_name(esv(es@), name@) == -1,
{
    let mut i: usize = 0;
    while i < es.len()
        invariant
            i <= es@.len(),
            find_name_from(esv(es@), name@, 0) == find_name_from(esv(es@), name@, i as int),
        decreases es@.len() - i,
    {
        if bytes_eq(&es[i].name, name) {
            return Some(i);
        }
        proof {
            assert(find_name_from(esv(es@), name@, i as int) == find_name_from(
                esv(es@),
                name@,
                i + 1,
            ));
        }
        i += 1;
    }
    None
}

/// Copy an entry list.
fn copy_entries(src: &Vec<Entry>) -> (r: Vec<Entry>)
    ensures
        esv(r@) == esv(src@),
{
    let mut r: Vec<Entry> = Vec::new();
    let mut i: usize = 0;
    while i < src.len()
        invariant
            i <= src@.len(),
            r@.len() == i,
            forall|j: int| 0 <= j < i ==> esv(r@)[j] == esv(src@)[j],
        decreases src@.len() - i,
    {
        let e = Entry {
            name: copy_bytes(&src[i].name),
            mode: src[i].mode,
            target: src[i].target,
        };
        r.push(e);
        i += 1;
    }
    proof {
        assert(esv(r@) =~= esv(src@));
    }
    r
}

/// Replace the first entry named `name`, or append one; the entry list
/// afterwards is exactly `upsert_entries` of the one before.
fn upsert_entry(es: &mut Vec<Entry>, name: &Vec<u8>, mode: FileMode, target: Target)
    ensures
        esv(final(es)@) == upsert_entries(esv(old(es)@), name@, mode, tv(target)),
{
    let ghost es0 = esv(es@);
    let found = find_name_idx(es, name);
    let e = Entry { name: copy_bytes(name), mode, target };
    match found {
        Some(j) => {
            es.set(j, e);
            proof {
                lemma_find_name_from(es0, name@, 0);
                assert(esv(es@) =~= es0.update(find_name(es0, name@), EntryV { name: name@, mode, target: tv(target) }));
            }
        },
        None => {
            let ghost ev0 = es@;
            let p = insert_idx(es, name);
            proof {
                lemma_insert_pos_from(es0, name@, 0);
            }
            let ghost ent = e;
            es.insert(p, e);
            proof {
                ev0.insert_ensures(p as int, ent);
                es0.insert_ensures(p as int, EntryV { name: name@, mode, target: tv(target) });
                assert forall|m: int|
                    0 <= m < esv(es@).len() implies esv(es@)[m] == es0.insert(
                    p as int,
                    EntryV { name: name@, mode, target: tv(target) },
                )[m] by {
                    if m < p {
                        assert(es@[m] == ev0[m]);
                    } else if m == p {
                        assert(es@[m] == ent);
                    } else {
                        assert(es@[m] == ev0[m - 1]);
                    }
                }
                assert(esv(es@) =~= es0.insert(p as int, EntryV { name: name@, mode, target: tv(target) }));
            }
        },
    }
}

/// What writing an entry list does to the store: at most one tree is
/// appended, the result is well formed, and the returned handle is the
/// first tree holding exactly that entry list.
pub proof fn lemma_spec_write_tree(s: StoreV, es: Seq<EntryV>)
    requires
        store_wf(s),
        entries_wf(s, es),
        names_unique(es),
        entries_sorted(es),
    ensures
        ({
            let (s2, id) = spec_write_tree(s, es);
            &&& store_wf(s2)
            &&& store_leq(s, s2)
            &&& s.trees.len() <= s2.trees.len() <= s.trees.len() + 1
            &&& 0 <= id < s2.trees.len()
            &&& s2.trees[id] == es
            &&& s2.blobs == s.blobs
            &&& find_tree_from(s2.trees, es, 0) == id
        }),
{
    let (s2, id) = spec_write_tree(s, es);
    let i = find_tree_from(s.trees, es, 0);
    lemma_find_tree_from(s.trees, es, 0);
    if i >= 0 {
    } else {
        assert(store_leq(s, s2));
        assert(s2.trees[s.trees.len() as int] == es);
        assert forall|k: int| 0 <= k < s.trees.len() implies (#[trigger] s2.trees[k]) != es by {
            assert(s2.trees[k] == s.trees[k]);
            assert(s.trees[k] != es);
        }
        lemma_find_tree_at(s2.trees, es, 0, s.trees.len() as int);
        assert forall|t: int|
            0 <= t < s2.trees.len() implies entries_wf(s2, #[trigger] s2.trees[t]) && names_unique(
            s2.trees[t],
        ) && entries_sorted(s2.trees[t]) by {
            if t < s.trees.len() {
                assert(s2.trees[t] == s.trees[t]);
                assert(entries_wf(s, s.trees[t]));
                lemma_entries_wf_leq(s, s2, s.trees[t]);
            } else {
                assert(s2.trees[t] == es);
                lemma_entries_wf_leq(s, s2, es);
            }
        }
    }
}

/// A store stays well formed when a well-formed, uniquely named entry list
/// is appended to it, or nothing is.
pub proof fn lemma_store_wf_after_write(s_pre: StoreV, s_post: StoreV, es: Seq<EntryV>)
    requires
        store_wf(s_pre),
        entries_wf(s_pre, es),
        names_unique(es),
        entries_sorted(es),
        store_leq(s_pre, s_post),
        s_post.trees == s_pre.trees || s_post.trees == s_pre.trees.push(es),
    ensures
        store_wf(s_post),
{
    assert forall|t: int|
        0 <= t < s_post.trees.len() implies entries_wf(s_post, #[trigger] s_post.trees[t])
        && names_unique(s_post.trees[t]) && entries_sorted(s_post.trees[t]) by {
        if t < s_pre.trees.len() {
            assert(s_post.trees[t] == s_pre.trees[t]);
            assert(entries_wf(s_pre, s_pre.trees[t]));
            lemma_entries_wf_leq(s_pre, s_post, s_pre.trees[t]);
        } else {
            assert(s_post.trees == s_pre.trees.push(es));
            assert(s_post.trees[t] == es);
            lemma_entries_wf_leq(s_pre, s_post, es);
        }
    }
}

impl Store {
    /// An empty store.
    pub fn new() -> (s: Store)
        ensures
            s@.blobs.len() == 0,
            s@.trees.len() == 0,
    {
        Store { blobs: Vec::new(), trees: Vec::new() }
    }

    /// Borrow the entry list of an existing tree.
    pub fn read_tree(&self, id: usize) -> (es: &Vec<Entry>)
        requires
            id < self@.trees.len(),
        ensures
            esv(es@) == self@.trees[id as int],
    {
        &self.trees[id]
    }

    /// Borrow the content of an existing blob.
    pub fn read_blob(&self, id: usize) -> (data: &Vec<u8>)
        requires
            id < self@.blobs.len(),
        ensures
            data@ == self@.blobs[id as int],
    {
        &self.blobs[id]
    }

    /// Write a blob: the handle of an identical existing blob, or a fresh
    /// handle for the appended content.
    pub fn write_blob(&mut self, data: Vec<u8>) -> (id: usize)
        ensures
            final(self)@ == spec_write_blob(old(self)@, data@).0,
            id == spec_write_blob(old(self)@, data@).1,
            id < final(self)@.blobs.len(),
            final(self)@.blobs[id as int] == data@,
            final(self)@.trees == old(self)@.trees,
            store_leq(old(self)@, final(self)@),
    {
        let mut i: usize = 0;
        while i < self.blobs.len()
            invariant
                i <= self@.blobs.len(),
                find_blob_from(self@.blobs, data@, 0) == find_blob_from(self@.blobs, data@, i as int),
            decreases self@.blobs.len() - i,
        {
            if bytes_eq(&self.blobs[i], &data) {
                return i;
            }
            proof {
                assert(find_blob_from(self@.blobs, data@, i as int) == find_blob_from(
                    self@.blobs,
                    data@,
                    i + 1,
                ));
            }
            i += 1;
        }
        let ghost s0 = self@;
        let id = self.blobs.len();
        self.blobs.push(data);
        proof {
            assert(self@.blobs =~= s0.blobs.push(data@));
            assert(self@.trees =~= s0.trees);
        }
        id
    }

    /// Write a tree: the handle of a tree with an identical entry list, or
    /// a fresh handle for the appended entry list.
    pub fn write_tree(&mut self, entries: Vec<Entry>) -> (id: usize)
        ensures
            final(self)@ == spec_write_tree(old(self)@, esv(entries@)).0,
            id == spec_write_tree(old(self)@, esv(entries@)).1,
            id < final(self)@.trees.len(),
            final(self)@.trees[id as int] == esv(entries@),
            final(self)@.blobs == old(self)@.blobs,
            store_leq(old(self)@, final(self)@),
            final(self)@.trees == old(self)@.trees || final(self)@.trees == old(
                self,
            )@.trees.push(esv(entries@)),
    {
        let mut i: usize = 0;
        while i < self.trees.len()
            invariant
                i <= self@.trees.len(),
                find_tree_from(self@.trees, esv(entries@), 0) == find_tree_from(
                    self@.trees,
                    esv(entries@),
                    i as int,
                ),
            decreases self@.trees.len() - i,
        {
            if entries_eq(&self.trees[i], &entries) {
                return i;
            }
            proof {
                assert(find_tree_from(self@.trees, esv(entries@), i as int) == find_tree_from(
                    self@.trees,
                    esv(entries@),
                    i + 1,
                ));
            }
            i += 1;
        }
        let ghost s0 = self@;
        let id = self.trees.len();
        self.trees.push(entries);
        proof {
            assert(self@.trees =~= s0.trees.push(esv(entries@)));
            assert(self@.blobs =~= s0.blobs);
        }
        id
    }

    /// Descend along `comps[i..]` from `base`, replace or add the leaf
    /// entry `(comps.last(), mode, target)`, and rebuild one tree per level
    /// on the way back up; every level is written into the store and the
    /// handle of the rebuilt root is returned.  The result is exactly
    /// `spec_upsert`.
    pub fn upsert_components(
        &mut self,
        base: Option<usize>,
        comps: &Vec<Vec<u8>>,
        i: usize,
        target: Target,
        mode: FileMode,
    ) -> (id: usize)
        requires
            store_wf(old(self)@),
            i < comps@.len(),
            base_ok(old(self)@, bv(base)),
            target_wf(old(self)@, tv(target)),
        ensures
            final(self)@ == spec_upsert(
                old(self)@,
                bv(base),
                comps_v(comps@),
                i as int,
                tv(target),
                mode,
            ).0,
            id == spec_upsert(old(self)@, bv(base), comps_v(comps@), i as int, tv(target), mode).1,
            store_wf(final(self)@),
            id < final(self)@.trees.len(),
            store_leq(old(self)@, final(self)@),
            final(self)@.blobs == old(self)@.blobs,
        decreases comps@.len() - i,
    {
        let ghost s0 = self@;
        let ghost cs = comps_v(comps@);
        let base_es: Vec<Entry> = match base {
            Some(t) => copy_entries(self.read_tree(t)),
            None => Vec::new(),
        };
        proof {
            if base is None {
                assert(esv(base_es@) =~= Seq::<EntryV>::empty());
            }
            assert(esv(base_es@) == base_entries(s0, bv(base)));
            if base is Some {
                assert(entries_wf(s0, s0.trees[base->0 as int]));
            }
            assert(entries_wf(s0, esv(base_es@)));
            assert(names_unique(esv(base_es@)));
            assert(entries_sorted(esv(base_es@)));
            assert(cs[i as int] == comps@[i as int]@);
        }
        let n = comps.len();
        let name: &Vec<u8> = &comps[i];
        if i + 1 == n {
            let mut es = base_es;
            let ghost es0 = esv(es@);
            upsert_entry(&mut es, name, mode, target);
            proof {
                lemma_upsert_entries(s0, es0, name@, mode, tv(target));
            }
            let id = self.write_tree(es);
            proof {
                lemma_store_wf_after_write(s0, self@, upsert_entries(es0, name@, mode, tv(target)));
            }
            id
        } else {
            let child_base: Option<usize> = match find_name_idx(&base_es, name) {
                Some(j) => match base_es[j].target {
                    Target::Tree(t) => Some(t),
                    Target::Blob(_) => None,
                },
                None => None,
            };
            proof {
                assert(bv(child_base) == child_tree_of(esv(base_es@), cs[i as int]));
                lemma_find_name_from(esv(base_es@), cs[i as int], 0);
                assert(base_ok(s0, bv(child_base)));
            }
            let child = self.upsert_components(child_base, comps, i + 1, target, mode);
            let ghost s1 = self@;
            let mut es = base_es;
            let ghost es0 = esv(es@);
            upsert_entry(&mut es, name, FileMode::Directory, Target::Tree(child));
            proof {
                lemma_entries_wf_leq(s0, s1, es0);
                lemma_upsert_entries(s1, es0, name@, FileMode::Directory, TargetV::Tree(child as int));
            }
            let id = self.write_tree(es);
            proof {
                lemma_store_wf_after_write(
                    s1,
                    self@,
                    upsert_entries(es0, name@, FileMode::Directory, TargetV::Tree(child as int)),
                );
                lemma_store_leq_trans(s0, s1, self@);
            }
            id
        }
    }

    /// Upsert `target` with `mode` at the component path `comps` under the
    /// optional base tree; an empty component list is rejected with
    /// `EmptyPath` and leaves the store untouched.
    pub fn upsert_path_into_tree(
        &mut self,
        base: Option<usize>,
        comps: &Vec<Vec<u8>>,
        target: Target,
        mode: FileMode,
    ) -> (r: Result<usize, CommitError>)
        requires
            store_wf(old(self)@),
            base_ok(old(self)@, bv(base)),
            target_wf(old(self)@, tv(target)),
        ensures
            comps@.len() == 0 ==> (r matches Err(CommitError::EmptyPath)) && final(self)@ == old(
                self,
            )@,
            comps@.len() > 0 ==> (r matches Ok(id) ==> final(self)@ == spec_upsert(
                old(self)@,
                bv(base),
                comps_v(comps@),
                0,
                tv(target),
                mode,
            ).0 && id == spec_upsert(old(self)@, bv(base), comps_v(comps@), 0, tv(target), mode).1)
                && (r is Ok),
            store_wf(final(self)@),
    {
        if comps.len() == 0 {
            return Err(CommitError::EmptyPath);
        }
        Ok(self.upsert_components(base, comps, 0, target, mode))
    }

    /// The whole file step: write `content` as a blob, then upsert a leaf
    /// entry pointing at it at the component path `comps`.  This is
    /// "new tree = f(base tree, path, content, mode)".
    pub fn upsert_file(
        &mut self,
        base: Option<usize>,
        comps: &Vec<Vec<u8>>,
        content: Vec<u8>,
        mode: FileMode,
    ) -> (r: Result<usize, CommitError>)
        requires
            store_wf(old(self)@),
            base_ok(old(self)@, bv(base)),
        ensures
            comps@.len() == 0 ==> (r matches Err(CommitError::EmptyPath)) && final(self)@
                == spec_write_blob(old(self)@, content@).0,
            comps@.len() > 0 ==> (r matches Ok(id) ==> final(self)@ == spec_upsert(
                spec_write_blob(old(self)@, content@).0,
                bv(base),
                comps_v(comps@),
                0,
                TargetV::Blob(spec_write_blob(old(self)@, content@).1),
                mode,
            ).0 && id == spec_upsert(
                spec_write_blob(old(self)@, content@).0,
                bv(base),
                comps_v(comps@),
                0,
                TargetV::Blob(spec_write_blob(old(self)@, content@).1),
                mode,
            ).1) && (r is Ok),
            store_wf(final(self)@),
    {
        let ghost s0 = self@;
        let b = self.write_blob(content);
        proof {
            assert forall|t: int|
                0 <= t < self@.trees.len() implies entries_wf(self@, #[trigger] self@.trees[t])
                && names_unique(self@.trees[t]) && entries_sorted(self@.trees[t]) by {
                assert(self@.trees[t] == s0.trees[t]);
                assert(entries_wf(s0, s0.trees[t]));
                lemma_entries_wf_leq(s0, self@, s0.trees[t]);
            }
        }
        self.upsert_path_into_tree(base, comps, Target::Blob(b), mode)
    }
}

} // verus!
