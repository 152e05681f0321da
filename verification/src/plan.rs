use rand::seq::SliceRandom;
use vstd::prelude::*;

use crate::model::{Artifact, Category, Kind};

verus! {

broadcast use vstd::seq_lib::group_to_multiset_ensures;

/// How many ghost-process artifacts a category applies: the caller's limit
/// if given, else the category's `sample`, else all of them; never more than
/// the `len` it has.
pub open spec fn limit_of(process_limit: Option<usize>, sample: Option<usize>, len: int) -> int {
    let chosen: int = match process_limit {
        Some(l) => l as int,
        None => match sample {
            Some(s) => s as int,
            None => len,
        },
    };
    if chosen < len { chosen } else { len }
}

/// The indices `0, 1, .., n - 1` in order.
pub open spec fn all_indices(n: nat) -> Seq<usize> {
    Seq::new(n, |i: int| i as usize)
}

/// The indices, in order, of those of the first `k` artifacts that are ghost
/// processes (`process`) or that are not (`!process`).
pub open spec fn kind_indices(arts: Seq<Artifact>, k: int, process: bool) -> Seq<usize>
    decreases k,
{
    if k <= 0 {
        Seq::empty()
    } else {
        let rest = kind_indices(arts, k - 1, process);
        if (arts[k - 1].kind == Kind::FakeProcess) == process {
            rest.push((k - 1) as usize)
        } else {
            rest
        }
    }
}

/// How many of the artifacts are of kind `kind`.
pub open spec fn kind_count(arts: Seq<Artifact>, kind: Kind) -> nat
    decreases arts.len(),
{
    if arts.len() == 0 {
        0
    } else {
        kind_count(arts.drop_last(), kind) + if arts.last().kind == kind { 1nat } else { 0nat }
    }
}

/// How many of the indexed artifacts are of kind `kind`.
pub open spec fn indexed_kind_count(arts: Seq<Artifact>, idx: Seq<usize>, kind: Kind) -> nat
    decreases idx.len(),
{
    if idx.len() == 0 {
        0
    } else {
        indexed_kind_count(arts, idx.drop_last(), kind) + if arts[idx.last() as int].kind == kind {
            1nat
        } else {
            0nat
        }
    }
}

/// `process_limit.or(sample).unwrap_or(len).min(len)`.
pub fn effective_limit(process_limit: Option<usize>, sample: Option<usize>, len: usize) -> (r: usize)
    ensures
        r == limit_of(process_limit, sample, len as int),
        r <= len,
        process_limit matches Some(l) ==> r == if l < len { l } else { len },
        process_limit is None ==> (sample matches Some(s) ==> r == if s < len { s } else { len }),
        process_limit is None && sample is None ==> r == len,
{
    let chosen = match process_limit {
        Some(l) => l,
        None => match sample {
            Some(s) => s,
            None => len,
        },
    };
    if chosen < len {
        chosen
    } else {
        len
    }
}

/// Puts the items of `v` in a random order with `rand`'s
/// `SliceRandom::shuffle`, driven by `rand::thread_rng()`.
/// Claimed: the same items come out, each as often as it went in (the
/// shuffle only swaps elements). Which order comes out is left open, as it
/// rests on chance; `thread_rng` panics only if the operating system's
/// random source cannot be read.
#[verifier::external_body]
fn shuffle_indices(v: &mut Vec<usize>)
    ensures
        final(v)@.len() == old(v)@.len(),
        final(v)@.to_multiset() == old(v)@.to_multiset(),
{
    v.shuffle(&mut rand::thread_rng());
}

/// A sequence with the same items as one without duplicates has none either,
/// and holds only items of the other.
proof fn lemma_permutation_keeps_distinct(a: Seq<usize>, b: Seq<usize>)
    requires
        a.no_duplicates(),
        a.to_multiset() == b.to_multiset(),
    ensures
        b.no_duplicates(),
        forall|i: int| 0 <= i < b.len() ==> a.contains(#[trigger] b[i]),
{
    a.lemma_multiset_has_no_duplicates();
    b.lemma_multiset_has_no_duplicates_conv();
    assert forall|i: int| 0 <= i < b.len() implies a.contains(#[trigger] b[i]) by {
        assert(b.contains(b[i]));
        assert(b.to_multiset().count(b[i]) > 0);
    }
}

/// `sel` is a possible choice of the artifacts of `cat` to apply, given the
/// caller's ghost-process limit: every artifact that is not a ghost process,
/// in list order, followed by `limit_of(..)` distinct ghost-process artifacts
/// in any order.
pub open spec fn is_selection(cat: Category, process_limit: Option<usize>, sel: Seq<usize>) -> bool {
    let arts = cat.artifacts@;
    let others = kind_indices(arts, arts.len() as int, false);
    let procs = kind_indices(arts, arts.len() as int, true);
    let picked = sel.skip(others.len() as int);
    &&& sel.len() == others.len() + limit_of(process_limit, cat.sample, procs.len() as int)
    &&& sel.take(others.len() as int) == others
    &&& picked.no_duplicates()
    &&& forall|k: int| 0 <= k < picked.len() ==> #[trigger] picked[k] < arts.len()
        && arts[picked[k] as int].kind == Kind::FakeProcess
}

/// `order` lists every registry-key artifact of `cat` once, highest index
/// first, and nothing else.
pub open spec fn is_removal_order(cat: Category, order: Seq<usize>) -> bool {
    &&& forall|k: int| 0 <= k < order.len() ==> #[trigger] order[k] < cat.artifacts@.len()
        && cat.artifacts@[order[k] as int].kind == Kind::RegistryKey
    &&& forall|a: int, b: int| 0 <= a < b < order.len() ==> order[a] > order[b]
    &&& forall|j: int| 0 <= j < cat.artifacts@.len() && #[trigger] cat.artifacts@[j].kind == Kind::RegistryKey
        ==> order.contains(j as usize)
}

/// A category's artifacts number at most `usize::MAX`.
pub proof fn lemma_artifacts_fit(cat: Category)
    ensures
        cat.artifacts@.len() <= usize::MAX,
{
    broadcast use vstd::std_specs::vec::axiom_spec_len;

    assert(cat.artifacts.len() == cat.artifacts@.len());
}

/// Facts about the indices `kind_indices` lists: in range, increasing, of
/// the asked kind, and all of that kind.
pub proof fn lemma_kind_indices(arts: Seq<Artifact>, k: int, process: bool)
    requires
        0 <= k <= arts.len(),
        arts.len() <= usize::MAX,
    ensures
        kind_indices(arts, k, process).len() <= k,
        forall|m: int| 0 <= m < kind_indices(arts, k, process).len() ==> {
            let j = #[trigger] kind_indices(arts, k, process)[m];
            &&& j < k
            &&& (arts[j as int].kind == Kind::FakeProcess) == process
        },
        forall|a: int, b: int| 0 <= a < b < kind_indices(arts, k, process).len()
            ==> kind_indices(arts, k, process)[a] < kind_indices(arts, k, process)[b],
        forall|j: int| 0 <= j < k && (#[trigger] arts[j].kind == Kind::FakeProcess) == process
            ==> kind_indices(arts, k, process).contains(j as usize),
    decreases k,
{
    if k > 0 {
        lemma_kind_indices(arts, k - 1, process);
        let rest = kind_indices(arts, k - 1, process);
        let cur = kind_indices(arts, k, process);
        if (arts[k - 1].kind == Kind::FakeProcess) == process {
            assert(cur == rest.push((k - 1) as usize));
            assert forall|m: int| 0 <= m < cur.len() implies {
                let j = #[trigger] cur[m];
                &&& j < k
                &&& (arts[j as int].kind == Kind::FakeProcess) == process
            } by {
                if m < rest.len() {
                    assert(cur[m] == rest[m]);
                }
            }
            assert forall|a: int, b: int| 0 <= a < b < cur.len() implies cur[a] < cur[b] by {
                assert(cur[a] == rest[a]);
                if b < rest.len() {
                    assert(cur[b] == rest[b]);
                }
            }
        } else {
            assert(cur == rest);
        }
        assert forall|j: int| 0 <= j < k && (#[trigger] arts[j].kind == Kind::FakeProcess) == process
            implies cur.contains(j as usize) by {
            if j == k - 1 {
                assert(cur[rest.len() as int] == j as usize);
            } else {
                let m = choose|m: int| 0 <= m < rest.len() && rest[m] == j as usize;
                assert(cur[m] == j as usize);
            }
        }
    }
}

/// Which artifacts of `cat` are applied, as indices into `cat.artifacts`, in
/// the order they are applied: every artifact that is not a ghost process, in
/// list order, then `limit_of(process_limit, cat.sample, ..)` of the ghost
/// processes, picked at random so that the set varies across runs.
pub fn select_artifacts(cat: &Category, process_limit: Option<usize>) -> (r: Vec<usize>)
    ensures
        is_selection(*cat, process_limit, r@),
{
    let ghost arts = cat.artifacts@;
    let n = cat.artifacts.len();
    let mut others: Vec<usize> = Vec::new();
    let mut procs: Vec<usize> = Vec::new();
    let mut i: usize = 0;
    while i < n
        invariant
            n == arts.len(),
            arts == cat.artifacts@,
            i <= n,
            others@ == kind_indices(arts, i as int, false),
            procs@ == kind_indices(arts, i as int, true),
        decreases n - i,
    {
        if cat.artifacts[i].kind == Kind::FakeProcess {
            procs.push(i);
        } else {
            others.push(i);
        }
        i = i + 1;
    }
    proof {
        lemma_kind_indices(arts, n as int, true);
    }
    let limit = effective_limit(process_limit, cat.sample, procs.len());
    let ghost before = procs@;
    assert(before.no_duplicates()) by {
        assert forall|a: int, b: int| 0 <= a < before.len() && 0 <= b < before.len() && a != b
            implies before[a] != before[b] by {
            if a < b {
                assert(before[a] < before[b]);
            } else {
                assert(before[b] < before[a]);
            }
        }
    }
    shuffle_indices(&mut procs);
    proof {
        lemma_permutation_keeps_distinct(before, procs@);
    }
    procs.truncate(limit);
    let ghost picked = procs@;
    let ghost head = others@;
    others.append(&mut procs);
    proof {
        assert(others@.take(head.len() as int) =~= head);
        assert(others@.skip(head.len() as int) =~= picked);
        assert forall|k: int| 0 <= k < picked.len() implies #[trigger] picked[k] < arts.len()
            && arts[picked[k] as int].kind == Kind::FakeProcess by {
            assert(before.contains(picked[k]));
            let m = choose|m: int| 0 <= m < before.len() && before[m] == picked[k];
        }
    }
    others
}

/// The registry-key artifacts of `cat`, as indices into `cat.artifacts`, last
/// first: keys listed after their parents are deleted before them.
pub fn registry_removal_order(cat: &Category) -> (r: Vec<usize>)
    ensures
        is_removal_order(*cat, r@),
{
    let n = cat.artifacts.len();
    let mut r: Vec<usize> = Vec::new();
    let mut i: usize = n;
    while i > 0
        invariant
            n == cat.artifacts@.len(),
            i <= n,
            forall|k: int| 0 <= k < r@.len() ==> i <= #[trigger] r@[k] < n
                && cat.artifacts@[r@[k] as int].kind == Kind::RegistryKey,
            forall|a: int, b: int| 0 <= a < b < r@.len() ==> r@[a] > r@[b],
            forall|j: int| i <= j < n && #[trigger] cat.artifacts@[j].kind == Kind::RegistryKey
                ==> r@.contains(j as usize),
        decreases i,
    {
        i = i - 1;
        if cat.artifacts[i].kind == Kind::RegistryKey {
            let ghost old_r = r@;
            r.push(i);
            assert forall|j: int| i <= j < n && #[trigger] cat.artifacts@[j].kind == Kind::RegistryKey
                implies r@.contains(j as usize) by {
                if j == i {
                    assert(r@[old_r.len() as int] == i);
                } else {
                    let k = choose|k: int| 0 <= k < old_r.len() && old_r[k] == j as usize;
                    assert(r@[k] == j as usize);
                }
            }
        } else {
            assert forall|j: int| i <= j < n && #[trigger] cat.artifacts@[j].kind == Kind::RegistryKey
                implies r@.contains(j as usize) by {
                assert(j != i);
            }
        }
    }
    r
}

/// The limit a category's ghost processes are applied with never exceeds
/// their number, and a limit the caller gives overrides the category's
/// `sample`.
pub proof fn lemma_limit_bounds(process_limit: Option<usize>, sample: Option<usize>, len: int)
    requires
        0 <= len,
    ensures
        0 <= limit_of(process_limit, sample, len) <= len,
        process_limit matches Some(l) ==> limit_of(process_limit, sample, len) == limit_of(
            process_limit,
            None,
            len,
        ),
        process_limit is None && sample is None ==> limit_of(process_limit, sample, len) == len,
        process_limit matches Some(l) ==> limit_of(process_limit, sample, len) == if l < len {
            l as int
        } else {
            len
        },
        process_limit is None ==> (sample matches Some(s) ==> limit_of(process_limit, sample, len) == if s
            < len {
            s as int
        } else {
            len
        }),
{
}

/// Every selected index is in range; those before the ghost processes are
/// exactly the artifacts that are not ghost processes.
pub proof fn lemma_selection_in_range(cat: Category, process_limit: Option<usize>, sel: Seq<usize>)
    requires
        is_selection(cat, process_limit, sel),
    ensures
        forall|k: int| 0 <= k < sel.len() ==> #[trigger] sel[k] < cat.artifacts@.len(),
        sel.no_duplicates(),
{
    lemma_artifacts_fit(cat);
    let arts = cat.artifacts@;
    let n = arts.len() as int;
    let others = kind_indices(arts, n, false);
    let picked = sel.skip(others.len() as int);
    lemma_kind_indices(arts, n, false);
    lemma_kind_indices(arts, n, true);
    assert forall|k: int| 0 <= k < sel.len() implies #[trigger] sel[k] < arts.len() by {
        if k < others.len() {
            assert(sel[k] == sel.take(others.len() as int)[k]);
        } else {
            assert(sel[k] == picked[k - others.len()]);
        }
    }
    assert forall|a: int, b: int| 0 <= a < sel.len() && 0 <= b < sel.len() && a != b
        implies sel[a] != sel[b] by {
        if a < others.len() && b < others.len() {
            assert(sel[a] == others[a] && sel[b] == others[b]);
            if a < b {
                assert(others[a] < others[b]);
            } else {
                assert(others[b] < others[a]);
            }
        } else if a >= others.len() && b >= others.len() {
            assert(sel[a] == picked[a - others.len()] && sel[b] == picked[b - others.len()]);
        } else if a < others.len() {
            assert(sel[a] == others[a]);
            assert(sel[b] == picked[b - others.len()]);
        } else {
            assert(sel[b] == others[b]);
            assert(sel[a] == picked[a - others.len()]);
        }
    }
}

/// A category without ghost processes applies all of its artifacts, in list
/// order, whatever the limit and the `sample`.
pub proof fn lemma_no_process_selects_all(cat: Category, process_limit: Option<usize>, sel: Seq<usize>)
    requires
        !cat.holds_process(),
        is_selection(cat, process_limit, sel),
    ensures
        sel == all_indices(cat.artifacts@.len()),
{
    lemma_artifacts_fit(cat);
    let arts = cat.artifacts@;
    let n = arts.len() as int;
    lemma_kind_indices(arts, n, true);
    if kind_indices(arts, n, true).len() > 0 {
        let j = kind_indices(arts, n, true)[0];
        assert(arts[j as int].kind == Kind::FakeProcess);
    }
    lemma_kind_indices(arts, n, false);
    let others = kind_indices(arts, n, false);
    assert(others.len() == n) by {
        lemma_all_non_process(arts, n);
    }
    lemma_all_non_process(arts, n);
    assert(sel =~= sel.take(others.len() as int));
    assert(sel =~= all_indices(arts.len()));
}

/// Where none of the first `k` artifacts is a ghost process, the indices of
/// the others are `0, .., k - 1`.
proof fn lemma_all_non_process(arts: Seq<Artifact>, k: int)
    requires
        0 <= k <= arts.len(),
        forall|j: int| 0 <= j < arts.len() ==> #[trigger] arts[j].kind != Kind::FakeProcess,
    ensures
        kind_indices(arts, k, false) == all_indices(k as nat),
    decreases k,
{
    if k > 0 {
        lemma_all_non_process(arts, k - 1);
        assert(kind_indices(arts, k, false) =~= all_indices(k as nat));
    }
}

/// Counting over the indices of the artifacts that are not ghost processes
/// gives, for every other kind, the count over the first `k` artifacts.
proof fn lemma_others_count(arts: Seq<Artifact>, k: int, kind: Kind)
    requires
        arts.len() <= usize::MAX,
        0 <= k <= arts.len(),
        kind != Kind::FakeProcess,
    ensures
        indexed_kind_count(arts, kind_indices(arts, k, false), kind) == kind_count(arts.take(k), kind),
    decreases k,
{
    if k > 0 {
        lemma_others_count(arts, k - 1, kind);
        assert(arts.take(k).drop_last() =~= arts.take(k - 1));
        let rest = kind_indices(arts, k - 1, false);
        if arts[k - 1].kind != Kind::FakeProcess {
            assert(rest.push((k - 1) as usize).drop_last() =~= rest);
            assert(rest.push((k - 1) as usize).last() as int == k - 1);
        }
    } else {
        assert(arts.take(0) =~= Seq::<Artifact>::empty());
    }
}

/// Counting over two index lists one after the other adds up.
proof fn lemma_count_concat(arts: Seq<Artifact>, a: Seq<usize>, b: Seq<usize>, kind: Kind)
    ensures
        indexed_kind_count(arts, a + b, kind) == indexed_kind_count(arts, a, kind) + indexed_kind_count(
            arts,
            b,
            kind,
        ),
    decreases b.len(),
{
    if b.len() == 0 {
        assert(a + b =~= a);
    } else {
        lemma_count_concat(arts, a, b.drop_last(), kind);
        assert((a + b).drop_last() =~= a + b.drop_last());
    }
}

/// Every index counts towards the kind of its artifact.
proof fn lemma_count_all_of(arts: Seq<Artifact>, idx: Seq<usize>, kind: Kind)
    requires
        forall|k: int| 0 <= k < idx.len() ==> arts[#[trigger] idx[k] as int].kind == kind,
    ensures
        indexed_kind_count(arts, idx, kind) == idx.len(),
    decreases idx.len(),
{
    if idx.len() > 0 {
        lemma_count_all_of(arts, idx.drop_last(), kind);
    }
}

/// No index counts towards a kind its artifact does not have.
proof fn lemma_count_none_of(arts: Seq<Artifact>, idx: Seq<usize>, kind: Kind)
    requires
        forall|k: int| 0 <= k < idx.len() ==> arts[#[trigger] idx[k] as int].kind != kind,
    ensures
        indexed_kind_count(arts, idx, kind) == 0,
    decreases idx.len(),
{
    if idx.len() > 0 {
        lemma_count_none_of(arts, idx.drop_last(), kind);
    }
}

/// Applying a category attempts every artifact that is not a ghost process
/// exactly as often as the category lists that kind, and exactly
/// `limit_of(..)` ghost processes, which is never more than the category
/// lists.
pub proof fn lemma_selection_counts(cat: Category, process_limit: Option<usize>, sel: Seq<usize>)
    requires
        is_selection(cat, process_limit, sel),
    ensures
        forall|kind: Kind| kind != Kind::FakeProcess ==> #[trigger] indexed_kind_count(cat.artifacts@, sel, kind)
            == kind_count(cat.artifacts@, kind),
        indexed_kind_count(cat.artifacts@, sel, Kind::FakeProcess) == limit_of(
            process_limit,
            cat.sample,
            kind_count(cat.artifacts@, Kind::FakeProcess) as int,
        ),
        limit_of(process_limit, cat.sample, kind_count(cat.artifacts@, Kind::FakeProcess) as int)
            <= kind_count(cat.artifacts@, Kind::FakeProcess),
        sel.len() == kind_count(cat.artifacts@, Kind::RegistryKey) + kind_count(cat.artifacts@, Kind::Mutex)
            + kind_count(cat.artifacts@, Kind::NamedPipe) + limit_of(
            process_limit,
            cat.sample,
            kind_count(cat.artifacts@, Kind::FakeProcess) as int,
        ),
{
    lemma_artifacts_fit(cat);
    let arts = cat.artifacts@;
    let n = arts.len() as int;
    let others = kind_indices(arts, n, false);
    let procs = kind_indices(arts, n, true);
    let picked = sel.skip(others.len() as int);
    lemma_kind_indices(arts, n, false);
    lemma_kind_indices(arts, n, true);
    assert(sel =~= others + picked);
    assert(arts.take(n) =~= arts);
    assert forall|kind: Kind| kind != Kind::FakeProcess implies #[trigger] indexed_kind_count(arts, sel, kind)
        == kind_count(arts, kind) by {
        lemma_count_concat(arts, others, picked, kind);
        lemma_others_count(arts, n, kind);
        lemma_count_none_of(arts, picked, kind);
    }
    lemma_count_concat(arts, others, picked, Kind::FakeProcess);
    lemma_count_none_of(arts, others, Kind::FakeProcess);
    lemma_count_all_of(arts, picked, Kind::FakeProcess);
    lemma_count_all_of(arts, procs, Kind::FakeProcess);
    lemma_kinds_partition(arts, n);
    lemma_proc_count(arts, n);
    lemma_others_len(arts, n);
}

/// The ghost-process indices number as many as the ghost processes.
proof fn lemma_proc_count(arts: Seq<Artifact>, k: int)
    requires
        0 <= k <= arts.len(),
    ensures
        kind_indices(arts, k, true).len() == kind_count(arts.take(k), Kind::FakeProcess),
    decreases k,
{
    if k > 0 {
        lemma_proc_count(arts, k - 1);
        assert(arts.take(k).drop_last() =~= arts.take(k - 1));
    } else {
        assert(arts.take(0) =~= Seq::<Artifact>::empty());
    }
}

/// The other indices number as many as the artifacts of the other kinds.
proof fn lemma_others_len(arts: Seq<Artifact>, k: int)
    requires
        0 <= k <= arts.len(),
    ensures
        kind_indices(arts, k, false).len() == kind_count(arts.take(k), Kind::RegistryKey) + kind_count(
            arts.take(k),
            Kind::Mutex,
        ) + kind_count(arts.take(k), Kind::NamedPipe),
    decreases k,
{
    if k > 0 {
        lemma_others_len(arts, k - 1);
        assert(arts.take(k).drop_last() =~= arts.take(k - 1));
    } else {
        assert(arts.take(0) =~= Seq::<Artifact>::empty());
    }
}

/// Every artifact has one of the four kinds.
proof fn lemma_kinds_partition(arts: Seq<Artifact>, k: int)
    requires
        0 <= k <= arts.len(),
    ensures
        kind_count(arts.take(k), Kind::RegistryKey) + kind_count(arts.take(k), Kind::Mutex) + kind_count(
            arts.take(k),
            Kind::NamedPipe,
        ) + kind_count(arts.take(k), Kind::FakeProcess) == k,
    decreases k,
{
    if k > 0 {
        lemma_kinds_partition(arts, k - 1);
        assert(arts.take(k).drop_last() =~= arts.take(k - 1));
    } else {
        assert(arts.take(0) =~= Seq::<Artifact>::empty());
    }
}

/// Removal cleans up every registry key that applying could have created:
/// whatever artifacts were selected, each selected registry key is in the
/// removal order.
pub proof fn lemma_removal_covers_selection(
    cat: Category,
    process_limit: Option<usize>,
    sel: Seq<usize>,
    order: Seq<usize>,
)
    requires
        is_selection(cat, process_limit, sel),
        is_removal_order(cat, order),
    ensures
        forall|k: int| 0 <= k < sel.len() && cat.artifacts@[#[trigger] sel[k] as int].kind == Kind::RegistryKey
            ==> order.contains(sel[k]),
{
    lemma_selection_in_range(cat, process_limit, sel);
    assert forall|k: int| 0 <= k < sel.len() && cat.artifacts@[#[trigger] sel[k] as int].kind == Kind::RegistryKey
        implies order.contains(sel[k]) by {
        let j = sel[k] as int;
        assert(0 <= j < cat.artifacts@.len());
        assert(cat.artifacts@[j].kind == Kind::RegistryKey);
        assert(j as usize == sel[k]);
    }
}

/// Each registry key is deleted at most once.
pub proof fn lemma_removal_order_distinct(cat: Category, order: Seq<usize>)
    requires
        is_removal_order(cat, order),
    ensures
        order.no_duplicates(),
{
}

} // verus!
