use vstd::prelude::*;

use crate::model::{Category, Db, Kind};
use crate::plan::{indexed_kind_count, is_selection, kind_count, lemma_selection_counts};

verus! {

/// How many ghost processes each process category starts unless the user
/// picks another number.
pub const DEFAULT_PROCESSES_PER_CATEGORY: usize = 5;

/// The least number of ghost processes per category the user can pick.
pub const MIN_PROCESSES_PER_CATEGORY: usize = 1;

/// The greatest number of ghost processes per category the user can pick.
pub const MAX_PROCESSES_PER_CATEGORY: usize = 20;

/// Whether Apply can be pressed: some category is ticked and nothing is
/// applied yet, so that applying never replaces what is live.
pub fn apply_allowed(any_enabled: bool, any_active: bool) -> (r: bool)
    ensures
        r == (any_enabled && !any_active),
        r ==> !any_active,
{
    any_enabled && !any_active
}

/// Whether Remove can be pressed: something is applied.
pub fn remove_allowed(any_active: bool) -> (r: bool)
    ensures
        r == any_active,
{
    any_active
}

/// What is live of one applied category: how many registry keys were
/// created, and the handles and ghost processes that keep the other decoys
/// alive.
pub struct CatState<H, G> {
    pub reg_count: usize,
    pub handles: Vec<H>,
    pub ghosts: Vec<G>,
}

impl<H, G> CatState<H, G> {
    /// How many ghost processes run for the category.
    pub fn process_count(&self) -> (r: usize)
        ensures
            r == self.ghosts@.len(),
    {
        self.ghosts.len()
    }

    /// How many handles the category holds open.
    pub fn handle_count(&self) -> (r: usize)
        ensures
            r == self.handles@.len(),
    {
        self.handles.len()
    }
}

/// The ghost-process limit that applying a category is given: the user's
/// number for a process category, none for the others.
pub open spec fn limit_for(cat: Category, per_category: usize) -> Option<usize> {
    if cat.holds_process() {
        Some(per_category)
    } else {
        None
    }
}

/// The categories that Apply applies, as indices into `db.categories` in
/// database order, each with the ghost-process limit it is applied with.
/// `enabled[i]` says whether the user ticked category `i`.
pub fn categories_to_apply(db: &Db, enabled: &Vec<bool>, per_category: usize) -> (r: Vec<(usize, Option<usize>)>)
    requires
        enabled@.len() == db.categories@.len(),
    ensures
        forall|k: int| 0 <= k < r@.len() ==> {
            let (i, limit) = #[trigger] r@[k];
            &&& i < db.categories@.len()
            &&& enabled@[i as int]
            &&& limit == limit_for(db.categories@[i as int], per_category)
        },
        forall|a: int, b: int| 0 <= a < b < r@.len() ==> r@[a].0 < r@[b].0,
        forall|i: int| 0 <= i < db.categories@.len() && #[trigger] enabled@[i]
            ==> exists|k: int| 0 <= k < r@.len() && r@[k].0 == i,
{
    let n = db.categories.len();
    let mut r: Vec<(usize, Option<usize>)> = Vec::new();
    let mut i: usize = 0;
    while i < n
        invariant
            n == db.categories@.len(),
            n == enabled@.len(),
            i <= n,
            forall|k: int| 0 <= k < r@.len() ==> {
                let (j, limit) = #[trigger] r@[k];
                &&& j < i
                &&& enabled@[j as int]
                &&& limit == limit_for(db.categories@[j as int], per_category)
            },
            forall|a: int, b: int| 0 <= a < b < r@.len() ==> r@[a].0 < r@[b].0,
            forall|j: int| 0 <= j < i && #[trigger] enabled@[j]
                ==> exists|k: int| 0 <= k < r@.len() && r@[k].0 == j,
        decreases n - i,
    {
        if enabled[i] {
            let limit = if db.categories[i].has_processes() {
                Some(per_category)
            } else {
                None
            };
            let ghost old_r = r@;
            r.push((i, limit));
            assert forall|j: int| 0 <= j < i + 1 && #[trigger] enabled@[j]
                implies exists|k: int| 0 <= k < r@.len() && r@[k].0 == j by {
                if j == i {
                    assert(r@[old_r.len() as int].0 == j);
                } else {
                    let k = choose|k: int| 0 <= k < old_r.len() && old_r[k].0 == j;
                    assert(r@[k].0 == j);
                }
            }
        }
        i = i + 1;
    }
    r
}

/// Applying a category that Apply picked starts exactly the number of ghost
/// processes the user chose per category, or all of the category's ghost
/// processes if it has fewer; its `sample` plays no part then.
pub proof fn lemma_applied_process_count(cat: Category, per_category: usize, sel: Seq<usize>)
    requires
        cat.holds_process(),
        is_selection(cat, limit_for(cat, per_category), sel),
    ensures
        indexed_kind_count(cat.artifacts@, sel, Kind::FakeProcess) == if per_category < kind_count(
            cat.artifacts@,
            Kind::FakeProcess,
        ) {
            per_category as int
        } else {
            kind_count(cat.artifacts@, Kind::FakeProcess) as int
        },
{
    lemma_selection_counts(cat, limit_for(cat, per_category), sel);
}

/// The first category whose id is `id`, as an index into `db.categories`.
pub fn find_category(db: &Db, id: &String) -> (r: Option<usize>)
    ensures
        r matches Some(i) ==> i < db.categories@.len() && db.categories@[i as int].id@ == id@
            && forall|j: int| 0 <= j < i ==> #[trigger] db.categories@[j].id@ != id@,
        r is None ==> forall|j: int| 0 <= j < db.categories@.len() ==> #[trigger] db.categories@[j].id@
            != id@,
{
    let n = db.categories.len();
    let mut i: usize = 0;
    while i < n
        invariant
            n == db.categories@.len(),
            i <= n,
            forall|j: int| 0 <= j < i ==> #[trigger] db.categories@[j].id@ != id@,
        decreases n - i,
    {
        if db.categories[i].id.eq(id) {
            return Some(i);
        }
        i = i + 1;
    }
    None
}

} // verus!
