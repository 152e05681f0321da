use vstd::prelude::*;

use crate::model::{Artifact, Category, Kind};
use crate::plan::{
    indexed_kind_count, is_selection, kind_count, lemma_artifacts_fit, lemma_selection_counts,
    lemma_selection_in_range, limit_of, select_artifacts,
};
use crate::registry::{hive_prefix, names_hive, root_and_subkey, Hive};

verus! {

/// What came of applying one artifact. The resource that keeps a decoy alive
/// (an open handle for a mutex or pipe, a running ghost process) travels with
/// the outcome, so that it lives as long as the tally that holds it.
pub enum Outcome<H, G> {
    /// A registry key was created.
    KeyCreated,
    /// A named mutex or pipe was created and its handle is held open.
    HandleOpened(H),
    /// A ghost process was started.
    GhostSpawned(G),
    /// Creating the artifact failed.
    Failed,
}

/// The tally of applying the artifacts of one category.
pub struct ApplyResult<H, G> {
    pub ok: usize,
    pub fail: usize,
    pub reg_count: usize,
    pub handles: Vec<H>,
    pub ghosts: Vec<G>,
}

/// How many of the outcomes are failures.
pub open spec fn failures<H, G>(s: Seq<Outcome<H, G>>) -> nat
    decreases s.len(),
{
    if s.len() == 0 {
        0
    } else {
        failures(s.drop_last()) + if s.last() is Failed { 1nat } else { 0nat }
    }
}

/// How many of the outcomes are created registry keys.
pub open spec fn keys_created<H, G>(s: Seq<Outcome<H, G>>) -> nat
    decreases s.len(),
{
    if s.len() == 0 {
        0
    } else {
        keys_created(s.drop_last()) + if s.last() is KeyCreated { 1nat } else { 0nat }
    }
}

/// The handles among the outcomes, in order.
pub open spec fn handles_of<H, G>(s: Seq<Outcome<H, G>>) -> Seq<H>
    decreases s.len(),
{
    if s.len() == 0 {
        Seq::empty()
    } else {
        let rest = handles_of(s.drop_last());
        match s.last() {
            Outcome::HandleOpened(h) => rest.push(h),
            _ => rest,
        }
    }
}

/// The ghost processes among the outcomes, in order.
pub open spec fn ghosts_of<H, G>(s: Seq<Outcome<H, G>>) -> Seq<G>
    decreases s.len(),
{
    if s.len() == 0 {
        Seq::empty()
    } else {
        let rest = ghosts_of(s.drop_last());
        match s.last() {
            Outcome::GhostSpawned(g) => rest.push(g),
            _ => rest,
        }
    }
}

impl<H, G> ApplyResult<H, G> {
    /// This tally is exactly that of the outcomes `s`, taken in order.
    pub open spec fn tallies(self, s: Seq<Outcome<H, G>>) -> bool {
        &&& self.ok == s.len() - failures(s)
        &&& self.fail == failures(s)
        &&& self.reg_count == keys_created(s)
        &&& self.handles@ == handles_of(s)
        &&& self.ghosts@ == ghosts_of(s)
    }

    /// Every success is a key, a handle or a ghost process.
    pub open spec fn consistent(self) -> bool {
        self.ok == self.reg_count + self.handles@.len() + self.ghosts@.len()
    }

    /// The tally of no outcomes.
    pub fn new() -> (r: Self)
        ensures
            r.tallies(Seq::empty()),
            r.ok == 0 && r.fail == 0 && r.reg_count == 0,
            r.handles@.len() == 0 && r.ghosts@.len() == 0,
    {
        ApplyResult { ok: 0, fail: 0, reg_count: 0, handles: Vec::new(), ghosts: Vec::new() }
    }

    /// Counts one more outcome (see `Applying::record`): a success raises `ok` and keeps what was
    /// created (a key raises `reg_count`, a handle or ghost process is kept);
    /// a failure raises `fail`.
    fn record(&mut self, outcome: Outcome<H, G>)
        requires
            old(self).ok + old(self).fail < usize::MAX,
            old(self).reg_count < usize::MAX,
        ensures
            final(self).ok + final(self).fail == old(self).ok + old(self).fail + 1,
            match outcome {
                Outcome::KeyCreated => {
                    &&& final(self).ok == old(self).ok + 1
                    &&& final(self).fail == old(self).fail
                    &&& final(self).reg_count == old(self).reg_count + 1
                    &&& final(self).handles@ == old(self).handles@
                    &&& final(self).ghosts@ == old(self).ghosts@
                },
                Outcome::HandleOpened(h) => {
                    &&& final(self).ok == old(self).ok + 1
                    &&& final(self).fail == old(self).fail
                    &&& final(self).reg_count == old(self).reg_count
                    &&& final(self).handles@ == old(self).handles@.push(h)
                    &&& final(self).ghosts@ == old(self).ghosts@
                },
                Outcome::GhostSpawned(g) => {
                    &&& final(self).ok == old(self).ok + 1
                    &&& final(self).fail == old(self).fail
                    &&& final(self).reg_count == old(self).reg_count
                    &&& final(self).handles@ == old(self).handles@
                    &&& final(self).ghosts@ == old(self).ghosts@.push(g)
                },
                Outcome::Failed => {
                    &&& final(self).ok == old(self).ok
                    &&& final(self).fail == old(self).fail + 1
                    &&& final(self).reg_count == old(self).reg_count
                    &&& final(self).handles@ == old(self).handles@
                    &&& final(self).ghosts@ == old(self).ghosts@
                },
            },
            forall|s: Seq<Outcome<H, G>>| old(self).tallies(s) ==> final(self).tallies(#[trigger] s.push(outcome)),
    {
        let ghost pre = *self;
        let ghost o = outcome;
        match outcome {
            Outcome::KeyCreated => {
                self.ok = self.ok + 1;
                self.reg_count = self.reg_count + 1;
            },
            Outcome::HandleOpened(h) => {
                self.ok = self.ok + 1;
                self.handles.push(h);
            },
            Outcome::GhostSpawned(g) => {
                self.ok = self.ok + 1;
                self.ghosts.push(g);
            },
            Outcome::Failed => {
                self.fail = self.fail + 1;
            },
        }
        assert forall|s: Seq<Outcome<H, G>>| pre.tallies(s) implies self.tallies(#[trigger] s.push(o)) by {
            assert(s.push(o).drop_last() == s);
        }
    }
}

/// Of the outcomes a tally counts, each is counted exactly once, as a success
/// or as a failure, and every success left a key, a handle or a ghost process.
pub proof fn lemma_tally_counts<H, G>(r: ApplyResult<H, G>, s: Seq<Outcome<H, G>>)
    requires
        r.tallies(s),
    ensures
        r.ok + r.fail == s.len(),
        r.consistent(),
{
    lemma_successes_split(s);
}

/// The successes among some outcomes are the keys, handles and ghost
/// processes among them.
proof fn lemma_successes_split<H, G>(s: Seq<Outcome<H, G>>)
    ensures
        failures(s) <= s.len(),
        s.len() - failures(s) == keys_created(s) + handles_of(s).len() + ghosts_of(s).len(),
    decreases s.len(),
{
    if s.len() > 0 {
        lemma_successes_split(s.drop_last());
    }
}

/// What to do next to apply an artifact: create a registry key (in a hive,
/// at a subkey), a named mutex or pipe, or start a ghost process under a
/// name. The texts are borrowed from the category's artifacts.
pub enum Action<'a> {
    CreateKey(Hive, &'a str),
    CreateMutex(&'a str),
    CreatePipe(&'a str),
    SpawnGhost(&'a str),
}

/// Whether `path` starts with `HKLM\` or `HKCU\`.
pub open spec fn known_hive(path: Seq<char>) -> bool {
    names_hive(path, Hive::LocalMachine) || names_hive(path, Hive::CurrentUser)
}

/// `act` is what applying `a` asks for: the key under its hive for a
/// registry key, the artifact's path as the name otherwise.
pub open spec fn action_for(a: Artifact, act: Action) -> bool {
    match act {
        Action::CreateKey(h, key) => a.kind == Kind::RegistryKey && names_hive(a.path@, h) && a.path@
            == hive_prefix(h) + key@,
        Action::CreateMutex(name) => a.kind == Kind::Mutex && name@ == a.path@,
        Action::CreatePipe(name) => a.kind == Kind::NamedPipe && name@ == a.path@,
        Action::SpawnGhost(name) => a.kind == Kind::FakeProcess && name@ == a.path@,
    }
}

/// `o` can be what came of applying `a`: a key only of a registry key in a
/// known hive, a handle only of a mutex or pipe, a ghost process only of a
/// ghost-process artifact; any artifact can fail.
pub open spec fn outcome_fits<H, G>(a: Artifact, o: Outcome<H, G>) -> bool {
    match o {
        Outcome::KeyCreated => a.kind == Kind::RegistryKey && known_hive(a.path@),
        Outcome::HandleOpened(_) => a.kind == Kind::Mutex || a.kind == Kind::NamedPipe,
        Outcome::GhostSpawned(_) => a.kind == Kind::FakeProcess,
        Outcome::Failed => true,
    }
}

/// The action asked for an artifact is the one of the artifact's own kind,
/// one kind to one action, and it names the artifact's own path (a registry
/// key by its hive and the subkey below it).
pub proof fn lemma_action_matches_kind(a: Artifact, act: Action)
    requires
        action_for(a, act),
    ensures
        act is CreateKey <==> a.kind == Kind::RegistryKey,
        act is CreateMutex <==> a.kind == Kind::Mutex,
        act is CreatePipe <==> a.kind == Kind::NamedPipe,
        act is SpawnGhost <==> a.kind == Kind::FakeProcess,
        act matches Action::CreateKey(h, key) ==> a.path@ == hive_prefix(h) + key@,
        act matches Action::CreateMutex(n) ==> n@ == a.path@,
        act matches Action::CreatePipe(n) ==> n@ == a.path@,
        act matches Action::SpawnGhost(n) ==> n@ == a.path@,
{
}

/// Creating any artifact may fail, and a failure can always be counted,
/// whatever the artifact's kind.
pub proof fn lemma_failure_always_fits<H, G>(a: Artifact)
    ensures
        outcome_fits(a, Outcome::<H, G>::Failed),
{
}

/// The outcomes are, in order, ones that can have come of the planned
/// artifacts.
pub open spec fn attempts_fit<H, G>(arts: Seq<Artifact>, plan: Seq<usize>, o: Seq<Outcome<H, G>>) -> bool {
    &&& o.len() <= plan.len()
    &&& forall|k: int| 0 <= k < o.len() ==> plan[k] < arts.len() && outcome_fits(
        arts[plan[k] as int],
        #[trigger] o[k],
    )
}

/// The artifacts whose ghost process started, as indices into the
/// category's artifacts, in the order of the tally's `ghosts`.
pub open spec fn ghost_sources<H, G>(plan: Seq<usize>, o: Seq<Outcome<H, G>>) -> Seq<usize>
    decreases o.len(),
{
    if o.len() == 0 {
        Seq::empty()
    } else {
        let rest = ghost_sources(plan, o.drop_last());
        if o.last() is GhostSpawned {
            rest.push(plan[o.len() - 1])
        } else {
            rest
        }
    }
}

/// Applying one category, one artifact at a time. `start` picks the
/// artifacts; `next_action` says what to do for the next one (a registry
/// path in neither known hive fails at once, with nothing to do);
/// `record` takes what came of it; `finish` hands over the tally.
pub struct Applying<H, G> {
    plan: Vec<usize>,
    done: usize,
    result: ApplyResult<H, G>,
    category: Ghost<Category>,
    process_limit: Ghost<Option<usize>>,
    outcomes: Ghost<Seq<Outcome<H, G>>>,
}

impl<H, G> Applying<H, G> {
    /// The category being applied.
    pub closed spec fn category(self) -> Category {
        self.category@
    }

    /// The ghost-process limit it was started with.
    pub closed spec fn process_limit(self) -> Option<usize> {
        self.process_limit@
    }

    /// The artifacts to apply, as indices, in order.
    pub closed spec fn plan(self) -> Seq<usize> {
        self.plan@
    }

    /// What came of the artifacts applied so far, in order.
    pub closed spec fn outcomes(self) -> Seq<Outcome<H, G>> {
        self.outcomes@
    }

    /// Every planned artifact has an outcome.
    pub open spec fn is_finished(self) -> bool {
        self.outcomes().len() == self.plan().len()
    }

    /// The artifact that is applied next.
    pub open spec fn pending(self) -> Artifact {
        self.category().artifacts@[self.plan()[self.outcomes().len() as int] as int]
    }

    /// The plan is a selection of the category, the outcomes fit the
    /// planned artifacts, and the tally is theirs.
    pub closed spec fn wf(self) -> bool {
        &&& is_selection(self.category@, self.process_limit@, self.plan@)
        &&& forall|k: int| 0 <= k < self.plan@.len() ==> #[trigger] self.plan@[k] < self.category@.artifacts@.len()
        &&& self.done == self.outcomes@.len()
        &&& attempts_fit(self.category@.artifacts@, self.plan@, self.outcomes@)
        &&& self.result.tallies(self.outcomes@)
    }

    /// Starts applying `cat`: picks the artifacts with `select_artifacts`.
    pub fn start(cat: &Category, process_limit: Option<usize>) -> (r: Self)
        ensures
            r.wf(),
            r.category() == *cat,
            r.process_limit() == process_limit,
            is_selection(*cat, process_limit, r.plan()),
            r.outcomes() == Seq::<Outcome<H, G>>::empty(),
    {
        let plan = select_artifacts(cat, process_limit);
        proof {
            lemma_selection_in_range(*cat, process_limit, plan@);
        }
        Applying {
            plan,
            done: 0,
            result: ApplyResult::new(),
            category: Ghost(*cat),
            process_limit: Ghost(process_limit),
            outcomes: Ghost(Seq::empty()),
        }
    }

    /// Counts `outcome` for the pending artifact.
    fn push_outcome(&mut self, outcome: Outcome<H, G>)
        requires
            old(self).wf(),
            !old(self).is_finished(),
            outcome_fits(old(self).pending(), outcome),
        ensures
            final(self).wf(),
            final(self).category() == old(self).category(),
            final(self).process_limit() == old(self).process_limit(),
            final(self).plan() == old(self).plan(),
            final(self).outcomes() == old(self).outcomes().push(outcome),
    {
        let n = self.plan.len();
        proof {
            lemma_tally_counts(self.result, self.outcomes@);
        }
        assert(self.done < n);
        let ghost o = outcome;
        self.result.record(outcome);
        self.done = self.done + 1;
        self.outcomes = Ghost(self.outcomes@.push(o));
    }

    /// What to do for the next artifact, or `None` when every planned
    /// artifact has an outcome. A registry key whose path names neither
    /// `HKLM\` nor `HKCU\` is counted as failed on the way, with nothing to
    /// do, as creating it cannot succeed.
    pub fn next_action<'a>(&mut self, cat: &'a Category) -> (r: Option<Action<'a>>)
        requires
            old(self).wf(),
            *cat == old(self).category(),
        ensures
            final(self).wf(),
            final(self).category() == old(self).category(),
            final(self).process_limit() == old(self).process_limit(),
            final(self).plan() == old(self).plan(),
            old(self).outcomes().len() <= final(self).outcomes().len(),
            final(self).outcomes().take(old(self).outcomes().len() as int) == old(self).outcomes(),
            forall|k: int| old(self).outcomes().len() <= k < final(self).outcomes().len() ==> {
                &&& #[trigger] final(self).outcomes()[k] is Failed
                &&& cat.artifacts@[final(self).plan()[k] as int].kind == Kind::RegistryKey
                &&& !known_hive(cat.artifacts@[final(self).plan()[k] as int].path@)
            },
            r is None <==> final(self).is_finished(),
            r matches Some(act) ==> action_for(final(self).pending(), act),
            r matches Some(act) ==> {
                &&& (act is CreateKey <==> final(self).pending().kind == Kind::RegistryKey)
                &&& (act is CreateMutex <==> final(self).pending().kind == Kind::Mutex)
                &&& (act is CreatePipe <==> final(self).pending().kind == Kind::NamedPipe)
                &&& (act is SpawnGhost <==> final(self).pending().kind == Kind::FakeProcess)
            },
    {
        let ghost start = self.outcomes@;
        loop
            invariant
                self.wf(),
                *cat == self.category(),
                self.category() == old(self).category(),
                self.process_limit() == old(self).process_limit(),
                self.plan() == old(self).plan(),
                start == old(self).outcomes(),
                start.len() <= self.outcomes().len(),
                self.outcomes().take(start.len() as int) == start,
                forall|k: int| start.len() <= k < self.outcomes().len() ==> {
                    &&& #[trigger] self.outcomes()[k] is Failed
                    &&& cat.artifacts@[self.plan()[k] as int].kind == Kind::RegistryKey
                    &&& !known_hive(cat.artifacts@[self.plan()[k] as int].path@)
                },
            ensures
                self.wf(),
                self.category() == old(self).category(),
                self.process_limit() == old(self).process_limit(),
                self.plan() == old(self).plan(),
                start.len() <= self.outcomes().len(),
                self.outcomes().take(start.len() as int) == start,
                forall|k: int| start.len() <= k < self.outcomes().len() ==> {
                    &&& #[trigger] self.outcomes()[k] is Failed
                    &&& cat.artifacts@[self.plan()[k] as int].kind == Kind::RegistryKey
                    &&& !known_hive(cat.artifacts@[self.plan()[k] as int].path@)
                },
                !self.is_finished(),
                cat.artifacts@[self.plan()[self.outcomes().len() as int] as int].kind == Kind::RegistryKey
                    ==> known_hive(cat.artifacts@[self.plan()[self.outcomes().len() as int] as int].path@),
            decreases self.plan@.len() - self.done,
        {
            if self.done == self.plan.len() {
                return None;
            }
            let i = self.plan[self.done];
            let a = &cat.artifacts[i];
            if a.kind == Kind::RegistryKey {
                match root_and_subkey(a.path.as_str()) {
                    Ok(_) => {
                        break ;
                    },
                    Err(_) => {
                        let ghost before = self.outcomes();
                        self.push_outcome(Outcome::Failed);
                        assert(self.outcomes().take(start.len() as int) =~= before.take(start.len() as int));
                    },
                }
            } else {
                break ;
            }
        }
        let i = self.plan[self.done];
        let a = &cat.artifacts[i];
        let path = a.path.as_str();
        match a.kind {
            Kind::RegistryKey => match root_and_subkey(path) {
                Ok((h, key)) => Some(Action::CreateKey(h, key)),
                Err(_) => None,
            },
            Kind::Mutex => Some(Action::CreateMutex(path)),
            Kind::NamedPipe => Some(Action::CreatePipe(path)),
            Kind::FakeProcess => Some(Action::SpawnGhost(path)),
        }
    }

    /// Whether `outcome` can be recorded now: some artifact is pending and
    /// `outcome` fits it.
    pub fn accepts(&self, cat: &Category, outcome: &Outcome<H, G>) -> (r: bool)
        requires
            self.wf(),
            *cat == self.category(),
        ensures
            r == (!self.is_finished() && outcome_fits(self.pending(), *outcome)),
            *outcome is Failed ==> r == !self.is_finished(),
    {
        if self.done == self.plan.len() {
            return false;
        }
        let a = &cat.artifacts[self.plan[self.done]];
        match outcome {
            Outcome::KeyCreated => a.kind == Kind::RegistryKey && root_and_subkey(a.path.as_str()).is_ok(),
            Outcome::HandleOpened(_) => a.kind == Kind::Mutex || a.kind == Kind::NamedPipe,
            Outcome::GhostSpawned(_) => a.kind == Kind::FakeProcess,
            Outcome::Failed => true,
        }
    }

    /// Counts what came of the pending artifact.
    pub fn record(&mut self, outcome: Outcome<H, G>)
        requires
            old(self).wf(),
            !old(self).is_finished(),
            outcome_fits(old(self).pending(), outcome),
        ensures
            final(self).wf(),
            final(self).category() == old(self).category(),
            final(self).process_limit() == old(self).process_limit(),
            final(self).plan() == old(self).plan(),
            final(self).outcomes() == old(self).outcomes().push(outcome),
    {
        self.push_outcome(outcome);
    }

    /// The tally of the whole category.
    pub fn finish(self) -> (r: ApplyResult<H, G>)
        requires
            self.wf(),
            self.is_finished(),
        ensures
            r.tallies(self.outcomes()),
            is_selection(self.category(), self.process_limit(), self.plan()),
            self.outcomes().len() == self.plan().len(),
            attempts_fit(self.category().artifacts@, self.plan(), self.outcomes()),
    {
        self.result
    }
}

/// Outcomes that fit their planned artifacts create no more keys, handles
/// and ghost processes than the first `m` planned artifacts hold registry
/// keys, mutexes and pipes, and ghost-process artifacts.
proof fn lemma_fit_counts<H, G>(arts: Seq<Artifact>, plan: Seq<usize>, o: Seq<Outcome<H, G>>, m: int)
    requires
        o.len() == plan.len(),
        attempts_fit(arts, plan, o),
        0 <= m <= o.len(),
    ensures
        keys_created(o.take(m)) <= indexed_kind_count(arts, plan.take(m), Kind::RegistryKey),
        handles_of(o.take(m)).len() <= indexed_kind_count(arts, plan.take(m), Kind::Mutex)
            + indexed_kind_count(arts, plan.take(m), Kind::NamedPipe),
        ghosts_of(o.take(m)).len() <= indexed_kind_count(arts, plan.take(m), Kind::FakeProcess),
    decreases m,
{
    if m > 0 {
        lemma_fit_counts(arts, plan, o, m - 1);
        assert(o.take(m).drop_last() =~= o.take(m - 1));
        assert(plan.take(m).drop_last() =~= plan.take(m - 1));
        assert(o.take(m).last() == o[m - 1]);
        assert(plan.take(m).last() == plan[m - 1]);
        assert(outcome_fits(arts[plan[m - 1] as int], o[m - 1]));
    }
}

/// The ghost processes of the first `m` outcomes come from distinct
/// ghost-process artifacts among the first `m` planned ones, one each.
proof fn lemma_ghost_sources<H, G>(arts: Seq<Artifact>, plan: Seq<usize>, o: Seq<Outcome<H, G>>, m: int)
    requires
        attempts_fit(arts, plan, o),
        plan.no_duplicates(),
        0 <= m <= o.len(),
    ensures
        ghost_sources(plan, o.take(m)).len() == ghosts_of(o.take(m)).len(),
        ghost_sources(plan, o.take(m)).no_duplicates(),
        forall|j: int| 0 <= j < ghost_sources(plan, o.take(m)).len() ==> {
            let i = #[trigger] ghost_sources(plan, o.take(m))[j];
            &&& i < arts.len()
            &&& arts[i as int].kind == Kind::FakeProcess
            &&& exists|k: int| 0 <= k < m && plan[k] == i
        },
    decreases m,
{
    if m > 0 {
        lemma_ghost_sources(arts, plan, o, m - 1);
        let om = o.take(m);
        assert(om.drop_last() =~= o.take(m - 1));
        assert(om.last() == o[m - 1]);
        let rest = ghost_sources(plan, o.take(m - 1));
        let cur = ghost_sources(plan, om);
        let last = m - 1;
        if o[last] is GhostSpawned {
            assert(cur == rest.push(plan[last]));
            assert(outcome_fits(arts[plan[last] as int], o[last]));
            assert forall|j: int| 0 <= j < rest.len() implies rest[j] != plan[last] by {
                let k = choose|k: int| 0 <= k < m - 1 && plan[k] == rest[j];
            }
            assert forall|a: int, b: int| 0 <= a < cur.len() && 0 <= b < cur.len() && a != b
                implies cur[a] != cur[b] by {
                if a < rest.len() && b < rest.len() {
                    assert(cur[a] == rest[a] && cur[b] == rest[b]);
                } else if a < rest.len() {
                    assert(cur[a] == rest[a]);
                } else {
                    assert(cur[b] == rest[b]);
                }
            }
            assert forall|j: int| 0 <= j < cur.len() implies {
                let i = #[trigger] cur[j];
                &&& i < arts.len()
                &&& arts[i as int].kind == Kind::FakeProcess
                &&& exists|k: int| 0 <= k < m && plan[k] == i
            } by {
                if j < rest.len() {
                    assert(cur[j] == rest[j]);
                    let k = choose|k: int| 0 <= k < m - 1 && plan[k] == rest[j];
                    assert(plan[k] == cur[j]);
                } else {
                    assert(plan[last] == cur[j]);
                }
            }
        } else {
            assert(cur == rest);
            assert forall|j: int| 0 <= j < cur.len() implies {
                let i = #[trigger] cur[j];
                &&& i < arts.len()
                &&& arts[i as int].kind == Kind::FakeProcess
                &&& exists|k: int| 0 <= k < m && plan[k] == i
            } by {
                let k = choose|k: int| 0 <= k < m - 1 && plan[k] == rest[j];
                assert(plan[k] == cur[j]);
            }
        }
    } else {
        assert(o.take(0) =~= Seq::<Outcome<H, G>>::empty());
    }
}

/// A category without ghost-process artifacts counts none.
proof fn lemma_no_process_count(arts: Seq<Artifact>)
    requires
        forall|j: int| 0 <= j < arts.len() ==> #[trigger] arts[j].kind != Kind::FakeProcess,
    ensures
        kind_count(arts, Kind::FakeProcess) == 0,
    decreases arts.len(),
{
    if arts.len() > 0 {
        let a2 = arts.drop_last();
        assert forall|j: int| 0 <= j < a2.len() implies #[trigger] a2[j].kind != Kind::FakeProcess by {
            assert(a2[j] == arts[j]);
        }
        lemma_no_process_count(a2);
        assert(arts.last() == arts[arts.len() - 1]);
    }
}

/// What applying a category gives. Every artifact that is not a ghost
/// process is attempted once and `limit_of(..)` ghost processes are; each
/// attempt is counted once, as a success or a failure. Keys come only from
/// registry keys in a known hive, handles only from mutexes and pipes, ghost
/// processes only from distinct ghost-process artifacts, so each count is
/// bounded by how many such artifacts the category lists; a registry key in
/// an unknown hive always fails, and a category without ghost processes
/// starts none.
pub proof fn lemma_apply_tally<H, G>(
    cat: Category,
    process_limit: Option<usize>,
    plan: Seq<usize>,
    o: Seq<Outcome<H, G>>,
    r: ApplyResult<H, G>,
)
    requires
        is_selection(cat, process_limit, plan),
        o.len() == plan.len(),
        attempts_fit(cat.artifacts@, plan, o),
        r.tallies(o),
    ensures
        r.ok + r.fail == kind_count(cat.artifacts@, Kind::RegistryKey) + kind_count(cat.artifacts@, Kind::Mutex)
            + kind_count(cat.artifacts@, Kind::NamedPipe) + limit_of(
            process_limit,
            cat.sample,
            kind_count(cat.artifacts@, Kind::FakeProcess) as int,
        ),
        r.consistent(),
        r.reg_count <= kind_count(cat.artifacts@, Kind::RegistryKey),
        r.handles@.len() <= kind_count(cat.artifacts@, Kind::Mutex) + kind_count(cat.artifacts@, Kind::NamedPipe),
        r.ghosts@.len() <= limit_of(
            process_limit,
            cat.sample,
            kind_count(cat.artifacts@, Kind::FakeProcess) as int,
        ),
        !cat.holds_process() ==> r.ghosts@.len() == 0,
        ghost_sources(plan, o).len() == r.ghosts@.len(),
        ghost_sources(plan, o).no_duplicates(),
        forall|m: int| 0 <= m < ghost_sources(plan, o).len() ==> {
            let i = #[trigger] ghost_sources(plan, o)[m];
            &&& i < cat.artifacts@.len()
            &&& cat.artifacts@[i as int].kind == Kind::FakeProcess
            &&& plan.contains(i)
        },
        forall|k: int| 0 <= k < o.len() && cat.artifacts@[plan[k] as int].kind == Kind::RegistryKey
            && !known_hive(cat.artifacts@[plan[k] as int].path@) ==> #[trigger] o[k] is Failed,
{
    let arts = cat.artifacts@;
    lemma_artifacts_fit(cat);
    lemma_tally_counts(r, o);
    lemma_selection_counts(cat, process_limit, plan);
    lemma_selection_in_range(cat, process_limit, plan);
    lemma_fit_counts(arts, plan, o, o.len() as int);
    lemma_ghost_sources(arts, plan, o, o.len() as int);
    assert(o.take(o.len() as int) =~= o);
    assert(plan.take(plan.len() as int) =~= plan);
    assert(indexed_kind_count(arts, plan, Kind::Mutex) == kind_count(arts, Kind::Mutex));
    assert(indexed_kind_count(arts, plan, Kind::NamedPipe) == kind_count(arts, Kind::NamedPipe));
    assert(indexed_kind_count(arts, plan, Kind::RegistryKey) == kind_count(arts, Kind::RegistryKey));
    if !cat.holds_process() {
        lemma_no_process_count(arts);
    }
    assert forall|m: int| 0 <= m < ghost_sources(plan, o).len() implies {
        let i = #[trigger] ghost_sources(plan, o)[m];
        &&& i < cat.artifacts@.len()
        &&& cat.artifacts@[i as int].kind == Kind::FakeProcess
        &&& plan.contains(i)
    } by {
        let i = ghost_sources(plan, o)[m];
        let k = choose|k: int| 0 <= k < o.len() && plan[k] == i;
    }
    assert forall|k: int| 0 <= k < o.len() && cat.artifacts@[plan[k] as int].kind == Kind::RegistryKey
        && !known_hive(cat.artifacts@[plan[k] as int].path@) implies #[trigger] o[k] is Failed by {
        assert(outcome_fits(arts[plan[k] as int], o[k]));
    }
}

} // verus!