//! Which test a thread belongs to, and the networks of the tests.
//!
//! Every test has a network of its own. A thread belongs to the test at the end
//! of its chain of parents.

use crate::clock::{capped, SleepStep};
use crate::state::{clock_mono_now, pcap_init_for_test, virtual_sleep, Now, StateView, TestState};
use crate::table::{Key, Table};
use crate::time::{Duration, Instant};
use vstd::prelude::*;

verus! {

/// How long a thread that is not registered waits to be: two seconds.
pub const GRACE_MILLIS: u64 = 2_000;

/// How often it looks: every two milliseconds.
pub const POLL_MILLIS: u64 = 2;

/// A thread.
#[derive(Clone, Copy, Debug, PartialEq, Eq, Structural, Hash)]
pub struct ThreadId(pub u64);

impl Key for ThreadId {
    fn same(&self, other: &ThreadId) -> (r: bool) {
        *self == *other
    }
}

/// The thread's parent, or the thread itself where there is none.
pub open spec fn parent_of(parents: Map<ThreadId, ThreadId>, id: ThreadId) -> ThreadId {
    if parents.dom().contains(id) {
        parents[id]
    } else {
        id
    }
}

/// The ancestor `n` steps up.
pub open spec fn ancestor(parents: Map<ThreadId, ThreadId>, id: ThreadId, n: nat) -> ThreadId
    decreases n,
{
    if n == 0 {
        id
    } else {
        ancestor(parents, parent_of(parents, id), (n - 1) as nat)
    }
}

/// Whether the thread has no parent but itself.
pub open spec fn is_root(parents: Map<ThreadId, ThreadId>, id: ThreadId) -> bool {
    parent_of(parents, id) == id
}

/// Whether the thread's chain of parents ends.
pub open spec fn ends(parents: Map<ThreadId, ThreadId>, id: ThreadId) -> bool {
    exists|n: nat| is_root(parents, #[trigger] ancestor(parents, id, n))
}

/// The thread at the end of the chain.
pub open spec fn root(parents: Map<ThreadId, ThreadId>, id: ThreadId) -> ThreadId {
    ancestor(
        parents,
        id,
        choose|n: nat| is_root(parents, #[trigger] ancestor(parents, id, n)),
    )
}

/// Whether `to` is the thread or one of its ancestors.
pub open spec fn leads_to(
    parents: Map<ThreadId, ThreadId>,
    id: ThreadId,
    to: ThreadId,
) -> bool {
    exists|n: nat| #[trigger] ancestor(parents, id, n) == to
}

/// Every chain ends: no thread is an ancestor of itself but a root.
pub open spec fn all_end(parents: Map<ThreadId, ThreadId>) -> bool {
    forall|id: ThreadId| #[trigger] ends(parents, id)
}

proof fn lemma_one_more(parents: Map<ThreadId, ThreadId>, id: ThreadId, n: nat)
    ensures
        ancestor(parents, id, n + 1) == parent_of(parents, ancestor(parents, id, n)),
    decreases n,
{
    reveal_with_fuel(ancestor, 2);
    if n > 0 {
        lemma_one_more(parents, parent_of(parents, id), (n - 1) as nat);
    }
}

proof fn lemma_split(parents: Map<ThreadId, ThreadId>, id: ThreadId, n: nat, k: nat)
    requires
        k <= n,
    ensures
        ancestor(parents, id, n) == ancestor(parents, ancestor(parents, id, k), (n - k) as nat),
    decreases k,
{
    if k > 0 {
        lemma_split(parents, parent_of(parents, id), (n - 1) as nat, (k - 1) as nat);
    }
}

proof fn lemma_stays(parents: Map<ThreadId, ThreadId>, id: ThreadId, n: nat)
    requires
        is_root(parents, id),
    ensures
        ancestor(parents, id, n) == id,
    decreases n,
{
    if n > 0 {
        lemma_stays(parents, id, (n - 1) as nat);
    }
}

/// However far up a root is found, it is the same one.
proof fn lemma_root(parents: Map<ThreadId, ThreadId>, id: ThreadId, n: nat)
    requires
        is_root(parents, ancestor(parents, id, n)),
    ensures
        root(parents, id) == ancestor(parents, id, n),
        is_root(parents, root(parents, id)),
{
    let m = choose|n: nat| is_root(parents, #[trigger] ancestor(parents, id, n));
    assert(is_root(parents, ancestor(parents, id, m)));
    if n <= m {
        lemma_split(parents, id, m, n);
        lemma_stays(parents, ancestor(parents, id, n), (m - n) as nat);
    } else {
        lemma_split(parents, id, n, m);
        lemma_stays(parents, ancestor(parents, id, m), (n - m) as nat);
    }
}

/// A chain that does not pass through `child` is not affected by its parent.
proof fn lemma_unaffected(
    parents: Map<ThreadId, ThreadId>,
    child: ThreadId,
    parent: ThreadId,
    id: ThreadId,
    n: nat,
)
    requires
        forall|k: nat| k < n ==> #[trigger] ancestor(parents, id, k) != child,
    ensures
        ancestor(parents.insert(child, parent), id, n) == ancestor(parents, id, n),
    decreases n,
{
    if n > 0 {
        assert(ancestor(parents, id, 0) == id);
        let up = parent_of(parents, id);
        assert forall|k: nat| k < n - 1 implies #[trigger] ancestor(parents, up, k) != child by {
            assert(ancestor(parents, id, k + 1) == ancestor(parents, up, k));
        }
        lemma_unaffected(parents, child, parent, up, (n - 1) as nat);
    }
}

/// The first step at which a chain that passes through `to` does so.
proof fn lemma_first_step(
    parents: Map<ThreadId, ThreadId>,
    id: ThreadId,
    to: ThreadId,
    n: nat,
) -> (k: nat)
    requires
        ancestor(parents, id, n) == to,
    ensures
        k <= n,
        ancestor(parents, id, k) == to,
        forall|j: nat| j < k ==> #[trigger] ancestor(parents, id, j) != to,
    decreases n,
{
    if exists|j: nat| j < n && #[trigger] ancestor(parents, id, j) == to {
        let j = choose|j: nat| j < n && #[trigger] ancestor(parents, id, j) == to;
        lemma_first_step(parents, id, to, j)
    } else {
        n
    }
}

/// What a new parent does to the chains: that of `child`, and those that pass
/// through it, go on where the parent's goes; the others stay as they are.
proof fn lemma_adopted(parents: Map<ThreadId, ThreadId>, child: ThreadId, parent: ThreadId)
    requires
        all_end(parents),
        child == parent || !leads_to(parents, parent, child),
    ensures
        all_end(parents.insert(child, parent)),
        child == parent ==> root(parents.insert(child, parent), child) == child,
        child != parent ==> root(parents.insert(child, parent), child) == root(parents, parent),
        forall|id: ThreadId|
            leads_to(parents, id, child) ==> #[trigger] root(parents.insert(child, parent), id)
                == root(parents.insert(child, parent), child),
        forall|id: ThreadId|
            !leads_to(parents, id, child) ==> #[trigger] root(parents.insert(child, parent), id)
                == root(parents, id),
{
    let after = parents.insert(child, parent);
    if child == parent {
        assert(is_root(after, ancestor(after, child, 0)));
        lemma_root(after, child, 0);
    } else {
        assert(ends(parents, parent));
        let m = choose|n: nat| is_root(parents, #[trigger] ancestor(parents, parent, n));
        lemma_unaffected(parents, child, parent, parent, m);
        lemma_root(parents, parent, m);
        assert(ancestor(parents, parent, m) != child);
        assert(ancestor(after, child, m + 1) == ancestor(after, parent, m));
        assert(is_root(after, ancestor(after, child, m + 1)));
        lemma_root(after, child, m + 1);
    }
    let c = choose|n: nat| is_root(after, #[trigger] ancestor(after, child, n));
    assert(ends(after, child));
    assert forall|id: ThreadId| leads_to(parents, id, child) implies ends(after, id)
        && #[trigger] root(after, id) == root(after, child) by {
        let n = choose|n: nat| #[trigger] ancestor(parents, id, n) == child;
        let k = lemma_first_step(parents, id, child, n);
        lemma_unaffected(parents, child, parent, id, k);
        lemma_split(after, id, k + c, k);
        lemma_root(after, child, c);
        assert(is_root(after, ancestor(after, id, k + c)));
        lemma_root(after, id, k + c);
    }
    assert forall|id: ThreadId| !leads_to(parents, id, child) implies ends(after, id)
        && #[trigger] root(after, id) == root(parents, id) by {
        assert(ends(parents, id));
        let n = choose|n: nat| is_root(parents, #[trigger] ancestor(parents, id, n));
        lemma_unaffected(parents, child, parent, id, n);
        lemma_root(parents, id, n);
        assert(ancestor(parents, id, n) != child);
        assert(is_root(after, ancestor(after, id, n)));
        lemma_root(after, id, n);
    }
    assert forall|id: ThreadId| #[trigger] ends(after, id) by {
        let r = root(after, id);
    }
}

/// A thread that was given a parent belongs to the parent's test. So do those
/// that belonged to it; all others belong where they did.
pub proof fn law_child_joins_its_parents_test(
    parents: Map<ThreadId, ThreadId>,
    child: ThreadId,
    parent: ThreadId,
    other: ThreadId,
)
    requires
        all_end(parents),
        child != parent,
        !leads_to(parents, parent, child),
    ensures
        root(parents.insert(child, parent), child) == root(parents, parent),
        root(parents.insert(child, parent), other) == if leads_to(parents, other, child) {
            root(parents, parent)
        } else {
            root(parents, other)
        },
{
    lemma_adopted(parents, child, parent);
}

/// Who is whose parent. Chains always end.
pub struct ThreadHierarchy {
    parents: Table<ThreadId, ThreadId>,
}

/// What is known of the test that a thread belongs to.
#[derive(Clone, Copy, Debug)]
pub enum Lookup {
    /// It is that of this thread.
    Found(ThreadId),
    /// The thread is not registered yet. Look again after this long.
    Wait(Grace, Duration),
    /// The thread was not registered in time.
    Missing,
}

/// A thread that waits to be registered, and until when.
#[derive(Clone, Copy, Debug)]
pub struct Grace {
    pub id: ThreadId,
    pub deadline: Instant,
}

/// When the time is over that a thread has to be registered which first asked at
/// `asked`.
pub open spec fn grace_end(asked: Instant) -> Instant {
    asked.later(Duration::of((GRACE_MILLIS * 1_000_000) as nat))
}

/// What a thread learns that asks at `now` for the first time.
pub open spec fn looks_up(
    parents: Map<ThreadId, ThreadId>,
    id: ThreadId,
    now: Instant,
    r: Lookup,
) -> bool {
    match r {
        Lookup::Found(test) => parents.dom().contains(id) && test == root(parents, id),
        Lookup::Wait(grace, poll) => {
            &&& !parents.dom().contains(id)
            &&& grace.id == id
            &&& grace.deadline == grace_end(now)
            &&& poll@ == POLL_MILLIS * 1_000_000
        },
        Lookup::Missing => false,
    }
}

/// What a thread learns that asks again at `now`.
pub open spec fn looks_again(
    parents: Map<ThreadId, ThreadId>,
    grace: Grace,
    now: Instant,
    r: Lookup,
) -> bool {
    match r {
        Lookup::Found(test) => parents.dom().contains(grace.id) && test == root(
            parents,
            grace.id,
        ),
        Lookup::Wait(again, poll) => {
            &&& !parents.dom().contains(grace.id)
            &&& now@ < grace.deadline@
            &&& again == grace
            &&& poll@ == POLL_MILLIS * 1_000_000
        },
        Lookup::Missing => !parents.dom().contains(grace.id) && now@ >= grace.deadline@,
    }
}

/// A registered thread is told the end of its chain of parents, which is the
/// same for it and its parent, and so for all its ancestors and descendants.
pub proof fn law_family_belongs_to_one_test(
    parents: Map<ThreadId, ThreadId>,
    id: ThreadId,
    n: nat,
    now: Instant,
    r: Lookup,
)
    requires
        all_end(parents),
        parents.dom().contains(id),
        looks_up(parents, id, now, r),
    ensures
        r == Lookup::Found(root(parents, id)),
        is_root(parents, root(parents, id)),
        leads_to(parents, id, root(parents, id)),
        root(parents, ancestor(parents, id, n)) == root(parents, id),
{
    assert(ends(parents, id));
    let m = choose|n: nat| is_root(parents, #[trigger] ancestor(parents, id, n));
    lemma_root(parents, id, m);
    let up = ancestor(parents, id, n);
    assert(ends(parents, up));
    let k = choose|n: nat| is_root(parents, #[trigger] ancestor(parents, up, n));
    lemma_root(parents, up, k);
    lemma_split(parents, id, n + k, n);
    lemma_root(parents, id, n + k);
}

/// A thread that is not registered is given two seconds, and no less: as long as
/// they last it is told to wait, and only when they are over that it is missing.
/// Registered meanwhile, by whomever, it is told its test.
pub proof fn law_thread_is_missing_only_after_the_grace_period(
    before: Map<ThreadId, ThreadId>,
    id: ThreadId,
    asked: Instant,
    first: Lookup,
    parents: Map<ThreadId, ThreadId>,
    now: Instant,
    again: Lookup,
)
    requires
        looks_up(before, id, asked, first),
        first is Wait,
        looks_again(parents, first->Wait_0, now, again),
    ensures
        parents.dom().contains(id) ==> again == Lookup::Found(root(parents, id)),
        !parents.dom().contains(id) && now@ < grace_end(asked)@ ==> again is Wait
            && again->Wait_0 == first->Wait_0,
        again is Missing <==> !parents.dom().contains(id) && now@ >= grace_end(asked)@,
{
}

impl ThreadHierarchy {
    pub closed spec fn view(&self) -> Map<ThreadId, ThreadId> {
        self.parents@
    }

    pub open spec fn wf(&self) -> bool {
        all_end(self@)
    }

    pub fn new() -> (r: ThreadHierarchy)
        ensures
            r@ == Map::<ThreadId, ThreadId>::empty(),
            r.wf(),
    {
        let r = ThreadHierarchy { parents: Table::new() };
        assert forall|id: ThreadId| #[trigger] ends(r@, id) by {
            assert(is_root(r@, ancestor(r@, id, 0)));
        }
        r
    }

    /// Whether the thread is registered.
    pub fn contains(&self, id: ThreadId) -> (r: bool)
        ensures
            r == self@.dom().contains(id),
    {
        self.parents.get(&id).is_some()
    }

    fn parent(&self, id: ThreadId) -> (r: ThreadId)
        ensures
            r == parent_of(self@, id),
    {
        match self.parents.get(&id) {
            Some(parent) => parent,
            None => id,
        }
    }

    /// The thread at the end of the chain.
    pub fn resolve(&self, id: ThreadId) -> (r: ThreadId)
        requires
            self.wf(),
        ensures
            r == root(self@, id),
            is_root(self@, r),
    {
        assert(ends(self@, id));
        let ghost n = choose|n: nat| is_root(self@, #[trigger] ancestor(self@, id, n));
        let ghost mut k: nat = 0;
        let mut current = id;
        let mut parent = self.parent(current);
        while parent != current
            invariant
                current == ancestor(self@, id, k),
                parent == parent_of(self@, current),
                k <= n,
                is_root(self@, ancestor(self@, id, n)),
            decreases n - k,
        {
            proof {
                lemma_one_more(self@, id, k);
                if k == n {
                    assert(parent == current);
                }
                k = k + 1;
            }
            current = parent;
            parent = self.parent(current);
        }
        proof {
            lemma_root(self@, id, k);
        }
        current
    }

    /// Whether `ancestor_id` is the thread or one of its ancestors.
    pub fn descends_from(&self, id: ThreadId, ancestor_id: ThreadId) -> (r: bool)
        requires
            self.wf(),
        ensures
            r == leads_to(self@, id, ancestor_id),
    {
        assert(ends(self@, id));
        let ghost n = choose|n: nat| is_root(self@, #[trigger] ancestor(self@, id, n));
        let ghost mut k: nat = 0;
        let mut current = id;
        let mut parent = self.parent(current);
        while current != ancestor_id && parent != current
            invariant
                current == ancestor(self@, id, k),
                parent == parent_of(self@, current),
                k <= n,
                is_root(self@, ancestor(self@, id, n)),
                forall|j: nat| j < k ==> #[trigger] ancestor(self@, id, j) != ancestor_id,
            decreases n - k,
        {
            proof {
                lemma_one_more(self@, id, k);
                if k == n {
                    assert(parent == current);
                }
                k = k + 1;
            }
            current = parent;
            parent = self.parent(current);
        }
        if current == ancestor_id {
            true
        } else {
            assert forall|j: nat| #[trigger] ancestor(self@, id, j) != ancestor_id by {
                if j >= k {
                    lemma_split(self@, id, j, k);
                    lemma_stays(self@, current, (j - k) as nat);
                }
            }
            false
        }
    }

    /// Makes the thread the root of a test.
    pub fn register_test(&mut self, id: ThreadId)
        requires
            old(self).wf(),
        ensures
            final(self)@ == old(self)@.insert(id, id),
            root(final(self)@, id) == id,
            final(self).wf(),
    {
        proof {
            lemma_adopted(self@, id, id);
        }
        self.parents.insert(id, id);
    }

    /// Attaches `child` to the test that `current` belongs to.
    pub fn register_child_thread(&mut self, child: ThreadId, current: ThreadId)
        requires
            old(self).wf(),
        ensures
            final(self)@ == old(self)@.insert(child, root(old(self)@, current)),
            root(final(self)@, child) == root(old(self)@, current),
            final(self).wf(),
    {
        let test = self.resolve(current);
        proof {
            assert forall|n: nat| #[trigger] ancestor(self@, test, n) == test by {
                lemma_stays(self@, test, n);
            }
            assert(is_root(self@, ancestor(self@, test, 0)));
            lemma_root(self@, test, 0);
            lemma_adopted(self@, child, test);
        }
        self.parents.insert(child, test);
    }

    /// Attaches the thread `current` to `parent`. No thread is made its own
    /// ancestor.
    pub fn register_thread_child_of(&mut self, current: ThreadId, parent: ThreadId)
        requires
            old(self).wf(),
            current == parent || !leads_to(old(self)@, parent, current),
        ensures
            final(self)@ == old(self)@.insert(current, parent),
            current != parent ==> root(final(self)@, current) == root(old(self)@, parent),
            current == parent ==> root(final(self)@, current) == current,
            final(self).wf(),
    {
        proof {
            lemma_adopted(self@, current, parent);
        }
        self.parents.insert(current, parent);
    }

    /// The test that the thread belongs to. Where the thread is not registered,
    /// this may be because it has only just begun.
    pub fn lookup(&self, id: ThreadId, now: Instant) -> (r: Lookup)
        requires
            self.wf(),
        ensures
            looks_up(self@, id, now, r),
    {
        if self.contains(id) {
            Lookup::Found(self.resolve(id))
        } else {
            let total = Duration::from_millis(GRACE_MILLIS);
            proof {
                Duration::lemma_of((GRACE_MILLIS * 1_000_000) as nat);
                Duration::lemma_ext(total, Duration::of((GRACE_MILLIS * 1_000_000) as nat));
            }
            Lookup::Wait(
                Grace { id, deadline: now.saturating_add(total) },
                Duration::from_millis(POLL_MILLIS),
            )
        }
    }

    /// Looks again.
    pub fn lookup_again(&self, grace: Grace, now: Instant) -> (r: Lookup)
        requires
            self.wf(),
        ensures
            looks_again(self@, grace, now, r),
    {
        if self.contains(grace.id) {
            Lookup::Found(self.resolve(grace.id))
        } else if now >= grace.deadline {
            Lookup::Missing
        } else {
            Lookup::Wait(grace, Duration::from_millis(POLL_MILLIS))
        }
    }
}

// ----- The networks -----

/// Whose networks there are.
#[derive(Clone, Copy, Debug, PartialEq, Eq, Structural)]
pub enum Mode {
    /// Every test has its own.
    PerTest,
    /// All threads share one.
    Shared,
}

/// The key of the network that all threads share.
pub const SHARED_KEY: u64 = 0;

pub struct HarnessView {
    pub mode: Mode,
    pub parents: Map<ThreadId, ThreadId>,
    pub networks: Map<ThreadId, StateView>,
}

impl HarnessView {
    /// The key of the network that a thread uses.
    pub open spec fn slot(self, id: ThreadId) -> ThreadId {
        match self.mode {
            Mode::PerTest => root(self.parents, id),
            Mode::Shared => ThreadId(SHARED_KEY),
        }
    }

    /// The network that a thread uses has changed.
    pub open spec fn with_network(self, id: ThreadId, s: StateView) -> HarnessView {
        HarnessView { networks: self.networks.insert(self.slot(id), s), ..self }
    }
}

/// What one test does does not show in another: threads of different tests use
/// different networks.
pub proof fn law_tests_are_isolated(h: HarnessView, a: ThreadId, b: ThreadId, s: StateView)
    requires
        h.mode == Mode::PerTest,
        root(h.parents, a) != root(h.parents, b),
        h.networks.dom().contains(h.slot(b)),
    ensures
        h.with_network(a, s).slot(b) == h.slot(b),
        h.with_network(a, s).networks.dom().contains(h.slot(b)),
        h.with_network(a, s).networks[h.slot(b)] == h.networks[h.slot(b)],
{
}

/// Threads of one test, or all threads where they share, see what the others do.
pub proof fn law_threads_of_a_test_share_its_network(
    h: HarnessView,
    a: ThreadId,
    b: ThreadId,
    s: StateView,
)
    requires
        h.mode == Mode::Shared || root(h.parents, a) == root(h.parents, b),
    ensures
        h.with_network(a, s).slot(b) == h.slot(b),
        h.with_network(a, s).networks[h.slot(b)] == s,
{
}

/// The position of a key.
pub open spec fn key_at(keys: Seq<ThreadId>, key: ThreadId) -> int {
    choose|i: int| 0 <= i < keys.len() && keys[i] == key
}

/// The networks of all tests.
pub struct Harness {
    mode: Mode,
    hierarchy: ThreadHierarchy,
    keys: Vec<ThreadId>,
    networks: Vec<TestState>,
}

impl Harness {
    pub closed spec fn view(&self) -> HarnessView {
        HarnessView {
            mode: self.mode,
            parents: self.hierarchy@,
            networks: Map::new(
                |key: ThreadId| self.keys@.contains(key),
                |key: ThreadId| self.networks@[key_at(self.keys@, key)]@,
            ),
        }
    }

    pub closed spec fn wf(&self) -> bool {
        &&& self.hierarchy.wf()
        &&& self.keys@.len() == self.networks@.len()
        &&& self.keys@.no_duplicates()
        &&& forall|i: int| 0 <= i < self.networks@.len() ==> (#[trigger] self.networks@[i])@.wf()
        &&& self.mode == Mode::Shared ==> self.keys@.contains(ThreadId(SHARED_KEY))
    }

    /// What every harness keeps to: chains of parents end, networks are sound,
    /// and a network that all threads share is there.
    pub proof fn law_harness_is_sound(&self)
        requires
            self.wf(),
        ensures
            all_end(self@.parents),
            forall|key: ThreadId|
                self@.networks.dom().contains(key) ==> (#[trigger] self@.networks[key]).wf(),
            self@.mode == Mode::Shared ==> self@.networks.dom().contains(ThreadId(SHARED_KEY)),
    {
        assert forall|key: ThreadId| self@.networks.dom().contains(key) implies (
        #[trigger] self@.networks[key]).wf() by {
            let i = key_at(self.keys@, key);
            assert(0 <= i < self.keys@.len() && self.keys@[i] == key);
            assert(self.networks@[i]@.wf());
        }
    }

    /// A network for each test.
    pub fn isolated() -> (r: Harness)
        ensures
            r@ == (HarnessView {
                mode: Mode::PerTest,
                parents: Map::empty(),
                networks: Map::empty(),
            }),
            r.wf(),
    {
        let r = Harness {
            mode: Mode::PerTest,
            hierarchy: ThreadHierarchy::new(),
            keys: Vec::new(),
            networks: Vec::new(),
        };
        assert(r@.networks =~= Map::<ThreadId, StateView>::empty());
        r
    }

    /// One network for all threads. None of them has to be registered.
    pub fn shared(now: Now) -> (r: Harness)
        ensures
            r@ == (HarnessView {
                mode: Mode::Shared,
                parents: Map::empty(),
                networks: Map::<ThreadId, StateView>::empty().insert(
                    ThreadId(SHARED_KEY),
                    StateView::fresh(now, r@.networks[ThreadId(SHARED_KEY)].bell),
                ),
            }),
            r.wf(),
    {
        let mut r = Harness {
            mode: Mode::PerTest,
            hierarchy: ThreadHierarchy::new(),
            keys: Vec::new(),
            networks: Vec::new(),
        };
        r.put(ThreadId(SHARED_KEY), TestState::new(now));
        assert(r@.networks.dom().contains(ThreadId(SHARED_KEY)));
        r.mode = Mode::Shared;
        assert(r@.networks =~= Map::<ThreadId, StateView>::empty().insert(
            ThreadId(SHARED_KEY),
            StateView::fresh(now, r@.networks[ThreadId(SHARED_KEY)].bell),
        ));
        r
    }

    fn position(&self, key: ThreadId) -> (r: Option<usize>)
        requires
            self.wf(),
        ensures
            match r {
                Some(i) => i < self.keys@.len() && self.keys@[i as int] == key && key_at(
                    self.keys@,
                    key,
                ) == i,
                None => !self.keys@.contains(key),
            },
    {
        let mut i: usize = 0;
        while i < self.keys.len()
            invariant
                i <= self.keys@.len(),
                self.wf(),
                forall|j: int| 0 <= j < i ==> self.keys@[j] != key,
            decreases self.keys@.len() - i,
        {
            if self.keys[i] == key {
                assert(self.keys@[i as int] == key);
                return Some(i);
            }
            i += 1;
        }
        None
    }

    /// Puts a network in place.
    fn put(&mut self, key: ThreadId, network: TestState)
        requires
            old(self).wf(),
            network@.wf(),
        ensures
            final(self)@ == (HarnessView {
                networks: old(self)@.networks.insert(key, network@),
                ..old(self)@
            }),
            final(self).wf(),
    {
        let ghost keys = self.keys@;
        let ghost networks = self.networks@;
        match self.position(key) {
            Some(i) => {
                self.networks.set(i, network);
                proof {
                    assert(self@.networks =~= old(self)@.networks.insert(key, network@)) by {
                        assert forall|k: ThreadId| keys.contains(k) && k != key implies key_at(
                            keys,
                            k,
                        ) != i by {
                            let j = key_at(keys, k);
                            assert(0 <= j < keys.len() && keys[j] == k);
                        }
                        assert(keys.contains(key));
                    }
                }
            },
            None => {
                self.keys.push(key);
                self.networks.push(network);
                proof {
                    assert(self.keys@[keys.len() as int] == key);
                    assert forall|k: ThreadId| keys.contains(k) implies self.keys@.contains(k)
                        && key_at(self.keys@, k) == key_at(keys, k) by {
                        let j = key_at(keys, k);
                        assert(0 <= j < keys.len() && keys[j] == k);
                        assert(self.keys@[j] == k);
                    }
                    assert(key_at(self.keys@, key) == keys.len());
                    assert forall|k: ThreadId| self.keys@.contains(k) && k != key implies
                        keys.contains(k) by {
                        let j = key_at(self.keys@, k);
                        assert(0 <= j < self.keys@.len() && self.keys@[j] == k);
                        assert(keys[j] == k);
                    }
                    assert(self@.networks =~= old(self)@.networks.insert(key, network@));
                }
            },
        }
    }

    /// Makes the thread the root of a test with a network of its own. Where the
    /// comma-separated list `forced` names the test, the result is the name of
    /// the file to capture its traffic to. Where all threads share a network,
    /// nothing happens.
    pub fn register_test(
        &mut self,
        id: ThreadId,
        now: Now,
        name: Option<String>,
        forced: Option<&str>,
    ) -> (r: Option<String>)
        requires
            old(self).wf(),
        ensures
            old(self)@.mode == Mode::Shared ==> final(self)@ == old(self)@ && r is None,
            old(self)@.mode == Mode::PerTest ==> {
                &&& final(self)@ == (HarnessView {
                    mode: Mode::PerTest,
                    parents: old(self)@.parents.insert(id, id),
                    networks: old(self)@.networks.insert(
                        id,
                        StateView {
                            test_name: match name {
                                Some(n) => Some(n@),
                                None => None,
                            },
                            ..StateView::fresh(now, final(self)@.networks[id].bell)
                        },
                    ),
                })
                &&& final(self)@.slot(id) == id
                &&& match r {
                    Some(file) => name is Some && forced is Some && crate::pcapng::names(
                        forced->0@,
                        name->0@,
                    ) && file@ == crate::pcapng::capture_name(name->0@),
                    None => name is None || forced is None || !crate::pcapng::names(
                        forced->0@,
                        name->0@,
                    ),
                }
            },
            final(self).wf(),
    {
        match self.mode {
            Mode::Shared => None,
            Mode::PerTest => {
                self.hierarchy.register_test(id);
                let mut network = TestState::new(now);
                let r = pcap_init_for_test(&mut network, name, forced);
                self.put(id, network);
                r
            },
        }
    }

    /// Attaches `child` to the test that `current` belongs to.
    pub fn register_child_thread(&mut self, child: ThreadId, current: ThreadId)
        requires
            old(self).wf(),
        ensures
            final(self)@ == (HarnessView {
                parents: old(self)@.parents.insert(child, root(old(self)@.parents, current)),
                ..old(self)@
            }),
            final(self)@.slot(child) == old(self)@.slot(current),
            final(self).wf(),
    {
        self.hierarchy.register_child_thread(child, current);
    }

    /// Attaches the thread `current` to `parent`.
    pub fn register_thread_child_of(&mut self, current: ThreadId, parent: ThreadId)
        requires
            old(self).wf(),
            current == parent || !leads_to(old(self)@.parents, parent, current),
        ensures
            final(self)@ == (HarnessView {
                parents: old(self)@.parents.insert(current, parent),
                ..old(self)@
            }),
            current != parent ==> final(self)@.slot(current) == old(self)@.slot(parent),
            final(self).wf(),
    {
        self.hierarchy.register_thread_child_of(current, parent);
    }

    /// Who is whose parent.
    pub fn hierarchy(&self) -> (r: &ThreadHierarchy)
        requires
            self.wf(),
        ensures
            r@ == self@.parents,
            r.wf(),
    {
        &self.hierarchy
    }

    pub fn mode(&self) -> (r: Mode)
        ensures
            r == self@.mode,
    {
        self.mode
    }

    /// The key of the network that the thread uses.
    pub fn lookup(&self, id: ThreadId, now: Instant) -> (r: Lookup)
        requires
            self.wf(),
        ensures
            match r {
                Lookup::Found(key) => key == self@.slot(id) && (self@.mode == Mode::PerTest
                    ==> self@.parents.dom().contains(id)),
                Lookup::Wait(grace, poll) => {
                    &&& self@.mode == Mode::PerTest
                    &&& !self@.parents.dom().contains(id)
                    &&& grace.id == id
                    &&& grace.deadline == now.later(Duration::of((GRACE_MILLIS * 1_000_000) as nat))
                    &&& poll@ == POLL_MILLIS * 1_000_000
                },
                Lookup::Missing => false,
            },
    {
        match self.mode {
            Mode::PerTest => self.hierarchy.lookup(id, now),
            Mode::Shared => Lookup::Found(ThreadId(SHARED_KEY)),
        }
    }

    /// Whether there is a network with this key.
    pub fn has_network(&self, key: ThreadId) -> (r: bool)
        requires
            self.wf(),
        ensures
            r == self@.networks.dom().contains(key),
    {
        self.position(key).is_some()
    }

    /// The network with this key.
    pub fn network(&mut self, key: ThreadId) -> (r: &mut TestState)
        requires
            old(self).wf(),
            old(self)@.networks.dom().contains(key),
        ensures
            r@ == old(self)@.networks[key],
            r@.wf(),
            final(self)@ == (HarnessView {
                networks: old(self)@.networks.insert(key, final(r)@),
                ..old(self)@
            }),
            final(r)@.wf() ==> final(self).wf(),
    {
        let i: usize = match self.position(key) {
            Some(i) => i,
            None => 0,
        };
        proof {
            let keys = self.keys@;
            assert forall|k: ThreadId| keys.contains(k) && k != key implies key_at(keys, k)
                != i by {
                let j = key_at(keys, k);
                assert(0 <= j < keys.len() && keys[j] == k);
            }
            assert forall|s: TestState|
                Map::new(
                    |k: ThreadId| keys.contains(k),
                    |k: ThreadId| (#[trigger] self.networks@.update(i as int, s))[key_at(keys, k)]@,
                ) == self@.networks.insert(key, s@) by {
                assert(Map::new(
                    |k: ThreadId| keys.contains(k),
                    |k: ThreadId| self.networks@.update(i as int, s)[key_at(keys, k)]@,
                ) =~= self@.networks.insert(key, s@));
            }
        }
        &mut self.networks[i]
    }
}

/// Attaching a thread to the current one's test.
pub trait ThreadExt {
    /// Attaches the thread to the test that `current` belongs to.
    fn register_as_child(self, harness: &mut Harness, current: ThreadId) -> (r: Self)
        requires
            old(harness).wf(),
        ensures
            r == self,
            final(harness).wf(),
    ;
}

impl ThreadExt for ThreadId {
    fn register_as_child(self, harness: &mut Harness, current: ThreadId) -> (r: ThreadId)
        ensures
            final(harness)@ == (HarnessView {
                parents: old(harness)@.parents.insert(
                    self,
                    root(old(harness)@.parents, current),
                ),
                ..old(harness)@
            }),
            final(harness)@.slot(self) == old(harness)@.slot(current),
    {
        harness.register_child_thread(self, current);
        self
    }
}

/// Begins to sleep on the virtual clock: the reading at which the sleep ends,
/// and what to do until then. A sleep of no length is over at once.
pub fn sleep(st: &TestState, now: Now, dur: Duration) -> (r: (Duration, SleepStep))
    ensures
        r.0@ == capped(st@.clock.mono(now.mono@) + dur@),
        r.1@ == st@.clock.sleep(now.mono@, r.0@),
        dur@ == 0 ==> r.1 is Over,
{
    let target = clock_mono_now(st, now).saturating_add(dur);
    (target, virtual_sleep(st, now, target))
}

} // verus!
