//! How the calls of threads to their harness relate.

use crate::state::{Now, StateView};
use crate::thread::{Grace, Harness, HarnessView, Lookup, Mode, ThreadHierarchy, ThreadId};
use crate::time::{Duration, Instant, MAX_NANOS};
use vstd::prelude::*;

verus! {

/// A thread that registers a test finds it at once, and finds a network of its
/// own there that is as new. What other threads find is as before.
pub proof fn law_registered_test_is_found(
    h: &mut Harness,
    g: &Harness,
    id: ThreadId,
    now: Now,
    name: Option<String>,
    file: Option<String>,
    r: Lookup,
)
    requires
        old(h)@.mode == Mode::PerTest,
        call_ensures(Harness::register_test, (h, id, now, name, None), file),
        final(h)@ == g@,
        call_ensures(Harness::lookup, (g, id, now.mono), r),
    ensures
        r == Lookup::Found(id),
        file is None,
        final(h)@.networks.dom().contains(id),
        final(h)@.networks[id].tcp.len() == 0,
        final(h)@.networks[id].udp.len() == 0,
        final(h)@.networks[id].listeners.len() == 0,
        name matches Some(n) ==> final(h)@.networks[id].test_name == Some(n@),
        name is None ==> final(h)@.networks[id].test_name is None,
        forall|key: ThreadId|
            key != id && old(h)@.networks.dom().contains(key) ==> {
                &&& #[trigger] final(h)@.networks.dom().contains(key)
                &&& final(h)@.networks[key] == old(h)@.networks[key]
            },
{
}

/// A child finds the test of the thread that registered it, and with it that
/// test's network.
pub proof fn law_child_finds_its_test(
    h: &mut Harness,
    g: &Harness,
    child: ThreadId,
    current: ThreadId,
    now: Instant,
    before: Lookup,
    r: Lookup,
    f: &Harness,
)
    requires
        old(h)@.mode == Mode::PerTest,
        old(h)@ == f@,
        call_ensures(Harness::lookup, (f, current, now), before),
        before is Found,
        call_ensures(Harness::register_child_thread, (h, child, current), ()),
        final(h)@ == g@,
        call_ensures(Harness::lookup, (g, child, now), r),
    ensures
        r == before,
        final(h)@.networks == old(h)@.networks,
{
}

/// A thread that is not registered is given two seconds, and looks every two
/// milliseconds; where all share one network, nobody has to be registered.
pub proof fn law_unregistered_thread_is_given_time(
    h: &Harness,
    id: ThreadId,
    now: Instant,
    r: Lookup,
)
    requires
        call_ensures(Harness::lookup, (h, id, now), r),
        now@ + 2_000_000_000 <= MAX_NANOS,
    ensures
        h@.mode == Mode::Shared ==> r is Found,
        h@.mode == Mode::PerTest ==> (r is Found <==> h@.parents.dom().contains(id)),
        r matches Lookup::Wait(grace, poll) ==> {
            &&& grace.id == id
            &&& grace.deadline@ == now@ + 2_000_000_000
            &&& poll@ == 2_000_000
        },
        !(r is Missing),
{
    Duration::lemma_of(2_000_000_000);
    Instant::lemma_of(now@ + 2_000_000_000);
}

/// A thread that looks again is found as soon as it is registered, and is missing
/// only when its time is over.
pub proof fn law_thread_that_looks_again(
    h: &ThreadHierarchy,
    grace: Grace,
    now: Instant,
    r: Lookup,
)
    requires
        call_ensures(ThreadHierarchy::lookup_again, (h, grace, now), r),
    ensures
        r is Found <==> h@.dom().contains(grace.id),
        r is Missing <==> !h@.dom().contains(grace.id) && now@ >= grace.deadline@,
        r matches Lookup::Wait(again, poll) ==> again == grace && poll@ == 2_000_000,
{
}

/// Two threads that find the same key find the same network, and a change that
/// one of them makes is there for the other.
pub proof fn law_same_key_same_network(h: HarnessView, a: ThreadId, b: ThreadId, s: StateView)
    requires
        h.slot(a) == h.slot(b),
    ensures
        h.with_network(a, s).networks[h.slot(b)] == s,
        h.with_network(a, s).slot(b) == h.slot(b),
        h.with_network(a, s).parents == h.parents,
        h.mode == Mode::Shared ==> forall|c: ThreadId, d: ThreadId| #[trigger]
            h.slot(c) == #[trigger] h.slot(d),
{
}

} // verus!
