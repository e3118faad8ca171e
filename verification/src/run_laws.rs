//! What a run does for each of its testers.

use crate::addr::SocketAddr;
use crate::conn::{first_to, PacketView, TcpView};
use crate::poll_laws::lemma_released_is_settled;
use crate::run::{law_every_client_is_heard, Next, RunEvent, RunStage, RunView, StepView};
use crate::state::{
    first_sender, first_tcp, lemma_first_tcp, lemma_released_keeps, StateView, Which,
};
use crate::time::Duration;
use crate::SocketType;
use vstd::prelude::*;

verus! {

/// The packet in place `p` of what the socket in place `u` has sent is for
/// `addr`.
pub open spec fn packet_waits(s: StateView, u: int, p: int, addr: SocketAddr) -> bool {
    0 <= u < s.udp.len() && 0 <= p < s.udp[u].from_local.len() && s.udp[u].from_local[p].dest == addr
}

/// Bytes wait at the end `id`, which is at `addr`, or have arrived there by
/// `now`.
pub open spec fn bytes_wait(s: StateView, now: nat, id: usize, addr: SocketAddr) -> bool {
    s.live(id) && s.conn(id).local_addr == addr && s.conn(id).released(now).incoming.len() > 0
}

/// Something waits for the tester of number `j`: with UDP a packet that some
/// socket has sent to it, with TCP bytes at some end that is at its address.
pub open spec fn something_waits(run: RunView, s: StateView, now: nat, j: int) -> bool {
    let addr = run.testers[j].0;
    match run.testers[j].1 {
        SocketType::Udp => exists|u: int, p: int| #[trigger] packet_waits(s, u, p, addr),
        SocketType::Tcp => exists|id: usize| #[trigger] bytes_wait(s, now, id, addr),
    }
}

proof fn lemma_first_to(q: Seq<PacketView>, dest: SocketAddr, from: int)
    requires
        0 <= from,
    ensures
        match first_to(q, dest, from) {
            Some(p) => from <= p < q.len() && q[p].dest == dest && forall|j: int|
                from <= j < p ==> (#[trigger] q[j]).dest != dest,
            None => forall|j: int| from <= j < q.len() ==> (#[trigger] q[j]).dest != dest,
        },
    decreases q.len() - from,
{
    if from < q.len() {
        lemma_first_to(q, dest, from + 1);
    }
}

/// The packet that is picked up first for an address.
pub proof fn lemma_first_sender(s: StateView, addr: SocketAddr, from: int)
    requires
        0 <= from,
    ensures
        match first_sender(s.udp, addr, from) {
            Some(k) => {
                &&& from <= k < s.udp.len()
                &&& first_to(s.udp[k].from_local, addr, 0) is Some
                &&& packet_waits(s, k, first_to(s.udp[k].from_local, addr, 0)->0, addr)
                &&& forall|p: int|
                    p < first_to(s.udp[k].from_local, addr, 0)->0 ==> !#[trigger] packet_waits(
                        s,
                        k,
                        p,
                        addr,
                    )
                &&& forall|u: int, p: int|
                    from <= u < k ==> !#[trigger] packet_waits(s, u, p, addr)
            },
            None => forall|u: int, p: int| from <= u ==> !#[trigger] packet_waits(s, u, p, addr),
        },
    decreases s.udp.len() - from,
{
    if from < s.udp.len() {
        lemma_first_to(s.udp[from].from_local, addr, 0);
        lemma_first_sender(s, addr, from + 1);
    }
}

/// In a round every tester is fed: as long as something waits for one, that one
/// is fed or one before it, whatever kinds those are and whatever waits for
/// them.
pub proof fn law_every_tester_is_fed(
    run: RunView,
    s: StateView,
    now: nat,
    i: int,
    from: int,
    j: int,
)
    requires
        run.wf(),
        0 <= i <= j < run.testers.len(),
        0 <= from,
        i == j ==> from == 0,
        s.tcp.len() <= usize::MAX,
        something_waits(run, s, now, j),
    ensures
        run.feeding(s, now, i, from).step is Test,
        i <= run.feeding(s, now, i, from).step->Test_0 <= j,
    decreases run.testers.len() - i, s.tcp.len() - from,
{
    let addr = run.testers[i].0;
    match run.testers[i].1 {
        SocketType::Udp => {
            lemma_first_sender(s, addr, 0);
            if first_sender(s.udp, addr, 0) is None {
                law_every_tester_is_fed(run, s, now, i + 1, 0, j);
            }
        },
        SocketType::Tcp => {
            if i == j {
                let id = choose|id: usize| #[trigger] bytes_wait(s, now, id, addr);
                law_every_client_is_heard(run, s, now, i, 0, id);
            } else {
                match first_tcp(s.tcp, Which::At(addr), from) {
                    Some(id) => {
                        lemma_first_tcp(s.tcp, Which::At(addr), from);
                        let k = id as usize;
                        let t = s.with_tcp_released(now, k);
                        if t.conn(k).incoming.len() == 0 {
                            lemma_still_waits(run, s, now, k, j);
                            law_every_tester_is_fed(run, t, now, i, id + 1, j);
                        }
                    },
                    None => {
                        law_every_tester_is_fed(run, s, now, i + 1, 0, j);
                    },
                }
            }
        },
    }
}

proof fn lemma_still_waits(run: RunView, s: StateView, now: nat, k: usize, j: int)
    requires
        s.live(k),
        0 <= j < run.testers.len(),
        something_waits(run, s, now, j),
    ensures
        something_waits(run, s.with_tcp_released(now, k), now, j),
{
    let t = s.with_tcp_released(now, k);
    let addr = run.testers[j].0;
    match run.testers[j].1 {
        SocketType::Udp => {
            let (u, p) = choose|u: int, p: int| #[trigger] packet_waits(s, u, p, addr);
            assert(packet_waits(t, u, p, addr));
        },
        SocketType::Tcp => {
            let id = choose|id: usize| #[trigger] bytes_wait(s, now, id, addr);
            lemma_released_is_settled(s.conn(k), now);
            lemma_released_keeps(s.conn(k), now);
            assert(bytes_wait(t, now, id, addr));
        },
    }
}

/// A round comes to asking whether a tester is finished only when nothing waits
/// for any of them that could be fed.
pub proof fn law_nothing_waits_when_a_round_ends(run: RunView, s: StateView, now: nat)
    requires
        run.wf(),
        s.tcp.len() <= usize::MAX,
        !(run.feeding(s, now, 0, 0).step is Test),
    ensures
        forall|j: int| 0 <= j < run.testers.len() ==> !#[trigger] something_waits(run, s, now, j),
{
    assert forall|j: int| 0 <= j < run.testers.len() implies !#[trigger] something_waits(
        run,
        s,
        now,
        j,
    ) by {
        if something_waits(run, s, now, j) {
            law_every_tester_is_fed(run, s, now, 0, 0, j);
        }
    }
}

/// The same holds when a round goes on behind a tester that has had its turn:
/// nothing waits for those that follow it.
pub proof fn law_nothing_waits_behind_the_last_one_fed(
    run: RunView,
    s: StateView,
    now: nat,
    i: int,
    from: int,
)
    requires
        run.wf(),
        s.tcp.len() <= usize::MAX,
        0 <= i < run.testers.len(),
        0 <= from,
        !(run.feeding(s, now, i, from).step is Test),
    ensures
        forall|j: int| i < j < run.testers.len() ==> !#[trigger] something_waits(run, s, now, j),
        run.testers[i].1 == SocketType::Udp ==> !something_waits(run, s, now, i),
{
    assert forall|j: int| i < j < run.testers.len() implies !#[trigger] something_waits(
        run,
        s,
        now,
        j,
    ) by {
        if something_waits(run, s, now, j) {
            law_every_tester_is_fed(run, s, now, i, from, j);
        }
    }
    if run.testers[i].1 == SocketType::Udp {
        lemma_first_sender(s, run.testers[i].0, 0);
    }
}

/// `next` feeds its tester a packet that waited for it, with the address of its
/// sender: the first of the first socket that has one. The packet is taken from
/// there, and nothing else from anywhere.
pub open spec fn feeds_packet(run: RunView, s: StateView, next: Next, u: int, p: int) -> bool {
    let k = next.step->Test_0;
    let addr = run.testers[k].0;
    &&& packet_waits(s, u, p, addr)
    &&& next.step->Test_1 == s.udp[u].from_local[p].data
    &&& next.step->Test_2 == s.udp[u].from_local[p].source
    &&& forall|v: int, q: int| v < u || (v == u && q < p) ==> !#[trigger] packet_waits(s, v, q, addr)
    &&& next.state.udp.len() == s.udp.len()
    &&& next.state.udp[u].from_local == s.udp[u].from_local.take(p) + s.udp[u].from_local.skip(
        p + 1,
    )
    &&& next.state.udp[u].to_local == s.udp[u].to_local
    &&& forall|v: int| 0 <= v < s.udp.len() && v != u ==> #[trigger] next.state.udp[v] == s.udp[v]
    &&& next.run.did_work
}

/// `next` feeds its tester all bytes that wait at the end `id`, which is at the
/// tester's address, with the address of who sent them. The bytes stay there.
pub open spec fn feeds_bytes(run: RunView, s: StateView, now: nat, next: Next, id: usize) -> bool {
    let k = next.step->Test_0;
    let addr = run.testers[k].0;
    &&& bytes_wait(s, now, id, addr)
    &&& next.step->Test_1 == s.conn(id).released(now).incoming
    &&& next.step->Test_2 == s.conn(id).peer_addr
    &&& next.run.stage == RunStage::Feeding(k as usize, id)
    &&& next.state.udp == s.udp
    &&& next.state.live(id)
    &&& next.state.conn(id) == s.conn(id).released(now)
}

/// What a tester is fed is what waits for it.
pub proof fn law_tester_is_fed_what_waits(
    run: RunView,
    s: StateView,
    now: nat,
    i: int,
    from: int,
)
    requires
        run.wf(),
        0 <= i,
        0 <= from,
        s.tcp.len() <= usize::MAX,
        run.feeding(s, now, i, from).step is Test,
    ensures
        ({
            let next = run.feeding(s, now, i, from);
            let k = next.step->Test_0;
            &&& i <= k < run.testers.len()
            &&& next.run.testers == run.testers
            &&& match run.testers[k].1 {
                SocketType::Udp => exists|u: int, p: int| #[trigger]
                    feeds_packet(run, s, next, u, p),
                SocketType::Tcp => exists|id: usize| #[trigger] feeds_bytes(run, s, now, next, id),
            }
        }),
    decreases run.testers.len() - i, s.tcp.len() - from,
{
    let next = run.feeding(s, now, i, from);
    if i >= run.testers.len() {
        assert(false);
    }
    let addr = run.testers[i].0;
    match run.testers[i].1 {
        SocketType::Udp => {
            lemma_first_sender(s, addr, 0);
            match first_sender(s.udp, addr, 0) {
                Some(u) => {
                    let p = first_to(s.udp[u].from_local, addr, 0)->0;
                    let q = s.udp[u].from_local;
                    assert(q.remove(p) =~= q.take(p) + q.skip(p + 1));
                    assert(feeds_packet(run, s, next, u, p));
                },
                None => {
                    law_tester_is_fed_what_waits(run, s, now, i + 1, 0);
                },
            }
        },
        SocketType::Tcp => match first_tcp(s.tcp, Which::At(addr), from) {
            Some(id) => {
                lemma_first_tcp(s.tcp, Which::At(addr), from);
                let k = id as usize;
                let t = s.with_tcp_released(now, k);
                lemma_released_is_settled(s.conn(k), now);
                lemma_released_keeps(s.conn(k), now);
                assert(t.conn(k) == s.conn(k).released(now));
                if t.conn(k).incoming.len() > 0 {
                    assert(feeds_bytes(run, s, now, next, k));
                } else {
                    law_tester_is_fed_what_waits(run, t, now, i, id + 1);
                    lemma_fed_the_same(run, s, t, now, next, k);
                }
            },
            None => {
                law_tester_is_fed_what_waits(run, s, now, i + 1, 0);
            },
        },
    }
}

proof fn lemma_fed_the_same(
    run: RunView,
    s: StateView,
    t: StateView,
    now: nat,
    next: Next,
    k: usize,
)
    requires
        s.live(k),
        t == s.with_tcp_released(now, k),
        t.conn(k) == s.conn(k).released(now),
    ensures
        forall|u: int, p: int| #[trigger]
            feeds_packet(run, t, next, u, p) ==> feeds_packet(run, s, next, u, p),
        forall|id: usize| #[trigger]
            feeds_bytes(run, t, now, next, id) ==> feeds_bytes(run, s, now, next, id),
{
    lemma_released_is_settled(s.conn(k), now);
    lemma_released_keeps(s.conn(k), now);
    assert forall|u: int, p: int| #[trigger] feeds_packet(run, t, next, u, p) implies feeds_packet(
        run,
        s,
        next,
        u,
        p,
    ) by {
        let addr = run.testers[next.step->Test_0].0;
        assert forall|v: int, q: int| v < u || (v == u && q < p) implies !#[trigger] packet_waits(
            s,
            v,
            q,
            addr,
        ) by {
            assert(!packet_waits(t, v, q, addr));
        }
    }
}

/// What a tester has used of a stream is gone from its front. Where something is
/// left it is fed that next, from the same end and with the same sender.
pub proof fn law_used_bytes_are_gone(run: RunView, s: StateView, now: nat, used: usize)
    requires
        run.wf(),
        run.stage is Feeding,
        run.testers[run.stage->Feeding_0 as int].1 == SocketType::Tcp,
        s.live(run.stage->Feeding_1),
        s.conn(run.stage->Feeding_1).local_addr == run.testers[run.stage->Feeding_0 as int].0,
        !s.conn(run.stage->Feeding_1).due(now),
        0 < used < s.conn(run.stage->Feeding_1).incoming.len(),
    ensures
        ({
            let i = run.stage->Feeding_0;
            let id = run.stage->Feeding_1;
            let next = run.next(s, now, RunEvent::Tested(Some(used)));
            &&& next.step == StepView::Test(
                i as int,
                s.conn(id).incoming.skip(used as int),
                s.conn(id).peer_addr,
            )
            &&& next.state.conn(id).incoming == s.conn(id).incoming.skip(used as int)
            &&& next.run.stage == run.stage
            &&& next.run.did_work
        }),
{
    let i = run.stage->Feeding_0 as int;
    let id = run.stage->Feeding_1;
    let t = s.with_consumed(id, used as nat);
    let r2 = RunView { did_work: true, ..run };
    lemma_released_is_settled(t.conn(id), now);
    assert(first_tcp(t.tcp, Which::At(run.testers[i].0), id as int) == Some(id as int));
    assert(t.with_tcp_released(now, id) == t);
}

/// A tester that used nothing of a stream is not fed it again in this round:
/// what is fed next comes from a younger end or is for a later tester.
pub proof fn law_unused_bytes_are_left(run: RunView, s: StateView, now: nat, used: Option<usize>)
    requires
        run.wf(),
        run.stage is Feeding,
        run.testers[run.stage->Feeding_0 as int].1 == SocketType::Tcp,
        used matches Some(n) ==> n == 0,
        s.tcp.len() <= usize::MAX,
    ensures
        ({
            let next = run.next(s, now, RunEvent::Tested(used));
            &&& next.run.stage matches RunStage::Feeding(k, end) ==> k > run.stage->Feeding_0 || end
                > run.stage->Feeding_1
            &&& next.state.conn(run.stage->Feeding_1).incoming.len() >= s.conn(
                run.stage->Feeding_1,
            ).incoming.len() || !s.live(run.stage->Feeding_1)
        }),
{
    let i = run.stage->Feeding_0 as int;
    let id = run.stage->Feeding_1;
    lemma_feeding_moves_on(run, s, now, i, id + 1);
}

proof fn lemma_feeding_moves_on(run: RunView, s: StateView, now: nat, i: int, from: int)
    requires
        run.testers.len() <= usize::MAX,
        s.tcp.len() <= usize::MAX,
        0 <= i,
        0 <= from,
        run.stage is Feeding,
    ensures
        ({
            let next = run.feeding(s, now, i, from);
            &&& next.run.stage matches RunStage::Feeding(k, end) ==> k > i || (k == i && (
            run.testers[i].1 == SocketType::Tcp ==> end >= from))
            &&& forall|id: usize| #[trigger]
                s.live(id) ==> next.state.conn(id).incoming.len() >= s.conn(id).incoming.len()
        }),
    decreases run.testers.len() - i, s.tcp.len() - from,
{
    if i < run.testers.len() {
        let addr = run.testers[i].0;
        match run.testers[i].1 {
            SocketType::Udp => {
                if first_sender(s.udp, addr, 0) is None {
                    lemma_feeding_moves_on(run, s, now, i + 1, 0);
                }
            },
            SocketType::Tcp => match first_tcp(s.tcp, Which::At(addr), from) {
                Some(id) => {
                    lemma_first_tcp(s.tcp, Which::At(addr), from);
                    let k = id as usize;
                    let t = s.with_tcp_released(now, k);
                    lemma_released_grows(s.conn(k), now);
                    if t.conn(k).incoming.len() == 0 {
                        lemma_feeding_moves_on(run, t, now, i, id + 1);
                        assert forall|id: usize| #[trigger] s.live(id) implies run.feeding(
                            s,
                            now,
                            i,
                            from,
                        ).state.conn(id).incoming.len() >= s.conn(id).incoming.len() by {
                            assert(t.live(id));
                        }
                    }
                },
                None => {
                    lemma_feeding_moves_on(run, s, now, i + 1, 0);
                },
            },
        }
    }
}

proof fn lemma_released_grows(c: TcpView, now: nat)
    ensures
        c.released(now).incoming.len() >= c.incoming.len(),
    decreases c.pending.len(),
{
    if c.due(now) {
        lemma_released_grows(
            TcpView {
                incoming: c.incoming + c.pending[0].data,
                pending: c.pending.drop_first(),
                ..c
            },
            now,
        );
    }
}

/// A round begins with the recurring actions of the first tester, goes on with
/// those of each other in turn, and then to feeding. It asks each tester in turn
/// whether it is finished; where none is and the round did something, the next
/// one follows at once; where it did nothing, each is asked in turn when its
/// next action is due.
pub proof fn law_round_visits_every_tester(run: RunView, s: StateView, now: nat)
    requires
        run.wf(),
    ensures
        run.stage is Idle && run.testers.len() > 0 ==> {
            let next = run.next(s, now, RunEvent::Begin);
            next.step == StepView::RunCycles(0) && next.state == s && !next.run.did_work
                && next.run.stage == RunStage::Cycling(0) && next.run.testers == run.testers
        },
        run.stage matches RunStage::Cycling(i) ==> {
            let next = run.next(s, now, RunEvent::CyclesRun);
            if i + 1 < run.testers.len() {
                next.step == StepView::RunCycles(i + 1) && next.state == s && next.run.stage
                    == RunStage::Cycling((i + 1) as usize)
            } else {
                next == run.feeding(s, now, 0, 0)
            }
        },
        run.stage matches RunStage::Finishing(i) ==> {
            let next = run.next(s, now, RunEvent::Finished(false));
            &&& next.state == s
            &&& if i + 1 < run.testers.len() {
                next.step == StepView::AskFinished(i + 1) && next.run.stage == RunStage::Finishing(
                    (i + 1) as usize,
                )
            } else if run.did_work {
                next.step == StepView::Continue && next.run.stage == RunStage::Idle
            } else {
                next.step == StepView::AskSoonest(0) && next.run.stage == RunStage::Asking(0)
                    && next.run.soonest is None
            }
        },
        run.stage matches RunStage::Finishing(i) ==> run.next(
            s,
            now,
            RunEvent::Finished(true),
        ).step == StepView::Over,
        run.stage matches RunStage::Asking(i) ==> (forall|d: Option<Duration>|
            i + 1 < run.testers.len() ==> #[trigger] run.next(s, now, RunEvent::Soonest(d)).step
                == StepView::AskSoonest(i + 1)),
{
}

/// A run that has nothing to wait for looks again after ten milliseconds. What a
/// tester said of its next action is kept if it is the soonest.
pub proof fn law_idle_run_looks_again_soon(run: RunView, s: StateView, now: nat, d: Option<Duration>)
    requires
        run.wf(),
        run.stage is Asking,
    ensures
        run.stage->Asking_0 == run.testers.len() - 1 && d is None && run.soonest is None
            && s.earliest() is None ==> run.next(s, now, RunEvent::Soonest(d)).step
            == StepView::Wait(10_000_000),
        run.stage->Asking_0 + 1 < run.testers.len() ==> {
            let kept = run.next(s, now, RunEvent::Soonest(d)).run.soonest;
            &&& run.soonest is Some ==> kept is Some && kept->0 <= run.soonest->0
            &&& d is Some ==> kept is Some && kept->0 <= d->0@
            &&& kept is Some ==> run.soonest == kept || (d is Some && d->0@ == kept->0)
        },
{
}

/// A tester that used nothing of one stream is still fed the others that have
/// something for it, from the younger ends.
pub proof fn law_other_clients_are_heard_too(
    run: RunView,
    s: StateView,
    now: nat,
    used: Option<usize>,
    id: usize,
)
    requires
        run.wf(),
        run.stage is Feeding,
        run.testers[run.stage->Feeding_0 as int].1 == SocketType::Tcp,
        used matches Some(n) ==> n == 0,
        run.stage->Feeding_1 < id,
        bytes_wait(s, now, id, run.testers[run.stage->Feeding_0 as int].0),
    ensures
        run.next(s, now, RunEvent::Tested(used)).step is Test,
        run.next(s, now, RunEvent::Tested(used)).step->Test_0 == run.stage->Feeding_0,
{
    let i = run.stage->Feeding_0 as int;
    law_every_client_is_heard(run, s, now, i, run.stage->Feeding_1 + 1, id);
}

/// A tester is fed all packets that wait for it, one after the other, before the
/// next tester has its turn.
pub proof fn law_all_packets_are_fed(run: RunView, s: StateView, now: nat, used: Option<usize>)
    requires
        run.wf(),
        run.stage is Feeding,
        run.testers[run.stage->Feeding_0 as int].1 == SocketType::Udp,
        something_waits(run, s, now, run.stage->Feeding_0 as int),
    ensures
        run.next(s, now, RunEvent::Tested(used)).step is Test,
        run.next(s, now, RunEvent::Tested(used)).step->Test_0 == run.stage->Feeding_0,
{
    lemma_first_sender(s, run.testers[run.stage->Feeding_0 as int].0, 0);
}

/// Whoever had their turn, those who follow have theirs: what waits for a later
/// tester is fed before the round ends.
pub proof fn law_later_testers_have_their_turn(
    run: RunView,
    s: StateView,
    now: nat,
    used: Option<usize>,
    j: int,
)
    requires
        run.wf(),
        run.stage is Feeding,
        run.stage->Feeding_0 < j < run.testers.len(),
        s.tcp.len() <= usize::MAX,
        something_waits(run, s, now, j),
        used matches Some(n) ==> n == 0,
    ensures
        run.next(s, now, RunEvent::Tested(used)).step is Test,
        run.next(s, now, RunEvent::Tested(used)).step->Test_0 <= j,
{
    let i = run.stage->Feeding_0 as int;
    match run.testers[i].1 {
        SocketType::Udp => {
            law_every_tester_is_fed(run, s, now, i, 0, j);
        },
        SocketType::Tcp => {
            law_every_tester_is_fed(run, s, now, i, run.stage->Feeding_1 + 1, j);
        },
    }
}

/// A run that waits waits for the first thing that is due: the recurring action
/// that its testers named as the soonest, or the arrival of what is on its way.
pub proof fn law_run_waits_for_the_first_thing_due(
    run: RunView,
    s: StateView,
    now: nat,
    d: Option<Duration>,
)
    requires
        run.wf(),
        run.stage == RunStage::Asking((run.testers.len() - 1) as usize),
    ensures
        run.next(s, now, RunEvent::Soonest(d)).step matches StepView::Wait(span) ==> {
            ||| run.soonest == Some(span)
            ||| d is Some && d->0@ == span
            ||| s.earliest() is Some && s.earliest()->0 == now + span
            ||| run.soonest is None && d is None && s.earliest() is None
        },
        run.next(s, now, RunEvent::Soonest(d)).run.stage is Idle,
        run.next(s, now, RunEvent::Soonest(d)).state == s,
{
}

} // verus!
