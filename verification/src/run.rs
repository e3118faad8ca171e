//! Running testers: in which order they get to act, and how long to wait when
//! there is nothing to do.

use crate::addr::SocketAddr;
use crate::conn::first_to;
use crate::conn::UdpView;
use crate::state::{
    consume_tcp_stream_data, earliest_pending_release, first_sender, first_tcp, lemma_first_tcp,
    lemma_released_keeps, peek_tcp_stream_data, pop_latest_packet, release_pending_for_tcp, sooner,
    tcp_connection_peer_addr, Now, StateView, TestState, Which,
};
use crate::time::{elapsed_between, Duration};
use crate::SocketType;
use vstd::prelude::*;

verus! {

/// How long to wait, in nanoseconds, when nothing says so.
pub const IDLE_NANOS: u128 = 10_000_000;

/// Where a run stands.
#[derive(Clone, Copy, Debug, PartialEq, Eq, Structural)]
pub enum RunStage {
    /// A round is about to begin.
    Idle,
    /// The recurring actions of this tester are being run.
    Cycling(usize),
    /// This tester is being fed. With TCP, from this end of its connections.
    Feeding(usize, usize),
    /// This tester has been asked whether it is finished.
    Finishing(usize),
    /// This tester has been asked when its next recurring action is due.
    Asking(usize),
    /// A tester is finished.
    Over,
}

/// What has happened.
#[derive(Clone, Copy, Debug)]
pub enum RunEvent {
    /// A round can begin: at first, after a wait, or because a step said so.
    Begin,
    /// The recurring actions that were due have been run.
    CyclesRun,
    /// The tester has been fed. For TCP: how many bytes it used.
    Tested(Option<usize>),
    /// Whether the tester is finished.
    Finished(bool),
    /// The time until its next recurring action is due.
    Soonest(Option<Duration>),
}

/// What to do.
#[derive(Debug)]
pub enum RunStep {
    /// Run the recurring actions of this tester that are due.
    RunCycles(usize),
    /// Feed this tester bytes that came from the given address.
    Test(usize, Vec<u8>, SocketAddr),
    /// Ask this tester whether it is finished.
    AskFinished(usize),
    /// Ask this tester when its next recurring action is due.
    AskSoonest(usize),
    /// Begin the next round.
    Continue,
    /// Wait until something happens, but not longer than this. Then begin the
    /// next round.
    Wait(Duration),
    /// The run is over.
    Over,
}

pub enum StepView {
    RunCycles(int),
    Test(int, Seq<u8>, SocketAddr),
    AskFinished(int),
    AskSoonest(int),
    Continue,
    Wait(nat),
    Over,
}

impl RunStep {
    pub open spec fn view(&self) -> StepView {
        match *self {
            RunStep::RunCycles(i) => StepView::RunCycles(i as int),
            RunStep::Test(i, data, src) => StepView::Test(i as int, data@, src),
            RunStep::AskFinished(i) => StepView::AskFinished(i as int),
            RunStep::AskSoonest(i) => StepView::AskSoonest(i as int),
            RunStep::Continue => StepView::Continue,
            RunStep::Wait(d) => StepView::Wait(d@),
            RunStep::Over => StepView::Over,
        }
    }
}

/// A run: who takes part, where it stands, whether this round did anything, and
/// the time until the first recurring action is due, as far as testers have been
/// asked.
pub struct RunView {
    pub testers: Seq<(SocketAddr, SocketType)>,
    pub stage: RunStage,
    pub did_work: bool,
    pub soonest: Option<nat>,
}

/// What a span is long, where there is one.
pub open spec fn nanos(d: Option<Duration>) -> Option<nat> {
    match d {
        Some(d) => Some(d@),
        None => None,
    }
}

/// Two testers share an address and a socket type.
pub open spec fn overlap(testers: Seq<(SocketAddr, SocketType)>) -> bool {
    exists|i: int, j: int|
        0 <= i < j < testers.len() && #[trigger] testers[i] == #[trigger] testers[j]
}

/// What follows: the run, the network, and what to do.
pub struct Next {
    pub run: RunView,
    pub state: StateView,
    pub step: StepView,
}

impl RunView {
    pub open spec fn wf(self) -> bool {
        &&& self.testers.len() <= usize::MAX
        &&& match self.stage {
            RunStage::Cycling(i) => i < self.testers.len(),
            RunStage::Feeding(i, id) => i < self.testers.len() && id < usize::MAX,
            RunStage::Finishing(i) => i < self.testers.len(),
            RunStage::Asking(i) => i < self.testers.len() && !self.did_work,
            _ => true,
        }
    }

    /// Whether `event` can happen here.
    pub open spec fn expects(self, event: RunEvent) -> bool {
        match (self.stage, event) {
            (RunStage::Idle, RunEvent::Begin) => true,
            (RunStage::Cycling(_), RunEvent::CyclesRun) => true,
            (RunStage::Feeding(_, _), RunEvent::Tested(_)) => true,
            (RunStage::Finishing(_), RunEvent::Finished(_)) => true,
            (RunStage::Asking(_), RunEvent::Soonest(_)) => true,
            _ => false,
        }
    }

    /// From tester `i` on, the recurring actions have not been run.
    pub open spec fn cycling(self, s: StateView, now: nat, i: int) -> Next {
        if 0 <= i < self.testers.len() {
            Next {
                run: RunView { stage: RunStage::Cycling(i as usize), ..self },
                state: s,
                step: StepView::RunCycles(i),
            }
        } else {
            self.feeding(s, now, 0, 0)
        }
    }

    /// From tester `i` on, there may be something to feed; with TCP, from the end
    /// `from` on. A datagram is taken away as it is fed, the bytes of a stream
    /// once they are used. Each connection to a tester is fed by itself.
    pub open spec fn feeding(self, s: StateView, now: nat, i: int, from: int) -> Next
        decreases self.testers.len() - i, s.tcp.len() - from,
    {
        if i < 0 || i >= self.testers.len() {
            self.finishing(s, now, 0)
        } else {
            let addr = self.testers[i].0;
            match self.testers[i].1 {
                SocketType::Udp => match first_sender(s.udp, addr, 0) {
                    Some(k) => {
                        let u = s.udp[k];
                        let p = first_to(u.from_local, addr, 0)->0;
                        Next {
                            run: RunView {
                                stage: RunStage::Feeding(i as usize, 0),
                                did_work: true,
                                ..self
                            },
                            state: s.with_udp(
                                k,
                                UdpView { from_local: u.from_local.remove(p), ..u },
                            ),
                            step: StepView::Test(i, u.from_local[p].data, u.from_local[p].source),
                        }
                    },
                    None => self.feeding(s, now, i + 1, 0),
                },
                SocketType::Tcp => match first_tcp(s.tcp, Which::At(addr), from) {
                    Some(id) => {
                        let t = s.with_tcp_released(now, id as usize);
                        let c = t.conn(id as usize);
                        if c.incoming.len() > 0 {
                            Next {
                                run: RunView {
                                    stage: RunStage::Feeding(i as usize, id as usize),
                                    ..self
                                },
                                state: t,
                                step: StepView::Test(i, c.incoming, c.peer_addr),
                            }
                        } else {
                            proof {
                                lemma_first_tcp(s.tcp, Which::At(addr), from);
                            }
                            self.feeding(t, now, i, id + 1)
                        }
                    },
                    None => self.feeding(s, now, i + 1, 0),
                },
            }
        }
    }

    /// From tester `i` on, none has been asked whether it is finished. Where a
    /// round did something, the next one follows at once.
    pub open spec fn finishing(self, s: StateView, now: nat, i: int) -> Next {
        if 0 <= i < self.testers.len() {
            Next {
                run: RunView { stage: RunStage::Finishing(i as usize), ..self },
                state: s,
                step: StepView::AskFinished(i),
            }
        } else if self.did_work {
            Next {
                run: RunView { stage: RunStage::Idle, ..self },
                state: s,
                step: StepView::Continue,
            }
        } else {
            RunView { soonest: None, ..self }.asking(s, now, 0)
        }
    }

    /// From tester `i` on, none has been asked when its next recurring action is
    /// due.
    pub open spec fn asking(self, s: StateView, now: nat, i: int) -> Next {
        if 0 <= i < self.testers.len() {
            Next {
                run: RunView { stage: RunStage::Asking(i as usize), ..self },
                state: s,
                step: StepView::AskSoonest(i),
            }
        } else {
            self.waiting(s, now)
        }
    }

    /// The time until something is due: a recurring action, or the arrival of
    /// what is on its way.
    pub open spec fn patience(self, s: StateView, now: nat) -> nat {
        let arrival = match s.earliest() {
            Some(at) => Some(elapsed_between(now, at)),
            None => None,
        };
        match sooner(self.soonest, arrival) {
            Some(d) => d,
            None => IDLE_NANOS as nat,
        }
    }

    /// All testers have been asked everything.
    pub open spec fn waiting(self, s: StateView, now: nat) -> Next {
        Next {
            run: RunView { stage: RunStage::Idle, ..self },
            state: s,
            step: if self.patience(s, now) > 0 {
                StepView::Wait(self.patience(s, now))
            } else {
                StepView::Continue
            },
        }
    }

    /// What follows `event`.
    pub open spec fn next(self, s: StateView, now: nat, event: RunEvent) -> Next {
        match (self.stage, event) {
            (RunStage::Cycling(i), RunEvent::CyclesRun) => self.cycling(s, now, i + 1),
            (RunStage::Feeding(i, id), RunEvent::Tested(used)) => match self.testers[i as int].1 {
                SocketType::Udp => self.feeding(s, now, i as int, 0),
                SocketType::Tcp => match used {
                    Some(n) if n > 0 => RunView { did_work: true, ..self }.feeding(
                        s.with_consumed(id, n as nat),
                        now,
                        i as int,
                        id as int,
                    ),
                    _ => self.feeding(s, now, i as int, id + 1),
                },
            },
            (RunStage::Finishing(_), RunEvent::Finished(true)) => Next {
                run: RunView { stage: RunStage::Over, ..self },
                state: s,
                step: StepView::Over,
            },
            (RunStage::Finishing(i), RunEvent::Finished(false)) => self.finishing(s, now, i + 1),
            (RunStage::Asking(i), RunEvent::Soonest(d)) => RunView {
                soonest: sooner(self.soonest, nanos(d)),
                ..self
            }.asking(s, now, i + 1),
            _ => RunView { did_work: false, ..self }.cycling(s, now, 0),
        }
    }
}

/// The sooner of two times, where there are any.
fn sooner_of(a: Option<Duration>, b: Option<Duration>) -> (r: Option<Duration>)
    ensures
        nanos(r) == sooner(nanos(a), nanos(b)),
{
    match (a, b) {
        (Some(x), Some(y)) => if y < x {
            Some(y)
        } else {
            Some(x)
        },
        (Some(x), None) => Some(x),
        (None, y) => y,
    }
}

/// Testers that run together.
pub struct RunLoop {
    testers: Vec<(SocketAddr, SocketType)>,
    stage: RunStage,
    did_work: bool,
    soonest: Option<Duration>,
}

impl RunLoop {
    pub closed spec fn view(&self) -> RunView {
        RunView {
            testers: self.testers@,
            stage: self.stage,
            did_work: self.did_work,
            soonest: nanos(self.soonest),
        }
    }

    /// A run of testers, which are given by their addresses and socket types.
    /// `None` if two of them overlap.
    pub fn new(testers: Vec<(SocketAddr, SocketType)>) -> (r: Option<RunLoop>)
        ensures
            match r {
                Some(run) => !overlap(testers@) && run@.wf() && run@ == (RunView {
                    testers: testers@,
                    stage: RunStage::Idle,
                    did_work: false,
                    soonest: None,
                }),
                None => overlap(testers@),
            },
    {
        let mut i: usize = 0;
        while i < testers.len()
            invariant
                i <= testers@.len(),
                forall|a: int, b: int|
                    0 <= a < i && a < b < testers@.len() ==> #[trigger] testers@[a]
                        != #[trigger] testers@[b],
            decreases testers@.len() - i,
        {
            let mut j: usize = i + 1;
            while j < testers.len()
                invariant
                    i < j <= testers@.len(),
                    forall|b: int| i < b < j ==> testers@[i as int] != #[trigger] testers@[b],
                decreases testers@.len() - j,
            {
                if testers[i].0 == testers[j].0 && testers[i].1 == testers[j].1 {
                    assert(testers@[i as int] == testers@[j as int]);
                    return None;
                }
                j += 1;
            }
            i += 1;
        }
        Some(RunLoop { testers, stage: RunStage::Idle, did_work: false, soonest: None })
    }

    fn cycling(&mut self, st: &mut TestState, now: Now, i: usize) -> (r: RunStep)
        requires
            old(st)@.wf(),
        ensures
            r@ == old(self)@.cycling(old(st)@, now.mono@, i as int).step,
            final(self)@ == old(self)@.cycling(old(st)@, now.mono@, i as int).run,
            final(st)@ == old(self)@.cycling(old(st)@, now.mono@, i as int).state,
            final(self)@.wf(),
            final(st)@.wf(),
    {
        if i < self.testers.len() {
            self.stage = RunStage::Cycling(i);
            RunStep::RunCycles(i)
        } else {
            self.feeding(st, now, 0, 0)
        }
    }

    fn feeding(&mut self, st: &mut TestState, now: Now, from: usize, from_end: usize) -> (r:
        RunStep)
        requires
            old(st)@.wf(),
        ensures
            r@ == old(self)@.feeding(old(st)@, now.mono@, from as int, from_end as int).step,
            final(self)@ == old(self)@.feeding(
                old(st)@,
                now.mono@,
                from as int,
                from_end as int,
            ).run,
            final(st)@ == old(self)@.feeding(
                old(st)@,
                now.mono@,
                from as int,
                from_end as int,
            ).state,
            final(self)@.wf(),
            final(st)@.wf(),
    {
        let mut i: usize = from;
        let mut end: usize = from_end;
        let ghost wanted = self@.feeding(st@, now.mono@, from as int, from_end as int);
        while i < self.testers.len()
            invariant
                st@.wf(),
                *self == *old(self),
                wanted == self@.feeding(st@, now.mono@, i as int, end as int),
                wanted == old(self)@.feeding(
                    old(st)@,
                    now.mono@,
                    from as int,
                    from_end as int,
                ),
            decreases self.testers@.len() - i, st@.tcp.len() - end,
        {
            let addr = self.testers[i].0;
            match self.testers[i].1 {
                SocketType::Udp => {
                    match pop_latest_packet(st, addr) {
                        Some(pkt) => {
                            self.did_work = true;
                            self.stage = RunStage::Feeding(i, 0);
                            return RunStep::Test(i, pkt.data, pkt.source);
                        },
                        None => {},
                    }
                    i += 1;
                    end = 0;
                },
                SocketType::Tcp => match st.find_tcp_from(Which::At(addr), end) {
                    Some(id) => {
                        release_pending_for_tcp(st, now, id);
                        let data = peek_tcp_stream_data(st, id);
                        if data.len() > 0 {
                            let src = tcp_connection_peer_addr(st, id);
                            self.stage = RunStage::Feeding(i, id);
                            return RunStep::Test(i, data, src);
                        }
                        end = id + 1;
                    },
                    None => {
                        i += 1;
                        end = 0;
                    },
                },
            }
        }
        self.finishing(st, now, 0)
    }

    fn finishing(&mut self, st: &TestState, now: Now, i: usize) -> (r: RunStep)
        ensures
            r@ == old(self)@.finishing(st@, now.mono@, i as int).step,
            final(self)@ == old(self)@.finishing(st@, now.mono@, i as int).run,
            final(self)@.wf(),
    {
        if i < self.testers.len() {
            self.stage = RunStage::Finishing(i);
            RunStep::AskFinished(i)
        } else if self.did_work {
            self.stage = RunStage::Idle;
            RunStep::Continue
        } else {
            self.soonest = None;
            self.asking(st, now, 0)
        }
    }

    fn asking(&mut self, st: &TestState, now: Now, i: usize) -> (r: RunStep)
        requires
            !old(self)@.did_work,
        ensures
            r@ == old(self)@.asking(st@, now.mono@, i as int).step,
            final(self)@ == old(self)@.asking(st@, now.mono@, i as int).run,
            final(self)@.wf(),
    {
        if i < self.testers.len() {
            self.stage = RunStage::Asking(i);
            RunStep::AskSoonest(i)
        } else {
            let arrival = match earliest_pending_release(st) {
                Some(at) => Some(at.saturating_duration_since(now.mono)),
                None => None,
            };
            let patience = match sooner_of(self.soonest, arrival) {
                Some(d) => d,
                None => Duration::from_millis(10),
            };
            self.stage = RunStage::Idle;
            if patience > Duration::zero() {
                RunStep::Wait(patience)
            } else {
                RunStep::Continue
            }
        }
    }

    /// What to do after `event`.
    pub fn step(&mut self, st: &mut TestState, now: Now, event: RunEvent) -> (r: RunStep)
        requires
            old(st)@.wf(),
            old(self)@.wf(),
            old(self)@.expects(event),
        ensures
            r@ == old(self)@.next(old(st)@, now.mono@, event).step,
            final(self)@ == old(self)@.next(old(st)@, now.mono@, event).run,
            final(st)@ == old(self)@.next(old(st)@, now.mono@, event).state,
            final(self)@.wf(),
            final(st)@.wf(),
    {
        match (self.stage, event) {
            (RunStage::Cycling(i), RunEvent::CyclesRun) => self.cycling(st, now, i + 1),
            (RunStage::Feeding(i, id), RunEvent::Tested(used)) => match self.testers[i].1 {
                SocketType::Udp => self.feeding(st, now, i, 0),
                SocketType::Tcp => match used {
                    Some(n) if n > 0 => {
                        consume_tcp_stream_data(st, id, n);
                        self.did_work = true;
                        self.feeding(st, now, i, id)
                    },
                    _ => self.feeding(st, now, i, id + 1),
                },
            },
            (RunStage::Finishing(i), RunEvent::Finished(finished)) => if finished {
                self.stage = RunStage::Over;
                RunStep::Over
            } else {
                self.finishing(st, now, i + 1)
            },
            (RunStage::Asking(i), RunEvent::Soonest(d)) => {
                self.soonest = sooner_of(self.soonest, d);
                self.asking(st, now, i + 1)
            },
            _ => {
                self.did_work = false;
                self.cycling(st, now, 0)
            },
        }
    }
}

/// A run ends when, and only when, a tester says that it is finished.
pub proof fn law_run_ends_when_a_tester_finishes(
    run: RunView,
    s: StateView,
    now: nat,
    event: RunEvent,
)
    requires
        run.wf(),
        run.expects(event),
    ensures
        run.next(s, now, event).step is Over <==> event == RunEvent::Finished(true),
{
    lemma_steps(run, s, now, event);
}

/// A run waits only after a round in which no tester was fed anything.
pub proof fn law_run_waits_when_idle(run: RunView, s: StateView, now: nat, event: RunEvent)
    requires
        run.wf(),
        run.expects(event),
    ensures
        run.next(s, now, event).step is Wait ==> !run.next(s, now, event).run.did_work,
{
    lemma_steps(run, s, now, event);
}

proof fn lemma_steps(run: RunView, s: StateView, now: nat, event: RunEvent)
    requires
        run.wf(),
        run.expects(event),
    ensures
        run.next(s, now, event).step is Over <==> event == RunEvent::Finished(true),
        run.next(s, now, event).step is Wait ==> !run.next(s, now, event).run.did_work,
{
    lemma_feeding_goes_on(run, s, now, 0, 0);
    lemma_feeding_goes_on(RunView { did_work: false, ..run }, s, now, 0, 0);
    match (run.stage, event) {
        (RunStage::Feeding(i, id), RunEvent::Tested(used)) => {
            lemma_feeding_goes_on(run, s, now, i as int, 0);
            lemma_feeding_goes_on(run, s, now, i as int, id + 1);
            if let Some(n) = used {
                lemma_feeding_goes_on(
                    RunView { did_work: true, ..run },
                    s.with_consumed(id, n as nat),
                    now,
                    i as int,
                    id as int,
                );
            }
        },
        _ => {},
    }
}

proof fn lemma_feeding_goes_on(run: RunView, s: StateView, now: nat, i: int, from: int)
    ensures
        !(run.feeding(s, now, i, from).step is Over),
        run.feeding(s, now, i, from).step is Wait ==> !run.feeding(s, now, i, from).run.did_work,
    decreases run.testers.len() - i, s.tcp.len() - from,
{
    if 0 <= i < run.testers.len() {
        lemma_feeding_goes_on(run, s, now, i + 1, 0);
        let which = Which::At(run.testers[i].0);
        match first_tcp(s.tcp, which, from) {
            Some(id) => {
                lemma_first_tcp(s.tcp, which, from);
                lemma_feeding_goes_on(
                    run,
                    s.with_tcp_released(now, id as usize),
                    now,
                    i,
                    id + 1,
                );
            },
            None => {},
        }
    }
}

proof fn lemma_first_is_no_later(s: StateView, which: Which, from: int, id: usize)
    requires
        0 <= from <= id,
        s.live(id),
        which.is(s.conn(id)),
    ensures
        first_tcp(s.tcp, which, from) is Some,
        first_tcp(s.tcp, which, from)->0 <= id,
    decreases id - from,
{
    if from < id {
        lemma_first_is_no_later(s, which, from + 1, id);
    }
}

/// Every connection to a tester is heard: as long as bytes wait at one of its
/// ends, or have arrived there, the tester is fed, from an older end or from
/// this one, whatever the older ones hold. From this one it is fed those bytes,
/// with the address of their own sender.
pub proof fn law_every_client_is_heard(
    run: RunView,
    s: StateView,
    now: nat,
    i: int,
    from: int,
    id: usize,
)
    requires
        run.wf(),
        0 <= i < run.testers.len(),
        run.testers[i].1 == SocketType::Tcp,
        0 <= from <= id,
        s.live(id),
        s.conn(id).local_addr == run.testers[i].0,
        s.conn(id).released(now).incoming.len() > 0,
    ensures
        ({
            let next = run.feeding(s, now, i, from);
            &&& next.step is Test
            &&& next.step->Test_0 == i
            &&& next.run.stage matches RunStage::Feeding(fed, end)
            &&& fed == i
            &&& from <= end <= id
            &&& end == id ==> next.step == StepView::Test(
                i,
                s.conn(id).released(now).incoming,
                s.conn(id).peer_addr,
            )
        }),
    decreases id - from,
{
    let which = Which::At(run.testers[i].0);
    lemma_first_is_no_later(s, which, from, id);
    lemma_first_tcp(s.tcp, which, from);
    let k = first_tcp(s.tcp, which, from)->0 as usize;
    let t = s.with_tcp_released(now, k);
    lemma_released_keeps(s.conn(k), now);
    if t.conn(k).incoming.len() == 0 {
        law_every_client_is_heard(run, t, now, i, k + 1, id);
    }
}

/// A run never waits past the time at which something is due: no recurring
/// action of any tester that was asked, and nothing that is on its way. Where
/// something is due now it goes on at once.
pub proof fn law_wait_misses_nothing(run: RunView, s: StateView, now: nat, d: Option<Duration>)
    requires
        run.wf(),
        run.stage == RunStage::Asking((run.testers.len() - 1) as usize),
    ensures
        ({
            let next = run.next(s, now, RunEvent::Soonest(d));
            match next.step {
                StepView::Wait(span) => {
                    &&& span > 0
                    &&& run.soonest is Some ==> span <= run.soonest->0
                    &&& d is Some ==> span <= d->0@
                    &&& s.earliest() is Some ==> now + span <= s.earliest()->0
                    &&& run.soonest is None && d is None && s.earliest() is None ==> span
                        == IDLE_NANOS
                },
                StepView::Continue => {
                    ||| run.soonest == Some(0nat)
                    ||| d is Some && d->0@ == 0
                    ||| s.earliest() is Some && s.earliest()->0 <= now
                },
                _ => false,
            }
        }),
{
}

} // verus!
