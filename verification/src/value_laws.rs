//! What holds of spans, readings, addresses and rates.

use crate::addr::{IpAddr, Ipv4Addr, Ipv6Addr, SocketAddr};
use crate::bytes::{be_bytes, be_value};
use crate::clock::TimeRate;
use crate::conn::UdpConfigs;
use crate::error::{Error, ErrorKind};
use crate::mio_shim::{Event, Events, Iter, Token};
use crate::rng::Probability;
use crate::run::RunLoop;
use crate::time::{Duration, Instant, SystemTime, SystemTimeError, MAX_NANOS};
use crate::SocketType;
use vstd::prelude::*;

verus! {

// ----- Spans -----

/// A second is a thousand milliseconds and a thousand million nanoseconds, and
/// each unit is read back.
pub proof fn law_units_agree(
    n: u64,
    seconds: Duration,
    millis: Duration,
    nanos: Duration,
    secs_back: u64,
    micros_back: u128,
    nanos_back: u128,
)
    requires
        call_ensures(Duration::from_secs, (n,), seconds),
        call_ensures(Duration::from_millis, (n,), millis),
        call_ensures(Duration::from_nanos, (n,), nanos),
        call_ensures(Duration::as_secs, (&seconds,), secs_back),
        call_ensures(Duration::as_micros, (&millis,), micros_back),
        call_ensures(Duration::as_nanos, (&nanos,), nanos_back),
    ensures
        seconds@ == 1_000 * millis@,
        millis@ == 1_000_000 * nanos@,
        secs_back == n,
        micros_back == 1_000 * n,
        nanos_back == n,
{
}

/// What is added can be taken away again, and what is taken away was no more than
/// there was. Sums that are too long are none, or the longest span.
pub proof fn law_sum_is_undone(
    a: Duration,
    b: Duration,
    sum: Option<Duration>,
    rest: Option<Duration>,
    most: Duration,
    least: Duration,
)
    requires
        call_ensures(Duration::checked_add, (a, b), sum),
        sum is Some ==> call_ensures(Duration::checked_sub, (sum->0, b), rest),
        call_ensures(Duration::saturating_add, (a, b), most),
        call_ensures(Duration::saturating_sub, (a, b), least),
    ensures
        sum is Some <==> a@ + b@ <= MAX_NANOS,
        sum is Some ==> rest is Some && rest->0@ == a@,
        sum matches Some(s) ==> s@ == a@ + b@ && most@ == s@,
        sum is None ==> most@ == MAX_NANOS,
        a@ >= b@ ==> least@ + b@ == a@,
        a@ < b@ ==> least@ == 0,
{
}

/// The shorter of two spans is one of them and no longer than either.
pub proof fn law_shorter_is_no_longer(a: Duration, b: Duration, r: Duration)
    requires
        call_ensures(Duration::shorter, (a, b), r),
    ensures
        r@ <= a@,
        r@ <= b@,
        r == a || r == b,
{
}

/// A span is nothing exactly where it has no nanoseconds, and as many as fit make
/// one.
pub proof fn law_span_of_nanoseconds(
    n: u128,
    r: Option<Duration>,
    zero: bool,
    none: Duration,
    most: Duration,
)
    requires
        call_ensures(Duration::try_from_nanos, (n,), r),
        r is Some ==> call_ensures(Duration::is_zero, (&r->0,), zero),
        call_ensures(Duration::zero, (), none),
        call_ensures(Duration::longest, (), most),
    ensures
        r is Some <==> n <= most@,
        r matches Some(d) ==> d@ == n && (zero <==> n == 0),
        none@ == 0,
        most@ == u64::MAX * 1_000_000_000 + 999_999_999,
{
}

// ----- Readings -----

/// A reading that is later by some span is that span after the first one, and
/// going back by it leads to the first one again.
pub proof fn law_reading_later_and_back(
    a: Instant,
    d: Duration,
    b: Option<Instant>,
    span: Duration,
    checked: Option<Duration>,
    reverse: Duration,
    back: Option<Instant>,
    capped: Instant,
)
    requires
        call_ensures(Instant::checked_add, (&a, d), b),
        b is Some ==> call_ensures(Instant::duration_since, (&b->0, a), span),
        b is Some ==> call_ensures(Instant::checked_duration_since, (&b->0, a), checked),
        b is Some ==> call_ensures(Instant::saturating_duration_since, (&a, b->0), reverse),
        b is Some ==> call_ensures(Instant::checked_sub, (&b->0, d), back),
        call_ensures(Instant::saturating_add, (&a, d), capped),
    ensures
        b is Some <==> a@ + d@ <= MAX_NANOS,
        b is Some ==> {
            &&& span@ == d@
            &&& checked is Some && checked->0@ == d@
            &&& reverse@ == 0
            &&& back is Some && back->0@ == a@
            &&& capped@ == b->0@
        },
        b is None ==> capped@ == MAX_NANOS,
{
    if a@ + d@ <= MAX_NANOS {
        Instant::lemma_of(a@ + d@);
    } else {
        Instant::lemma_of(MAX_NANOS as nat);
    }
}

/// The same of wall clock readings, where a reading before the other one is an
/// error that says by how much.
pub proof fn law_wall_reading_later_and_back(
    a: SystemTime,
    d: Duration,
    b: Option<SystemTime>,
    span: Result<Duration, SystemTimeError>,
    reverse: Result<Duration, SystemTimeError>,
    back: Option<SystemTime>,
)
    requires
        call_ensures(SystemTime::checked_add, (&a, d), b),
        b is Some ==> call_ensures(SystemTime::duration_since, (&b->0, a), span),
        b is Some ==> call_ensures(SystemTime::duration_since, (&a, b->0), reverse),
        b is Some ==> call_ensures(SystemTime::checked_sub, (&b->0, d), back),
    ensures
        b is Some <==> a@ + d@ <= MAX_NANOS,
        b is Some ==> {
            &&& span is Ok && span->Ok_0@ == d@
            &&& reverse is Err <==> d@ > 0
            &&& reverse matches Err(e) ==> e@ == d@
            &&& back is Some && back->0@ == a@
        },
{
}

/// Readings are known by the span since their epoch.
pub proof fn law_reading_is_its_span(
    d: Duration,
    i: Instant,
    di: Duration,
    t: SystemTime,
    dt: Duration,
    epoch: SystemTime,
)
    requires
        call_ensures(Instant::from_epoch, (d,), i),
        call_ensures(Instant::since_epoch, (&i,), di),
        call_ensures(SystemTime::from_unix_epoch, (d,), t),
        call_ensures(SystemTime::since_unix_epoch, (&t,), dt),
        call_ensures(SystemTime::unix_epoch, (), epoch),
    ensures
        di@ == d@,
        dt@ == d@,
        epoch@ == 0,
{
}

/// A rate is a fraction that is not negative and has a value; it is read back.
pub proof fn law_rate_is_a_fraction(num: i64, den: u32, r: Option<TimeRate>, n: u32, d: u32)
    requires
        call_ensures(TimeRate::new, (num, den), r),
        r is Some ==> call_ensures(TimeRate::num, (&r->0,), n),
        r is Some ==> call_ensures(TimeRate::den, (&r->0,), d),
    ensures
        r is Some <==> 0 <= num <= u32::MAX && den > 0,
        r is Some ==> n == num && d == den,
{
}

/// Paused time has no rate, and real time a rate of one.
pub proof fn law_named_rates(p: TimeRate, q: TimeRate, pn: u32, qn: u32, qd: u32)
    requires
        call_ensures(TimeRate::paused, (), p),
        call_ensures(TimeRate::real_time, (), q),
        call_ensures(TimeRate::num, (&p,), pn),
        call_ensures(TimeRate::num, (&q,), qn),
        call_ensures(TimeRate::den, (&q,), qd),
    ensures
        pn == 0,
        qn == qd,
        qn > 0,
{
}

// ----- Chances -----

/// What is impossible never happens, what is certain always does, and any other
/// chance is hit by just as many draws as it has parts: those below it.
pub proof fn law_chance_is_its_share_of_draws(
    parts: u64,
    r: Option<Probability>,
    back: u64,
    drawn: u32,
    hit: bool,
    never: Probability,
    always: Probability,
    no: bool,
    yes: bool,
)
    requires
        call_ensures(Probability::from_parts, (parts,), r),
        r is Some ==> call_ensures(Probability::to_parts, (&r->0,), back),
        r is Some ==> call_ensures(Probability::hit, (&r->0, drawn), hit),
        call_ensures(Probability::never, (), never),
        call_ensures(Probability::always, (), always),
        call_ensures(Probability::hit, (&never, drawn), no),
        call_ensures(Probability::hit, (&always, drawn), yes),
    ensures
        r is Some <==> parts <= u32::MAX + 1,
        r is Some ==> back == parts && (hit <==> drawn < parts),
        !no,
        yes,
{
}

// ----- Addresses -----

/// An IPv4 address is its four octets, in order, and the IPv6 address that stands
/// for it ends with them.
pub proof fn law_address_is_its_octets(a: u8, b: u8, c: u8, d: u8, ip: Ipv4Addr, long: Ipv6Addr)
    requires
        call_ensures(Ipv4Addr::new, (a, b, c, d), ip),
        call_ensures(Ipv4Addr::to_ipv6_mapped, (ip,), long),
    ensures
        IpAddr::V4(ip).octets() == seq![a, b, c, d],
        be_value(IpAddr::V4(ip).octets()) == ip.bits,
        be_value(IpAddr::V6(long).octets()) == 0xffff_0000_0000 + ip.bits,
        IpAddr::V4(ip).octets().len() == 4,
        IpAddr::V6(long).octets().len() == 16,
{
    crate::bytes::lemma_sizes();
    crate::bytes::law_be_round_trip(ip.bits as nat, 4);
    crate::bytes::law_be_round_trip(long.bits as nat, 16);
    let v = ip.bits as nat;
    reveal_with_fuel(be_bytes, 5);
    assert(v % 256 == d);
    assert(v / 256 == a * 0x1_0000 + b * 0x100 + c);
    assert((v / 256) % 256 == c);
    assert(v / 256 / 256 == a * 0x100 + b);
    assert((v / 256 / 256) % 256 == b);
    assert(v / 256 / 256 / 256 == a);
    assert(be_bytes(v, 4) =~= seq![a, b, c, d]);
}

/// A socket address is its IP address and its port.
pub proof fn law_socket_address_is_read_back(
    ip: IpAddr,
    port: u16,
    a: SocketAddr,
    ip_back: IpAddr,
    port_back: u16,
    any: bool,
)
    requires
        call_ensures(SocketAddr::new, (ip, port), a),
        call_ensures(SocketAddr::ip, (&a,), ip_back),
        call_ensures(SocketAddr::port, (&a,), port_back),
        call_ensures(IpAddr::is_unspecified, (&ip,), any),
    ensures
        ip_back == ip,
        port_back == port,
        any <==> be_value(ip.octets()) == 0,
{
    crate::bytes::lemma_sizes();
    match ip {
        IpAddr::V4(v4) => {
            crate::bytes::law_be_round_trip(v4.bits as nat, 4);
        },
        IpAddr::V6(v6) => {
            crate::bytes::law_be_round_trip(v6.bits as nat, 16);
        },
    }
}

/// An error is of the kind that it was made with, and keeps its message.
pub proof fn law_error_keeps_its_kind(kind: ErrorKind, message: &str, e: Error, k: ErrorKind)
    requires
        call_ensures(Error::new, (kind, message), e),
        call_ensures(Error::kind, (&e,), k),
    ensures
        k == kind,
        e.message@ == message@,
{
}

// ----- Events -----

/// Events are handed out from the first on, each once, and counted before that.
pub proof fn law_events_are_handed_out_in_order<'a>(
    events: &'a Events,
    it: Iter<'a>,
    i: &mut Iter<'a>,
    j: &mut Iter<'a>,
    first: Option<&'a Event>,
    second: Option<&'a Event>,
    count: usize,
    hint: (usize, Option<usize>),
    empty: bool,
)
    requires
        call_ensures(Events::iter, (events,), it),
        call_ensures(Events::is_empty, (events,), empty),
        call_ensures(Iter::size_hint, (&it,), hint),
        call_ensures(Iter::count, (it,), count),
        old(i).left() == it.left(),
        call_ensures(Iter::next, (i,), first),
        final(i).left() == old(j).left(),
        call_ensures(Iter::next, (j,), second),
    ensures
        count == events@.len(),
        hint.0 == count && hint.1 == Some(count),
        empty <==> count == 0,
        first is Some <==> events@.len() > 0,
        first matches Some(e) ==> *e == events@[0],
        second is Some <==> events@.len() > 1,
        second matches Some(e) ==> *e == events@[1],
{
}

// ----- Runs -----

/// A run takes testers of which no two share both address and transport, in the
/// order in which they are given.
pub proof fn law_run_takes_testers_apart(
    testers: Vec<(SocketAddr, SocketType)>,
    r: Option<RunLoop>,
)
    requires
        call_ensures(RunLoop::new, (testers,), r),
    ensures
        r is Some <==> forall|i: int, j: int|
            0 <= i < testers@.len() && 0 <= j < testers@.len() && i != j ==> {
                ||| (#[trigger] testers@[i]).0 != (#[trigger] testers@[j]).0
                ||| testers@[i].1 != testers@[j].1
            },
        r matches Some(run) ==> run@.testers == testers@ && run@.stage is Idle && !run@.did_work,
{
    if r is Some {
        assert forall|i: int, j: int|
            0 <= i < testers@.len() && 0 <= j < testers@.len() && i != j implies {
            ||| (#[trigger] testers@[i]).0 != (#[trigger] testers@[j]).0
            ||| testers@[i].1 != testers@[j].1
        } by {
            if testers@[i] == testers@[j] {
                if i < j {
                    assert(crate::run::overlap(testers@));
                } else {
                    assert(testers@[j] == testers@[i]);
                    assert(crate::run::overlap(testers@));
                }
            }
        }
    } else {
        let (i, j) = choose|i: int, j: int|
            0 <= i < j < testers@.len() && #[trigger] testers@[i] == #[trigger] testers@[j];
        assert(testers@[i] == testers@[j]);
    }
}

// ----- Options -----

/// The matters that options of a UDP socket can be about.
pub open spec fn matters(d: Duration, n: u32) -> Seq<UdpConfigs> {
    seq![
        UdpConfigs::ReadTimeout(d),
        UdpConfigs::WriteTimeout(d),
        UdpConfigs::Broadcast,
        UdpConfigs::Ipv4MulticastLoop,
        UdpConfigs::Ipv6MulticastLoop,
        UdpConfigs::IpMulticastTtl(n),
        UdpConfigs::IpTtl(n),
        UdpConfigs::NonBlocking,
    ]
}

/// Two options are alike where they are about the same matter, whatever they say
/// in it, so that setting one leaves what is said in every other matter.
pub proof fn law_options_are_alike_in_one_matter(
    d: Duration,
    e: Duration,
    n: u32,
    m: u32,
    i: int,
    j: int,
    configs: Seq<UdpConfigs>,
)
    requires
        0 <= i < 8,
        0 <= j < 8,
    ensures
        matters(d, n)[i].alike(matters(e, m)[j]) <==> i == j,
        i != j ==> crate::shim_std_udp::option_like(
            crate::shim_std_udp::with_option(configs, matters(d, n)[i]),
            matters(e, m)[j],
        ) == crate::shim_std_udp::option_like(configs, matters(e, m)[j]),
{
    crate::shim_std_udp::law_options_are_independent(configs, matters(d, n)[i], matters(e, m)[j]);
}

/// Events are asked for what they say by name.
pub proof fn law_event_says_what_it_is(
    e: Event,
    token: Token,
    readable: bool,
    writable: bool,
    error: bool,
    read_closed: bool,
    write_closed: bool,
)
    requires
        call_ensures(Event::token, (&e,), token),
        call_ensures(Event::is_readable, (&e,), readable),
        call_ensures(Event::is_writable, (&e,), writable),
        call_ensures(Event::is_error, (&e,), error),
        call_ensures(Event::is_read_closed, (&e,), read_closed),
        call_ensures(Event::is_write_closed, (&e,), write_closed),
    ensures
        token == e.token,
        readable == e.is_readable,
        writable == e.is_writable,
        error == e.is_error,
        read_closed == e.is_read_closed,
        write_closed == e.is_write_closed,
{
}

/// A buffer takes the front of what is copied into it, as far as it goes, and
/// keeps the rest of what it held.
pub proof fn law_copy_fills_the_front(buf: &mut [u8], data: &[u8], n: usize)
    requires
        call_ensures(crate::shim_std_tcp::copy_into, (buf, data), n),
    ensures
        n <= data@.len(),
        n <= old(buf)@.len(),
        n == data@.len() || n == old(buf)@.len(),
        final(buf)@.len() == old(buf)@.len(),
        final(buf)@.take(n as int) == data@.take(n as int),
        final(buf)@.skip(n as int) == old(buf)@.skip(n as int),
{
    assert(final(buf)@.take(n as int) =~= data@.take(n as int));
    assert(final(buf)@.skip(n as int) =~= old(buf)@.skip(n as int));
}

} // verus!
