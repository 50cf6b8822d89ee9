//! Probing one address: a fixed run of echo requests, one after the other,
//! and the statistics that the run adds up to.
//!
//! Sending an echo request and waiting for its reply is the caller's work.
//! What is decided here is which request comes next, when the run is over,
//! and what the outcomes amount to. A [`ProbeRun`] is asked for its next
//! [`ProbeStep`]; where that is a request to send, the caller sends it and
//! hands the [`EchoOutcome`] back.

use vstd::arithmetic::div_mod::{lemma_fundamental_div_mod, lemma_mod_pos_bound};
use vstd::prelude::*;

verus! {

/// How many echo requests one run sends.
pub const MAX_PING: u16 = 10;

/// How many bytes of payload each echo request carries.
pub const PAYLOAD_LEN: usize = 56;

/// How many seconds a reply is waited for before the request counts as lost.
pub const TIMEOUT_SECS: u64 = 1;

/// How many seconds lie between one echo request and the next.
pub const INTERVAL_SECS: u64 = 1;

/// What became of one echo request.
#[derive(Clone, Copy, Debug, PartialEq, Eq)]
pub enum EchoOutcome {
    /// A reply came in time, after `rtt_ms` milliseconds.
    Reply { rtt_ms: i32 },
    /// No reply came in time, or the request could not be sent or received.
    Lost,
}

/// What a run of [`MAX_PING`] echo requests adds up to.
#[derive(Clone, Copy, Debug, PartialEq, Eq)]
pub struct ProbeStatistics {
    /// The mean round-trip time of the replies in milliseconds, cut off to
    /// an integer; `None` where no reply came.
    pub mean_latency_ms: Option<i32>,
    /// How many of the [`MAX_PING`] requests were lost.
    pub lost: u16,
}

/// The sum of `data`.
pub open spec fn sum(data: Seq<i32>) -> int
    decreases data.len(),
{
    if data.len() == 0 {
        0
    } else {
        sum(data.drop_last()) + data.last()
    }
}

/// `total` divided by `count`, cut off towards zero.
pub open spec fn truncated_quotient(total: int, count: int) -> int
    recommends
        count > 0,
{
    if total >= 0 {
        total / count
    } else {
        -((-total) / count)
    }
}

/// The arithmetic mean of `data`, cut off towards zero; `None` of no data.
pub open spec fn mean_of(data: Seq<i32>) -> Option<i32> {
    if data.len() == 0 {
        None
    } else {
        Some(truncated_quotient(sum(data), data.len() as int) as i32)
    }
}

/// The round-trip times of the replies among `outcomes`, in their order.
pub open spec fn replies(outcomes: Seq<EchoOutcome>) -> Seq<i32>
    decreases outcomes.len(),
{
    if outcomes.len() == 0 {
        Seq::empty()
    } else {
        match outcomes.last() {
            EchoOutcome::Reply { rtt_ms } => replies(outcomes.drop_last()).push(rtt_ms),
            EchoOutcome::Lost => replies(outcomes.drop_last()),
        }
    }
}

/// How many of `outcomes` are lost requests.
pub open spec fn lost_count(outcomes: Seq<EchoOutcome>) -> nat
    decreases outcomes.len(),
{
    if outcomes.len() == 0 {
        0
    } else {
        match outcomes.last() {
            EchoOutcome::Reply { .. } => lost_count(outcomes.drop_last()),
            EchoOutcome::Lost => lost_count(outcomes.drop_last()) + 1,
        }
    }
}

/// What `outcomes` add up to.
pub open spec fn statistics(outcomes: Seq<EchoOutcome>) -> ProbeStatistics {
    ProbeStatistics {
        mean_latency_ms: mean_of(replies(outcomes)),
        lost: lost_count(outcomes) as u16,
    }
}

/// Whether two times differ by no more than `tolerance`.
pub open spec fn times_within(first: i32, second: i32, tolerance: nat) -> bool {
    -tolerance <= first - second <= tolerance
}

/// Whether two outcomes are the same up to `tolerance` milliseconds: both
/// lost, or both replies whose round-trip times differ by no more.
pub open spec fn outcomes_within(first: EchoOutcome, second: EchoOutcome, tolerance: nat) -> bool {
    match (first, second) {
        (EchoOutcome::Reply { rtt_ms: a }, EchoOutcome::Reply { rtt_ms: b }) => times_within(
            a,
            b,
            tolerance,
        ),
        (EchoOutcome::Lost, EchoOutcome::Lost) => true,
        _ => false,
    }
}

impl ProbeStatistics {
    /// Whether `self` and `other` are the same up to `tolerance`
    /// milliseconds: as many requests lost, and both without a mean or with
    /// means that differ by no more.
    pub open spec fn within(self, other: ProbeStatistics, tolerance: nat) -> bool {
        &&& self.lost == other.lost
        &&& match (self.mean_latency_ms, other.mean_latency_ms) {
            (Some(a), Some(b)) => times_within(a, b, tolerance),
            (None, None) => true,
            _ => false,
        }
    }

    /// Whether the statistics can be those of a whole run: no more requests
    /// lost than were sent, and a mean exactly where one was not lost.
    pub open spec fn wf(self) -> bool {
        &&& self.lost <= MAX_PING
        &&& self.mean_latency_ms is Some <==> self.lost < MAX_PING
    }

    /// The share of lost requests in percent.
    pub open spec fn loss_percent_of(self) -> int {
        self.lost * 100 / MAX_PING as int
    }

    /// The share of lost requests in percent.
    pub fn loss_percent(&self) -> (percent: u32)
        ensures
            percent == self.loss_percent_of(),
            self.wf() ==> percent <= 100 && percent * MAX_PING == self.lost * 100,
    {
        let lost: u32 = self.lost as u32;
        assert((lost * 100) / 10 == lost * 10) by (nonlinear_arith);
        lost * 100 / (MAX_PING as u32)
    }
}

/// The sum of `data` lies between its length times the least value and its
/// length times the greatest.
pub proof fn lemma_sum_bounds(data: Seq<i32>)
    ensures
        data.len() * i32::MIN <= sum(data) <= data.len() * i32::MAX,
    decreases data.len(),
{
    if data.len() > 0 {
        lemma_sum_bounds(data.drop_last());
    }
}

/// The mean of values that each fit 32 bits fits 32 bits.
pub proof fn lemma_mean_fits(data: Seq<i32>)
    requires
        data.len() > 0,
    ensures
        i32::MIN <= truncated_quotient(sum(data), data.len() as int) <= i32::MAX,
        mean_of(data) == Some(truncated_quotient(sum(data), data.len() as int) as i32),
        mean_of(data)->0 == truncated_quotient(sum(data), data.len() as int),
{
    lemma_sum_bounds(data);
    let total = sum(data);
    let count = data.len() as int;
    if total >= 0 {
        assert(0 <= total / count <= i32::MAX) by (nonlinear_arith)
            requires
                0 <= total <= count * i32::MAX,
                count > 0,
        ;
    } else {
        assert(0 <= (-total) / count <= -i32::MIN) by (nonlinear_arith)
            requires
                0 <= -total <= count * (-i32::MIN),
                count > 0,
        ;
    }
}

/// Every outcome is either a reply or a lost request.
pub proof fn lemma_replies_and_lost(outcomes: Seq<EchoOutcome>)
    ensures
        replies(outcomes).len() + lost_count(outcomes) == outcomes.len(),
    decreases outcomes.len(),
{
    if outcomes.len() > 0 {
        lemma_replies_and_lost(outcomes.drop_last());
    }
}

/// A run has replies exactly where one of its requests was answered.
pub proof fn lemma_replies_exist(outcomes: Seq<EchoOutcome>)
    ensures
        replies(outcomes).len() > 0 <==> exists|i: int|
            0 <= i < outcomes.len() && (#[trigger] outcomes[i]) is Reply,
    decreases outcomes.len(),
{
    if outcomes.len() > 0 {
        let earlier = outcomes.drop_last();
        lemma_replies_exist(earlier);
        if exists|i: int| 0 <= i < earlier.len() && (#[trigger] earlier[i]) is Reply {
            let i = choose|i: int| 0 <= i < earlier.len() && (#[trigger] earlier[i]) is Reply;
            assert(outcomes[i] is Reply);
        }
        if exists|i: int| 0 <= i < outcomes.len() && (#[trigger] outcomes[i]) is Reply {
            let i = choose|i: int| 0 <= i < outcomes.len() && (#[trigger] outcomes[i]) is Reply;
            if i < earlier.len() {
                assert(earlier[i] is Reply);
            }
        }
    }
}

/// Of a whole run, the loss ratio is the number of lost requests over
/// [`MAX_PING`], the number of requests sent: it lies between nought and
/// one, and the percentage shown is that ratio exactly.
pub proof fn lemma_loss_ratio(outcomes: Seq<EchoOutcome>)
    requires
        outcomes.len() == MAX_PING,
    ensures
        statistics(outcomes).lost == lost_count(outcomes),
        0 <= statistics(outcomes).lost <= MAX_PING,
        statistics(outcomes).loss_percent_of() * MAX_PING == lost_count(outcomes) * 100,
        statistics(outcomes).wf(),
{
    lemma_replies_and_lost(outcomes);
    let lost = lost_count(outcomes) as int;
    assert((lost * 100) / 10 == lost * 10) by (nonlinear_arith);
}

/// A run has a mean latency exactly where at least one of its requests was
/// answered, and the mean is then the arithmetic mean of the round-trip
/// times of the replies, cut off to an integer.
pub proof fn lemma_mean_latency(outcomes: Seq<EchoOutcome>)
    ensures
        statistics(outcomes).mean_latency_ms is Some <==> exists|i: int|
            0 <= i < outcomes.len() && (#[trigger] outcomes[i]) is Reply,
        statistics(outcomes).mean_latency_ms matches Some(mean) ==> mean == truncated_quotient(
            sum(replies(outcomes)),
            replies(outcomes).len() as int,
        ),
{
    lemma_replies_exist(outcomes);
    if replies(outcomes).len() > 0 {
        lemma_mean_fits(replies(outcomes));
    }
}

/// The quotient cut off towards zero, times the count, misses the total by
/// less than the count, and misses it on the side of zero.
proof fn lemma_truncated_quotient(total: int, count: int)
    requires
        count > 0,
    ensures
        total >= 0 ==> 0 <= count * truncated_quotient(total, count) <= total < count
            * truncated_quotient(total, count) + count,
        total < 0 ==> count * truncated_quotient(total, count) - count < total <= count
            * truncated_quotient(total, count) <= 0,
{
    if total >= 0 {
        lemma_fundamental_div_mod(total, count);
        lemma_mod_pos_bound(total, count);
        assert(0 <= count * (total / count)) by (nonlinear_arith)
            requires
                count > 0,
                total >= 0,
        ;
    } else {
        let q = (-total) / count;
        lemma_fundamental_div_mod(-total, count);
        lemma_mod_pos_bound(-total, count);
        assert(count * (-q) == -(count * q)) by (nonlinear_arith);
        assert(0 <= count * q) by (nonlinear_arith)
            requires
                count > 0,
                q == (-total) / count,
                total < 0,
        ;
    }
}

/// A total that is greater by at most `tolerance` for each of its `count`
/// parts has a quotient that is greater by at most `tolerance`.
proof fn lemma_quotient_within(lower: int, upper: int, count: int, tolerance: int)
    requires
        count > 0,
        tolerance >= 0,
        upper <= lower + count * tolerance,
    ensures
        truncated_quotient(upper, count) <= truncated_quotient(lower, count) + tolerance,
{
    let high = truncated_quotient(upper, count);
    let low = truncated_quotient(lower, count);
    lemma_truncated_quotient(upper, count);
    lemma_truncated_quotient(lower, count);
    if upper >= 0 && lower >= 0 {
        assert(high <= low + tolerance) by (nonlinear_arith)
            requires
                count > 0,
                count * high <= upper,
                upper <= lower + count * tolerance,
                lower < count * low + count,
        ;
    } else if upper >= 0 {
        assert(high <= low + tolerance) by (nonlinear_arith)
            requires
                count > 0,
                count * high <= upper,
                upper <= lower + count * tolerance,
                lower <= count * low,
        ;
    } else if lower < 0 {
        assert(high <= low + tolerance) by (nonlinear_arith)
            requires
                count > 0,
                count * high - count < upper,
                upper <= lower + count * tolerance,
                lower <= count * low,
        ;
    } else {
        assert(high <= 0 <= low) by (nonlinear_arith)
            requires
                count > 0,
                count * high <= 0,
                0 <= count * low,
        ;
    }
}

proof fn lemma_sum_within(first: Seq<i32>, second: Seq<i32>, tolerance: nat)
    requires
        first.len() == second.len(),
        forall|i: int|
            0 <= i < first.len() ==> times_within(#[trigger] first[i], second[i], tolerance),
    ensures
        -(first.len() * tolerance) <= sum(first) - sum(second) <= first.len() * tolerance,
    decreases first.len(),
{
    if first.len() > 0 {
        lemma_sum_within(first.drop_last(), second.drop_last(), tolerance);
        let shorter = (first.len() - 1) as int;
        assert(first.len() * tolerance == shorter * tolerance + tolerance) by (nonlinear_arith)
            requires
                first.len() == shorter + 1,
        ;
    }
}

/// Data that differ by at most `tolerance` each have means that differ by
/// at most `tolerance`: cutting the mean off adds nothing to the distance.
pub proof fn lemma_mean_within(first: Seq<i32>, second: Seq<i32>, tolerance: nat)
    requires
        first.len() == second.len(),
        forall|i: int|
            0 <= i < first.len() ==> times_within(#[trigger] first[i], second[i], tolerance),
    ensures
        mean_of(first) is Some <==> mean_of(second) is Some,
        mean_of(first) is Some ==> times_within(
            mean_of(first)->0,
            mean_of(second)->0,
            tolerance,
        ),
{
    if first.len() > 0 {
        let count = first.len() as int;
        lemma_mean_fits(first);
        lemma_mean_fits(second);
        lemma_sum_within(first, second, tolerance);
        lemma_quotient_within(sum(first), sum(second), count, tolerance as int);
        lemma_quotient_within(sum(second), sum(first), count, tolerance as int);
    }
}

proof fn lemma_replies_within(first: Seq<EchoOutcome>, second: Seq<EchoOutcome>, tolerance: nat)
    requires
        first.len() == second.len(),
        forall|i: int|
            0 <= i < first.len() ==> outcomes_within(#[trigger] first[i], second[i], tolerance),
    ensures
        lost_count(first) == lost_count(second),
        replies(first).len() == replies(second).len(),
        forall|i: int|
            0 <= i < replies(first).len() ==> times_within(
                #[trigger] replies(first)[i],
                replies(second)[i],
                tolerance,
            ),
    decreases first.len(),
{
    if first.len() > 0 {
        lemma_replies_within(first.drop_last(), second.drop_last(), tolerance);
        assert(outcomes_within(first.last(), second.last(), tolerance));
    }
}

/// Two runs whose requests came out the same up to `tolerance`
/// milliseconds, each lost in both or answered in both within `tolerance`
/// of each other, add up to the same statistics up to `tolerance`. Runs
/// that came out the same add up to the same.
pub proof fn lemma_statistics_within(
    first: Seq<EchoOutcome>,
    second: Seq<EchoOutcome>,
    tolerance: nat,
)
    requires
        first.len() == second.len(),
        forall|i: int|
            0 <= i < first.len() ==> outcomes_within(#[trigger] first[i], second[i], tolerance),
    ensures
        statistics(first).within(statistics(second), tolerance),
        tolerance == 0 ==> statistics(first) == statistics(second),
{
    lemma_replies_within(first, second, tolerance);
    lemma_mean_within(replies(first), replies(second), tolerance);
}

/// The arithmetic mean of `data`, cut off towards zero; `None` of no data.
pub fn mean(data: &[i32]) -> (m: Option<i32>)
    ensures
        m == mean_of(data@),
        m is Some <==> data@.len() > 0,
        m matches Some(value) ==> value == truncated_quotient(sum(data@), data@.len() as int),
{
    let n: usize = data.len();
    if n == 0 {
        return None;
    }
    let mut total: i128 = 0;
    let mut i: usize = 0;
    while i < n
        invariant
            n == data@.len(),
            i <= n,
            total == sum(data@.take(i as int)),
            i * i32::MIN <= total <= i * i32::MAX,
        decreases n - i,
    {
        proof {
            assert(data@.take(i + 1).drop_last() =~= data@.take(i as int));
        }
        total = total + data[i] as i128;
        i = i + 1;
    }
    proof {
        assert(data@.take(n as int) =~= data@);
        lemma_mean_fits(data@);
    }
    let count: i128 = n as i128;
    let quotient: i128 = if total >= 0 {
        total / count
    } else {
        -((-total) / count)
    };
    Some(quotient as i32)
}

/// The payload that each echo request carries: [`PAYLOAD_LEN`] bytes of
/// zero.
pub fn payload() -> (bytes: [u8; PAYLOAD_LEN])
    ensures
        forall|i: int| 0 <= i < PAYLOAD_LEN ==> bytes@[i] == 0,
{
    [0u8; PAYLOAD_LEN]
}

/// A fresh identifier for an echo session, from `rand::random`. Nothing is
/// claimed of the value: any 16-bit number may come back, and two calls
/// need not agree. The call panics where the system has no seed to give to
/// the thread's generator; no argument decides that.
#[verifier::external_body]
fn random_identifier() -> u16 {
    rand::random::<u16>()
}

/// A run of echo requests to one address, as far as it has got.
pub struct ProbeRun {
    identifier: u16,
    times: Vec<i32>,
    lost: u16,
    history: Ghost<Seq<EchoOutcome>>,
}

/// A run that waits for the outcome of the echo request it has asked for.
pub struct PendingEcho {
    run: ProbeRun,
}

/// What a run asks of its caller next.
pub enum ProbeStep {
    /// Send the echo request that this describes, and hand its outcome
    /// back with [`PendingEcho::resume`].
    Send(PendingEcho),
    /// Nothing more: the run is over, and these are its statistics.
    Done(ProbeStatistics),
}

impl ProbeRun {
    #[verifier::type_invariant]
    spec fn inv(self) -> bool {
        &&& self.history@.len() <= MAX_PING
        &&& self.times@ == replies(self.history@)
        &&& self.lost == lost_count(self.history@)
    }

    /// The outcomes that the run has been handed so far, the first one
    /// first.
    pub closed spec fn outcomes(self) -> Seq<EchoOutcome> {
        self.history@
    }

    /// The identifier of the echo session that the run belongs to.
    pub closed spec fn session(self) -> u16 {
        self.identifier
    }

    /// A run that has sent nothing yet, in the echo session `identifier`.
    pub fn with_identifier(identifier: u16) -> (run: ProbeRun)
        ensures
            run.session() == identifier,
            run.outcomes() == Seq::<EchoOutcome>::empty(),
    {
        ProbeRun { identifier, times: Vec::new(), lost: 0, history: Ghost(Seq::empty()) }
    }

    /// A run that has sent nothing yet, in an echo session of its own with
    /// an identifier picked at random. Like the generator it asks, it panics
    /// where the system has no seed to give.
    pub fn begin() -> (run: ProbeRun)
        ensures
            run.outcomes() == Seq::<EchoOutcome>::empty(),
    {
        ProbeRun::with_identifier(random_identifier())
    }

    /// The identifier of the echo session that the run belongs to.
    pub fn identifier(&self) -> (identifier: u16)
        ensures
            identifier == self.session(),
    {
        self.identifier
    }

    /// What the run asks for next: the echo request with the next sequence
    /// number while fewer than [`MAX_PING`] outcomes are in, and after that
    /// nothing but its statistics.
    pub fn step(self) -> (step: ProbeStep)
        ensures
            match step {
                ProbeStep::Send(pending) => {
                    &&& self.outcomes().len() < MAX_PING
                    &&& pending.outcomes() == self.outcomes()
                    &&& pending.session() == self.session()
                },
                ProbeStep::Done(summary) => {
                    &&& self.outcomes().len() == MAX_PING
                    &&& summary == statistics(self.outcomes())
                    &&& summary.wf()
                },
            },
    {
        proof {
            use_type_invariant(&self);
            lemma_replies_and_lost(self.history@);
        }
        if self.times.len() + (self.lost as usize) < MAX_PING as usize {
            ProbeStep::Send(PendingEcho { run: self })
        } else {
            let mean_latency_ms = mean(self.times.as_slice());
            ProbeStep::Done(ProbeStatistics { mean_latency_ms, lost: self.lost })
        }
    }
}

impl PendingEcho {
    #[verifier::type_invariant]
    spec fn inv(self) -> bool {
        &&& self.run.inv()
        &&& self.run.history@.len() < MAX_PING
    }

    /// The outcomes that the run has been handed so far, the first one
    /// first.
    pub closed spec fn outcomes(self) -> Seq<EchoOutcome> {
        self.run.history@
    }

    /// The identifier of the echo session that the run belongs to.
    pub closed spec fn session(self) -> u16 {
        self.run.identifier
    }

    /// The identifier of the echo session that the request belongs to.
    pub fn identifier(&self) -> (identifier: u16)
        ensures
            identifier == self.session(),
    {
        self.run.identifier
    }

    /// The sequence number of the request: as many as outcomes are in, so
    /// that the requests of a run count up from zero.
    pub fn sequence(&self) -> (sequence: u16)
        ensures
            sequence == self.outcomes().len(),
            sequence < MAX_PING,
    {
        proof {
            use_type_invariant(self);
            lemma_replies_and_lost(self.run.history@);
        }
        (self.run.times.len() as u16) + self.run.lost
    }

    /// The run after the request has come out as `outcome`.
    pub fn resume(self, outcome: EchoOutcome) -> (run: ProbeRun)
        ensures
            run.outcomes() == self.outcomes().push(outcome),
            run.session() == self.session(),
    {
        proof {
            use_type_invariant(&self);
            lemma_replies_and_lost(self.run.history@);
        }
        let ProbeRun { identifier, mut times, mut lost, history } = self.run;
        let ghost longer = history@.push(outcome);
        proof {
            assert(longer.drop_last() =~= history@);
        }
        match outcome {
            EchoOutcome::Reply { rtt_ms } => {
                times.push(rtt_ms);
            },
            EchoOutcome::Lost => {
                lost = lost + 1;
            },
        }
        ProbeRun { identifier, times, lost, history: Ghost(longer) }
    }
}

} // verus!
