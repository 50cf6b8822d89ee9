//! One resolver's lookup: which of its answers are probed, in what order,
//! and the rows that come of it.
//!
//! Probing an address is the caller's work. A [`Lookup`] is asked for its
//! next [`LookupStep`]; where that is an address to probe, the caller probes
//! it and hands the statistics back. Answers whose data is no IPv4 literal
//! are passed over in silence: they are not probed and make no row, and the
//! answers beside them are none the worse for it.

use vstd::prelude::*;
use vstd::string::StringExecFns;
use crate::dns::{answers_of, resolved, Answer, DnsResponse, ResolveError};
use crate::ipv4::{ipv4_of, is_ipv4_literal, Ipv4Address};
use crate::probe::ProbeStatistics;

verus! {

/// One line of the result: an answer and what probing its address gave.
#[derive(Debug, PartialEq, Eq)]
pub struct Row {
    pub answer: Answer,
    pub stats: ProbeStatistics,
}

/// An answer that is to be probed, with the address that its data names.
#[derive(Debug, PartialEq, Eq)]
pub struct Target {
    pub answer: Answer,
    pub address: Ipv4Address,
}

/// What one resolver's lookup came to: the rows of its answers, or the
/// error that kept its answers away.
#[derive(Debug, PartialEq, Eq)]
pub struct LookupOutcome {
    /// The tag of the resolver.
    pub tag: String,
    pub result: Result<Vec<Row>, ResolveError>,
}

/// The state of a lookup as a value of specifications.
pub struct LookupView {
    /// The tag of the resolver.
    pub tag: Seq<char>,
    /// The error that kept the answers away, if one did.
    pub failure: Option<ResolveError>,
    /// The answers that are to be probed, in the order they came in.
    pub targets: Seq<Target>,
    /// The rows made so far: one for each target that has been probed.
    pub rows: Seq<Row>,
}

/// What one resolver's lookup came to, as a value of specifications.
pub struct OutcomeView {
    pub tag: Seq<char>,
    pub result: Result<Seq<Row>, ResolveError>,
}

impl View for LookupOutcome {
    type V = OutcomeView;

    open spec fn view(&self) -> OutcomeView {
        OutcomeView {
            tag: self.tag@,
            result: match self.result {
                Ok(rows) => Ok(rows@),
                Err(error) => Err(error),
            },
        }
    }
}

/// Whether `answer` is probed: whether its data is an IPv4 literal.
pub open spec fn is_probed(answer: Answer) -> bool {
    is_ipv4_literal(answer.data@)
}

/// The answers among `answers` that are probed, in their order, each with
/// the address that its data names.
pub open spec fn targets_of(answers: Seq<Answer>) -> Seq<Target>
    decreases answers.len(),
{
    if answers.len() == 0 {
        Seq::empty()
    } else {
        match ipv4_of(answers.last().data@) {
            Some(address) => targets_of(answers.drop_last()).push(
                Target { answer: answers.last(), address },
            ),
            None => targets_of(answers.drop_last()),
        }
    }
}

/// The rows of `targets` whose probes gave `stats`, one for one.
pub open spec fn rows_of(targets: Seq<Target>, stats: Seq<ProbeStatistics>) -> Seq<Row>
    recommends
        targets.len() == stats.len(),
{
    Seq::new(targets.len(), |i: int| Row { answer: targets[i].answer, stats: stats[i] })
}

/// The answers among `answers` whose data is an IPv4 literal, in their
/// order.
pub open spec fn probed_answers(answers: Seq<Answer>) -> Seq<Answer> {
    answers.filter(|answer: Answer| is_probed(answer))
}

/// The answers of `targets`, one for one.
pub open spec fn target_answers(targets: Seq<Target>) -> Seq<Answer> {
    targets.map_values(|target: Target| target.answer)
}

/// The answers of `rows`, one for one.
pub open spec fn row_answers(rows: Seq<Row>) -> Seq<Answer> {
    rows.map_values(|row: Row| row.answer)
}

/// Whether two lists of rows are the same up to `tolerance` milliseconds:
/// rows of the same answers in the same order, with statistics that are
/// the same up to `tolerance`.
pub open spec fn rows_within(first: Seq<Row>, second: Seq<Row>, tolerance: nat) -> bool {
    &&& first.len() == second.len()
    &&& forall|i: int|
        0 <= i < first.len() ==> {
            &&& (#[trigger] first[i]).answer == second[i].answer
            &&& first[i].stats.within(second[i].stats, tolerance)
        }
}

impl LookupView {
    /// The state in which a lookup begins, once the resolver has replied.
    pub open spec fn begun(tag: Seq<char>, resolved: Result<Seq<Answer>, ResolveError>) -> Self {
        match resolved {
            Ok(answers) => LookupView {
                tag,
                failure: None,
                targets: targets_of(answers),
                rows: Seq::empty(),
            },
            Err(error) => LookupView {
                tag,
                failure: Some(error),
                targets: Seq::empty(),
                rows: Seq::empty(),
            },
        }
    }

    /// Whether the state is one that a lookup can be in: a row for each
    /// target probed so far and for no other, and no target after an error.
    pub open spec fn wf(self) -> bool {
        &&& self.rows.len() <= self.targets.len()
        &&& forall|i: int|
            0 <= i < self.rows.len() ==> (#[trigger] self.rows[i]).answer
                == self.targets[i].answer
        &&& self.failure is Some ==> self.targets.len() == 0
    }

    /// Whether nothing is left to probe.
    pub open spec fn is_complete(self) -> bool {
        self.rows.len() >= self.targets.len()
    }

    /// The address that is probed next.
    pub open spec fn next_address(self) -> Ipv4Address
        recommends
            !self.is_complete(),
    {
        self.targets[self.rows.len() as int].address
    }

    /// The state after the probe of the next address gave `stats`.
    pub open spec fn probed(self, stats: ProbeStatistics) -> Self
        recommends
            !self.is_complete(),
    {
        LookupView {
            rows: self.rows.push(
                Row { answer: self.targets[self.rows.len() as int].answer, stats },
            ),
            ..self
        }
    }

    /// The state after the probes of the next addresses gave `stats`, one
    /// after the other. Statistics beyond the last target are left aside.
    pub open spec fn probed_all(self, stats: Seq<ProbeStatistics>) -> Self
        decreases stats.len(),
    {
        if stats.len() == 0 {
            self
        } else {
            let before = self.probed_all(stats.drop_last());
            if before.is_complete() {
                before
            } else {
                before.probed(stats.last())
            }
        }
    }

    /// What the lookup has come to: the error, or else the rows made so
    /// far.
    pub open spec fn outcome(self) -> OutcomeView {
        OutcomeView {
            tag: self.tag,
            result: match self.failure {
                Some(error) => Err(error),
                None => Ok(self.rows),
            },
        }
    }
}

/// The answers that are probed are the answers whose data is an IPv4
/// literal, in the order they came in, and each is probed at the address
/// that its data is the text of.
pub proof fn lemma_targets_are_the_literals(answers: Seq<Answer>)
    ensures
        target_answers(targets_of(answers)) == probed_answers(answers),
        forall|i: int|
            0 <= i < targets_of(answers).len() ==> {
                let target = #[trigger] targets_of(answers)[i];
                target.answer.data@ == target.address.text()
            },
        targets_of(answers).len() <= answers.len(),
    decreases answers.len(),
{
    reveal(Seq::filter);
    if answers.len() > 0 {
        lemma_targets_are_the_literals(answers.drop_last());
    }
    assert(target_answers(targets_of(answers)) =~= probed_answers(answers));
}

/// An answer that is an IPv4 literal is probed whatever stands beside it:
/// each such answer of the resolver is among the targets.
pub proof fn lemma_literal_is_probed(answers: Seq<Answer>, i: int)
    requires
        0 <= i < answers.len(),
        is_probed(answers[i]),
    ensures
        exists|j: int|
            0 <= j < targets_of(answers).len() && (#[trigger] targets_of(answers)[j]).answer
                == answers[i],
    decreases answers.len(),
{
    let targets = targets_of(answers);
    if i == answers.len() - 1 {
        assert(targets[targets.len() - 1].answer == answers[i]);
    } else {
        lemma_literal_is_probed(answers.drop_last(), i);
        let j = choose|j: int|
            0 <= j < targets_of(answers.drop_last()).len() && (#[trigger] targets_of(
                answers.drop_last(),
            )[j]).answer == answers[i];
        assert(targets[j].answer == answers[i]);
    }
}

/// A resolver whose response has no answer section, or an empty one, gives
/// no rows and no error, and nothing of it is probed.
pub proof fn lemma_no_answers_no_rows(tag: Seq<char>, response: DnsResponse)
    requires
        response.answer matches Some(answers) ==> answers@.len() == 0,
    ensures
        LookupView::begun(tag, resolved(Ok(response))).is_complete(),
        LookupView::begun(tag, resolved(Ok(response))).outcome() == (OutcomeView {
            tag,
            result: Ok(Seq::empty()),
        }),
{
    assert(answers_of(response) =~= Seq::<Answer>::empty());
}

/// A resolver whose query failed gives its error and no rows, and nothing
/// of it is probed.
pub proof fn lemma_failure_is_returned(tag: Seq<char>, error: ResolveError)
    ensures
        LookupView::begun(tag, Err(error)).is_complete(),
        LookupView::begun(tag, Err(error)).outcome() == (OutcomeView { tag, result: Err(error) }),
{
}

/// Probing keeps a lookup well-formed and leaves its targets, tag and
/// error as they are.
pub proof fn lemma_probed_all_wf(state: LookupView, stats: Seq<ProbeStatistics>)
    requires
        state.wf(),
    ensures
        state.probed_all(stats).wf(),
        state.probed_all(stats).targets == state.targets,
        state.probed_all(stats).tag == state.tag,
        state.probed_all(stats).failure == state.failure,
        state.rows.len() <= state.probed_all(stats).rows.len() <= state.rows.len() + stats.len(),
        state.rows.len() + stats.len() <= state.targets.len() ==> state.probed_all(
            stats,
        ).rows.len() == state.rows.len() + stats.len(),
    decreases stats.len(),
{
    if stats.len() > 0 {
        lemma_probed_all_wf(state, stats.drop_last());
    }
}

/// A lookup whose probes gave `stats`, one for each target, comes to the
/// rows of its targets with those statistics: a row for each answer that is
/// an IPv4 literal, in the order the answers came in, and for no other.
/// The answers that are no literal take no row away from those that are.
pub proof fn lemma_whole_lookup(tag: Seq<char>, answers: Seq<Answer>, stats: Seq<ProbeStatistics>)
    requires
        stats.len() == targets_of(answers).len(),
    ensures
        LookupView::begun(tag, Ok(answers)).probed_all(stats).is_complete(),
        LookupView::begun(tag, Ok(answers)).probed_all(stats).outcome() == (OutcomeView {
            tag,
            result: Ok(rows_of(targets_of(answers), stats)),
        }),
        row_answers(rows_of(targets_of(answers), stats)) == probed_answers(answers),
        forall|i: int|
            0 <= i < stats.len() ==> (#[trigger] rows_of(targets_of(answers), stats)[i]).stats
                == stats[i],
{
    let start = LookupView::begun(tag, Ok(answers));
    lemma_rows_of_probed_all(start, stats);
    lemma_probed_all_wf(start, stats);
    let end = start.probed_all(stats);
    assert(end.rows =~= rows_of(targets_of(answers), stats));
    lemma_targets_are_the_literals(answers);
    assert(row_answers(rows_of(targets_of(answers), stats)) =~= target_answers(
        targets_of(answers),
    ));
}

proof fn lemma_rows_of_probed_all(start: LookupView, stats: Seq<ProbeStatistics>)
    requires
        start.wf(),
        start.rows.len() == 0,
        stats.len() <= start.targets.len(),
    ensures
        start.probed_all(stats).rows.len() == stats.len(),
        forall|i: int|
            0 <= i < stats.len() ==> #[trigger] start.probed_all(stats).rows[i] == (Row {
                answer: start.targets[i].answer,
                stats: stats[i],
            }),
    decreases stats.len(),
{
    if stats.len() > 0 {
        lemma_rows_of_probed_all(start, stats.drop_last());
        lemma_probed_all_wf(start, stats.drop_last());
    }
}

proof fn lemma_probed_all_within(
    start: LookupView,
    first: Seq<ProbeStatistics>,
    second: Seq<ProbeStatistics>,
    tolerance: nat,
)
    requires
        start.wf(),
        first.len() == second.len(),
        forall|i: int| 0 <= i < first.len() ==> (#[trigger] first[i]).within(second[i], tolerance),
    ensures
        rows_within(start.probed_all(first).rows, start.probed_all(second).rows, tolerance),
    decreases first.len(),
{
    if first.len() > 0 {
        lemma_probed_all_within(start, first.drop_last(), second.drop_last(), tolerance);
        lemma_probed_all_wf(start, first.drop_last());
        lemma_probed_all_wf(start, second.drop_last());
        assert(first.last().within(second.last(), tolerance));
    }
}

/// Two lookups that begin from the same reply of a resolver, and whose
/// probes give the same statistics up to `tolerance` milliseconds, come to
/// the same outcome up to `tolerance`: the same error, or rows of the same
/// answers in the same order, with as many requests lost and with mean
/// latencies no further apart. Where the statistics are the same, so are
/// the outcomes.
pub proof fn lemma_lookup_is_repeatable(
    tag: Seq<char>,
    resolved: Result<Seq<Answer>, ResolveError>,
    first: Seq<ProbeStatistics>,
    second: Seq<ProbeStatistics>,
    tolerance: nat,
)
    requires
        first.len() == second.len(),
        forall|i: int| 0 <= i < first.len() ==> (#[trigger] first[i]).within(second[i], tolerance),
    ensures
        ({
            let once = LookupView::begun(tag, resolved).probed_all(first).outcome();
            let again = LookupView::begun(tag, resolved).probed_all(second).outcome();
            &&& once.tag == again.tag
            &&& match (once.result, again.result) {
                (Ok(rows), Ok(others)) => rows_within(rows, others, tolerance),
                (Err(error), Err(other)) => error == other,
                _ => false,
            }
            &&& tolerance == 0 ==> once == again
        }),
{
    let start = LookupView::begun(tag, resolved);
    lemma_probed_all_within(start, first, second, tolerance);
    lemma_probed_all_wf(start, first);
    lemma_probed_all_wf(start, second);
    if tolerance == 0 {
        assert(start.probed_all(first).rows =~= start.probed_all(second).rows);
    }
}

/// The answers among `answers` that are probed, in their order, each with
/// the address that its data names.
pub fn targets(answers: Vec<Answer>) -> (found: Vec<Target>)
    ensures
        found@ == targets_of(answers@),
{
    let ghost all = answers@;
    let mut found: Vec<Target> = Vec::new();
    for answer in it: answers
        invariant
            it.seq() == all,
            found@ == targets_of(all.take(it.index() as int)),
    {
        proof {
            assert(all.take(it.index() + 1).drop_last() =~= all.take(it.index() as int));
        }
        match Ipv4Address::parse(answer.data.as_str()) {
            Some(address) => {
                found.push(Target { answer, address });
            },
            None => {},
        }
    }
    proof {
        assert(all.take(all.len() as int) =~= all);
    }
    found
}

/// A resolver's lookup, as far as it has got.
pub struct Lookup {
    tag: String,
    failure: Option<ResolveError>,
    targets: Vec<Target>,
    rows: Vec<Row>,
}

/// A lookup that waits for the statistics of the probe it has asked for.
pub struct PendingProbe {
    lookup: Lookup,
}

/// What a lookup asks of its caller next.
pub enum LookupStep {
    /// Probe the address that this names, and hand the statistics back
    /// with [`PendingProbe::resume`].
    Probe(PendingProbe),
    /// Nothing more: the lookup is over, and this is what it came to.
    Done(LookupOutcome),
}

impl View for Lookup {
    type V = LookupView;

    closed spec fn view(&self) -> LookupView {
        LookupView {
            tag: self.tag@,
            failure: self.failure,
            targets: self.targets@,
            rows: self.rows@,
        }
    }
}

impl View for PendingProbe {
    type V = LookupView;

    closed spec fn view(&self) -> LookupView {
        self.lookup@
    }
}

impl Lookup {
    #[verifier::type_invariant]
    spec fn inv(self) -> bool {
        self@.wf()
    }

    /// The lookup of the resolver `tag`, once the resolver has replied:
    /// with the answers that are to be probed, or with the error that kept
    /// the answers away and nothing to probe.
    pub fn begin(tag: &str, resolved: Result<Vec<Answer>, ResolveError>) -> (lookup: Lookup)
        ensures
            lookup@ == LookupView::begun(
                tag@,
                match resolved {
                    Ok(answers) => Ok(answers@),
                    Err(error) => Err(error),
                },
            ),
            lookup@.wf(),
    {
        match resolved {
            Ok(answers) => Lookup {
                tag: String::from_str(tag),
                failure: None,
                targets: targets(answers),
                rows: Vec::new(),
            },
            Err(error) => Lookup {
                tag: String::from_str(tag),
                failure: Some(error),
                targets: Vec::new(),
                rows: Vec::new(),
            },
        }
    }

    /// What the lookup asks for next: the probe of the next target while
    /// one is left, and after that nothing but its outcome.
    pub fn step(self) -> (step: LookupStep)
        ensures
            self@.wf(),
            match step {
                LookupStep::Probe(pending) => !self@.is_complete() && pending@ == self@,
                LookupStep::Done(outcome) => self@.is_complete() && outcome@ == self@.outcome(),
            },
    {
        proof {
            use_type_invariant(&self);
        }
        if self.rows.len() < self.targets.len() {
            LookupStep::Probe(PendingProbe { lookup: self })
        } else {
            let result = match self.failure {
                Some(error) => Err(error),
                None => Ok(self.rows),
            };
            LookupStep::Done(LookupOutcome { tag: self.tag, result })
        }
    }
}

impl PendingProbe {
    #[verifier::type_invariant]
    spec fn inv(self) -> bool {
        &&& self.lookup@.wf()
        &&& !self.lookup@.is_complete()
    }

    /// The address to probe.
    pub fn address(&self) -> (address: Ipv4Address)
        ensures
            self@.wf(),
            !self@.is_complete(),
            address == self@.next_address(),
    {
        proof {
            use_type_invariant(self);
        }
        self.lookup.targets[self.lookup.rows.len()].address
    }

    /// The lookup after the probe of the address gave `stats`: with one row
    /// more, that of the target probed.
    pub fn resume(self, stats: ProbeStatistics) -> (lookup: Lookup)
        ensures
            lookup@ == self@.probed(stats),
            lookup@.wf(),
    {
        proof {
            use_type_invariant(&self);
        }
        let Lookup { tag, failure, targets, mut rows } = self.lookup;
        let answer = targets[rows.len()].answer.clone();
        rows.push(Row { answer, stats });
        Lookup { tag, failure, targets, rows }
    }
}

} // verus!
