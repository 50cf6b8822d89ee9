//! The run over all resolvers: the queries it begins with, and the merge
//! of what the lookups came to.
//!
//! The lookups run side by side in the caller's hands and share nothing.
//! What is decided here is which queries go out, and how the outcomes are
//! put together once every lookup is over: the rows of each resolver that
//! gave any, in the order the outcomes are handed in, and a diagnostic for
//! each resolver that failed. One resolver's failure takes nothing from the
//! rows of another.

use vstd::prelude::*;
use vstd::string::StringExecFns;
use crate::dns::{query, query_url, QueryRequest, ResolveError};
use crate::lookup::{LookupOutcome, OutcomeView};
use crate::record::{record_views, records_of, Record, RecordView};

verus! {

/// A resolver as it is configured: a tag to tell it by, and the URL of its
/// DNS-over-HTTPS endpoint.
#[derive(Debug, PartialEq, Eq)]
pub struct Resolver {
    pub tag: String,
    pub endpoint: String,
}

/// Why a run cannot begin.
#[derive(Clone, Copy, Debug, PartialEq, Eq)]
pub enum ConfigurationError {
    /// No resolver is configured, so there is nobody to ask.
    NoResolvers,
}

/// The query that goes to one resolver.
#[derive(Debug, PartialEq, Eq)]
pub struct PlannedQuery {
    /// The tag of the resolver.
    pub tag: String,
    pub request: QueryRequest,
}

/// What a run came to.
#[derive(Debug, PartialEq, Eq)]
pub struct Report {
    /// The lines of the table.
    pub records: Vec<Record>,
    /// One line for each resolver that failed, for the error stream.
    pub diagnostics: Vec<String>,
}

/// A [`Report`] as a value of specifications.
pub struct ReportView {
    pub records: Seq<RecordView>,
    pub diagnostics: Seq<Seq<char>>,
}

impl View for Report {
    type V = ReportView;

    open spec fn view(&self) -> ReportView {
        ReportView {
            records: record_views(self.records@),
            diagnostics: self.diagnostics@.map_values(|line: String| line@),
        }
    }
}

/// The views of `outcomes`, one for one.
pub open spec fn outcome_views(outcomes: Seq<LookupOutcome>) -> Seq<OutcomeView> {
    outcomes.map_values(|outcome: LookupOutcome| outcome@)
}

/// The line that reports the failure of the resolver `tag`.
pub open spec fn diagnostic_of(tag: Seq<char>, error: ResolveError) -> Seq<char> {
    tag + " error: "@ + error.text()
}

/// The lines of the table that one outcome gives: those of its rows, and
/// none where the resolver failed.
pub open spec fn outcome_records(outcome: OutcomeView) -> Seq<RecordView> {
    match outcome.result {
        Ok(rows) => records_of(outcome.tag, rows),
        Err(_) => Seq::empty(),
    }
}

/// The diagnostics that one outcome gives: one where the resolver failed,
/// and else none.
pub open spec fn outcome_diagnostics(outcome: OutcomeView) -> Seq<Seq<char>> {
    match outcome.result {
        Ok(_) => Seq::empty(),
        Err(error) => seq![diagnostic_of(outcome.tag, error)],
    }
}

/// What `outcomes` come to when they are put together in their order.
pub open spec fn merged(outcomes: Seq<OutcomeView>) -> ReportView
    decreases outcomes.len(),
{
    if outcomes.len() == 0 {
        ReportView { records: Seq::empty(), diagnostics: Seq::empty() }
    } else {
        let before = merged(outcomes.drop_last());
        ReportView {
            records: before.records + outcome_records(outcomes.last()),
            diagnostics: before.diagnostics + outcome_diagnostics(outcomes.last()),
        }
    }
}

/// How many of `outcomes` are failures.
pub open spec fn failures(outcomes: Seq<OutcomeView>) -> nat
    decreases outcomes.len(),
{
    if outcomes.len() == 0 {
        0
    } else if outcomes.last().result is Err {
        failures(outcomes.drop_last()) + 1
    } else {
        failures(outcomes.drop_last())
    }
}

/// Merging outcomes that stand one group behind another gives what the
/// groups give, one behind the other.
pub proof fn lemma_merged_in_order(first: Seq<OutcomeView>, second: Seq<OutcomeView>)
    ensures
        merged(first + second).records == merged(first).records + merged(second).records,
        merged(first + second).diagnostics == merged(first).diagnostics + merged(
            second,
        ).diagnostics,
    decreases second.len(),
{
    if second.len() == 0 {
        assert(first + second =~= first);
    } else {
        lemma_merged_in_order(first, second.drop_last());
        assert((first + second).drop_last() =~= first + second.drop_last());
    }
    assert(merged(first + second).records =~= merged(first).records + merged(second).records);
    assert(merged(first + second).diagnostics =~= merged(first).diagnostics + merged(
        second,
    ).diagnostics);
}

/// One outcome alone gives its own lines and its own diagnostics.
pub proof fn lemma_merged_one(outcome: OutcomeView)
    ensures
        merged(seq![outcome]).records == outcome_records(outcome),
        merged(seq![outcome]).diagnostics == outcome_diagnostics(outcome),
{
    assert(seq![outcome].drop_last() =~= Seq::<OutcomeView>::empty());
    assert(merged(seq![outcome].drop_last()).records =~= Seq::<RecordView>::empty());
    assert(merged(seq![outcome]).records =~= outcome_records(outcome));
    assert(merged(seq![outcome]).diagnostics =~= outcome_diagnostics(outcome));
}

/// A resolver that failed stays by itself: wherever its outcome stands
/// among the others, the table is the one that the others give without it,
/// and the diagnostics are theirs with the one of the failure among them.
pub proof fn lemma_failure_is_isolated(
    before: Seq<OutcomeView>,
    failed: OutcomeView,
    after: Seq<OutcomeView>,
)
    requires
        failed.result is Err,
    ensures
        merged(before + seq![failed] + after).records == merged(before + after).records,
        merged(before + seq![failed] + after).diagnostics == merged(before).diagnostics
            + seq![diagnostic_of(failed.tag, failed.result->Err_0)] + merged(after).diagnostics,
{
    lemma_merged_one(failed);
    lemma_merged_in_order(before, seq![failed]);
    lemma_merged_in_order(before + seq![failed], after);
    lemma_merged_in_order(before, after);
    assert(merged(before + seq![failed] + after).records =~= merged(before + after).records);
}

/// A resolver that gave rows has them in the table whatever became of the
/// others: its lines stand together, in the order of its rows, between the
/// lines of the outcomes before it and those of the outcomes after it.
pub proof fn lemma_success_is_kept(
    before: Seq<OutcomeView>,
    done: OutcomeView,
    after: Seq<OutcomeView>,
)
    requires
        done.result is Ok,
    ensures
        merged(before + seq![done] + after).records == merged(before).records + records_of(
            done.tag,
            done.result->Ok_0,
        ) + merged(after).records,
        merged(before + seq![done] + after).diagnostics == merged(before + after).diagnostics,
{
    lemma_merged_one(done);
    lemma_merged_in_order(before, seq![done]);
    lemma_merged_in_order(before + seq![done], after);
    lemma_merged_in_order(before, after);
    assert(merged(before + seq![done] + after).diagnostics =~= merged(
        before + after,
    ).diagnostics);
}

/// There is one diagnostic for each resolver that failed, and a line of the
/// table for each row of each resolver that did not.
pub proof fn lemma_one_diagnostic_each(outcomes: Seq<OutcomeView>)
    ensures
        merged(outcomes).diagnostics.len() == failures(outcomes),
        failures(outcomes) <= outcomes.len(),
        failures(outcomes) == outcomes.len() ==> merged(outcomes).records.len() == 0,
    decreases outcomes.len(),
{
    if outcomes.len() > 0 {
        lemma_one_diagnostic_each(outcomes.drop_last());
    }
}

/// The line that reports the failure of the resolver `tag`.
pub fn diagnostic(tag: &str, error: &ResolveError) -> (line: String)
    ensures
        line@ == diagnostic_of(tag@, *error),
{
    let mut line = String::from_str(tag);
    line.append(" error: ");
    line.append(error.message());
    line
}

/// The queries that a run for `hostname` begins with: one to each of
/// `resolvers`, in their order. A run with no resolver cannot begin.
pub fn plan(hostname: &str, resolvers: &Vec<Resolver>) -> (planned: Result<
    Vec<PlannedQuery>,
    ConfigurationError,
>)
    ensures
        planned is Err <==> resolvers@.len() == 0,
        planned matches Err(error) ==> error == ConfigurationError::NoResolvers,
        planned matches Ok(queries) ==> {
            &&& queries@.len() == resolvers@.len()
            &&& forall|i: int|
                0 <= i < queries@.len() ==> {
                    let planned_query = #[trigger] queries@[i];
                    &&& planned_query.tag@ == resolvers@[i].tag@
                    &&& planned_query.request.url@ == query_url(
                        hostname@,
                        resolvers@[i].endpoint@,
                    )
                    &&& planned_query.request.accept@ == "application/dns-json"@
                }
        },
{
    if resolvers.len() == 0 {
        return Err(ConfigurationError::NoResolvers);
    }
    let mut queries: Vec<PlannedQuery> = Vec::new();
    let mut i: usize = 0;
    while i < resolvers.len()
        invariant
            i <= resolvers@.len(),
            queries@.len() == i,
            forall|k: int|
                0 <= k < i ==> {
                    let planned_query = #[trigger] queries@[k];
                    &&& planned_query.tag@ == resolvers@[k].tag@
                    &&& planned_query.request.url@ == query_url(
                        hostname@,
                        resolvers@[k].endpoint@,
                    )
                    &&& planned_query.request.accept@ == "application/dns-json"@
                },
        decreases resolvers@.len() - i,
    {
        let resolver = &resolvers[i];
        queries.push(
            PlannedQuery {
                tag: resolver.tag.clone(),
                request: query(hostname, resolver.endpoint.as_str()),
            },
        );
        i = i + 1;
    }
    Ok(queries)
}

/// Puts the outcomes of the lookups together, in the order they are handed
/// in: the lines of each resolver that gave rows, in the order of its rows,
/// and a diagnostic for each resolver that failed.
pub fn merge(outcomes: Vec<LookupOutcome>) -> (report: Report)
    ensures
        report@ == merged(outcome_views(outcomes@)),
{
    let ghost all = outcomes@;
    let mut records: Vec<Record> = Vec::new();
    let mut diagnostics: Vec<String> = Vec::new();
    for outcome in it: outcomes
        invariant
            it.seq() == all,
            record_views(records@) == merged(
                outcome_views(all.take(it.index() as int)),
            ).records,
            diagnostics@.map_values(|line: String| line@) == merged(
                outcome_views(all.take(it.index() as int)),
            ).diagnostics,
    {
        let ghost before = record_views(records@);
        let ghost shown = outcome@;
        proof {
            let longer = outcome_views(all.take(it.index() + 1));
            assert(longer.drop_last() =~= outcome_views(all.take(it.index() as int)));
            assert(longer.last() == shown);
        }
        let LookupOutcome { tag, result } = outcome;
        match result {
            Ok(rows) => {
                let ghost rows_all = rows@;
                for row in jt: rows
                    invariant
                        jt.seq() == rows_all,
                        diagnostics@.map_values(|line: String| line@) == merged(
                            outcome_views(all.take(it.index() as int)),
                        ).diagnostics,
                        record_views(records@) == before + records_of(
                            tag@,
                            rows_all.take(jt.index() as int),
                        ),
                {
                    let ghost earlier = records@;
                    let ghost shown_row = row;
                    let record = Record::new(tag.as_str(), row);
                    let ghost line = record@;
                    records.push(record);
                    proof {
                        assert(record_views(records@) =~= record_views(earlier).push(line));
                        assert(records_of(tag@, rows_all.take(jt.index() + 1)) =~= records_of(
                            tag@,
                            rows_all.take(jt.index() as int),
                        ).push(line));
                    }
                }
                proof {
                    assert(rows_all.take(rows_all.len() as int) =~= rows_all);
                }
            },
            Err(error) => {
                diagnostics.push(diagnostic(tag.as_str(), &error));
            },
        }
    }
    proof {
        assert(all.take(all.len() as int) =~= all);
    }
    Report { records, diagnostics }
}

} // verus!
