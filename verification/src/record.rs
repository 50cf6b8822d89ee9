//! The lines of the comparison table.
//!
//! A [`Record`] is a [`Row`] made ready for display: tagged with the
//! resolver it came from, with the mean latency and the share of lost
//! requests as text.

use vstd::prelude::*;
use vstd::string::StringExecFns;
use crate::decimal::{decimal, decimal_string, signed_decimal, signed_decimal_string};
use crate::lookup::Row;
use crate::probe::ProbeStatistics;

verus! {

/// One line of the comparison table.
#[allow(non_snake_case)]
#[derive(Debug, PartialEq, Eq)]
pub struct Record {
    /// The tag of the resolver that gave the answer.
    pub DoH: String,
    /// The name of the record.
    pub name: String,
    /// The type of the record, as its DNS type code.
    pub rtype: u32,
    /// The time to live of the record in seconds.
    pub TTL: u32,
    /// The address.
    pub data: String,
    /// The mean latency: milliseconds and `ms`, or `/` where no reply came.
    pub mean: String,
    /// The share of lost requests: percent and `%`.
    pub lost: String,
}

/// A [`Record`] with its texts as sequences of characters.
pub struct RecordView {
    pub doh: Seq<char>,
    pub name: Seq<char>,
    pub rtype: u32,
    pub ttl: u32,
    pub data: Seq<char>,
    pub mean: Seq<char>,
    pub lost: Seq<char>,
}

impl View for Record {
    type V = RecordView;

    open spec fn view(&self) -> RecordView {
        RecordView {
            doh: self.DoH@,
            name: self.name@,
            rtype: self.rtype,
            ttl: self.TTL,
            data: self.data@,
            mean: self.mean@,
            lost: self.lost@,
        }
    }
}

impl Clone for Record {
    fn clone(&self) -> (copy: Record)
        ensures
            copy == *self,
    {
        Record {
            DoH: self.DoH.clone(),
            name: self.name.clone(),
            rtype: self.rtype,
            TTL: self.TTL,
            data: self.data.clone(),
            mean: self.mean.clone(),
            lost: self.lost.clone(),
        }
    }
}

/// How a mean latency is shown: `/` where there is none, which no number
/// of milliseconds is shown as.
pub open spec fn mean_text(mean: Option<i32>) -> Seq<char> {
    match mean {
        Some(millis) => signed_decimal(millis as int) + "ms"@,
        None => "/"@,
    }
}

/// How the share of lost requests is shown.
pub open spec fn lost_text(stats: ProbeStatistics) -> Seq<char> {
    decimal(stats.loss_percent_of() as nat) + "%"@
}

/// The line that shows `row`, an answer of the resolver `tag`.
pub open spec fn record_of(tag: Seq<char>, row: Row) -> RecordView {
    RecordView {
        doh: tag,
        name: row.answer.name@,
        rtype: row.answer.rtype,
        ttl: row.answer.TTL,
        data: row.answer.data@,
        mean: mean_text(row.stats.mean_latency_ms),
        lost: lost_text(row.stats),
    }
}

/// The views of `records`, one for one.
pub open spec fn record_views(records: Seq<Record>) -> Seq<RecordView> {
    records.map_values(|record: Record| record@)
}

/// The lines that show `rows`, answers of the resolver `tag`, one for one.
pub open spec fn records_of(tag: Seq<char>, rows: Seq<Row>) -> Seq<RecordView> {
    rows.map_values(|row: Row| record_of(tag, row))
}

/// A mean latency is never shown as a missing mean is: the two cannot be
/// confused in the table.
pub proof fn lemma_missing_mean_is_distinct(millis: i32)
    ensures
        mean_text(Some(millis)) != mean_text(None),
{
    reveal_strlit("ms");
    reveal_strlit("/");
    let shown = mean_text(Some(millis));
    assert(shown.len() >= 2);
}

impl Record {
    /// The line that shows `r`, an answer of the resolver `tag`.
    pub fn new(tag: &str, r: Row) -> (record: Record)
        ensures
            record@ == record_of(tag@, r),
    {
        let mean = match r.stats.mean_latency_ms {
            Some(millis) => {
                let mut text = signed_decimal_string(millis as i64);
                text.append("ms");
                text
            },
            None => String::from_str("/"),
        };
        let mut lost = decimal_string(r.stats.loss_percent() as u64);
        lost.append("%");
        Record {
            DoH: String::from_str(tag),
            name: r.answer.name,
            rtype: r.answer.rtype,
            TTL: r.answer.TTL,
            data: r.answer.data,
            mean,
            lost,
        }
    }
}

} // verus!
