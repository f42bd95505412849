//! Log records on their way to Loki: which records are new, and how they
//! are grouped into streams.

use crate::client::pairs;
use crate::codec::log_line::{entry_views, Level, LogEntry, LogEntryView};
use crate::dedup::{lemma_insert_keeps_sync, DedupView, FixedSizeSortedHashSet};
use crate::payloads::s33::GetMultipleHNAPsLogsResponse;
use crate::text::{decimal_digits, decimal_of, distinct_names, string_of};
use vstd::prelude::*;

verus! {

/// One stream: its labels, and its lines with their times in nanoseconds
/// since the start of 1970, written in decimal.
#[derive(Debug, Clone, PartialEq, Eq)]
pub struct LokiStream {
    pub stream: Vec<(String, String)>,
    pub values: Vec<(String, String)>,
}

/// What is pushed to Loki in one go.
#[derive(Debug, Clone, PartialEq, Eq)]
pub struct LokiStreams {
    pub streams: Vec<LokiStream>,
}

/// A stream as a mathematical value.
pub struct StreamView {
    pub stream: Seq<(Seq<char>, Seq<char>)>,
    pub values: Seq<(Seq<char>, Seq<char>)>,
}

impl View for LokiStream {
    type V = StreamView;

    open spec fn view(&self) -> StreamView {
        StreamView { stream: pairs(self.stream@), values: pairs(self.values@) }
    }
}

impl View for LokiStreams {
    type V = Seq<StreamView>;

    open spec fn view(&self) -> Seq<StreamView> {
        Seq::new(self.streams@.len(), |i: int| self.streams@[i]@)
    }
}

/// A record on its way to Loki: its severity, its time in nanoseconds, its
/// line.
pub type Record = (Level, u128, String);

/// A record as a mathematical value.
pub open spec fn record_view(record: Option<Record>) -> Option<(Level, nat, Seq<char>)> {
    match record {
        Some((level, nanos, line)) => Some((level, nanos as nat, line@)),
        None => None,
    }
}

/// The values of a sequence of records.
pub open spec fn record_views(records: Seq<Option<Record>>) -> Seq<Option<(Level, nat, Seq<char>)>> {
    Seq::new(records.len(), |i: int| record_view(records[i]))
}

/// The value of the label `level` for a severity.
pub open spec fn level_name(level: Level) -> Seq<char> {
    match level {
        Level::Trace => "trace"@,
        Level::Debug => "debug"@,
        Level::Info => "info"@,
        Level::Warn => "warn"@,
        Level::Error => "error"@,
    }
}

/// The severities in the order in which their streams are listed.
pub open spec fn level_at(k: int) -> Level {
    if k == 0 {
        Level::Error
    } else if k == 1 {
        Level::Warn
    } else if k == 2 {
        Level::Info
    } else if k == 3 {
        Level::Debug
    } else {
        Level::Trace
    }
}

/// The times and lines of the records of one severity, in the order in
/// which they came.
pub open spec fn level_values(
    records: Seq<Option<(Level, nat, Seq<char>)>>,
    level: Level,
) -> Seq<(Seq<char>, Seq<char>)>
    decreases records.len(),
{
    if records.len() == 0 {
        Seq::empty()
    } else {
        let front = level_values(records.drop_last(), level);
        match records.last() {
            Some((l, nanos, line)) => if l == level {
                front.push((decimal_digits(nanos), line))
            } else {
                front
            },
            None => front,
        }
    }
}

/// The labels without those named `name`.
pub open spec fn without_label(labels: Seq<(Seq<char>, Seq<char>)>, name: Seq<char>) -> Seq<
    (Seq<char>, Seq<char>),
>
    decreases labels.len(),
{
    if labels.len() == 0 {
        Seq::empty()
    } else if labels.last().0 == name {
        without_label(labels.drop_last(), name)
    } else {
        without_label(labels.drop_last(), name).push(labels.last())
    }
}

/// The labels of the stream of one severity: the given labels, and the
/// label `level` in place of any that they had under that name.
pub open spec fn stream_labels(labels: Seq<(Seq<char>, Seq<char>)>, level: Level) -> Seq<
    (Seq<char>, Seq<char>),
> {
    without_label(labels, "level"@).push(("level"@, level_name(level)))
}

/// The streams of the first `k` severities: one for each severity that has
/// records.
pub open spec fn streams_upto(
    labels: Seq<(Seq<char>, Seq<char>)>,
    records: Seq<Option<(Level, nat, Seq<char>)>>,
    k: int,
) -> Seq<StreamView>
    decreases k,
{
    if k <= 0 {
        Seq::empty()
    } else {
        let front = streams_upto(labels, records, k - 1);
        let values = level_values(records, level_at(k - 1));
        if values.len() > 0 {
            front.push(StreamView { stream: stream_labels(labels, level_at(k - 1)), values })
        } else {
            front
        }
    }
}

/// The streams that the records make up: errors first, then warnings,
/// information, debug and trace records.
pub open spec fn streams_of(
    labels: Seq<(Seq<char>, Seq<char>)>,
    records: Seq<Option<(Level, nat, Seq<char>)>>,
) -> Seq<StreamView> {
    streams_upto(labels, records, 5)
}

/// Taking a name out of the labels leaves labels that were there, none of
/// them under that name, and no name twice where none stood twice.
pub proof fn lemma_without_label(labels: Seq<(Seq<char>, Seq<char>)>, name: Seq<char>)
    ensures
        forall|i: int|
            0 <= i < without_label(labels, name).len() ==> (#[trigger] without_label(
                labels,
                name,
            )[i]).0 != name && labels.contains(without_label(labels, name)[i]),
        distinct_names(labels) ==> distinct_names(without_label(labels, name)),
    decreases labels.len(),
{
    if labels.len() > 0 {
        let front = labels.drop_last();
        let kept = without_label(front, name);
        let all = without_label(labels, name);
        lemma_without_label(front, name);
        assert forall|i: int| 0 <= i < kept.len() implies labels.contains(#[trigger] kept[i]) by {
            let j = choose|j: int| 0 <= j < front.len() && front[j] == kept[i];
            assert(labels[j] == kept[i]);
        }
        assert(labels[labels.len() - 1] == labels.last());
        if distinct_names(labels) {
            assert(distinct_names(front)) by {
                assert forall|i: int, j: int| 0 <= i < j < front.len() implies (#[trigger] front[i]).0
                    != (#[trigger] front[j]).0 by {
                    assert(labels[i].0 != labels[j].0);
                }
            }
            assert forall|i: int, j: int| 0 <= i < j < all.len() implies (#[trigger] all[i]).0 != (
            #[trigger] all[j]).0 by {
                if j == kept.len() {
                    let k = choose|k: int| 0 <= k < front.len() && front[k] == kept[i];
                    assert(labels[k].0 != labels[labels.len() - 1].0);
                }
            }
        }
    }
}

/// The labels of a stream name nothing twice, if the given labels name
/// nothing twice.
pub proof fn lemma_stream_labels_differ(labels: Seq<(Seq<char>, Seq<char>)>, level: Level)
    requires
        distinct_names(labels),
    ensures
        distinct_names(stream_labels(labels, level)),
{
    lemma_without_label(labels, "level"@);
}

proof fn lemma_streams_upto_differ(
    labels: Seq<(Seq<char>, Seq<char>)>,
    records: Seq<Option<(Level, nat, Seq<char>)>>,
    k: int,
)
    requires
        distinct_names(labels),
    ensures
        forall|i: int|
            0 <= i < streams_upto(labels, records, k).len() ==> distinct_names(
                (#[trigger] streams_upto(labels, records, k)[i]).stream,
            ),
    decreases k,
{
    if k > 0 {
        let front = streams_upto(labels, records, k - 1);
        let all = streams_upto(labels, records, k);
        lemma_streams_upto_differ(labels, records, k - 1);
        lemma_stream_labels_differ(labels, level_at(k - 1));
        assert forall|i: int| 0 <= i < all.len() implies distinct_names((#[trigger] all[i]).stream) by {
            if i < front.len() {
                assert(all[i] == front[i]);
            }
        }
    }
}

/// Every stream that is made from labels which name nothing twice has
/// labels which name nothing twice.
pub proof fn lemma_streams_name_nothing_twice(
    labels: Seq<(Seq<char>, Seq<char>)>,
    records: Seq<Option<(Level, nat, Seq<char>)>>,
)
    requires
        distinct_names(labels),
    ensures
        forall|i: int|
            0 <= i < streams_of(labels, records).len() ==> distinct_names(
                (#[trigger] streams_of(labels, records)[i]).stream,
            ),
{
    lemma_streams_upto_differ(labels, records, 5);
}

fn level_label(level: Level) -> (name: String)
    ensures
        name@ == level_name(level),
{
    match level {
        Level::Trace => String::from_str("trace"),
        Level::Debug => String::from_str("debug"),
        Level::Info => String::from_str("info"),
        Level::Warn => String::from_str("warn"),
        Level::Error => String::from_str("error"),
    }
}

fn level_number(k: usize) -> (level: Level)
    ensures
        level == level_at(k as int),
{
    if k == 0 {
        Level::Error
    } else if k == 1 {
        Level::Warn
    } else if k == 2 {
        Level::Info
    } else if k == 3 {
        Level::Debug
    } else {
        Level::Trace
    }
}

fn same_level(a: Level, b: Level) -> (r: bool)
    ensures
        r == (a == b),
{
    match (a, b) {
        (Level::Error, Level::Error) => true,
        (Level::Warn, Level::Warn) => true,
        (Level::Info, Level::Info) => true,
        (Level::Debug, Level::Debug) => true,
        (Level::Trace, Level::Trace) => true,
        _ => false,
    }
}

fn values_of(logs: &Vec<Option<Record>>, level: Level) -> (values: Vec<(String, String)>)
    ensures
        pairs(values@) == level_values(record_views(logs@), level),
{
    let mut values: Vec<(String, String)> = Vec::new();
    let mut i: usize = 0;
    assert(record_views(logs@).take(0) =~= Seq::empty());
    assert(pairs(values@) =~= Seq::empty());
    while i < logs.len()
        invariant
            i <= logs.len(),
            pairs(values@) == level_values(record_views(logs@).take(i as int), level),
        decreases logs.len() - i,
    {
        assert(record_views(logs@).take(i + 1).drop_last() =~= record_views(logs@).take(i as int));
        assert(record_views(logs@).take(i + 1).last() == record_view(logs[i as int]));
        match &logs[i] {
            Some(record) => {
                if same_level(record.0, level) {
                    let ghost before = pairs(values@);
                    let time = string_of(&decimal_of(record.1));
                    values.push((time, record.2.clone()));
                    assert(pairs(values@) =~= before.push(
                        (decimal_digits(record.1 as nat), record.2@),
                    ));
                }
            },
            None => {},
        }
        i += 1;
    }
    assert(record_views(logs@).take(logs.len() as int) =~= record_views(logs@));
    values
}

fn labels_for(labels: &Vec<(String, String)>, level: Level) -> (r: Vec<(String, String)>)
    ensures
        pairs(r@) == stream_labels(pairs(labels@), level),
{
    let mut out: Vec<(String, String)> = Vec::new();
    let name = String::from_str("level");
    let mut i: usize = 0;
    assert(pairs(labels@).take(0) =~= Seq::empty());
    assert(pairs(out@) =~= Seq::empty());
    while i < labels.len()
        invariant
            i <= labels.len(),
            name@ == "level"@,
            pairs(out@) == without_label(pairs(labels@).take(i as int), "level"@),
        decreases labels.len() - i,
    {
        assert(pairs(labels@).take(i + 1).drop_last() =~= pairs(labels@).take(i as int));
        assert(pairs(labels@).take(i + 1).last() == (labels[i as int].0@, labels[i as int].1@));
        if !(labels[i].0 == name) {
            let ghost before = pairs(out@);
            out.push((labels[i].0.clone(), labels[i].1.clone()));
            assert(pairs(out@) =~= before.push((labels[i as int].0@, labels[i as int].1@)));
        }
        i += 1;
    }
    assert(pairs(labels@).take(labels.len() as int) =~= pairs(labels@));
    let ghost before = pairs(out@);
    out.push((name, level_label(level)));
    assert(pairs(out@) =~= before.push(("level"@, level_name(level))));
    out
}

/// Groups the records by severity into streams. Each stream carries the
/// given labels and the label `level`; a `None` among the records stands for
/// a record that is not passed on.
pub fn construct_loki_streams(labels: Vec<(String, String)>, logs: Vec<Option<Record>>) -> (streams:
    LokiStreams)
    ensures
        streams@ == streams_of(pairs(labels@), record_views(logs@)),
{
    let mut streams: Vec<LokiStream> = Vec::new();
    let mut k: usize = 0;
    let ghost all = streams_of(pairs(labels@), record_views(logs@));
    while k < 5
        invariant
            k <= 5,
            Seq::new(streams@.len(), |i: int| streams@[i]@) == streams_upto(
                pairs(labels@),
                record_views(logs@),
                k as int,
            ),
        decreases 5 - k,
    {
        let level = level_number(k);
        let values = values_of(&logs, level);
        if values.len() > 0 {
            let ghost before = Seq::new(streams@.len(), |i: int| streams@[i]@);
            let stream = LokiStream { stream: labels_for(&labels, level), values };
            streams.push(stream);
            assert(Seq::new(streams@.len(), |i: int| streams@[i]@) =~= before.push(stream@));
        }
        k += 1;
    }
    LokiStreams { streams }
}

/// The record that is passed on for a log record.
pub open spec fn record_of(entry: LogEntryView) -> (Level, nat, Seq<char>) {
    (entry.level, entry.timestamp.spec_epoch_nanos() as nat, entry.message)
}

/// What a pass over `entries` makes of the set of records seen so far, and
/// what it passes on: a record that is a member is dropped, every other
/// becomes a member and is passed on.
pub open spec fn unseen(seen: DedupView<LogEntryView>, entries: Seq<LogEntryView>) -> (
    DedupView<LogEntryView>,
    Seq<Option<(Level, nat, Seq<char>)>>,
)
    decreases entries.len(),
{
    if entries.len() == 0 {
        (seen, Seq::empty())
    } else {
        let (before, passed) = unseen(seen, entries.drop_last());
        let entry = entries.last();
        if before.members.contains(entry) {
            (before, passed.push(None))
        } else {
            (before.insert(entry), passed.push(Some(record_of(entry))))
        }
    }
}

/// Whether every record lies at or after the start of 1970.
pub open spec fn all_after_epoch(entries: Seq<LogEntryView>) -> bool {
    forall|i: int| 0 <= i < entries.len() ==> (#[trigger] entries[i]).timestamp.spec_epoch_nanos() >= 0
}

/// Whether every record lies at or after the start of 1970, so that its
/// time can be written as a count of nanoseconds.
pub fn check_after_epoch(entries: &Vec<LogEntry>) -> (r: bool)
    ensures
        r == all_after_epoch(entry_views(entries@)),
{
    let mut i: usize = 0;
    while i < entries.len()
        invariant
            i <= entries.len(),
            forall|j: int| 0 <= j < i ==> (#[trigger] entry_views(entries@)[j]).timestamp.spec_epoch_nanos() >= 0,
        decreases entries.len() - i,
    {
        if entries[i].timestamp.epoch_nanos().is_none() {
            assert(entry_views(entries@)[i as int].timestamp.spec_epoch_nanos() < 0);
            return false;
        }
        i += 1;
    }
    true
}

/// Passes on the records that were not seen before, and remembers them.
pub fn forward_unseen(seen: &mut FixedSizeSortedHashSet<LogEntry>, entries: &Vec<LogEntry>) -> (passed:
    Vec<Option<Record>>)
    requires
        old(seen).wf(),
        old(seen)@.in_sync(),
        all_after_epoch(entry_views(entries@)),
    ensures
        final(seen).wf(),
        final(seen)@.in_sync(),
        final(seen)@ == unseen(old(seen)@, entry_views(entries@)).0,
        record_views(passed@) == unseen(old(seen)@, entry_views(entries@)).1,
{
    let mut passed: Vec<Option<Record>> = Vec::new();
    let mut i: usize = 0;
    assert(entry_views(entries@).take(0) =~= Seq::empty());
    assert(record_views(passed@) =~= Seq::empty());
    while i < entries.len()
        invariant
            i <= entries.len(),
            seen.wf(),
            seen@.in_sync(),
            all_after_epoch(entry_views(entries@)),
            seen@ == unseen(old(seen)@, entry_views(entries@).take(i as int)).0,
            record_views(passed@) == unseen(old(seen)@, entry_views(entries@).take(i as int)).1,
        decreases entries.len() - i,
    {
        assert(entry_views(entries@).take(i + 1).drop_last() =~= entry_views(entries@).take(
            i as int,
        ));
        assert(entry_views(entries@).take(i + 1).last() == entries[i as int]@);
        assert(entry_views(entries@)[i as int] == entries[i as int]@);
        let ghost before = record_views(passed@);
        let entry = &entries[i];
        if seen.contains(entry) {
            passed.push(None);
            assert(record_views(passed@) =~= before.push(None));
        } else {
            proof {
                lemma_insert_keeps_sync(seen@, entry@);
            }
            let copy = LogEntry {
                timestamp: entry.timestamp,
                level: entry.level,
                message: entry.message.clone(),
            };
            seen.insert(copy);
            let nanos = match entry.timestamp.epoch_nanos() {
                Some(nanos) => nanos,
                None => vstd::pervasive::unreached(),
            };
            passed.push(Some((entry.level, nanos, entry.message.clone())));
            assert(record_views(passed@) =~= before.push(Some(record_of(entry@))));
        }
        i += 1;
    }
    assert(entry_views(entries@).take(entries.len() as int) =~= entry_views(entries@));
    passed
}

/// The label that every stream of this program carries.
pub open spec fn app_labels() -> Seq<(Seq<char>, Seq<char>)> {
    seq![("app"@, "modem_scraper"@)]
}

/// Turns a reply to the poll for the log into what is pushed to Loki:
/// the records that were not seen before, grouped by severity.
pub fn logs_to_loki(
    logs: &GetMultipleHNAPsLogsResponse,
    seen: &mut FixedSizeSortedHashSet<LogEntry>,
) -> (streams: LokiStreams)
    requires
        old(seen).wf(),
        old(seen)@.in_sync(),
        all_after_epoch(
            entry_views(logs.get_customer_status_log_response.customer_status_log_list@),
        ),
    ensures
        final(seen).wf(),
        final(seen)@.in_sync(),
        final(seen)@ == unseen(
            old(seen)@,
            entry_views(logs.get_customer_status_log_response.customer_status_log_list@),
        ).0,
        streams@ == streams_of(
            app_labels(),
            unseen(
                old(seen)@,
                entry_views(logs.get_customer_status_log_response.customer_status_log_list@),
            ).1,
        ),
{
    let mut labels: Vec<(String, String)> = Vec::new();
    labels.push((String::from_str("app"), String::from_str("modem_scraper")));
    assert(pairs(labels@) =~= app_labels());
    let passed = forward_unseen(
        seen,
        &logs.get_customer_status_log_response.customer_status_log_list,
    );
    construct_loki_streams(labels, passed)
}

} // verus!
