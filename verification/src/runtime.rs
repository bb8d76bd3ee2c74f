//! The state that requests, polls and endpoints share, and what the endpoints say.
use crate::clients;
use crate::clients::Clients;
use crate::series;
use crate::series::{RequestMetrics, RequestMetricsView, Series, SeriesView};
use crate::text;
use std::sync::Arc;
use vstd::prelude::*;
use vstd::string::*;

verus! {

/// Where the client table in use came from.
#[derive(Debug, Clone, Copy, PartialEq, Eq, Structural)]
pub enum Source {
    /// The saved file.
    State,
    /// The remote file.
    Remote,
}

/// What is known of the synchronization with the remote file. Times are in seconds of
/// Unix time.
#[derive(Debug)]
pub struct SyncStatus {
    pub source: Option<Source>,
    pub last_success: Option<u64>,
    /// Since when the table in use is in use, if it came from the remote file.
    pub data_since: Option<u64>,
    pub last_error: Option<String>,
}

/// The state that requests, polls and endpoints share.
#[derive(Debug)]
pub struct Shared {
    pub snapshot: Option<Arc<Clients>>,
    pub dhcp_ready: bool,
    pub requests: u64,
    pub responses: u64,
    pub errors: u64,
    pub unknown: u64,
    pub boot_mode_mismatches: u64,
    pub sync_success: u64,
    pub sync_errors: u64,
    pub state_read_errors: u64,
    pub state_write_errors: u64,
    pub status: SyncStatus,
    pub request_labels: RequestMetrics,
    pub response_labels: Vec<Series>,
    /// How many requests were timed.
    pub durations: u64,
}

/// What a `SyncStatus` holds.
#[verifier::ext_equal]
pub struct SyncStatusView {
    pub source: Option<Source>,
    pub last_success: Option<u64>,
    pub data_since: Option<u64>,
    pub last_error: Option<Seq<char>>,
}

/// What a `Shared` holds.
#[verifier::ext_equal]
pub struct SharedView {
    pub snapshot: Option<Arc<Clients>>,
    pub dhcp_ready: bool,
    pub requests: u64,
    pub responses: u64,
    pub errors: u64,
    pub unknown: u64,
    pub boot_mode_mismatches: u64,
    pub sync_success: u64,
    pub sync_errors: u64,
    pub state_read_errors: u64,
    pub state_write_errors: u64,
    pub status: SyncStatusView,
    pub request_labels: RequestMetricsView,
    pub response_labels: Seq<SeriesView>,
    pub durations: u64,
}

impl View for SyncStatus {
    type V = SyncStatusView;

    open spec fn view(&self) -> SyncStatusView {
        SyncStatusView {
            source: self.source,
            last_success: self.last_success,
            data_since: self.data_since,
            last_error: match self.last_error {
                Some(error) => Some(error@),
                None => None,
            },
        }
    }
}

impl View for Shared {
    type V = SharedView;

    open spec fn view(&self) -> SharedView {
        SharedView {
            snapshot: self.snapshot,
            dhcp_ready: self.dhcp_ready,
            requests: self.requests,
            responses: self.responses,
            errors: self.errors,
            unknown: self.unknown,
            boot_mode_mismatches: self.boot_mode_mismatches,
            sync_success: self.sync_success,
            sync_errors: self.sync_errors,
            state_read_errors: self.state_read_errors,
            state_write_errors: self.state_write_errors,
            status: self.status@,
            request_labels: self.request_labels@,
            response_labels: series::views(self.response_labels@),
            durations: self.durations,
        }
    }
}

/// Whether every series has `n` labels.
pub open spec fn labelled(series: Seq<SeriesView>, n: nat) -> bool {
    forall|i: int| 0 <= i < series.len() ==> (#[trigger] series[i]).labels.len() == n
}

impl SharedView {
    /// What the state keeps to at all times.
    pub open spec fn wf(self) -> bool {
        &&& self.snapshot matches Some(clients) ==> clients.wf()
        &&& series::sorted(self.request_labels.series)
        &&& labelled(self.request_labels.series, 5)
        &&& series::sorted(self.response_labels)
        &&& labelled(self.response_labels, 1)
    }
}

/// The state with one more request of these labels.
pub open spec fn with_request(shared: SharedView, labels: Seq<Seq<char>>, now: u64) -> SharedView {
    let metrics = series::pruned(shared.request_labels, now);
    SharedView {
        requests: series::raised(shared.requests),
        request_labels: RequestMetricsView {
            series: series::counted(metrics.series, labels, now),
            last_pruned: metrics.last_pruned,
        },
        ..shared
    }
}

/// The state with one more response of that type.
pub open spec fn with_response(shared: SharedView, message: Seq<char>) -> SharedView {
    SharedView {
        responses: series::raised(shared.responses),
        response_labels: series::counted(shared.response_labels, seq![message], 0),
        ..shared
    }
}

/// Counting a request keeps the state well-formed.
pub proof fn lemma_with_request_wf(shared: SharedView, labels: Seq<Seq<char>>, now: u64)
    requires
        shared.wf(),
        labels.len() == 5,
    ensures
        with_request(shared, labels, now).wf(),
{
    let kept = series::pruned(shared.request_labels, now).series;
    lemma_pruned_wf(shared, now);
    series::law_counting_keeps_order(kept, labels, now);
    lemma_counted_labelled(kept, labels, now, 5);
}

/// Counting a response keeps the state well-formed.
pub proof fn lemma_with_response_wf(shared: SharedView, message: Seq<char>)
    requires
        shared.wf(),
    ensures
        with_response(shared, message).wf(),
{
    series::law_counting_keeps_order(shared.response_labels, seq![message], 0);
    lemma_counted_labelled(shared.response_labels, seq![message], 0, 1);
}

proof fn lemma_counted_labelled(
    series: Seq<SeriesView>,
    labels: Seq<Seq<char>>,
    now: u64,
    n: nat,
)
    requires
        labelled(series, n),
        labels.len() == n,
    ensures
        labelled(series::counted(series, labels, now), n),
    decreases series.len(),
{
    let all = series::counted(series, labels, now);
    if series.len() > 0 && series[0].labels != labels && !series::before(labels, series[0].labels) {
        let rest = series.skip(1);
        assert forall|i: int| 0 <= i < rest.len() implies (#[trigger] rest[i]).labels.len() == n by {
            assert(series[i + 1].labels.len() == n);
        }
        lemma_counted_labelled(rest, labels, now, n);
    }
    assert forall|i: int| 0 <= i < all.len() implies (#[trigger] all[i]).labels.len() == n by {
        if series.len() == 0 {
        } else if series[0].labels == labels {
            if i > 0 {
                assert(series[i].labels.len() == n);
            }
        } else if series::before(labels, series[0].labels) {
            if i > 0 {
                assert(series[i - 1].labels.len() == n);
            }
        } else if i > 0 {
            assert(series::counted(series.skip(1), labels, now)[i - 1].labels.len() == n);
        } else {
            assert(series[0].labels.len() == n);
        }
    }
}

impl Shared {
    /// The state at the start.
    pub fn new() -> (shared: Self)
        ensures
            shared@.wf(),
            shared@ == (SharedView {
                snapshot: None,
                dhcp_ready: false,
                requests: 0,
                responses: 0,
                errors: 0,
                unknown: 0,
                boot_mode_mismatches: 0,
                sync_success: 0,
                sync_errors: 0,
                state_read_errors: 0,
                state_write_errors: 0,
                status: SyncStatusView {
                    source: None,
                    last_success: None,
                    data_since: None,
                    last_error: None,
                },
                request_labels: RequestMetricsView { series: Seq::empty(), last_pruned: None },
                response_labels: Seq::empty(),
                durations: 0,
            }),
    {
        let shared = Shared {
            snapshot: None,
            dhcp_ready: false,
            requests: 0,
            responses: 0,
            errors: 0,
            unknown: 0,
            boot_mode_mismatches: 0,
            sync_success: 0,
            sync_errors: 0,
            state_read_errors: 0,
            state_write_errors: 0,
            status: SyncStatus {
                source: None,
                last_success: None,
                data_since: None,
                last_error: None,
            },
            request_labels: RequestMetrics::default(),
            response_labels: Vec::new(),
            durations: 0,
        };
        assert(shared@.response_labels =~= Seq::empty());
        shared
    }

    /// Counts a request, and forgets client series that have been idle for 24 hours.
    pub fn record_request(
        &mut self,
        location: &str,
        hostname: &str,
        stage: &str,
        route: &str,
        message: &str,
        now: u64,
    )
        ensures
            final(self)@ == with_request(
                old(self)@,
                seq![location@, hostname@, stage@, route@, message@],
                now,
            ),
            old(self)@.wf() ==> final(self)@.wf(),
    {
        let ghost labels = seq![location@, hostname@, stage@, route@, message@];
        let mut key: Vec<String> = Vec::new();
        key.push(location.to_owned());
        key.push(hostname.to_owned());
        key.push(stage.to_owned());
        key.push(route.to_owned());
        key.push(message.to_owned());
        assert(series::label_views(key@) =~= labels);
        self.requests = self.requests.wrapping_add(1);
        self.request_labels.prune(now);
        series::count(&mut self.request_labels.series, key, now);
        proof {
            assert(self@ =~= with_request(old(self)@, labels, now));
            if old(self)@.wf() {
                lemma_with_request_wf(old(self)@, labels, now);
            }
        }
    }

    /// Counts a response.
    pub fn record_response(&mut self, message: &str)
        ensures
            final(self)@ == with_response(old(self)@, message@),
            old(self)@.wf() ==> final(self)@.wf(),
    {
        let mut key: Vec<String> = Vec::new();
        key.push(message.to_owned());
        assert(series::label_views(key@) =~= seq![message@]);
        self.responses = self.responses.wrapping_add(1);
        series::count(&mut self.response_labels, key, 0);
        proof {
            assert(self@ =~= with_response(old(self)@, message@));
            if old(self)@.wf() {
                lemma_with_response_wf(old(self)@, message@);
            }
        }
    }

    /// Counts a timed request.
    pub fn record_duration(&mut self)
        ensures
            final(self)@ == (SharedView {
                durations: series::raised(old(self)@.durations),
                ..old(self)@
            }),
    {
        self.durations = self.durations.wrapping_add(1);
    }
}

// ---------------------------------------------------------------------------
// Label values

/// A character in a label value.
pub open spec fn escaped_char(c: char) -> Seq<char> {
    if c == '\\' {
        seq!['\\', '\\']
    } else if c == '\n' {
        seq!['\\', 'n']
    } else if c == '"' {
        seq!['\\', '"']
    } else {
        seq![c]
    }
}

/// A label value.
pub open spec fn escaped(value: Seq<char>) -> Seq<char>
    decreases value.len(),
{
    if value.len() == 0 {
        Seq::empty()
    } else {
        escaped(value.drop_last()) + escaped_char(value.last())
    }
}

fn push_escaped(out: &mut String, value: &str)
    ensures
        final(out)@ == old(out)@ + escaped(value@),
{
    assert(out@ =~= old(out)@ + escaped(value@.take(0)));
    for c in it: value.chars()
        invariant
            it.seq() == value@,
            out@ == old(out)@ + escaped(value@.take(it.index() as int)),
    {
        let ghost i = it.index() as int;
        let ghost before = out@;
        assert(value@.take(i + 1).drop_last() =~= value@.take(i));
        assert(value@.take(i + 1).last() == c);
        if c == '\\' {
            out.push('\\');
            out.push('\\');
        } else if c == '\n' {
            out.push('\\');
            out.push('n');
        } else if c == '"' {
            out.push('\\');
            out.push('"');
        } else {
            out.push(c);
        }
        assert(out@ =~= before + escaped_char(c));
        assert(out@ =~= old(out)@ + escaped(value@.take(i + 1)));
    }
    assert(value@.take(value@.len() as int) =~= value@);
}

/// Writes a value so that it can stand between quotation marks.
pub fn escape_label(value: &str) -> (out: String)
    ensures
        out@ == escaped(value@),
{
    let mut out = String::new();
    push_escaped(&mut out, value);
    assert(out@ =~= escaped(value@));
    out
}

/// What a reader makes of a label value.
pub open spec fn unescaped(s: Seq<char>) -> Seq<char>
    decreases s.len(),
{
    if s.len() == 0 {
        Seq::empty()
    } else if s[0] == '\\' && s.len() >= 2 {
        seq![
            if s[1] == 'n' {
                '\n'
            } else {
                s[1]
            },
        ] + unescaped(s.skip(2))
    } else {
        seq![s[0]] + unescaped(s.skip(1))
    }
}

proof fn lemma_escaped_front(value: Seq<char>)
    requires
        value.len() > 0,
    ensures
        escaped(value) == escaped_char(value[0]) + escaped(value.skip(1)),
    decreases value.len(),
{
    if value.len() == 1 {
        assert(value.drop_last() =~= Seq::empty());
        assert(value.skip(1) =~= Seq::empty());
        assert(escaped(value) =~= escaped_char(value[0]) + escaped(value.skip(1)));
    } else {
        lemma_escaped_front(value.drop_last());
        assert(value.drop_last().skip(1) =~= value.skip(1).drop_last());
        assert(escaped(value) =~= escaped_char(value[0]) + escaped(value.skip(1)));
    }
}

/// A reader of a label value gets back what was written.
pub proof fn law_label_values_are_read_back(value: Seq<char>)
    ensures
        unescaped(escaped(value)) == value,
    decreases value.len(),
{
    if value.len() == 0 {
        assert(unescaped(escaped(value)) =~= value);
    } else {
        lemma_escaped_front(value);
        law_label_values_are_read_back(value.skip(1));
        let s = escaped(value);
        let n = escaped_char(value[0]).len() as int;
        assert(s.skip(n) =~= escaped(value.skip(1)));
        assert(s[0] == escaped_char(value[0])[0]);
        if n == 2 {
            assert(s[1] == escaped_char(value[0])[1]);
        }
        assert(unescaped(s) =~= value);
    }
}

/// A label value stays on its line.
pub proof fn law_label_values_hold_no_line_break(value: Seq<char>)
    ensures
        !escaped(value).contains('\n'),
    decreases value.len(),
{
    if value.len() > 0 {
        law_label_values_hold_no_line_break(value.drop_last());
    }
}

// ---------------------------------------------------------------------------
// Health

/// What the health endpoint says.
#[derive(Debug)]
pub struct Health {
    pub healthy: bool,
    /// The HTTP status code.
    pub status: u16,
    pub source: Option<Source>,
    /// How many clients there are.
    pub clients: usize,
    pub last_successful_sync: Option<u64>,
    pub data_age_seconds: Option<u64>,
    pub last_sync_error: Option<String>,
}

/// What a `Health` holds.
#[verifier::ext_equal]
pub struct HealthView {
    pub healthy: bool,
    pub status: u16,
    pub source: Option<Source>,
    pub clients: nat,
    pub last_successful_sync: Option<u64>,
    pub data_age_seconds: Option<u64>,
    pub last_sync_error: Option<Seq<char>>,
}

impl View for Health {
    type V = HealthView;

    open spec fn view(&self) -> HealthView {
        HealthView {
            healthy: self.healthy,
            status: self.status,
            source: self.source,
            clients: self.clients as nat,
            last_successful_sync: self.last_successful_sync,
            data_age_seconds: self.data_age_seconds,
            last_sync_error: match self.last_sync_error {
                Some(error) => Some(error@),
                None => None,
            },
        }
    }
}

impl Source {
    /// The name of the source.
    pub open spec fn text(self) -> Seq<char> {
        match self {
            Source::State => "state"@,
            Source::Remote => "remote"@,
        }
    }

    pub fn name(&self) -> (name: &'static str)
        ensures
            name@ == self.text(),
    {
        match self {
            Source::State => "state",
            Source::Remote => "remote",
        }
    }
}

/// How many clients the table in use holds.
pub open spec fn client_count(shared: SharedView) -> nat {
    match shared.snapshot {
        Some(clients) => clients.records@.len(),
        None => 0,
    }
}

/// How old the table in use is, if that is known.
pub open spec fn data_age(since: Option<u64>, unix_now: u64) -> Option<u64> {
    match since {
        Some(since) => Some(series::elapsed(unix_now, since) as u64),
        None => None,
    }
}

/// What the health endpoint says of a state.
pub open spec fn health_of(shared: SharedView, unix_now: u64) -> HealthView {
    let healthy = shared.dhcp_ready && shared.snapshot is Some;
    HealthView {
        healthy,
        status: if healthy {
            200
        } else {
            503
        },
        source: shared.status.source,
        clients: client_count(shared),
        last_successful_sync: shared.status.last_success,
        data_age_seconds: data_age(shared.status.data_since, unix_now),
        last_sync_error: shared.status.last_error,
    }
}

fn copy_text(text: &Option<String>) -> (copy: Option<String>)
    ensures
        copy == *text,
{
    match text {
        Some(s) => Some(s.clone()),
        None => None,
    }
}

fn find_data_age(since: Option<u64>, unix_now: u64) -> (age: Option<u64>)
    ensures
        age == data_age(since, unix_now),
{
    match since {
        Some(time) => Some(unix_now.saturating_sub(time)),
        None => None,
    }
}

impl Shared {
    fn count_clients(&self) -> (n: usize)
        ensures
            n == client_count(self@),
    {
        match &self.snapshot {
            Some(clients) => clients.records.len(),
            None => 0,
        }
    }

    /// The service is healthy while it listens and has a client table, however old, and
    /// whatever became of the last poll.
    pub fn health(&self, unix_now: u64) -> (health: Health)
        ensures
            health.healthy == (self@.dhcp_ready && self@.snapshot is Some),
            health.status == (if health.healthy {
                200u16
            } else {
                503u16
            }),
            health.source == self@.status.source,
            health.clients == client_count(self@),
            health.last_successful_sync == self@.status.last_success,
            health.data_age_seconds == data_age(self@.status.data_since, unix_now),
            health.last_sync_error == self.status.last_error,
            health@ == health_of(self@, unix_now),
    {
        let healthy: bool = self.dhcp_ready && self.snapshot.is_some();
        Health {
            healthy,
            status: if healthy {
                200
            } else {
                503
            },
            source: self.status.source,
            clients: self.count_clients(),
            last_successful_sync: self.status.last_success,
            data_age_seconds: find_data_age(self.status.data_since, unix_now),
            last_sync_error: copy_text(&self.status.last_error),
        }
    }
}

// ---------------------------------------------------------------------------
// Metrics

/// What the metrics endpoint reports, as it was at one moment.
#[derive(Debug)]
pub struct Scrape {
    pub requests: u64,
    pub responses: u64,
    pub errors: u64,
    pub unknown: u64,
    pub boot_mode_mismatches: u64,
    pub sync_success: u64,
    pub sync_errors: u64,
    pub state_read_errors: u64,
    pub state_write_errors: u64,
    pub clients: usize,
    pub last_success: Option<u64>,
    pub data_since: Option<u64>,
    pub request_series: Vec<Series>,
    pub response_series: Vec<Series>,
    pub durations: u64,
}

/// What a `Scrape` holds.
#[verifier::ext_equal]
pub struct ScrapeView {
    pub requests: u64,
    pub responses: u64,
    pub errors: u64,
    pub unknown: u64,
    pub boot_mode_mismatches: u64,
    pub sync_success: u64,
    pub sync_errors: u64,
    pub state_read_errors: u64,
    pub state_write_errors: u64,
    pub clients: nat,
    pub last_success: Option<u64>,
    pub data_since: Option<u64>,
    pub request_series: Seq<SeriesView>,
    pub response_series: Seq<SeriesView>,
    pub durations: u64,
}

impl View for Scrape {
    type V = ScrapeView;

    open spec fn view(&self) -> ScrapeView {
        ScrapeView {
            requests: self.requests,
            responses: self.responses,
            errors: self.errors,
            unknown: self.unknown,
            boot_mode_mismatches: self.boot_mode_mismatches,
            sync_success: self.sync_success,
            sync_errors: self.sync_errors,
            state_read_errors: self.state_read_errors,
            state_write_errors: self.state_write_errors,
            clients: self.clients as nat,
            last_success: self.last_success,
            data_since: self.data_since,
            request_series: series::views(self.request_series@),
            response_series: series::views(self.response_series@),
            durations: self.durations,
        }
    }
}

impl ScrapeView {
    /// Whether the client series have five labels each and the others one.
    pub open spec fn wf(self) -> bool {
        labelled(self.request_series, 5) && labelled(self.response_series, 1)
    }
}

/// What the metrics endpoint reports of a state.
pub open spec fn reported(shared: SharedView) -> ScrapeView {
    ScrapeView {
        requests: shared.requests,
        responses: shared.responses,
        errors: shared.errors,
        unknown: shared.unknown,
        boot_mode_mismatches: shared.boot_mode_mismatches,
        sync_success: shared.sync_success,
        sync_errors: shared.sync_errors,
        state_read_errors: shared.state_read_errors,
        state_write_errors: shared.state_write_errors,
        clients: client_count(shared),
        last_success: shared.status.last_success,
        data_since: shared.status.data_since,
        request_series: shared.request_labels.series,
        response_series: shared.response_labels,
        durations: shared.durations,
    }
}

/// The line that says of which kind a metric is.
pub open spec fn type_line(name: Seq<char>, kind: Seq<char>) -> Seq<char> {
    "# TYPE "@ + name + " "@ + kind + "\n"@
}

/// A metric without labels.
pub open spec fn sample_line(name: Seq<char>, value: Seq<char>) -> Seq<char> {
    name + " "@ + value + "\n"@
}

/// One label and its value.
pub open spec fn label_pair(name: Seq<char>, value: Seq<char>) -> Seq<char> {
    name + "=\""@ + escaped(value) + "\""@
}

/// Labels and their values.
pub open spec fn label_pairs(names: Seq<Seq<char>>, values: Seq<Seq<char>>) -> Seq<Seq<char>> {
    Seq::new(names.len(), |i: int| label_pair(names[i], values[i]))
}

/// A metric with labels.
pub open spec fn labelled_line(
    name: Seq<char>,
    names: Seq<Seq<char>>,
    values: Seq<Seq<char>>,
    count: u64,
) -> Seq<char> {
    name + "{"@ + text::join(label_pairs(names, values), ","@) + "} "@ + text::decimal(
        count as nat,
    ) + "\n"@
}

/// A line for each series.
pub open spec fn series_lines(
    name: Seq<char>,
    names: Seq<Seq<char>>,
    series: Seq<SeriesView>,
) -> Seq<char>
    decreases series.len(),
{
    if series.len() == 0 {
        Seq::empty()
    } else {
        series_lines(name, names, series.drop_last()) + labelled_line(
            name,
            names,
            series.last().labels,
            series.last().count,
        )
    }
}

/// A counter.
pub open spec fn counter_text(name: Seq<char>, value: u64) -> Seq<char> {
    type_line(name, "counter"@) + sample_line(name, text::decimal(value as nat))
}

/// A gauge.
pub open spec fn gauge_text(name: Seq<char>, value: Seq<char>) -> Seq<char> {
    type_line(name, "gauge"@) + sample_line(name, value)
}

/// The counters without labels.
pub open spec fn counters_text(product: Seq<char>, scrape: ScrapeView) -> Seq<char> {
    counter_text(product + "_requests_total"@, scrape.requests) + counter_text(
        product + "_responses_total"@,
        scrape.responses,
    ) + counter_text(product + "_errors_total"@, scrape.errors) + counter_text(
        product + "_unknown_clients_total"@,
        scrape.unknown,
    ) + counter_text(
        product + "_boot_mode_mismatches_total"@,
        scrape.boot_mode_mismatches,
    ) + counter_text(product + "_sync_success_total"@, scrape.sync_success) + counter_text(
        product + "_sync_errors_total"@,
        scrape.sync_errors,
    ) + counter_text(
        product + "_state_read_errors_total"@,
        scrape.state_read_errors,
    ) + counter_text(product + "_state_write_errors_total"@, scrape.state_write_errors)
}

/// A number of seconds that may be unknown.
pub open spec fn age_text(age: Option<u64>) -> Seq<char> {
    match age {
        Some(seconds) => text::decimal(seconds as nat),
        None => "NaN"@,
    }
}

/// The time of the last successful poll, or zero.
pub open spec fn last_success_text(last: Option<u64>) -> Seq<char> {
    match last {
        Some(time) => text::decimal(time as nat),
        None => text::decimal(0),
    }
}

/// The gauges.
pub open spec fn gauges_text(product: Seq<char>, scrape: ScrapeView, unix_now: u64) -> Seq<char> {
    gauge_text(product + "_clients"@, text::decimal(scrape.clients)) + gauge_text(
        product + "_last_successful_sync_timestamp_seconds"@,
        last_success_text(scrape.last_success),
    ) + gauge_text(
        product + "_data_age_seconds"@,
        age_text(data_age(scrape.data_since, unix_now)),
    )
}

/// The names of the labels of the client series.
pub open spec fn request_label_names() -> Seq<Seq<char>> {
    seq!["location"@, "hostname"@, "stage"@, "route"@, "message"@]
}

/// The counters with labels.
pub open spec fn labelled_text(product: Seq<char>, scrape: ScrapeView) -> Seq<char> {
    let requests = product + "_client_requests_total"@;
    let responses = product + "_message_responses_total"@;
    type_line(requests, "counter"@) + series_lines(
        requests,
        request_label_names(),
        scrape.request_series,
    ) + type_line(responses, "counter"@) + series_lines(
        responses,
        seq!["message"@],
        scrape.response_series,
    )
}

/// How many requests were timed, and how long they took together.
pub open spec fn duration_text(product: Seq<char>, count: u64, sum: Seq<char>) -> Seq<char> {
    let name = product + "_response_duration_seconds"@;
    type_line(name, "summary"@) + sample_line(name + "_count"@, text::decimal(count as nat))
        + sample_line(name + "_sum"@, sum)
}

/// The version of the program.
pub open spec fn build_text(product: Seq<char>, version: Seq<char>) -> Seq<char> {
    let name = product + "_build_info"@;
    type_line(name, "gauge"@) + labelled_line(name, seq!["version"@], seq![version], 1)
}

/// What the metrics endpoint says.
pub open spec fn metrics_text(
    product: Seq<char>,
    version: Seq<char>,
    scrape: ScrapeView,
    unix_now: u64,
    duration_sum: Seq<char>,
) -> Seq<char> {
    build_text(product, version) + counters_text(product, scrape) + gauges_text(
        product,
        scrape,
        unix_now,
    ) + labelled_text(product, scrape) + duration_text(product, scrape.durations, duration_sum)
}

fn name_of(product: &str, suffix: &str) -> (name: String)
    ensures
        name@ == product@ + suffix@,
{
    let mut name = product.to_owned();
    name.append(suffix);
    name
}

fn push_type(out: &mut String, name: &str, kind: &str)
    ensures
        final(out)@ == old(out)@ + type_line(name@, kind@),
{
    let ghost start = out@;
    out.append("# TYPE ");
    out.append(name);
    out.append(" ");
    out.append(kind);
    out.append("\n");
    assert(out@ =~= start + type_line(name@, kind@));
}

fn push_sample(out: &mut String, name: &str, value: &str)
    ensures
        final(out)@ == old(out)@ + sample_line(name@, value@),
{
    let ghost start = out@;
    out.append(name);
    out.append(" ");
    out.append(value);
    out.append("\n");
    assert(out@ =~= start + sample_line(name@, value@));
}

fn number_text(n: u64) -> (out: String)
    ensures
        out@ == text::decimal(n as nat),
{
    let mut out = String::new();
    text::push_decimal(&mut out, n);
    assert(out@ =~= text::decimal(n as nat));
    out
}

fn push_counter(out: &mut String, product: &str, suffix: &str, value: u64)
    ensures
        final(out)@ == old(out)@ + counter_text(product@ + suffix@, value),
{
    let ghost start = out@;
    let name = name_of(product, suffix);
    push_type(out, name.as_str(), "counter");
    push_sample(out, name.as_str(), number_text(value).as_str());
    proof {
        text::lemma_concat(
            start,
            type_line(name@, "counter"@),
            sample_line(name@, text::decimal(value as nat)),
        );
    }
}

fn push_gauge(out: &mut String, product: &str, suffix: &str, value: &str)
    ensures
        final(out)@ == old(out)@ + gauge_text(product@ + suffix@, value@),
{
    let ghost start = out@;
    let name = name_of(product, suffix);
    push_type(out, name.as_str(), "gauge");
    push_sample(out, name.as_str(), value);
    proof {
        text::lemma_concat(start, type_line(name@, "gauge"@), sample_line(name@, value@));
    }
}

fn push_labels(out: &mut String, names: &[&str], values: &Vec<String>)
    requires
        names@.len() == values@.len(),
    ensures
        final(out)@ == old(out)@ + text::join(
            label_pairs(names@.map_values(|n: &str| n@), series::label_views(values@)),
            ","@,
        ),
{
    let ghost pairs = label_pairs(
        names@.map_values(|n: &str| n@),
        series::label_views(values@),
    );
    assert(out@ =~= old(out)@ + text::join(pairs.take(0), ","@));
    for i in 0..names.len()
        invariant
            names@.len() == values@.len(),
            pairs == label_pairs(
                names@.map_values(|n: &str| n@),
                series::label_views(values@),
            ),
            out@ == old(out)@ + text::join(pairs.take(i as int), ","@),
    {
        proof {
            text::lemma_join_take(pairs, ","@, i as int);
        }
        if i > 0 {
            out.append(",");
        }
        let ghost middle = out@;
        out.append(names[i]);
        out.append("=\"");
        push_escaped(out, values[i].as_str());
        out.append("\"");
        assert(out@ =~= middle + pairs[i as int]);
        assert(out@ =~= old(out)@ + text::join(pairs.take(i + 1), ","@));
    }
    assert(pairs.take(pairs.len() as int) =~= pairs);
}

fn push_labelled(out: &mut String, name: &str, names: &[&str], values: &Vec<String>, count: u64)
    requires
        names@.len() == values@.len(),
    ensures
        final(out)@ == old(out)@ + labelled_line(
            name@,
            names@.map_values(|n: &str| n@),
            series::label_views(values@),
            count,
        ),
{
    let ghost start = out@;
    out.append(name);
    out.append("{");
    push_labels(out, names, values);
    out.append("} ");
    text::push_decimal(out, count);
    out.append("\n");
    assert(out@ =~= start + labelled_line(
        name@,
        names@.map_values(|n: &str| n@),
        series::label_views(values@),
        count,
    ));
}

fn push_series(out: &mut String, name: &str, names: &[&str], series: &Vec<Series>)
    requires
        labelled(series::views(series@), names@.len()),
    ensures
        final(out)@ == old(out)@ + series_lines(
            name@,
            names@.map_values(|n: &str| n@),
            series::views(series@),
        ),
{
    let ghost all = series::views(series@);
    let ghost keys = names@.map_values(|n: &str| n@);
    assert(out@ =~= old(out)@ + series_lines(name@, keys, all.take(0)));
    for i in 0..series.len()
        invariant
            all == series::views(series@),
            keys == names@.map_values(|n: &str| n@),
            labelled(all, names@.len()),
            out@ == old(out)@ + series_lines(name@, keys, all.take(i as int)),
    {
        let ghost before = series_lines(name@, keys, all.take(i as int));
        assert(all.take(i + 1).drop_last() =~= all.take(i as int));
        assert(all[i as int].labels.len() == names@.len());
        push_labelled(out, name, names, &series[i].labels, series[i].count);
        proof {
            text::lemma_concat(
                old(out)@,
                before,
                labelled_line(name@, keys, all[i as int].labels, all[i as int].count),
            );
        }
    }
    assert(all.take(series@.len() as int) =~= all);
}

impl Scrape {
    fn push_counters(&self, out: &mut String, product: &str)
        ensures
            final(out)@ == old(out)@ + counters_text(product@, self@),
    {
        let ghost start = out@;
        let ghost p = product@;
        let ghost c1 = counter_text(p + "_requests_total"@, self.requests);
        let ghost c2 = counter_text(p + "_responses_total"@, self.responses);
        let ghost c3 = counter_text(p + "_errors_total"@, self.errors);
        let ghost c4 = counter_text(p + "_unknown_clients_total"@, self.unknown);
        let ghost c5 = counter_text(
            p + "_boot_mode_mismatches_total"@,
            self.boot_mode_mismatches,
        );
        let ghost c6 = counter_text(p + "_sync_success_total"@, self.sync_success);
        let ghost c7 = counter_text(p + "_sync_errors_total"@, self.sync_errors);
        let ghost c8 = counter_text(p + "_state_read_errors_total"@, self.state_read_errors);
        let ghost c9 = counter_text(p + "_state_write_errors_total"@, self.state_write_errors);
        push_counter(out, product, "_requests_total", self.requests);
        push_counter(out, product, "_responses_total", self.responses);
        push_counter(out, product, "_errors_total", self.errors);
        push_counter(out, product, "_unknown_clients_total", self.unknown);
        push_counter(out, product, "_boot_mode_mismatches_total", self.boot_mode_mismatches);
        push_counter(out, product, "_sync_success_total", self.sync_success);
        push_counter(out, product, "_sync_errors_total", self.sync_errors);
        push_counter(out, product, "_state_read_errors_total", self.state_read_errors);
        push_counter(out, product, "_state_write_errors_total", self.state_write_errors);
        proof {
            text::lemma_concat(start, c1, c2);
            text::lemma_concat(start, c1 + c2, c3);
            text::lemma_concat(start, c1 + c2 + c3, c4);
            text::lemma_concat(start, c1 + c2 + c3 + c4, c5);
            text::lemma_concat(start, c1 + c2 + c3 + c4 + c5, c6);
            text::lemma_concat(start, c1 + c2 + c3 + c4 + c5 + c6, c7);
            text::lemma_concat(start, c1 + c2 + c3 + c4 + c5 + c6 + c7, c8);
            text::lemma_concat(start, c1 + c2 + c3 + c4 + c5 + c6 + c7 + c8, c9);
        }
    }

    fn push_gauges(&self, out: &mut String, product: &str, unix_now: u64)
        ensures
            final(out)@ == old(out)@ + gauges_text(product@, self@, unix_now),
    {
        let ghost start = out@;
        let count = number_text(self.clients as u64);
        push_gauge(out, product, "_clients", count.as_str());
        let last = number_text(
            match self.last_success {
                Some(time) => time,
                None => 0,
            },
        );
        push_gauge(out, product, "_last_successful_sync_timestamp_seconds", last.as_str());
        let age = match find_data_age(self.data_since, unix_now) {
            Some(seconds) => number_text(seconds),
            None => "NaN".to_owned(),
        };
        push_gauge(out, product, "_data_age_seconds", age.as_str());
        proof {
            let g1 = gauge_text(product@ + "_clients"@, count@);
            let g2 = gauge_text(
                product@ + "_last_successful_sync_timestamp_seconds"@,
                last@,
            );
            let g3 = gauge_text(product@ + "_data_age_seconds"@, age@);
            text::lemma_concat(start, g1, g2);
            text::lemma_concat(start, g1 + g2, g3);
        }
    }

    fn push_labelled_counters(&self, out: &mut String, product: &str)
        requires
            self@.wf(),
        ensures
            final(out)@ == old(out)@ + labelled_text(product@, self@),
    {
        let ghost start = out@;
        let request_names: [&str; 5] = ["location", "hostname", "stage", "route", "message"];
        let response_names: [&str; 1] = ["message"];
        assert(request_names@.map_values(|n: &str| n@) =~= request_label_names());
        assert(response_names@.map_values(|n: &str| n@) =~= seq!["message"@]);
        let requests = name_of(product, "_client_requests_total");
        let responses = name_of(product, "_message_responses_total");
        push_type(out, requests.as_str(), "counter");
        push_series(out, requests.as_str(), &request_names, &self.request_series);
        push_type(out, responses.as_str(), "counter");
        push_series(out, responses.as_str(), &response_names, &self.response_series);
        proof {
            let t1 = type_line(requests@, "counter"@);
            let s1 = series_lines(
                requests@,
                request_label_names(),
                self@.request_series,
            );
            let t2 = type_line(responses@, "counter"@);
            let s2 = series_lines(responses@, seq!["message"@], self@.response_series);
            text::lemma_concat(start, t1, s1);
            text::lemma_concat(start, t1 + s1, t2);
            text::lemma_concat(start, t1 + s1 + t2, s2);
        }
    }

    /// The text of the metrics endpoint, with `product` in front of every name. The time
    /// that all timed requests took together is `duration_sum`.
    pub fn render(&self, product: &str, version: &str, unix_now: u64, duration_sum: &str) -> (out:
        String)
        requires
            self@.wf(),
        ensures
            out@ == metrics_text(product@, version@, self@, unix_now, duration_sum@),
    {
        let mut out = String::new();
        let name = name_of(product, "_build_info");
        let names: [&str; 1] = ["version"];
        let mut values: Vec<String> = Vec::new();
        values.push(version.to_owned());
        assert(names@.map_values(|n: &str| n@) =~= seq!["version"@]);
        assert(series::label_views(values@) =~= seq![version@]);
        push_type(&mut out, name.as_str(), "gauge");
        push_labelled(&mut out, name.as_str(), &names, &values, 1);
        assert(out@ =~= build_text(product@, version@));
        self.push_counters(&mut out, product);
        self.push_gauges(&mut out, product, unix_now);
        self.push_labelled_counters(&mut out, product);
        let ghost before = out@;
        let duration = name_of(product, "_response_duration_seconds");
        let duration_count = name_of(duration.as_str(), "_count");
        let duration_total = name_of(duration.as_str(), "_sum");
        let timed = number_text(self.durations);
        push_type(&mut out, duration.as_str(), "summary");
        push_sample(&mut out, duration_count.as_str(), timed.as_str());
        push_sample(&mut out, duration_total.as_str(), duration_sum);
        proof {
            let t = type_line(duration@, "summary"@);
            let c = sample_line(duration_count@, timed@);
            let s = sample_line(duration_total@, duration_sum@);
            text::lemma_concat(before, t, c);
            text::lemma_concat(before, t + c, s);
        }
        out
    }
}

// ---------------------------------------------------------------------------
// The names of the metrics

/// Whether a line of `s` begins at `i`.
pub open spec fn line_start(s: Seq<char>, i: int) -> bool {
    i == 0 || s[i - 1] == '\n'
}

/// Whether `part` stands in `s` at `i`.
pub open spec fn stands_at(s: Seq<char>, i: int, part: Seq<char>) -> bool {
    i + part.len() <= s.len() && s.subrange(i, i + part.len()) == part
}

/// Whether `s` is made of whole lines, and each is about a metric whose name begins with
/// `prefix`: a sample, or the line with the kind of the metric.
pub open spec fn named_lines(s: Seq<char>, prefix: Seq<char>) -> bool {
    &&& s.len() > 0 ==> s.last() == '\n'
    &&& forall|i: int|
        0 <= i < s.len() && #[trigger] line_start(s, i) ==> stands_at(s, i, prefix) || stands_at(
            s,
            i,
            "# TYPE "@ + prefix,
        )
}

proof fn lemma_named_lines_add(a: Seq<char>, b: Seq<char>, prefix: Seq<char>)
    requires
        named_lines(a, prefix),
        named_lines(b, prefix),
    ensures
        named_lines(a + b, prefix),
{
    let s = a + b;
    let n = a.len() as int;
    assert forall|i: int| 0 <= i < s.len() && #[trigger] line_start(s, i) implies stands_at(
        s,
        i,
        prefix,
    ) || stands_at(s, i, "# TYPE "@ + prefix) by {
        let long = "# TYPE "@ + prefix;
        if i < n {
            assert(line_start(a, i));
            if stands_at(a, i, prefix) {
                assert(s.subrange(i, i + prefix.len()) =~= a.subrange(i, i + prefix.len()));
            } else {
                assert(s.subrange(i, i + long.len()) =~= a.subrange(i, i + long.len()));
            }
        } else {
            let j = i - n;
            assert(j > 0 ==> s[i - 1] == b[j - 1]);
            assert(line_start(b, j));
            if stands_at(b, j, prefix) {
                assert(s.subrange(i, i + prefix.len()) =~= b.subrange(j, j + prefix.len()));
            } else {
                assert(s.subrange(i, i + long.len()) =~= b.subrange(j, j + long.len()));
            }
        }
    }
}

proof fn lemma_named_line(line: Seq<char>, prefix: Seq<char>)
    requires
        text::one_line(line),
        stands_at(line, 0, prefix) || stands_at(line, 0, "# TYPE "@ + prefix),
    ensures
        named_lines(line + "\n"@, prefix),
{
    reveal_strlit("\n");
    let s = line + "\n"@;
    let long = "# TYPE "@ + prefix;
    assert forall|i: int| 0 <= i < s.len() && #[trigger] line_start(s, i) implies stands_at(
        s,
        i,
        prefix,
    ) || stands_at(s, i, long) by {
        if i > 0 {
            assert(s[i - 1] == line[i - 1]);
        }
        if stands_at(line, 0, prefix) {
            assert(s.subrange(0, prefix.len() as int) =~= line.subrange(0, prefix.len() as int));
        } else {
            assert(s.subrange(0, long.len() as int) =~= line.subrange(0, long.len() as int));
        }
    }
}

/// Whether a metric's name can end so.
spec fn suffix(s: Seq<char>) -> bool {
    text::one_line(s) && s.len() > 0 && s[0] == '_'
}

proof fn lemma_name(product: Seq<char>, end: Seq<char>)
    requires
        text::one_line(product),
        suffix(end),
    ensures
        text::one_line(product + end),
        stands_at(product + end, 0, product + "_"@),
{
    reveal_strlit("_");
    let prefix = product + "_"@;
    assert((product + end).subrange(0, prefix.len() as int) =~= prefix);
}

proof fn lemma_type_line(name: Seq<char>, kind: Seq<char>, prefix: Seq<char>)
    requires
        text::one_line(name),
        text::one_line(kind),
        stands_at(name, 0, prefix),
    ensures
        named_lines(type_line(name, kind), prefix),
{
    reveal_strlit("# TYPE ");
    reveal_strlit(" ");
    let line = "# TYPE "@ + name + " "@ + kind;
    let long = "# TYPE "@ + prefix;
    assert(text::one_line("# TYPE "@ + name));
    assert forall|i: int| 0 <= i < prefix.len() implies name[i] == prefix[i] by {
        assert(name.subrange(0, prefix.len() as int)[i] == prefix[i]);
    }
    assert(line.subrange(0, long.len() as int) =~= long);
    lemma_named_line(line, prefix);
}

proof fn lemma_sample_line(name: Seq<char>, value: Seq<char>, prefix: Seq<char>)
    requires
        text::one_line(name),
        text::one_line(value),
        stands_at(name, 0, prefix),
    ensures
        named_lines(sample_line(name, value), prefix),
{
    reveal_strlit(" ");
    let line = name + " "@ + value;
    assert(line.subrange(0, prefix.len() as int) =~= name.subrange(0, prefix.len() as int));
    lemma_named_line(line, prefix);
}

proof fn lemma_label_pair(name: Seq<char>, value: Seq<char>)
    requires
        text::one_line(name),
    ensures
        text::one_line(label_pair(name, value)),
{
    law_label_values_hold_no_line_break(value);
    reveal_strlit("=\"");
    reveal_strlit("\"");
    assert forall|i: int| 0 <= i < escaped(value).len() implies #[trigger] escaped(value)[i]
        != '\n' by {
        assert(escaped(value).contains(escaped(value)[i]));
    }
}

proof fn lemma_labelled_line(
    name: Seq<char>,
    names: Seq<Seq<char>>,
    values: Seq<Seq<char>>,
    count: u64,
    prefix: Seq<char>,
)
    requires
        text::one_line(name),
        stands_at(name, 0, prefix),
        forall|i: int| 0 <= i < names.len() ==> text::one_line(#[trigger] names[i]),
    ensures
        named_lines(labelled_line(name, names, values, count), prefix),
{
    let pairs = label_pairs(names, values);
    assert forall|i: int| 0 <= i < pairs.len() implies text::one_line(#[trigger] pairs[i]) by {
        assert(text::one_line(names[i]));
        lemma_label_pair(names[i], values[i]);
    }
    reveal_strlit(",");
    reveal_strlit("{");
    reveal_strlit("} ");
    text::lemma_join_one_line(pairs, ","@);
    text::lemma_decimal_one_line(count as nat);
    let labels = text::join(pairs, ","@);
    let line = name + "{"@ + labels + "} "@ + text::decimal(count as nat);
    assert(text::one_line(name + "{"@ + labels));
    assert(line.subrange(0, prefix.len() as int) =~= name.subrange(0, prefix.len() as int));
    lemma_named_line(line, prefix);
}

proof fn lemma_series_lines(
    name: Seq<char>,
    names: Seq<Seq<char>>,
    series: Seq<SeriesView>,
    prefix: Seq<char>,
)
    requires
        text::one_line(name),
        stands_at(name, 0, prefix),
        forall|i: int| 0 <= i < names.len() ==> text::one_line(#[trigger] names[i]),
    ensures
        named_lines(series_lines(name, names, series), prefix),
    decreases series.len(),
{
    if series.len() > 0 {
        lemma_series_lines(name, names, series.drop_last(), prefix);
        lemma_labelled_line(name, names, series.last().labels, series.last().count, prefix);
        lemma_named_lines_add(
            series_lines(name, names, series.drop_last()),
            labelled_line(name, names, series.last().labels, series.last().count),
            prefix,
        );
    }
}

proof fn lemma_counter(product: Seq<char>, end: Seq<char>, value: u64)
    requires
        text::one_line(product),
        suffix(end),
    ensures
        named_lines(counter_text(product + end, value), product + "_"@),
{
    let prefix = product + "_"@;
    reveal_strlit("counter");
    lemma_name(product, end);
    text::lemma_decimal_one_line(value as nat);
    lemma_type_line(product + end, "counter"@, prefix);
    lemma_sample_line(product + end, text::decimal(value as nat), prefix);
    lemma_named_lines_add(
        type_line(product + end, "counter"@),
        sample_line(product + end, text::decimal(value as nat)),
        prefix,
    );
}

proof fn lemma_gauge(product: Seq<char>, end: Seq<char>, value: Seq<char>)
    requires
        text::one_line(product),
        text::one_line(value),
        suffix(end),
    ensures
        named_lines(gauge_text(product + end, value), product + "_"@),
{
    let prefix = product + "_"@;
    reveal_strlit("gauge");
    lemma_name(product, end);
    lemma_type_line(product + end, "gauge"@, prefix);
    lemma_sample_line(product + end, value, prefix);
    lemma_named_lines_add(
        type_line(product + end, "gauge"@),
        sample_line(product + end, value),
        prefix,
    );
}

proof fn lemma_counters_named(product: Seq<char>, scrape: ScrapeView)
    requires
        text::one_line(product),
    ensures
        named_lines(counters_text(product, scrape), product + "_"@),
{
    assert(suffix("_requests_total"@)) by {
        reveal_strlit("_requests_total");
    }
    assert(suffix("_responses_total"@)) by {
        reveal_strlit("_responses_total");
    }
    assert(suffix("_errors_total"@)) by {
        reveal_strlit("_errors_total");
    }
    assert(suffix("_unknown_clients_total"@)) by {
        reveal_strlit("_unknown_clients_total");
    }
    assert(suffix("_boot_mode_mismatches_total"@)) by {
        reveal_strlit("_boot_mode_mismatches_total");
    }
    assert(suffix("_sync_success_total"@)) by {
        reveal_strlit("_sync_success_total");
    }
    assert(suffix("_sync_errors_total"@)) by {
        reveal_strlit("_sync_errors_total");
    }
    assert(suffix("_state_read_errors_total"@)) by {
        reveal_strlit("_state_read_errors_total");
    }
    assert(suffix("_state_write_errors_total"@)) by {
        reveal_strlit("_state_write_errors_total");
    }
    lemma_counter(product, "_requests_total"@, scrape.requests);
    lemma_counter(product, "_responses_total"@, scrape.responses);
    lemma_counter(product, "_errors_total"@, scrape.errors);
    lemma_counter(product, "_unknown_clients_total"@, scrape.unknown);
    lemma_counter(product, "_boot_mode_mismatches_total"@, scrape.boot_mode_mismatches);
    lemma_counter(product, "_sync_success_total"@, scrape.sync_success);
    lemma_counter(product, "_sync_errors_total"@, scrape.sync_errors);
    lemma_counter(product, "_state_read_errors_total"@, scrape.state_read_errors);
    lemma_counter(product, "_state_write_errors_total"@, scrape.state_write_errors);
    let c0 = counter_text(product + "_requests_total"@, scrape.requests);
    let c1 = counter_text(product + "_responses_total"@, scrape.responses);
    let c2 = counter_text(product + "_errors_total"@, scrape.errors);
    let c3 = counter_text(product + "_unknown_clients_total"@, scrape.unknown);
    let c4 = counter_text(product + "_boot_mode_mismatches_total"@, scrape.boot_mode_mismatches);
    let c5 = counter_text(product + "_sync_success_total"@, scrape.sync_success);
    let c6 = counter_text(product + "_sync_errors_total"@, scrape.sync_errors);
    let c7 = counter_text(product + "_state_read_errors_total"@, scrape.state_read_errors);
    let c8 = counter_text(product + "_state_write_errors_total"@, scrape.state_write_errors);
    let prefix = product + "_"@;
    lemma_named_lines_add(c0, c1, prefix);
    lemma_named_lines_add(c0 + c1, c2, prefix);
    lemma_named_lines_add(c0 + c1 + c2, c3, prefix);
    lemma_named_lines_add(c0 + c1 + c2 + c3, c4, prefix);
    lemma_named_lines_add(c0 + c1 + c2 + c3 + c4, c5, prefix);
    lemma_named_lines_add(c0 + c1 + c2 + c3 + c4 + c5, c6, prefix);
    lemma_named_lines_add(c0 + c1 + c2 + c3 + c4 + c5 + c6, c7, prefix);
    lemma_named_lines_add(c0 + c1 + c2 + c3 + c4 + c5 + c6 + c7, c8, prefix);
}

proof fn lemma_gauges_named(product: Seq<char>, scrape: ScrapeView, unix_now: u64)
    requires
        text::one_line(product),
    ensures
        named_lines(gauges_text(product, scrape, unix_now), product + "_"@),
{
    assert(suffix("_clients"@)) by {
        reveal_strlit("_clients");
    }
    assert(suffix("_last_successful_sync_timestamp_seconds"@)) by {
        reveal_strlit("_last_successful_sync_timestamp_seconds");
    }
    assert(suffix("_data_age_seconds"@)) by {
        reveal_strlit("_data_age_seconds");
    }
    let prefix = product + "_"@;
    let count = text::decimal(scrape.clients);
    let last = last_success_text(scrape.last_success);
    let age = age_text(data_age(scrape.data_since, unix_now));
    text::lemma_decimal_one_line(scrape.clients);
    text::lemma_decimal_one_line(0);
    if scrape.last_success is Some {
        text::lemma_decimal_one_line(scrape.last_success->0 as nat);
    }
    reveal_strlit("NaN");
    if data_age(scrape.data_since, unix_now) is Some {
        text::lemma_decimal_one_line(data_age(scrape.data_since, unix_now)->0 as nat);
    }
    lemma_gauge(product, "_clients"@, count);
    lemma_gauge(product, "_last_successful_sync_timestamp_seconds"@, last);
    lemma_gauge(product, "_data_age_seconds"@, age);
    let g1 = gauge_text(product + "_clients"@, count);
    let g2 = gauge_text(product + "_last_successful_sync_timestamp_seconds"@, last);
    let g3 = gauge_text(product + "_data_age_seconds"@, age);
    lemma_named_lines_add(g1, g2, prefix);
    lemma_named_lines_add(g1 + g2, g3, prefix);
}

proof fn lemma_labelled_named(product: Seq<char>, scrape: ScrapeView)
    requires
        text::one_line(product),
    ensures
        named_lines(labelled_text(product, scrape), product + "_"@),
{
    assert(suffix("_client_requests_total"@)) by {
        reveal_strlit("_client_requests_total");
    }
    assert(suffix("_message_responses_total"@)) by {
        reveal_strlit("_message_responses_total");
    }
    let prefix = product + "_"@;
    let requests = product + "_client_requests_total"@;
    let responses = product + "_message_responses_total"@;
    let names = request_label_names();
    assert forall|i: int| 0 <= i < names.len() implies text::one_line(#[trigger] names[i]) by {
        reveal_strlit("location");
        reveal_strlit("hostname");
        reveal_strlit("stage");
        reveal_strlit("route");
        reveal_strlit("message");
    }
    let name = seq!["message"@];
    assert forall|i: int| 0 <= i < name.len() implies text::one_line(#[trigger] name[i]) by {
        reveal_strlit("message");
    }
    assert(text::one_line("counter"@)) by {
        reveal_strlit("counter");
    }
    lemma_name(product, "_client_requests_total"@);
    lemma_name(product, "_message_responses_total"@);
    lemma_type_line(requests, "counter"@, prefix);
    lemma_type_line(responses, "counter"@, prefix);
    lemma_series_lines(requests, names, scrape.request_series, prefix);
    lemma_series_lines(responses, name, scrape.response_series, prefix);
    let t1 = type_line(requests, "counter"@);
    let s1 = series_lines(requests, names, scrape.request_series);
    let t2 = type_line(responses, "counter"@);
    let s2 = series_lines(responses, name, scrape.response_series);
    lemma_named_lines_add(t1, s1, prefix);
    lemma_named_lines_add(t1 + s1, t2, prefix);
    lemma_named_lines_add(t1 + s1 + t2, s2, prefix);
}

proof fn lemma_duration_named(product: Seq<char>, count: u64, sum: Seq<char>)
    requires
        text::one_line(product),
        text::one_line(sum),
    ensures
        named_lines(duration_text(product, count, sum), product + "_"@),
{
    assert(suffix("_response_duration_seconds"@)) by {
        reveal_strlit("_response_duration_seconds");
    }
    let prefix = product + "_"@;
    let name = product + "_response_duration_seconds"@;
    lemma_name(product, "_response_duration_seconds"@);
    reveal_strlit("summary");
    reveal_strlit("_count");
    reveal_strlit("_sum");
    text::lemma_decimal_one_line(count as nat);
    let n1 = name + "_count"@;
    let n2 = name + "_sum"@;
    assert(n1.subrange(0, prefix.len() as int) =~= name.subrange(0, prefix.len() as int));
    assert(n2.subrange(0, prefix.len() as int) =~= name.subrange(0, prefix.len() as int));
    lemma_type_line(name, "summary"@, prefix);
    lemma_sample_line(n1, text::decimal(count as nat), prefix);
    lemma_sample_line(n2, sum, prefix);
    let t = type_line(name, "summary"@);
    let s1 = sample_line(n1, text::decimal(count as nat));
    let s2 = sample_line(n2, sum);
    lemma_named_lines_add(t, s1, prefix);
    lemma_named_lines_add(t + s1, s2, prefix);
}

proof fn lemma_build_named(product: Seq<char>, version: Seq<char>)
    requires
        text::one_line(product),
    ensures
        named_lines(build_text(product, version), product + "_"@),
{
    assert(suffix("_build_info"@)) by {
        reveal_strlit("_build_info");
    }
    let prefix = product + "_"@;
    let name = product + "_build_info"@;
    let names = seq!["version"@];
    assert forall|i: int| 0 <= i < names.len() implies text::one_line(#[trigger] names[i]) by {
        reveal_strlit("version");
    }
    reveal_strlit("gauge");
    lemma_name(product, "_build_info"@);
    lemma_type_line(name, "gauge"@, prefix);
    lemma_labelled_line(name, names, seq![version], 1, prefix);
    lemma_named_lines_add(
        type_line(name, "gauge"@),
        labelled_line(name, names, seq![version], 1),
        prefix,
    );
}

/// Every line of the metrics is about a metric whose name begins with the product and an
/// underscore, whatever the labels hold.
pub proof fn law_metric_names(
    product: Seq<char>,
    version: Seq<char>,
    scrape: ScrapeView,
    unix_now: u64,
    duration_sum: Seq<char>,
)
    requires
        text::one_line(product),
        text::one_line(duration_sum),
    ensures
        named_lines(
            metrics_text(product, version, scrape, unix_now, duration_sum),
            product + "_"@,
        ),
{
    let prefix = product + "_"@;
    lemma_build_named(product, version);
    lemma_counters_named(product, scrape);
    lemma_gauges_named(product, scrape, unix_now);
    lemma_labelled_named(product, scrape);
    lemma_duration_named(product, scrape.durations, duration_sum);
    let b = build_text(product, version);
    let c = counters_text(product, scrape);
    let g = gauges_text(product, scrape, unix_now);
    let l = labelled_text(product, scrape);
    let d = duration_text(product, scrape.durations, duration_sum);
    lemma_named_lines_add(b, c, prefix);
    lemma_named_lines_add(b + c, g, prefix);
    lemma_named_lines_add(b + c + g, l, prefix);
    lemma_named_lines_add(b + c + g + l, d, prefix);
}

impl Scrape {
    /// The text of the metrics endpoint: every name begins with `macmapd_`.
    pub fn metrics(&self, version: &str, unix_now: u64, duration_sum: &str) -> (out: String)
        requires
            self@.wf(),
        ensures
            out@ == metrics_text("macmapd"@, version@, self@, unix_now, duration_sum@),
            text::one_line(duration_sum@) ==> named_lines(out@, "macmapd_"@),
    {
        proof {
            reveal_strlit("macmapd");
            reveal_strlit("macmapd_");
            reveal_strlit("_");
            assert("macmapd"@ + "_"@ =~= "macmapd_"@);
            if text::one_line(duration_sum@) {
                law_metric_names("macmapd"@, version@, self@, unix_now, duration_sum@);
            }
        }
        self.render("macmapd", version, unix_now, duration_sum)
    }
}

impl Shared {
    /// Copies what the metrics endpoint reports, so that it can be put into words without
    /// the state. Client series that have been idle for 24 hours are forgotten.
    pub fn scrape(&mut self, now: u64) -> (scrape: Scrape)
        requires
            old(self)@.wf(),
        ensures
            final(self)@.wf(),
            final(self)@ == (SharedView {
                request_labels: series::pruned(old(self)@.request_labels, now),
                ..old(self)@
            }),
            scrape@ == reported(final(self)@),
            scrape@.wf(),
    {
        self.request_labels.prune(now);
        proof {
            lemma_pruned_wf(old(self)@, now);
            assert(self@ =~= SharedView {
                request_labels: series::pruned(old(self)@.request_labels, now),
                ..old(self)@
            });
        }
        Scrape {
            requests: self.requests,
            responses: self.responses,
            errors: self.errors,
            unknown: self.unknown,
            boot_mode_mismatches: self.boot_mode_mismatches,
            sync_success: self.sync_success,
            sync_errors: self.sync_errors,
            state_read_errors: self.state_read_errors,
            state_write_errors: self.state_write_errors,
            clients: self.count_clients(),
            last_success: self.status.last_success,
            data_since: self.status.data_since,
            request_series: series::copy(&self.request_labels.series),
            response_series: series::copy(&self.response_labels),
            durations: self.durations,
        }
    }
}

/// Looking for idle series keeps the state well-formed.
pub proof fn lemma_pruned_wf(shared: SharedView, now: u64)
    requires
        shared.wf(),
    ensures
        (SharedView {
            request_labels: series::pruned(shared.request_labels, now),
            ..shared
        }).wf(),
{
    let before = shared.request_labels.series;
    let kept = series::pruned(shared.request_labels, now).series;
    if kept != before {
        series::law_pruning_keeps_order(before, now);
        assert forall|i: int| 0 <= i < kept.len() implies (#[trigger] kept[i]).labels.len() == 5 by {
            assert(kept.contains(kept[i]));
            series::law_idle_series_expire(before, now, kept[i]);
            let k = choose|k: int| 0 <= k < before.len() && before[k] == kept[i];
            assert(before[k].labels.len() == 5);
        }
    }
}

} // verus!
