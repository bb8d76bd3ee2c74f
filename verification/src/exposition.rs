//! What the metrics endpoint says, line by line.
use crate::runtime;
use crate::runtime::{ScrapeView, SharedView};
use crate::series::SeriesView;
use crate::text;
use vstd::prelude::*;
use vstd::string::*;

verus! {

/// Whether `s` is empty or ends with a line break.
pub open spec fn whole(s: Seq<char>) -> bool {
    s.len() > 0 ==> s[s.len() - 1] == '\n'
}

/// Whether `line` stands in `s`, at the beginning of a line.
pub open spec fn has_line(s: Seq<char>, line: Seq<char>) -> bool {
    exists|i: int|
        #![trigger s.subrange(i, i + line.len())]
        0 <= i && i + line.len() <= s.len() && (i == 0 || s[i - 1] == '\n') && s.subrange(
            i,
            i + line.len(),
        ) == line
}

/// Whether `s` says of a metric of which kind it is and which value it has.
pub open spec fn says(
    s: Seq<char>,
    name: Seq<char>,
    kind: Seq<char>,
    value: Seq<char>,
) -> bool {
    &&& has_line(s, "# TYPE "@ + name + " "@ + kind + "\n"@)
    &&& has_line(s, name + " "@ + value + "\n"@)
}

proof fn lemma_itself(line: Seq<char>)
    ensures
        has_line(line, line),
{
    assert(line.subrange(0int, 0int + line.len()) =~= line);
}

proof fn lemma_step(a: Seq<char>, b: Seq<char>)
    requires
        whole(a),
        whole(b),
    ensures
        whole(a + b),
        forall|line: Seq<char>| #[trigger] has_line(a, line) ==> has_line(a + b, line),
        forall|line: Seq<char>| #[trigger] has_line(b, line) ==> has_line(a + b, line),
{
    let s = a + b;
    let n = a.len() as int;
    assert forall|line: Seq<char>| #[trigger] has_line(a, line) implies has_line(s, line) by {
        let i = choose|i: int|
            #![trigger a.subrange(i, i + line.len())]
            0 <= i && i + line.len() <= a.len() && (i == 0 || a[i - 1] == '\n') && a.subrange(
                i,
                i + line.len(),
            ) == line;
        assert(s.subrange(i, i + line.len()) =~= line);
    }
    assert forall|line: Seq<char>| #[trigger] has_line(b, line) implies has_line(s, line) by {
        let i = choose|i: int|
            #![trigger b.subrange(i, i + line.len())]
            0 <= i && i + line.len() <= b.len() && (i == 0 || b[i - 1] == '\n') && b.subrange(
                i,
                i + line.len(),
            ) == line;
        assert(s.subrange(n + i, n + i + line.len()) =~= line);
        if i > 0 {
            assert(s[n + i - 1] == b[i - 1]);
        }
    }
}

proof fn lemma_whole(s: Seq<char>)
    ensures
        whole(s + "\n"@),
{
    reveal_strlit("\n");
}

/// Two lines, one behind the other.
proof fn lemma_two_lines(first: Seq<char>, second: Seq<char>)
    requires
        whole(first),
        whole(second),
    ensures
        whole(first + second),
        has_line(first + second, first),
        has_line(first + second, second),
{
    lemma_itself(first);
    lemma_itself(second);
    lemma_step(first, second);
}

proof fn lemma_block(name: Seq<char>, kind: Seq<char>, value: Seq<char>)
    ensures
        ({
            let s = runtime::type_line(name, kind) + runtime::sample_line(name, value);
            whole(s) && says(s, name, kind, value)
        }),
{
    lemma_whole("# TYPE "@ + name + " "@ + kind);
    lemma_whole(name + " "@ + value);
    lemma_two_lines(runtime::type_line(name, kind), runtime::sample_line(name, value));
}

proof fn lemma_counters(product: Seq<char>, scrape: ScrapeView)
    ensures
        ({
            let text = runtime::counters_text(product, scrape);
            &&& whole(text)
            &&& says(text, product + "_requests_total"@, "counter"@, text::decimal(scrape.requests as nat))
            &&& says(text, product + "_responses_total"@, "counter"@, text::decimal(scrape.responses as nat))
            &&& says(text, product + "_errors_total"@, "counter"@, text::decimal(scrape.errors as nat))
            &&& says(text, product + "_unknown_clients_total"@, "counter"@, text::decimal(scrape.unknown as nat))
            &&& says(text, product + "_boot_mode_mismatches_total"@, "counter"@, text::decimal(scrape.boot_mode_mismatches as nat))
            &&& says(text, product + "_sync_success_total"@, "counter"@, text::decimal(scrape.sync_success as nat))
            &&& says(text, product + "_sync_errors_total"@, "counter"@, text::decimal(scrape.sync_errors as nat))
            &&& says(text, product + "_state_read_errors_total"@, "counter"@, text::decimal(scrape.state_read_errors as nat))
            &&& says(text, product + "_state_write_errors_total"@, "counter"@, text::decimal(scrape.state_write_errors as nat))
        }),
{
    let c0 = runtime::counter_text(product + "_requests_total"@, scrape.requests);
    let c1 = runtime::counter_text(product + "_responses_total"@, scrape.responses);
    let c2 = runtime::counter_text(product + "_errors_total"@, scrape.errors);
    let c3 = runtime::counter_text(product + "_unknown_clients_total"@, scrape.unknown);
    let c4 = runtime::counter_text(product + "_boot_mode_mismatches_total"@, scrape.boot_mode_mismatches);
    let c5 = runtime::counter_text(product + "_sync_success_total"@, scrape.sync_success);
    let c6 = runtime::counter_text(product + "_sync_errors_total"@, scrape.sync_errors);
    let c7 = runtime::counter_text(product + "_state_read_errors_total"@, scrape.state_read_errors);
    let c8 = runtime::counter_text(product + "_state_write_errors_total"@, scrape.state_write_errors);
    lemma_block(product + "_requests_total"@, "counter"@, text::decimal(scrape.requests as nat));
    lemma_block(product + "_responses_total"@, "counter"@, text::decimal(scrape.responses as nat));
    lemma_block(product + "_errors_total"@, "counter"@, text::decimal(scrape.errors as nat));
    lemma_block(product + "_unknown_clients_total"@, "counter"@, text::decimal(scrape.unknown as nat));
    lemma_block(product + "_boot_mode_mismatches_total"@, "counter"@, text::decimal(scrape.boot_mode_mismatches as nat));
    lemma_block(product + "_sync_success_total"@, "counter"@, text::decimal(scrape.sync_success as nat));
    lemma_block(product + "_sync_errors_total"@, "counter"@, text::decimal(scrape.sync_errors as nat));
    lemma_block(product + "_state_read_errors_total"@, "counter"@, text::decimal(scrape.state_read_errors as nat));
    lemma_block(product + "_state_write_errors_total"@, "counter"@, text::decimal(scrape.state_write_errors as nat));
    lemma_step(c0, c1);
    lemma_step(c0 + c1, c2);
    lemma_step(c0 + c1 + c2, c3);
    lemma_step(c0 + c1 + c2 + c3, c4);
    lemma_step(c0 + c1 + c2 + c3 + c4, c5);
    lemma_step(c0 + c1 + c2 + c3 + c4 + c5, c6);
    lemma_step(c0 + c1 + c2 + c3 + c4 + c5 + c6, c7);
    lemma_step(c0 + c1 + c2 + c3 + c4 + c5 + c6 + c7, c8);
}

proof fn lemma_gauges(product: Seq<char>, scrape: ScrapeView, unix_now: u64)
    ensures
        ({
            let text = runtime::gauges_text(product, scrape, unix_now);
            &&& whole(text)
            &&& says(text, product + "_clients"@, "gauge"@, text::decimal(scrape.clients))
            &&& says(
                text,
                product + "_last_successful_sync_timestamp_seconds"@,
                "gauge"@,
                runtime::last_success_text(scrape.last_success),
            )
            &&& says(
                text,
                product + "_data_age_seconds"@,
                "gauge"@,
                runtime::age_text(runtime::data_age(scrape.data_since, unix_now)),
            )
        }),
{
    let last = runtime::last_success_text(scrape.last_success);
    let age = runtime::age_text(runtime::data_age(scrape.data_since, unix_now));
    let g0 = runtime::gauge_text(product + "_clients"@, text::decimal(scrape.clients));
    let g1 = runtime::gauge_text(product + "_last_successful_sync_timestamp_seconds"@, last);
    let g2 = runtime::gauge_text(product + "_data_age_seconds"@, age);
    lemma_block(product + "_clients"@, "gauge"@, text::decimal(scrape.clients));
    lemma_block(product + "_last_successful_sync_timestamp_seconds"@, "gauge"@, last);
    lemma_block(product + "_data_age_seconds"@, "gauge"@, age);
    lemma_step(g0, g1);
    lemma_step(g0 + g1, g2);
}

/// One label and its value between quotation marks.
pub open spec fn label(name: Seq<char>, value: Seq<char>) -> Seq<char> {
    name + "=\""@ + runtime::escaped(value) + "\""@
}

/// The line of one client series.
pub open spec fn client_line(product: Seq<char>, s: SeriesView) -> Seq<char> {
    product + "_client_requests_total"@ + "{"@ + (label("location"@, s.labels[0]) + ","@ + label(
        "hostname"@,
        s.labels[1],
    ) + ","@ + label("stage"@, s.labels[2]) + ","@ + label("route"@, s.labels[3]) + ","@ + label(
        "message"@,
        s.labels[4],
    )) + "} "@ + text::decimal(s.count as nat) + "\n"@
}

/// The line of one series of responses.
pub open spec fn response_line(product: Seq<char>, s: SeriesView) -> Seq<char> {
    product + "_message_responses_total"@ + "{"@ + label("message"@, s.labels[0]) + "} "@
        + text::decimal(s.count as nat) + "\n"@
}

proof fn lemma_join_five(parts: Seq<Seq<char>>, sep: Seq<char>)
    requires
        parts.len() == 5,
    ensures
        text::join(parts, sep) == parts[0] + sep + parts[1] + sep + parts[2] + sep + parts[3] + sep
            + parts[4],
{
    let p4 = parts.drop_last();
    let p3 = p4.drop_last();
    let p2 = p3.drop_last();
    let p1 = p2.drop_last();
    assert(text::join(p1, sep) == parts[0]);
    assert(text::join(p2, sep) == parts[0] + sep + parts[1]);
    assert(text::join(p3, sep) == parts[0] + sep + parts[1] + sep + parts[2]);
    assert(text::join(p4, sep) == parts[0] + sep + parts[1] + sep + parts[2] + sep + parts[3]);
}

proof fn lemma_client_line(product: Seq<char>, s: SeriesView)
    ensures
        runtime::labelled_line(
            product + "_client_requests_total"@,
            runtime::request_label_names(),
            s.labels,
            s.count,
        ) == client_line(product, s),
        whole(client_line(product, s)),
{
    let names = runtime::request_label_names();
    let pairs = runtime::label_pairs(names, s.labels);
    lemma_join_five(pairs, ","@);
    assert(pairs[0] == label("location"@, s.labels[0]));
    assert(pairs[1] == label("hostname"@, s.labels[1]));
    assert(pairs[2] == label("stage"@, s.labels[2]));
    assert(pairs[3] == label("route"@, s.labels[3]));
    assert(pairs[4] == label("message"@, s.labels[4]));
    let front = product + "_client_requests_total"@ + "{"@ + text::join(pairs, ","@) + "} "@
        + text::decimal(s.count as nat);
    lemma_whole(front);
}

proof fn lemma_response_line(product: Seq<char>, s: SeriesView)
    ensures
        runtime::labelled_line(
            product + "_message_responses_total"@,
            seq!["message"@],
            s.labels,
            s.count,
        ) == response_line(product, s),
        whole(response_line(product, s)),
{
    let pairs = runtime::label_pairs(seq!["message"@], s.labels);
    assert(pairs[0] == label("message"@, s.labels[0]));
    assert(text::join(pairs, ","@) == pairs[0]);
    let front = product + "_message_responses_total"@ + "{"@ + pairs[0] + "} "@ + text::decimal(
        s.count as nat,
    );
    lemma_whole(front);
}

/// Whether every one of the lines stands in `s`.
pub open spec fn has_lines(s: Seq<char>, lines: Seq<Seq<char>>) -> bool {
    forall|i: int| 0 <= i < lines.len() ==> has_line(s, #[trigger] lines[i])
}

proof fn lemma_append(s: Seq<char>, lines: Seq<Seq<char>>, line: Seq<char>)
    requires
        whole(s),
        whole(line),
        has_lines(s, lines),
    ensures
        whole(s + line),
        has_lines(s + line, lines.push(line)),
{
    lemma_itself(line);
    lemma_step(s, line);
    let all = lines.push(line);
    assert forall|i: int| 0 <= i < all.len() implies has_line(s + line, #[trigger] all[i]) by {
        if i < lines.len() {
            assert(has_line(s, lines[i]));
        }
    }
}

/// The lines of series.
pub open spec fn lines_of(
    name: Seq<char>,
    names: Seq<Seq<char>>,
    all: Seq<SeriesView>,
) -> Seq<Seq<char>> {
    Seq::new(
        all.len(),
        |i: int| runtime::labelled_line(name, names, all[i].labels, all[i].count),
    )
}

proof fn lemma_labelled_whole(
    name: Seq<char>,
    names: Seq<Seq<char>>,
    values: Seq<Seq<char>>,
    count: u64,
)
    ensures
        whole(runtime::labelled_line(name, names, values, count)),
{
    lemma_whole(
        name + "{"@ + text::join(runtime::label_pairs(names, values), ","@) + "} "@
            + text::decimal(count as nat),
    );
}

proof fn lemma_series_lines(name: Seq<char>, names: Seq<Seq<char>>, all: Seq<SeriesView>)
    ensures
        whole(runtime::series_lines(name, names, all)),
        has_lines(runtime::series_lines(name, names, all), lines_of(name, names, all)),
    decreases all.len(),
{
    if all.len() > 0 {
        let front = all.drop_last();
        lemma_series_lines(name, names, front);
        lemma_labelled_whole(name, names, all.last().labels, all.last().count);
        let line = runtime::labelled_line(name, names, all.last().labels, all.last().count);
        lemma_append(
            runtime::series_lines(name, names, front),
            lines_of(name, names, front),
            line,
        );
        assert(lines_of(name, names, all) =~= lines_of(name, names, front).push(line));
    }
}

proof fn lemma_client_lines(product: Seq<char>, all: Seq<SeriesView>, i: int)
    requires
        0 <= i < all.len(),
    ensures
        has_line(
            runtime::series_lines(
                product + "_client_requests_total"@,
                runtime::request_label_names(),
                all,
            ),
            client_line(product, all[i]),
        ),
{
    let name = product + "_client_requests_total"@;
    let names = runtime::request_label_names();
    lemma_series_lines(name, names, all);
    lemma_client_line(product, all[i]);
    let lines = lines_of(name, names, all);
    assert(has_line(runtime::series_lines(name, names, all), lines[i]));
}

proof fn lemma_response_lines(product: Seq<char>, all: Seq<SeriesView>, i: int)
    requires
        0 <= i < all.len(),
    ensures
        has_line(
            runtime::series_lines(
                product + "_message_responses_total"@,
                seq!["message"@],
                all,
            ),
            response_line(product, all[i]),
        ),
{
    let name = product + "_message_responses_total"@;
    let names = seq!["message"@];
    lemma_series_lines(name, names, all);
    lemma_response_line(product, all[i]);
    let lines = lines_of(name, names, all);
    assert(has_line(runtime::series_lines(name, names, all), lines[i]));
}

proof fn lemma_labelled(product: Seq<char>, scrape: ScrapeView)
    ensures
        ({
            let s = runtime::labelled_text(product, scrape);
            &&& whole(s)
            &&& forall|i: int|
                0 <= i < scrape.request_series.len() ==> has_line(
                    s,
                    client_line(product, #[trigger] scrape.request_series[i]),
                )
            &&& forall|i: int|
                0 <= i < scrape.response_series.len() ==> has_line(
                    s,
                    response_line(product, #[trigger] scrape.response_series[i]),
                )
        }),
{
    let requests = product + "_client_requests_total"@;
    let responses = product + "_message_responses_total"@;
    let t1 = runtime::type_line(requests, "counter"@);
    let t2 = runtime::type_line(responses, "counter"@);
    lemma_whole("# TYPE "@ + requests + " "@ + "counter"@);
    lemma_whole("# TYPE "@ + responses + " "@ + "counter"@);
    lemma_series_lines(requests, runtime::request_label_names(), scrape.request_series);
    lemma_series_lines(responses, seq!["message"@], scrape.response_series);
    let s1 = runtime::series_lines(
        requests,
        runtime::request_label_names(),
        scrape.request_series,
    );
    let s2 = runtime::series_lines(responses, seq!["message"@], scrape.response_series);
    lemma_step(t1, s1);
    lemma_step(t1 + s1, t2);
    lemma_step(t1 + s1 + t2, s2);
    assert forall|i: int| 0 <= i < scrape.request_series.len() implies has_line(
        t1 + s1 + t2 + s2,
        client_line(product, #[trigger] scrape.request_series[i]),
    ) by {
        lemma_client_lines(product, scrape.request_series, i);
        assert(has_line(t1 + s1, client_line(product, scrape.request_series[i])));
        assert(has_line(t1 + s1 + t2, client_line(product, scrape.request_series[i])));
    }
    assert forall|i: int| 0 <= i < scrape.response_series.len() implies has_line(
        t1 + s1 + t2 + s2,
        response_line(product, #[trigger] scrape.response_series[i]),
    ) by {
        lemma_response_lines(product, scrape.response_series, i);
    }
}

proof fn lemma_rest(product: Seq<char>, version: Seq<char>, count: u64, sum: Seq<char>)
    ensures
        ({
            let d = runtime::duration_text(product, count, sum);
            let name = product + "_response_duration_seconds"@;
            &&& whole(d)
            &&& has_line(d, "# TYPE "@ + name + " "@ + "summary"@ + "\n"@)
            &&& has_line(d, name + "_count"@ + " "@ + text::decimal(count as nat) + "\n"@)
            &&& has_line(d, name + "_sum"@ + " "@ + sum + "\n"@)
        }),
        ({
            let b = runtime::build_text(product, version);
            &&& whole(b)
            &&& has_line(
                b,
                product + "_build_info"@ + "{"@ + label("version"@, version) + "} "@
                    + text::decimal(1) + "\n"@,
            )
        }),
{
    let name = product + "_response_duration_seconds"@;
    let t = runtime::type_line(name, "summary"@);
    let a = runtime::sample_line(name + "_count"@, text::decimal(count as nat));
    let b = runtime::sample_line(name + "_sum"@, sum);
    lemma_whole("# TYPE "@ + name + " "@ + "summary"@);
    lemma_whole(name + "_count"@ + " "@ + text::decimal(count as nat));
    lemma_whole(name + "_sum"@ + " "@ + sum);
    lemma_two_lines(t, a);
    lemma_itself(b);
    lemma_step(t + a, b);
    let build = product + "_build_info"@;
    let pairs = runtime::label_pairs(seq!["version"@], seq![version]);
    assert(pairs[0] == label("version"@, version));
    assert(text::join(pairs, ","@) == pairs[0]);
    let line = build + "{"@ + pairs[0] + "} "@ + text::decimal(1);
    lemma_whole(line);
    lemma_whole("# TYPE "@ + build + " "@ + "gauge"@);
    lemma_two_lines(runtime::type_line(build, "gauge"@), line + "\n"@);
}

/// What the metrics say of a state at the time `unix_now`: every counter with its number,
/// how many clients there are, when the last poll succeeded, how old the table is, and
/// every series with its labels.
pub open spec fn reports(
    text: Seq<char>,
    product: Seq<char>,
    version: Seq<char>,
    shared: SharedView,
    unix_now: u64,
    duration_sum: Seq<char>,
) -> bool {
    let duration = product + "_response_duration_seconds"@;
    let status = shared.status;
    &&& says(text, product + "_requests_total"@, "counter"@, text::decimal(shared.requests as nat))
    &&& says(text, product + "_responses_total"@, "counter"@, text::decimal(shared.responses as nat))
    &&& says(text, product + "_errors_total"@, "counter"@, text::decimal(shared.errors as nat))
    &&& says(text, product + "_unknown_clients_total"@, "counter"@, text::decimal(shared.unknown as nat))
    &&& says(text, product + "_boot_mode_mismatches_total"@, "counter"@, text::decimal(shared.boot_mode_mismatches as nat))
    &&& says(text, product + "_sync_success_total"@, "counter"@, text::decimal(shared.sync_success as nat))
    &&& says(text, product + "_sync_errors_total"@, "counter"@, text::decimal(shared.sync_errors as nat))
    &&& says(text, product + "_state_read_errors_total"@, "counter"@, text::decimal(shared.state_read_errors as nat))
    &&& says(text, product + "_state_write_errors_total"@, "counter"@, text::decimal(shared.state_write_errors as nat))
    &&& says(
        text,
        product + "_clients"@,
        "gauge"@,
        text::decimal(
            match shared.snapshot {
                Some(clients) => clients.records@.len(),
                None => 0,
            },
        ),
    )
    &&& says(
        text,
        product + "_last_successful_sync_timestamp_seconds"@,
        "gauge"@,
        text::decimal(
            match status.last_success {
                Some(time) => time as nat,
                None => 0,
            },
        ),
    )
    &&& says(
        text,
        product + "_data_age_seconds"@,
        "gauge"@,
        match status.data_since {
            Some(since) if unix_now >= since => text::decimal((unix_now - since) as nat),
            Some(_) => text::decimal(0),
            None => "NaN"@,
        },
    )
    &&& has_line(text, "# TYPE "@ + duration + " "@ + "summary"@ + "\n"@)
    &&& has_line(text, duration + "_count"@ + " "@ + text::decimal(shared.durations as nat) + "\n"@)
    &&& has_line(text, duration + "_sum"@ + " "@ + duration_sum + "\n"@)
    &&& has_line(
        text,
        product + "_build_info"@ + "{"@ + label("version"@, version) + "} "@ + text::decimal(1)
            + "\n"@,
    )
    &&& forall|i: int|
        0 <= i < shared.request_labels.series.len() ==> has_line(
            text,
            client_line(product, #[trigger] shared.request_labels.series[i]),
        )
    &&& forall|i: int|
        0 <= i < shared.response_labels.len() ==> has_line(
            text,
            response_line(product, #[trigger] shared.response_labels[i]),
        )
}

/// The metrics report the state.
#[verifier::rlimit(30)]
pub proof fn law_metrics_report_the_state(
    product: Seq<char>,
    version: Seq<char>,
    shared: SharedView,
    unix_now: u64,
    duration_sum: Seq<char>,
)
    ensures
        reports(
            runtime::metrics_text(
                product,
                version,
                runtime::reported(shared),
                unix_now,
                duration_sum,
            ),
            product,
            version,
            shared,
            unix_now,
            duration_sum,
        ),
{
    let scrape = runtime::reported(shared);
    let b = runtime::build_text(product, version);
    let c = runtime::counters_text(product, scrape);
    let g = runtime::gauges_text(product, scrape, unix_now);
    let l = runtime::labelled_text(product, scrape);
    let d = runtime::duration_text(product, scrape.durations, duration_sum);
    lemma_rest(product, version, scrape.durations, duration_sum);
    lemma_counters(product, scrape);
    lemma_gauges(product, scrape, unix_now);
    lemma_labelled(product, scrape);
    lemma_step(b, c);
    lemma_step(b + c, g);
    lemma_step(b + c + g, l);
    lemma_step(b + c + g + l, d);
    let text = b + c + g + l + d;
    assert forall|i: int| 0 <= i < shared.request_labels.series.len() implies has_line(
        text,
        client_line(product, #[trigger] shared.request_labels.series[i]),
    ) by {
        let line = client_line(product, shared.request_labels.series[i]);
        assert(scrape.request_series[i] == shared.request_labels.series[i]);
        assert(has_line(l, line));
        assert(has_line(b + c + g + l, line));
    }
    assert forall|i: int| 0 <= i < shared.response_labels.len() implies has_line(
        text,
        response_line(product, #[trigger] shared.response_labels[i]),
    ) by {
        let line = response_line(product, shared.response_labels[i]);
        assert(scrape.response_series[i] == shared.response_labels[i]);
        assert(has_line(l, line));
        assert(has_line(b + c + g + l, line));
    }
}

/// In a label value a backslash, a quotation mark and a line break are written with a
/// backslash in front, and every other character as it is.
pub proof fn law_label_values(a: Seq<char>, c: char)
    ensures
        runtime::escaped(Seq::empty()) == Seq::<char>::empty(),
        ({
            let s = runtime::escaped(a.push(c));
            &&& c == '\\' ==> s == runtime::escaped(a) + seq!['\\', '\\']
            &&& c == '"' ==> s == runtime::escaped(a) + seq!['\\', '"']
            &&& c == '\n' ==> s == runtime::escaped(a) + seq!['\\', 'n']
            &&& c != '\\' && c != '"' && c != '\n' ==> s == runtime::escaped(a).push(c)
        }),
{
    assert(a.push(c).drop_last() =~= a);
}

} // verus!
