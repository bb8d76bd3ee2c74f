//! What is counted, and for how long, in plain numbers.
use crate::clients::{Client, Clients};
use crate::config::Config;
use crate::dhcp;
use crate::dhcp::{PacketError, PacketView, Stage};
use crate::net::Ipv4Addr;
use crate::runtime;
use crate::runtime::{SharedView, Source};
use crate::series;
use crate::series::{RequestMetricsView, SeriesView};
use crate::server;
use crate::server::OutcomeView;
use crate::sync;
use std::sync::Arc;
use vstd::prelude::*;
use vstd::string::*;
use vstd::utf8::*;

verus! {

/// One more than `n`, where a counter starts again at zero behind its largest number.
pub open spec fn plus_one(n: u64) -> int {
    (n + 1) % 0x1_0000_0000_0000_0000
}

// ---------------------------------------------------------------------------
// Series

/// Texts are in the order of their first different byte, and one comes before those that
/// go on where it ends.
pub proof fn law_order_of_texts(p: Seq<u8>, x: u8, y: u8, a: Seq<u8>, b: Seq<u8>)
    ensures
        x != y ==> series::bytes_before(p + seq![x] + a, p + seq![y] + b) == (x < y),
        series::bytes_before(p, p + seq![y] + b),
        !series::bytes_before(p + seq![x] + a, p),
        !series::bytes_before(p, p),
    decreases p.len(),
{
    let s = p + seq![x] + a;
    let t = p + seq![y] + b;
    if p.len() > 0 {
        let q = p.skip(1);
        law_order_of_texts(q, x, y, a, b);
        assert(s.skip(1) =~= q + seq![x] + a);
        assert(t.skip(1) =~= q + seq![y] + b);
    }
}

/// Series are in the order of their first different label.
pub proof fn law_order_of_labels(
    p: Seq<Seq<char>>,
    x: Seq<char>,
    y: Seq<char>,
    a: Seq<Seq<char>>,
    b: Seq<Seq<char>>,
)
    requires
        x != y,
    ensures
        series::before(p + seq![x] + a, p + seq![y] + b) == series::bytes_before(
            encode_utf8(x),
            encode_utf8(y),
        ),
    decreases p.len(),
{
    let s = p + seq![x] + a;
    let t = p + seq![y] + b;
    if p.len() > 0 {
        let q = p.skip(1);
        law_order_of_labels(q, x, y, a, b);
        assert(s.skip(1) =~= q + seq![x] + a);
        assert(t.skip(1) =~= q + seq![y] + b);
        law_order_of_texts(encode_utf8(p[0]), 0, 0, Seq::empty(), Seq::empty());
    }
}

proof fn lemma_counted(all: Seq<SeriesView>, labels: Seq<Seq<char>>, now: u64) -> (k: int)
    requires
        series::sorted(all),
    ensures
        ({
            let after = series::counted(all, labels, now);
            &&& 0 <= k < after.len()
            &&& after[k].labels == labels
            &&& after[k].seen == now
            &&& !series::present(all, labels) ==> after[k].count == 1
            &&& forall|i: int|
                0 <= i < all.len() && (#[trigger] all[i]).labels == labels ==> after[k].count
                    == plus_one(all[i].count)
            &&& forall|s: SeriesView|
                s.labels != labels ==> (#[trigger] after.contains(s) <==> all.contains(s))
        }),
    decreases all.len(),
{
    let after = series::counted(all, labels, now);
    if all.len() == 0 {
        assert(after.len() == 1);
        0
    } else if all[0].labels == labels {
        assert forall|i: int| 0 <= i < all.len() && (#[trigger] all[i]).labels == labels implies
            after[0].count == plus_one(all[i].count) by {
            if i > 0 {
                assert(series::before(all[0].labels, all[i].labels));
                series::lemma_before_total(all[0].labels, all[i].labels);
            }
        }
        assert forall|s: SeriesView| s.labels != labels implies (#[trigger] after.contains(s)
            <==> all.contains(s)) by {
            if after.contains(s) {
                let i = choose|i: int| 0 <= i < after.len() && after[i] == s;
                assert(all[i] == s);
            }
            if all.contains(s) {
                let i = choose|i: int| 0 <= i < all.len() && all[i] == s;
                assert(after[i] == s);
            }
        }
        0
    } else if series::before(labels, all[0].labels) {
        assert forall|i: int| 0 <= i < all.len() implies (#[trigger] all[i]).labels != labels by {
            series::lemma_before_total(labels, all[0].labels);
            if i > 0 {
                assert(series::before(all[0].labels, all[i].labels));
                series::lemma_before_transitive(labels, all[0].labels, all[i].labels);
                series::lemma_before_total(labels, all[i].labels);
            }
        }
        assert forall|s: SeriesView| s.labels != labels implies (#[trigger] after.contains(s)
            <==> all.contains(s)) by {
            if after.contains(s) {
                let i = choose|i: int| 0 <= i < after.len() && after[i] == s;
                assert(i > 0);
                assert(all[i - 1] == s);
            }
            if all.contains(s) {
                let i = choose|i: int| 0 <= i < all.len() && all[i] == s;
                assert(after[i + 1] == s);
            }
        }
        0
    } else {
        let rest = all.skip(1);
        series::lemma_skip_sorted(all);
        let j = lemma_counted(rest, labels, now);
        let more = series::counted(rest, labels, now);
        assert(after[j + 1] == more[j]);
        assert forall|i: int| 0 <= i < all.len() && (#[trigger] all[i]).labels == labels implies
            after[j + 1].count == plus_one(all[i].count) by {
            assert(rest[i - 1] == all[i]);
        }
        if !series::present(all, labels) {
            assert forall|i: int| 0 <= i < rest.len() implies (#[trigger] rest[i]).labels
                != labels by {
                assert(all[i + 1].labels != labels);
            }
        }
        assert forall|s: SeriesView| s.labels != labels implies (#[trigger] after.contains(s)
            <==> all.contains(s)) by {
            if after.contains(s) {
                let i = choose|i: int| 0 <= i < after.len() && after[i] == s;
                if i > 0 {
                    assert(more[i - 1] == s);
                    assert(more.contains(s));
                    assert(rest.contains(s));
                    let k = choose|k: int| 0 <= k < rest.len() && rest[k] == s;
                    assert(all[k + 1] == s);
                } else {
                    assert(all[0] == s);
                }
            }
            if all.contains(s) {
                let i = choose|i: int| 0 <= i < all.len() && all[i] == s;
                if i > 0 {
                    assert(rest[i - 1] == s);
                    assert(more.contains(s));
                    let k = choose|k: int| 0 <= k < more.len() && more[k] == s;
                    assert(after[k + 1] == s);
                } else {
                    assert(after[0] == s);
                }
            }
        }
        j + 1
    }
}

/// An event is added to the series of its labels, which begins with one, and is the last
/// that the series has seen; no other series changes.
pub proof fn law_an_event_is_counted(all: Seq<SeriesView>, labels: Seq<Seq<char>>, now: u64, i: int)
    requires
        series::sorted(all),
    ensures
        ({
            let after = series::counted(all, labels, now);
            let known = 0 <= i < all.len() && all[i].labels == labels;
            &&& known ==> exists|k: int|
                0 <= k < after.len() && (#[trigger] after[k]).labels == labels && after[k].seen == now
                    && after[k].count == plus_one(all[i].count)
            &&& (forall|j: int| 0 <= j < all.len() ==> (#[trigger] all[j]).labels != labels)
                ==> after.contains(SeriesView { labels, count: 1, seen: now })
            &&& forall|s: SeriesView|
                s.labels != labels ==> (#[trigger] after.contains(s) <==> all.contains(s))
        }),
{
    let k = lemma_counted(all, labels, now);
    let after = series::counted(all, labels, now);
    if forall|j: int| 0 <= j < all.len() ==> (#[trigger] all[j]).labels != labels {
        assert(after[k] == (SeriesView { labels, count: 1, seen: now }));
    }
}

/// At most once a minute, every series without an event in the last 24 hours is dropped,
/// and no other; times are in nanoseconds.
pub proof fn law_series_expire(metrics: RequestMetricsView, now: u64, s: SeriesView)
    ensures
        ({
            let after = series::pruned(metrics, now);
            let due = metrics.last_pruned is None || now - metrics.last_pruned->0 >= 60 * 1_000_000_000;
            let day = 24 * 60 * 60 * 1_000_000_000;
            &&& !due ==> after == metrics
            &&& due ==> after.last_pruned == Some(now)
            &&& due ==> (after.series.contains(s) <==> metrics.series.contains(s) && now - s.seen
                < day)
        }),
{
    series::law_idle_series_expire(metrics.series, now, s);
}

// ---------------------------------------------------------------------------
// Datagrams

/// The names of the message types.
pub proof fn law_message_names(message: u8)
    ensures
        message == 1 ==> dhcp::message_text(message) == "discover"@,
        message == 2 ==> dhcp::message_text(message) == "offer"@,
        message == 3 ==> dhcp::message_text(message) == "request"@,
        message == 4 ==> dhcp::message_text(message) == "decline"@,
        message == 5 ==> dhcp::message_text(message) == "ack"@,
        message == 6 ==> dhcp::message_text(message) == "nak"@,
        message == 7 ==> dhcp::message_text(message) == "release"@,
        message == 8 ==> dhcp::message_text(message) == "inform"@,
        message == 0 || message > 8 ==> dhcp::message_text(message) == "unknown"@,
{
}

/// A message is counted under the location and the host name of its client, the stage, the
/// kind of routes and the type of the message; one of a stranger under `unknown`.
pub proof fn law_labels_of_a_message(packet: PacketView, client: Option<Client>)
    ensures
        ({
            let labels = server::request_labels(packet, client);
            let stage = dhcp::stage(packet.options).0;
            let wanted = packet.options.contains_key(55) && packet.options[55].contains(121);
            &&& labels.len() == 5
            &&& client is Some ==> labels[0] == client->0.location@ && labels[1]
                == client->0.hostname@
            &&& client is None ==> labels[0] == "unknown"@ && labels[1] == "unknown"@
            &&& labels[2] == dhcp::stage_name(stage)
            &&& wanted && stage != Stage::Bios && stage != Stage::Uefi ==> labels[3] == "classless"@
            &&& !(wanted && stage != Stage::Bios && stage != Stage::Uefi) ==> labels[3] == "default"@
            &&& labels[4] == dhcp::message_text(packet.message)
        }),
{
}

/// What becomes of a datagram: one that is no message is malformed, and a message of a
/// stranger is unknown.
pub proof fn law_outcomes(
    snapshot: Option<Arc<Clients>>,
    config: Config,
    server: Ipv4Addr,
    datagram: Seq<u8>,
)
    ensures
        ({
            let outcome = server::outcome(snapshot, config, server, datagram);
            match dhcp::packet(datagram) {
                Err(error) => outcome == OutcomeView::Malformed(error),
                Ok(packet) => {
                    &&& !(outcome is Malformed)
                    &&& outcome is Unknown <==> server::client_of(snapshot, packet.mac) is None
                },
            }
        }),
        server::client_of(None, datagram) is None,
{
}

/// Every datagram is one request. What became of it is counted once: a malformed one, one
/// that cannot be answered and an answer without the relay's option as an error, a
/// stranger's as unknown, and firmware in the wrong mode as a mismatch. Nothing else
/// changes.
pub proof fn law_a_datagram_is_counted(
    shared: SharedView,
    config: Config,
    server: Ipv4Addr,
    datagram: Seq<u8>,
    now: u64,
)
    ensures
        ({
            let after = server::handled(shared, config, server, datagram, now);
            let outcome = server::outcome(shared.snapshot, config, server, datagram);
            let wrong = outcome is Malformed || outcome is Error || outcome is Send
                && outcome->Send_0.relay_option_omitted;
            &&& after.requests == plus_one(shared.requests)
            &&& after.errors == if wrong {
                plus_one(shared.errors)
            } else {
                shared.errors as int
            }
            &&& after.unknown == if outcome is Unknown {
                plus_one(shared.unknown)
            } else {
                shared.unknown as int
            }
            &&& after.boot_mode_mismatches == if outcome is BootModeMismatch {
                plus_one(shared.boot_mode_mismatches)
            } else {
                shared.boot_mode_mismatches as int
            }
            &&& after.snapshot == shared.snapshot
            &&& after.dhcp_ready == shared.dhcp_ready
            &&& after.responses == shared.responses
            &&& after.sync_success == shared.sync_success
            &&& after.sync_errors == shared.sync_errors
            &&& after.state_read_errors == shared.state_read_errors
            &&& after.state_write_errors == shared.state_write_errors
            &&& after.status == shared.status
            &&& after.response_labels == shared.response_labels
            &&& after.durations == shared.durations
        }),
{
}

/// A datagram is counted in the series of its labels: those of the message, or `invalid`
/// for one that is none.
pub proof fn law_a_datagram_is_labelled(
    shared: SharedView,
    config: Config,
    server: Ipv4Addr,
    datagram: Seq<u8>,
    now: u64,
)
    requires
        series::sorted(shared.request_labels.series),
    ensures
        ({
            let after = server::handled(
                shared,
                config,
                server,
                datagram,
                now,
            ).request_labels.series;
            let labels = match dhcp::packet(datagram) {
                Ok(packet) => server::request_labels(
                    packet,
                    server::client_of(shared.snapshot, packet.mac),
                ),
                Err(_) => seq!["unknown"@, "unknown"@, "unknown"@, "unknown"@, "invalid"@],
            };
            exists|k: int|
                0 <= k < after.len() && (#[trigger] after[k]).labels == labels && after[k].seen
                    == now
        }),
{
    let labels = match dhcp::packet(datagram) {
        Ok(packet) => server::request_labels(
            packet,
            server::client_of(shared.snapshot, packet.mac),
        ),
        Err(_) => seq!["unknown"@, "unknown"@, "unknown"@, "unknown"@, "invalid"@],
    };
    let kept = series::pruned(shared.request_labels, now).series;
    series::law_pruning_keeps_order(shared.request_labels.series, now);
    let k = lemma_counted(kept, labels, now);
    let after = server::handled(shared, config, server, datagram, now).request_labels.series;
    assert(after == series::counted(kept, labels, now));
    assert(after[k].labels == labels);
}

/// A response is counted once, under its type.
pub proof fn law_a_response_is_counted(shared: SharedView, message: Seq<char>)
    requires
        series::sorted(shared.response_labels),
    ensures
        ({
            let after = runtime::with_response(shared, message);
            &&& after.responses == plus_one(shared.responses)
            &&& after.requests == shared.requests
            &&& after.errors == shared.errors
            &&& after.snapshot == shared.snapshot
            &&& after.status == shared.status
            &&& exists|k: int|
                0 <= k < after.response_labels.len() && (
                #[trigger] after.response_labels[k]).labels == seq![message]
            &&& forall|s: SeriesView|
                s.labels != seq![message] ==> (#[trigger] after.response_labels.contains(s)
                    <==> shared.response_labels.contains(s))
        }),
{
    let k = lemma_counted(shared.response_labels, seq![message], 0);
    let after = runtime::with_response(shared, message).response_labels;
    assert(after[k].labels == seq![message]);
}

/// The server answers under the configured identifier, or under the address that it is
/// bound to; bound to all addresses, it has no fixed one.
pub proof fn law_server_address(config: Config)
    ensures
        config.dhcp.server_identifier is Some ==> server::fixed_server(config)
            == config.dhcp.server_identifier,
        config.dhcp.server_identifier is None && config.dhcp.listen_ip != (Ipv4Addr {
            a: 0,
            b: 0,
            c: 0,
            d: 0,
        }) ==> server::fixed_server(config) == Some(config.dhcp.listen_ip),
        config.dhcp.server_identifier is None && config.dhcp.listen_ip == (Ipv4Addr {
            a: 0,
            b: 0,
            c: 0,
            d: 0,
        }) ==> server::fixed_server(config) is None,
{
}

// ---------------------------------------------------------------------------
// Health

/// The service is healthy, with status 200, exactly while it listens and has a table;
/// otherwise its status is 503. No poll that fails changes that.
pub proof fn law_health(shared: SharedView, why: Seq<char>, unix_now: u64)
    ensures
        ({
            let health = runtime::health_of(shared, unix_now);
            let failed = runtime::health_of(sync::with_failure(shared, why), unix_now);
            &&& health.status == 200 <==> shared.dhcp_ready && shared.snapshot is Some
            &&& health.status == 503 <==> !shared.dhcp_ready || shared.snapshot is None
            &&& health.healthy <==> health.status == 200
            &&& failed.healthy == health.healthy
            &&& failed.status == health.status
            &&& failed.clients == health.clients
            &&& failed.source == health.source
            &&& failed.last_successful_sync == health.last_successful_sync
            &&& failed.data_age_seconds == health.data_age_seconds
            &&& failed.last_sync_error == Some(why)
        }),
{
}

/// The health report tells how many clients the table holds, where it is from, when it was
/// last confirmed, for how many seconds it has been in use, and what went wrong last.
pub proof fn law_health_details(
    shared: SharedView,
    clients: Arc<Clients>,
    since: u64,
    unix_now: u64,
)
    ensures
        ({
            let health = runtime::health_of(shared, unix_now);
            &&& shared.snapshot == Some(clients) ==> health.clients == clients.records@.len()
            &&& shared.snapshot is None ==> health.clients == 0
            &&& health.source == shared.status.source
            &&& health.last_successful_sync == shared.status.last_success
            &&& health.last_sync_error == shared.status.last_error
            &&& shared.status.data_since is None ==> health.data_age_seconds is None
            &&& shared.status.data_since == Some(since) && since <= unix_now
                ==> health.data_age_seconds is Some && since + health.data_age_seconds->0
                == unix_now
            &&& shared.status.data_since == Some(since) && since > unix_now
                ==> health.data_age_seconds == Some(0u64)
        }),
{
}

/// The names of the sources of a table.
pub proof fn law_sources(source: Source)
    ensures
        source == Source::State ==> source.text() == "state"@,
        source == Source::Remote ==> source.text() == "remote"@,
{
}

} // verus!
