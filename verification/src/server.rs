//! What becomes of a datagram: the decisions of the DHCP service.
use crate::clients;
use crate::clients::{Client, Clients};
use crate::config;
use crate::config::Config;
use crate::dhcp;
use crate::dhcp::{Packet, PacketError, PacketView, Stage};
use crate::net::Ipv4Addr;
use crate::reply;
use crate::reply::{Reply, ReplyError, ReplyView};
use crate::runtime;
use crate::runtime::{Shared, SharedView};
use crate::series;
use std::sync::Arc;
use vstd::prelude::*;
use vstd::string::*;

verus! {

/// The server identifier that the configuration fixes: the configured one, or the
/// address that the service is bound to. A service that is bound to all addresses
/// without a configured one takes it from each datagram.
pub open spec fn fixed_server(config: Config) -> Option<Ipv4Addr> {
    if config.dhcp.server_identifier is Some {
        config.dhcp.server_identifier
    } else if !config.dhcp.listen_ip.zero() {
        Some(config.dhcp.listen_ip)
    } else {
        None
    }
}

pub fn explicit_server(config: &Config) -> (server: Option<Ipv4Addr>)
    ensures
        server == fixed_server(*config),
{
    match config.dhcp.server_identifier {
        Some(ip) => Some(ip),
        None => if config.dhcp.listen_ip.is_unspecified() {
            None
        } else {
            Some(config.dhcp.listen_ip)
        },
    }
}

/// What becomes of a datagram.
#[derive(Debug)]
pub enum Outcome {
    /// It is no client's message.
    Malformed(PacketError),
    /// There is no client table, or the client is not in it.
    Unknown,
    /// A machine's firmware asks in another mode than the one its row is for.
    BootModeMismatch,
    /// The message needs no answer.
    NoResponse,
    /// The message cannot be answered.
    Error(ReplyError),
    /// The answer is to be sent.
    Send(Reply),
}

/// What an `Outcome` holds.
pub enum OutcomeView {
    Malformed(PacketError),
    Unknown,
    BootModeMismatch,
    NoResponse,
    Error(ReplyError),
    Send(ReplyView),
}

impl View for Outcome {
    type V = OutcomeView;

    open spec fn view(&self) -> OutcomeView {
        match self {
            Outcome::Malformed(error) => OutcomeView::Malformed(*error),
            Outcome::Unknown => OutcomeView::Unknown,
            Outcome::BootModeMismatch => OutcomeView::BootModeMismatch,
            Outcome::NoResponse => OutcomeView::NoResponse,
            Outcome::Error(error) => OutcomeView::Error(*error),
            Outcome::Send(reply) => OutcomeView::Send(reply@),
        }
    }
}

/// The client with that hardware address, if there is a table with it.
pub open spec fn client_of(snapshot: Option<Arc<Clients>>, mac: Seq<u8>) -> Option<Client> {
    match snapshot {
        Some(clients) => {
            let key = clients::mac_number(mac) as u64;
            if clients.records@.contains_key(key) {
                Some(clients.records@[key])
            } else {
                None
            }
        },
        None => None,
    }
}

/// The labels under which a message is counted.
pub open spec fn request_labels(packet: PacketView, client: Option<Client>) -> Seq<Seq<char>> {
    seq![
        match client {
            Some(c) => c.location@,
            None => "unknown"@,
        },
        match client {
            Some(c) => c.hostname@,
            None => "unknown"@,
        },
        dhcp::stage_name(dhcp::stage(packet.options).0),
        if dhcp::classless(packet.options) {
            "classless"@
        } else {
            "default"@
        },
        dhcp::message_text(packet.message),
    ]
}

/// The labels under which a datagram that is no message is counted.
pub open spec fn malformed_labels() -> Seq<Seq<char>> {
    seq!["unknown"@, "unknown"@, "unknown"@, "unknown"@, "invalid"@]
}

/// What becomes of a client's message.
pub open spec fn message_outcome(
    packet: PacketView,
    client: Option<Client>,
    config: Config,
    server: Ipv4Addr,
) -> OutcomeView {
    match client {
        None => OutcomeView::Unknown,
        Some(c) => if dhcp::mode_mismatch(packet.options, c.boot_type@) {
            OutcomeView::BootModeMismatch
        } else {
            match reply::reply_to(packet, c, config, server) {
                Ok(Some(reply)) => OutcomeView::Send(reply),
                Ok(None) => OutcomeView::NoResponse,
                Err(error) => OutcomeView::Error(error),
            }
        },
    }
}

/// What becomes of a datagram.
pub open spec fn outcome(
    snapshot: Option<Arc<Clients>>,
    config: Config,
    server: Ipv4Addr,
    datagram: Seq<u8>,
) -> OutcomeView {
    match dhcp::packet(datagram) {
        Err(error) => OutcomeView::Malformed(error),
        Ok(packet) => message_outcome(packet, client_of(snapshot, packet.mac), config, server),
    }
}

/// The state after an outcome was counted.
pub open spec fn with_outcome(shared: SharedView, outcome: OutcomeView) -> SharedView {
    match outcome {
        OutcomeView::Malformed(_) | OutcomeView::Error(_) => SharedView {
            errors: series::raised(shared.errors),
            ..shared
        },
        OutcomeView::Unknown => SharedView { unknown: series::raised(shared.unknown), ..shared },
        OutcomeView::BootModeMismatch => SharedView {
            boot_mode_mismatches: series::raised(shared.boot_mode_mismatches),
            ..shared
        },
        OutcomeView::NoResponse => shared,
        OutcomeView::Send(reply) => if reply.relay_option_omitted {
            SharedView { errors: series::raised(shared.errors), ..shared }
        } else {
            shared
        },
    }
}

/// The state after a datagram was handled.
pub open spec fn handled(
    shared: SharedView,
    config: Config,
    server: Ipv4Addr,
    datagram: Seq<u8>,
    now: u64,
) -> SharedView {
    let labels = match dhcp::packet(datagram) {
        Err(_) => malformed_labels(),
        Ok(packet) => request_labels(packet, client_of(shared.snapshot, packet.mac)),
    };
    with_outcome(
        runtime::with_request(shared, labels, now),
        outcome(shared.snapshot, config, server, datagram),
    )
}

/// What is known of a client's message, for the log.
#[derive(Debug)]
pub struct Request {
    pub packet: Packet,
    /// The client's row.
    pub client: Option<Client>,
}

fn copy_client(client: &Client) -> (copy: Client)
    ensures
        copy == *client,
{
    Client {
        location: client.location.clone(),
        mac: client.mac,
        boot_type: client.boot_type.clone(),
        hostname: client.hostname.clone(),
        domain: client.domain.clone(),
        mtu: client.mtu,
        ip: client.ip,
        prefix_length: client.prefix_length,
        gateway: client.gateway,
    }
}

fn find_client(snapshot: &Option<Arc<Clients>>, mac: &[u8; 6]) -> (client: Option<Client>)
    ensures
        client == client_of(*snapshot, mac@),
{
    match snapshot {
        Some(clients) => match clients.get(mac) {
            Some(client) => Some(copy_client(client)),
            None => None,
        },
        None => None,
    }
}

fn decide(packet: &Packet, client: &Option<Client>, config: &Config, server: Ipv4Addr) -> (outcome:
    Outcome)
    requires
        packet@.wf(),
        client matches Some(c) ==> c.prefix_length <= 32,
    ensures
        outcome@ == message_outcome(packet@, *client, *config, server),
{
    match client {
        Some(client) => {
            if packet.boot_mode_mismatch(client) {
                return Outcome::BootModeMismatch;
            }
            match reply::reply(packet, client, config, server) {
                Ok(Some(reply)) => Outcome::Send(reply),
                Ok(None) => Outcome::NoResponse,
                Err(error) => Outcome::Error(error),
            }
        },
        None => Outcome::Unknown,
    }
}

fn count_request(shared: &mut Shared, packet: &Packet, client: &Option<Client>, now: u64)
    ensures
        final(shared)@ == runtime::with_request(
            old(shared)@,
            request_labels(packet@, *client),
            now,
        ),
        old(shared)@.wf() ==> final(shared)@.wf(),
{
    let (stage, _) = packet.stage();
    let location: &str = match client {
        Some(client) => client.location.as_str(),
        None => "unknown",
    };
    let hostname: &str = match client {
        Some(client) => client.hostname.as_str(),
        None => "unknown",
    };
    let mode = packet.route_mode();
    let message = dhcp::message_name(packet.message);
    assert(seq![location@, hostname@, stage@, mode@, message@] =~= request_labels(
        packet@,
        *client,
    ));
    shared.record_request(location, hostname, stage, mode, message, now);
}

fn count_outcome(shared: &mut Shared, outcome: &Outcome)
    ensures
        final(shared)@ == with_outcome(old(shared)@, outcome@),
        old(shared)@.wf() ==> final(shared)@.wf(),
{
    match outcome {
        Outcome::Malformed(_) | Outcome::Error(_) => {
            shared.errors = shared.errors.wrapping_add(1);
        },
        Outcome::Unknown => {
            shared.unknown = shared.unknown.wrapping_add(1);
        },
        Outcome::BootModeMismatch => {
            shared.boot_mode_mismatches = shared.boot_mode_mismatches.wrapping_add(1);
        },
        Outcome::NoResponse => {},
        Outcome::Send(reply) => {
            if reply.relay_option_omitted {
                shared.errors = shared.errors.wrapping_add(1);
            }
        },
    }
}

/// Decides on a datagram and counts it. The client's table is that of one moment, and
/// the message is handed back for the log.
pub fn handle(
    shared: &mut Shared,
    config: &Config,
    server: Ipv4Addr,
    datagram: &[u8],
    now: u64,
) -> (result: (Outcome, Option<Request>))
    requires
        old(shared)@.wf(),
    ensures
        final(shared)@.wf(),
        final(shared)@ == handled(old(shared)@, *config, server, datagram@, now),
        result.0@ == outcome(old(shared)@.snapshot, *config, server, datagram@),
        match result.1 {
            Some(request) => dhcp::packet(datagram@) == Ok::<PacketView, PacketError>(
                request.packet@,
            ) && request.packet@.wf() && request.client == client_of(
                old(shared)@.snapshot,
                request.packet@.mac,
            ),
            None => dhcp::packet(datagram@) is Err,
        },
{
    let packet = match Packet::parse(datagram) {
        Ok(packet) => packet,
        Err(error) => {
            shared.record_request("unknown", "unknown", "unknown", "unknown", "invalid", now);
            let outcome = Outcome::Malformed(error);
            count_outcome(shared, &outcome);
            return (outcome, None);
        },
    };
    let client = find_client(&shared.snapshot, &packet.mac);
    proof {
        if client is Some {
            let table = *shared.snapshot->0;
            let key = clients::mac_number(packet.mac@) as u64;
            assert(table@.contains_key(key));
            assert(table@[key].wf());
        }
    }
    count_request(shared, &packet, &client, now);
    let outcome = decide(&packet, &client, config, server);
    count_outcome(shared, &outcome);
    (outcome, Some(Request { packet, client }))
}

/// Counts what became of the answer: it was sent, or it could not be.
pub fn record_sent(shared: &mut Shared, message: u8, sent: bool)
    requires
        old(shared)@.wf(),
    ensures
        final(shared)@.wf(),
        final(shared)@ == if sent {
            runtime::with_response(old(shared)@, dhcp::message_text(message))
        } else {
            SharedView { errors: series::raised(old(shared)@.errors), ..old(shared)@ }
        },
{
    if sent {
        shared.record_response(dhcp::message_name(message));
    } else {
        shared.errors = shared.errors.wrapping_add(1);
    }
}

/// Whether the log should say that no boot file fits: the client boots, and its answer
/// names none.
pub fn lacks_boot_file(packet: &Packet, reply: &Reply) -> (lacks: bool)
    ensures
        lacks == ((dhcp::initial(dhcp::stage(packet@.options).0) || dhcp::stage(packet@.options).0
            == Stage::Ipxe) && reply@.boot_file is None),
{
    let (stage, _) = packet.classify();
    (stage == Stage::Bios || stage == Stage::Uefi || stage == Stage::Ipxe)
        && reply.boot_file.is_none()
}

// ---------------------------------------------------------------------------
// Laws

/// A client that is not in the table gets no answer, whatever it sends.
pub proof fn law_unknown_clients_get_no_answer(
    snapshot: Option<Arc<Clients>>,
    config: Config,
    server: Ipv4Addr,
    datagram: Seq<u8>,
)
    requires
        dhcp::packet(datagram) matches Ok(packet) ==> client_of(snapshot, packet.mac) is None,
    ensures
        outcome(snapshot, config, server, datagram) !is Send,
{
}

/// Without a table nobody gets an answer.
pub proof fn law_no_table_no_answer(config: Config, server: Ipv4Addr, datagram: Seq<u8>)
    ensures
        outcome(None, config, server, datagram) !is Send,
{
}

/// A machine's firmware that asks in another mode than the one its row is for gets no
/// answer; iPXE and operating systems on the same machine are not concerned.
pub proof fn law_boot_mode_mismatch(
    snapshot: Option<Arc<Clients>>,
    config: Config,
    server: Ipv4Addr,
    datagram: Seq<u8>,
    packet: PacketView,
    client: Client,
)
    requires
        dhcp::packet(datagram) == Ok::<PacketView, PacketError>(packet),
        client_of(snapshot, packet.mac) == Some(client),
    ensures
        dhcp::stage(packet.options).0 == Stage::Bios && client.boot_type@ == "uefi"@ ==> outcome(
            snapshot,
            config,
            server,
            datagram,
        ) == OutcomeView::BootModeMismatch,
        dhcp::stage(packet.options).0 == Stage::Uefi && client.boot_type@ == "bios"@ ==> outcome(
            snapshot,
            config,
            server,
            datagram,
        ) == OutcomeView::BootModeMismatch,
        !dhcp::initial(dhcp::stage(packet.options).0) ==> outcome(
            snapshot,
            config,
            server,
            datagram,
        ) != OutcomeView::BootModeMismatch,
{
    reveal_strlit("bios");
    reveal_strlit("uefi");
    assert("bios"@[0] != "uefi"@[0]);
}

/// Every datagram is counted as one request, and requests change neither the client
/// table nor what is known of the synchronization.
pub proof fn law_requests_change_no_table(
    shared: SharedView,
    config: Config,
    server: Ipv4Addr,
    datagram: Seq<u8>,
    now: u64,
)
    ensures
        handled(shared, config, server, datagram, now).requests == series::raised(shared.requests),
        handled(shared, config, server, datagram, now).snapshot == shared.snapshot,
        handled(shared, config, server, datagram, now).status == shared.status,
        handled(shared, config, server, datagram, now).responses == shared.responses,
{
}

/// What is sent goes out under a server identifier that is not `0.0.0.0`.
pub proof fn law_sent_server_identifier(
    snapshot: Option<Arc<Clients>>,
    config: Config,
    server: Ipv4Addr,
    datagram: Seq<u8>,
)
    ensures
        outcome(snapshot, config, server, datagram) is Send ==> !server.zero(),
{
}

/// A server identifier that a valid configuration fixes can stand in an answer.
pub proof fn law_fixed_server_identifier(config: Config, filter_ok: bool)
    requires
        config::config_fault(config, filter_ok) is None,
    ensures
        fixed_server(config) matches Some(server) ==> reply::server_ok(server),
{
}

} // verus!
