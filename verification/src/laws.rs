//! What holds of every answer, whatever the message, the client and the
//! configuration.
use crate::clients::Client;
use crate::config;
use crate::config::{Config, RouteError};
use crate::dhcp;
use crate::dhcp::{PacketView, Stage};
use crate::dump;
use crate::net;
use crate::net::{Ipv4Addr, SocketAddrV4};
use crate::options;
use crate::reply;
use crate::reply::{ReplyError, ReplyView};
use crate::text;
use vstd::arithmetic::div_mod::*;
use vstd::arithmetic::power2::*;
use vstd::prelude::*;
use vstd::string::*;
use vstd::utf8::*;

verus! {

/// The options that a client reads in an answer.
pub open spec fn sent(reply: ReplyView) -> Map<u8, Seq<u8>> {
    options::read(reply.bytes.skip(240), Map::empty()).0
}

/// Whether `packet` is answered with `reply`.
pub open spec fn answered(
    packet: PacketView,
    client: Client,
    config: Config,
    server: Ipv4Addr,
    reply: ReplyView,
) -> bool {
    reply::reply_to(packet, client, config, server) == Ok::<Option<ReplyView>, ReplyError>(
        Some(reply),
    )
}

// ---------------------------------------------------------------------------
// What the groups of options hold

pub proof fn lemma_leading(options: Map<u8, Seq<u8>>, server: Ipv4Addr, message: u8)
    ensures
        ({
            let group = reply::leading_options(options, server, message);
            let read = options::collect(group);
            &&& read.contains_key(53) && read[53] == seq![message]
            &&& read.contains_key(54) && read[54] == server.bytes()
            &&& read.contains_key(61) <==> options.contains_key(61) && options[61].len() > 0
            &&& read.contains_key(61) ==> read[61] == options[61]
            &&& forall|c: u8| #[trigger] read.contains_key(c) ==> c == 53 || c == 54 || c == 61
        }),
{
    let group = reply::leading_options(options, server, message);
    let none = Seq::<(u8, Seq<u8>)>::empty();
    let one = none.push((53u8, seq![message]));
    let two = one.push((54u8, server.bytes()));
    options::lemma_collect_push(none, 53, seq![message]);
    options::lemma_collect_push(one, 54, server.bytes());
    if options.contains_key(61) {
        options::lemma_collect_push(two, 61, options[61]);
        assert(group =~= two.push((61u8, options[61])));
    } else {
        assert(group =~= two);
    }
}

pub proof fn lemma_lease(lease_seconds: u32)
    ensures
        ({
            let read = options::collect(reply::lease_options(lease_seconds));
            &&& read.contains_key(51) && read[51] == options::be32(lease_seconds)
            &&& read.contains_key(58) <==> lease_seconds >= 8
            &&& read.contains_key(59) <==> lease_seconds >= 8
            &&& lease_seconds >= 8 ==> read[58] == options::be32(lease_seconds / 2)
            &&& lease_seconds >= 8 ==> read[59] == options::be32((lease_seconds * 7 / 8) as u32)
            &&& forall|c: u8| #[trigger] read.contains_key(c) ==> c == 51 || c == 58 || c == 59
        }),
{
    let group = reply::lease_options(lease_seconds);
    let none = Seq::<(u8, Seq<u8>)>::empty();
    let renew = options::be32(lease_seconds / 2);
    let rebind = options::be32((lease_seconds * 7 / 8) as u32);
    let one = none.push((51u8, options::be32(lease_seconds)));
    options::lemma_collect_push(none, 51, options::be32(lease_seconds));
    if lease_seconds >= 8 {
        options::lemma_collect_push(one, 58, renew);
        options::lemma_collect_push(one.push((58u8, renew)), 59, rebind);
        assert(group =~= one.push((58u8, renew)).push((59u8, rebind)));
    } else {
        assert(group =~= one);
    }
}

pub proof fn lemma_host(client: Client)
    ensures
        ({
            let read = options::collect(reply::host_options(client));
            let mask = (0x1_0000_0000 - net::block(client.prefix_length as nat)) as u32;
            &&& read.contains_key(1) && read[1] == options::be32(mask)
            &&& read.contains_key(12) <==> encode_utf8(client.hostname@).len() > 0
            &&& read.contains_key(12) ==> read[12] == encode_utf8(client.hostname@)
            &&& read.contains_key(15) <==> encode_utf8(client.domain@).len() > 0
            &&& read.contains_key(15) ==> read[15] == encode_utf8(client.domain@)
            &&& read.contains_key(26) <==> client.mtu is Some
            &&& client.mtu is Some ==> read[26] == options::be16(client.mtu->0)
            &&& forall|c: u8| #[trigger]
                read.contains_key(c) ==> c == 1 || c == 12 || c == 15 || c == 26
        }),
{
    let group = reply::host_options(client);
    let none = Seq::<(u8, Seq<u8>)>::empty();
    let mask = options::be32((0x1_0000_0000 - net::block(client.prefix_length as nat)) as u32);
    let hostname = encode_utf8(client.hostname@);
    let domain = encode_utf8(client.domain@);
    let one = none.push((1u8, mask));
    let two = one.push((12u8, hostname));
    let three = two.push((15u8, domain));
    options::lemma_collect_push(none, 1, mask);
    options::lemma_collect_push(one, 12, hostname);
    options::lemma_collect_push(two, 15, domain);
    match client.mtu {
        Some(mtu) => {
            options::lemma_collect_push(three, 26, options::be16(mtu));
            assert(group =~= three.push((26u8, options::be16(mtu))));
        },
        None => {
            assert(group =~= three);
        },
    }
}

pub proof fn lemma_addresses_len(ips: Seq<Ipv4Addr>)
    ensures
        reply::addresses(ips).len() == 4 * ips.len(),
    decreases ips.len(),
{
    if ips.len() > 0 {
        lemma_addresses_len(ips.drop_last());
    }
}

pub proof fn lemma_service(options: Map<u8, Seq<u8>>, config: Config)
    ensures
        ({
            let read = options::collect(reply::service_options(options, config));
            let zone = encode_utf8(config.client_options.timezone@);
            &&& read.contains_key(101) <==> dhcp::requests(options, 101) && zone.len() > 0
            &&& read.contains_key(101) ==> read[101] == zone
            &&& read.contains_key(6) <==> config.client_options.dns@.len() > 0
            &&& read.contains_key(6) ==> read[6] == reply::addresses(config.client_options.dns@)
            &&& read.contains_key(42) <==> config.client_options.ntp@.len() > 0
            &&& read.contains_key(42) ==> read[42] == reply::addresses(config.client_options.ntp@)
            &&& forall|c: u8| #[trigger] read.contains_key(c) ==> c == 101 || c == 6 || c == 42
        }),
{
    let group = reply::service_options(options, config);
    let none = Seq::<(u8, Seq<u8>)>::empty();
    let zone = encode_utf8(config.client_options.timezone@);
    let dns = reply::addresses(config.client_options.dns@);
    let ntp = reply::addresses(config.client_options.ntp@);
    lemma_addresses_len(config.client_options.dns@);
    lemma_addresses_len(config.client_options.ntp@);
    let first = if dhcp::requests(options, 101) {
        none.push((101u8, zone))
    } else {
        none
    };
    options::lemma_collect_push(none, 101, zone);
    options::lemma_collect_push(first, 6, dns);
    options::lemma_collect_push(first.push((6u8, dns)), 42, ntp);
    assert(group =~= first.push((6u8, dns)).push((42u8, ntp)));
}

pub proof fn lemma_routes_len(routes: Seq<String>, gateway: Ipv4Addr)
    ensures
        reply::routes_value(routes, gateway) matches Ok(value) ==> (value.len() > 0
            <==> routes.len() > 0),
    decreases routes.len(),
{
    if routes.len() > 0 {
        lemma_routes_len(routes.drop_last(), gateway);
    }
}

pub proof fn lemma_routes(options: Map<u8, Seq<u8>>, routes: Seq<String>, gateway: Ipv4Addr)
    requires
        reply::route_options(options, routes, gateway) is Ok,
    ensures
        ({
            let read = options::collect(reply::route_options(options, routes, gateway)->Ok_0);
            &&& read.contains_key(121) <==> dhcp::classless(options) && routes.len() > 0
            &&& read.contains_key(121) ==> reply::routes_value(routes, gateway) == Ok::<
                Seq<u8>,
                RouteError,
            >(read[121])
            &&& read.contains_key(3) <==> !dhcp::classless(options)
            &&& read.contains_key(3) ==> read[3] == gateway.bytes()
            &&& forall|c: u8| #[trigger] read.contains_key(c) ==> c == 121 || c == 3
        }),
{
    let none = Seq::<(u8, Seq<u8>)>::empty();
    lemma_routes_len(routes, gateway);
    if dhcp::classless(options) {
        let value = reply::routes_value(routes, gateway)->Ok_0;
        options::lemma_collect_push(none, 121, value);
        assert(none.push((121u8, value)) =~= seq![(121u8, value)]);
    } else {
        options::lemma_collect_push(none, 3, gateway.bytes());
        assert(none.push((3u8, gateway.bytes())) =~= seq![(3u8, gateway.bytes())]);
    }
}

pub proof fn lemma_boot(tftp_server: Ipv4Addr, file: Option<Seq<char>>)
    ensures
        ({
            let read = options::collect(reply::boot_options(tftp_server, file));
            &&& read.contains_key(66) <==> file is Some && encode_utf8(tftp_server.text()).len() > 0
            &&& read.contains_key(66) ==> read[66] == encode_utf8(tftp_server.text())
            &&& read.contains_key(67) <==> file is Some && encode_utf8(file->0).len() > 0
            &&& read.contains_key(67) ==> read[67] == encode_utf8(file->0)
            &&& forall|c: u8| #[trigger] read.contains_key(c) ==> c == 66 || c == 67
        }),
{
    let group = reply::boot_options(tftp_server, file);
    match file {
        Some(name) => {
            let none = Seq::<(u8, Seq<u8>)>::empty();
            let host = encode_utf8(tftp_server.text());
            options::lemma_collect_push(none, 66, host);
            options::lemma_collect_push(none.push((66u8, host)), 67, encode_utf8(name));
            assert(group =~= none.push((66u8, host)).push((67u8, encode_utf8(name))));
        },
        None => {},
    }
}

/// The answer's own options, but for the relay's.
pub open spec fn own(packet: PacketView, client: Client, config: Config, server: Ipv4Addr, message: u8) -> Seq<
    (u8, Seq<u8>),
> {
    reply::answer_options(packet, client, config, server, message)->Ok_0
}

/// Whether no code of a list means padding or the end.
pub open spec fn proper(list: Seq<(u8, Seq<u8>)>) -> bool {
    forall|i: int| 0 <= i < list.len() ==> 1 <= (#[trigger] list[i]).0 < 255
}

pub proof fn lemma_proper_add(a: Seq<(u8, Seq<u8>)>, b: Seq<(u8, Seq<u8>)>)
    requires
        proper(a),
        proper(b),
    ensures
        proper(a + b),
{
    assert forall|i: int| 0 <= i < (a + b).len() implies 1 <= (#[trigger] (a + b)[i]).0 < 255 by {
        if i < a.len() {
            assert((a + b)[i] == a[i]);
        } else {
            assert((a + b)[i] == b[i - a.len()]);
        }
    }
}

#[verifier::rlimit(30)]
pub proof fn lemma_codes(
    packet: PacketView,
    client: Client,
    config: Config,
    server: Ipv4Addr,
    message: u8,
)
    requires
        reply::answer_options(packet, client, config, server, message) is Ok,
    ensures
        proper(own(packet, client, config, server, message)),
{
    let leading = reply::leading_options(packet.options, server, message);
    assert(proper(leading));
    if message != 6 {
        let lease = if packet.message == 8 {
            Seq::empty()
        } else {
            reply::lease_options(config.dhcp.lease_seconds)
        };
        let host = reply::host_options(client);
        let service = reply::service_options(packet.options, config);
        let routes = reply::route_options(
            packet.options,
            config.client_options.classless_routes@,
            client.gateway,
        )->Ok_0;
        let boot = reply::boot_options(
            config.boot.tftp_server,
            reply::boot_file(packet.options, client.boot_type@, config.boot.architectures@),
        );
        assert(proper(lease));
        assert(proper(host));
        assert(proper(service));
        assert(proper(routes));
        assert(proper(boot));
        lemma_proper_add(leading, lease);
        lemma_proper_add(leading + lease, host);
        lemma_proper_add(leading + lease + host, service);
        lemma_proper_add(leading + lease + host + service, routes);
        lemma_proper_add(leading + lease + host + service + routes, boot);
    }
}

/// A client reads in an answer just the options that were put into it.
pub proof fn lemma_sent(
    packet: PacketView,
    client: Client,
    config: Config,
    server: Ipv4Addr,
    reply: ReplyView,
)
    requires
        answered(packet, client, config, server, reply),
    ensures
        reply::answer_options(packet, client, config, server, reply.message) is Ok,
        options::read(reply.bytes.skip(240), Map::empty()) == (
            options::collect(
                reply::with_relay(packet, own(packet, client, config, server, reply.message)),
            ),
            Ok::<(), options::OptionError>(()),
        ),
{
    let list = own(packet, client, config, server, reply.message);
    let all = reply::with_relay(packet, list);
    let file = if reply.message == 6 {
        None
    } else {
        reply::boot_file(packet.options, client.boot_type@, config.boot.architectures@)
    };
    let header = reply::answer_header(
        packet,
        reply.message,
        client.ip,
        config.boot.tftp_server,
        file,
    );
    let unpadded = (header + options::encode_all(all)).push(255);
    lemma_codes(packet, client, config, server, reply.message);
    assert(reply.bytes == reply::padded(unpadded));
    let rest = reply.bytes.skip((240 + options::encode_all(all).len()) as int);
    assert(reply.bytes.skip(240) =~= options::encode_all(all) + rest);
    assert(rest[0] == 255);
    options::law_encoded_options_are_read_back(all, rest);
}

pub proof fn lemma_sent_relay(
    packet: PacketView,
    client: Client,
    config: Config,
    server: Ipv4Addr,
    reply: ReplyView,
)
    requires
        answered(packet, client, config, server, reply),
        !options::collect(own(packet, client, config, server, reply.message)).contains_key(82),
    ensures
        sent(reply).contains_key(82) <==> reply::relayed(packet) && !reply.relay_option_omitted
            && packet.options[82].len() > 0,
        sent(reply).contains_key(82) ==> sent(reply)[82] == packet.options[82],
        forall|c: u8|
            c != 82 ==> (#[trigger] sent(reply).contains_key(c) <==> options::collect(
                own(packet, client, config, server, reply.message),
            ).contains_key(c)),
        forall|c: u8|
            c != 82 && options::collect(
                own(packet, client, config, server, reply.message),
            ).contains_key(c) ==> #[trigger] sent(reply)[c] == options::collect(
                own(packet, client, config, server, reply.message),
            )[c],
{
    let list = own(packet, client, config, server, reply.message);
    lemma_sent(packet, client, config, server, reply);
    if reply::relayed(packet) {
        options::lemma_collect_push(list, 82, packet.options[82]);
    }
}

/// What a NAK holds.
pub proof fn lemma_sent_nak(
    packet: PacketView,
    client: Client,
    config: Config,
    server: Ipv4Addr,
    reply: ReplyView,
)
    requires
        answered(packet, client, config, server, reply),
        reply.message == 6,
    ensures
        sent(reply).contains_key(53) && sent(reply)[53] == seq![6u8],
        sent(reply).contains_key(54) && sent(reply)[54] == server.bytes(),
        sent(reply).contains_key(61) <==> packet.options.contains_key(61)
            && packet.options[61].len() > 0,
        sent(reply).contains_key(61) ==> sent(reply)[61] == packet.options[61],
        sent(reply).contains_key(82) <==> reply::relayed(packet) && !reply.relay_option_omitted
            && packet.options[82].len() > 0,
        sent(reply).contains_key(82) ==> sent(reply)[82] == packet.options[82],
        forall|c: u8| #[trigger]
            sent(reply).contains_key(c) ==> c == 53 || c == 54 || c == 61 || c == 82,
{
    lemma_leading(packet.options, server, 6);
    lemma_sent_relay(packet, client, config, server, reply);
}

/// What an OFFER or an ACK holds.
pub proof fn lemma_sent_settings(
    packet: PacketView,
    client: Client,
    config: Config,
    server: Ipv4Addr,
    reply: ReplyView,
)
    requires
        answered(packet, client, config, server, reply),
        reply.message != 6,
    ensures
        ({
            let read = sent(reply);
            let leading = options::collect(
                reply::leading_options(packet.options, server, reply.message),
            );
            let lease = options::collect(
                if packet.message == 8 {
                    Seq::empty()
                } else {
                    reply::lease_options(config.dhcp.lease_seconds)
                },
            );
            let host = options::collect(reply::host_options(client));
            let service = options::collect(reply::service_options(packet.options, config));
            let routes = options::collect(
                reply::route_options(
                    packet.options,
                    config.client_options.classless_routes@,
                    client.gateway,
                )->Ok_0,
            );
            let boot = options::collect(
                reply::boot_options(config.boot.tftp_server, reply.boot_file),
            );
            &&& reply::route_options(
                packet.options,
                config.client_options.classless_routes@,
                client.gateway,
            ) is Ok
            &&& forall|c: u8|
                c != 82 ==> (#[trigger] read.contains_key(c) <==> leading.contains_key(c)
                    || lease.contains_key(c) || host.contains_key(c) || service.contains_key(c)
                    || routes.contains_key(c) || boot.contains_key(c))
            &&& forall|c: u8| leading.contains_key(c) ==> #[trigger] read[c] == leading[c]
            &&& forall|c: u8| lease.contains_key(c) ==> #[trigger] read[c] == lease[c]
            &&& forall|c: u8| host.contains_key(c) ==> #[trigger] read[c] == host[c]
            &&& forall|c: u8| service.contains_key(c) ==> #[trigger] read[c] == service[c]
            &&& forall|c: u8| routes.contains_key(c) ==> #[trigger] read[c] == routes[c]
            &&& forall|c: u8| boot.contains_key(c) ==> #[trigger] read[c] == boot[c]
            &&& read.contains_key(82) <==> reply::relayed(packet) && !reply.relay_option_omitted
                && packet.options[82].len() > 0
            &&& read.contains_key(82) ==> read[82] == packet.options[82]
        }),
{
    let leading = reply::leading_options(packet.options, server, reply.message);
    let lease = if packet.message == 8 {
        Seq::empty()
    } else {
        reply::lease_options(config.dhcp.lease_seconds)
    };
    let host = reply::host_options(client);
    let service = reply::service_options(packet.options, config);
    let route_list = config.client_options.classless_routes@;
    let routes = reply::route_options(packet.options, route_list, client.gateway)->Ok_0;
    let boot = reply::boot_options(config.boot.tftp_server, reply.boot_file);
    lemma_leading(packet.options, server, reply.message);
    lemma_lease(config.dhcp.lease_seconds);
    lemma_host(client);
    lemma_service(packet.options, config);
    lemma_routes(packet.options, route_list, client.gateway);
    lemma_boot(config.boot.tftp_server, reply.boot_file);
    options::lemma_collect_add(leading, lease);
    options::lemma_collect_add(leading + lease, host);
    options::lemma_collect_add(leading + lease + host, service);
    options::lemma_collect_add(leading + lease + host + service, routes);
    options::lemma_collect_add(leading + lease + host + service + routes, boot);
    assert(own(packet, client, config, server, reply.message) == leading + lease + host + service
        + routes + boot);
    lemma_sent_relay(packet, client, config, server, reply);
}

pub proof fn lemma_header(
    packet: PacketView,
    client: Client,
    config: Config,
    server: Ipv4Addr,
    reply: ReplyView,
)
    requires
        answered(packet, client, config, server, reply),
    ensures
        reply.bytes.len() >= 300,
        forall|i: int|
            0 <= i < 240 ==> #[trigger] reply.bytes[i] == reply::header_byte(
                packet,
                reply.message,
                client.ip,
                config.boot.tftp_server,
                reply.boot_file,
                i,
            ),
{
}

/// A client can read every answer: the options area is well-formed.
pub proof fn law_answer_is_readable(
    packet: PacketView,
    client: Client,
    config: Config,
    server: Ipv4Addr,
    reply: ReplyView,
)
    requires
        answered(packet, client, config, server, reply),
    ensures
        options::read(reply.bytes.skip(240), Map::empty()).1 is Ok,
{
    lemma_sent(packet, client, config, server, reply);
}

/// Route policy: a machine's firmware gets a default gateway and no specific routes.
/// Any other client gets the specific routes alone if it asks for them, and a default
/// gateway alone if it does not. No answer holds both.
pub proof fn law_route_policy(
    packet: PacketView,
    client: Client,
    config: Config,
    server: Ipv4Addr,
    reply: ReplyView,
)
    requires
        answered(packet, client, config, server, reply),
        reply.message != 6,
        config.client_options.classless_routes@.len() > 0,
    ensures
        sent(reply).contains_key(121) <==> !dhcp::initial(dhcp::stage(packet.options).0)
            && dhcp::requests(packet.options, 121),
        sent(reply).contains_key(3) <==> !sent(reply).contains_key(121),
        sent(reply).contains_key(3) ==> sent(reply)[3] == client.gateway.bytes(),
        sent(reply).contains_key(121) ==> reply::routes_value(
            config.client_options.classless_routes@,
            client.gateway,
        ) == Ok::<Seq<u8>, RouteError>(sent(reply)[121]),
{
    lemma_sent_settings(packet, client, config, server, reply);
    lemma_leading(packet.options, server, reply.message);
    lemma_lease(config.dhcp.lease_seconds);
    lemma_host(client);
    lemma_service(packet.options, config);
    lemma_routes(packet.options, config.client_options.classless_routes@, client.gateway);
    lemma_boot(config.boot.tftp_server, reply.boot_file);
}

/// Every OFFER and ACK carries the client's mask and host name, its domain and its
/// MTU if the row has them, and the configured DNS and NTP servers.
pub proof fn law_client_settings(
    packet: PacketView,
    client: Client,
    config: Config,
    server: Ipv4Addr,
    reply: ReplyView,
)
    requires
        answered(packet, client, config, server, reply),
        reply.message != 6,
    ensures
        sent(reply).contains_key(1),
        sent(reply)[1] == options::be32(
            (0x1_0000_0000 - net::block(client.prefix_length as nat)) as u32,
        ),
        client.hostname@.len() > 0 ==> sent(reply).contains_key(12) && sent(reply)[12]
            == encode_utf8(client.hostname@),
        sent(reply).contains_key(15) <==> client.domain@.len() > 0,
        sent(reply).contains_key(15) ==> sent(reply)[15] == encode_utf8(client.domain@),
        sent(reply).contains_key(26) <==> client.mtu is Some,
        client.mtu is Some ==> sent(reply)[26] == options::be16(client.mtu->0),
        sent(reply).contains_key(6) <==> config.client_options.dns@.len() > 0,
        sent(reply).contains_key(6) ==> sent(reply)[6] == reply::addresses(
            config.client_options.dns@,
        ),
        sent(reply).contains_key(42) <==> config.client_options.ntp@.len() > 0,
        sent(reply).contains_key(42) ==> sent(reply)[42] == reply::addresses(
            config.client_options.ntp@,
        ),
        sent(reply).contains_key(101) <==> dhcp::requests(packet.options, 101)
            && config.client_options.timezone@.len() > 0,
        sent(reply).contains_key(101) ==> sent(reply)[101] == encode_utf8(
            config.client_options.timezone@,
        ),
{
    lemma_sent_settings(packet, client, config, server, reply);
    lemma_leading(packet.options, server, reply.message);
    lemma_lease(config.dhcp.lease_seconds);
    lemma_host(client);
    lemma_service(packet.options, config);
    lemma_routes(packet.options, config.client_options.classless_routes@, client.gateway);
    lemma_boot(config.boot.tftp_server, reply.boot_file);
    text::lemma_encode_utf8_empty(client.hostname@);
    text::lemma_encode_utf8_empty(client.domain@);
    text::lemma_encode_utf8_empty(config.client_options.timezone@);
    assert(sent(reply).contains_key(12) == (encode_utf8(client.hostname@).len() > 0));
}

/// An answer assigns no address but the one in the client's row, and only OFFER and
/// ACK to a client that asks for a lease assign it.
pub proof fn law_assigned_address(
    packet: PacketView,
    client: Client,
    config: Config,
    server: Ipv4Addr,
    reply: ReplyView,
)
    requires
        answered(packet, client, config, server, reply),
    ensures
        reply.bytes.subrange(16, 20) == if reply.message != 6 && packet.message != 8 {
            client.ip.bytes()
        } else {
            seq![0u8, 0, 0, 0]
        },
        packet.message == 3 && reply.message == 5 ==> reply::requested(packet) == Some(client.ip),
        packet.message == 3 && reply.message == 6 ==> reply::requested(packet) is Some
            && reply::requested(packet) != Some(client.ip),
{
    lemma_header(packet, client, config, server, reply);
    assert(reply.bytes.subrange(16, 20) =~= if reply.message != 6 && packet.message != 8 {
        client.ip.bytes()
    } else {
        seq![0u8, 0, 0, 0]
    });
}

/// INFORM is answered with settings alone: no address and no lease.
pub proof fn law_inform(
    packet: PacketView,
    client: Client,
    config: Config,
    server: Ipv4Addr,
    reply: ReplyView,
)
    requires
        answered(packet, client, config, server, reply),
        packet.message == 8,
    ensures
        reply.message == 5,
        reply.bytes.subrange(16, 20) == seq![0u8, 0, 0, 0],
        !sent(reply).contains_key(51),
        !sent(reply).contains_key(58),
        !sent(reply).contains_key(59),
        sent(reply).contains_key(1),
{
    law_assigned_address(packet, client, config, server, reply);
    lemma_sent_settings(packet, client, config, server, reply);
    lemma_leading(packet.options, server, reply.message);
    lemma_host(client);
    lemma_service(packet.options, config);
    lemma_routes(packet.options, config.client_options.classless_routes@, client.gateway);
    lemma_boot(config.boot.tftp_server, reply.boot_file);
}

/// A lease is granted for the configured time, to be renewed after half of it and to be
/// rebound after seven eighths, where it is long enough for these to differ.
pub proof fn law_lease(
    packet: PacketView,
    client: Client,
    config: Config,
    server: Ipv4Addr,
    reply: ReplyView,
)
    requires
        answered(packet, client, config, server, reply),
        reply.message != 6,
        packet.message != 8,
    ensures
        sent(reply).contains_key(51),
        sent(reply)[51] == options::be32(config.dhcp.lease_seconds),
        sent(reply).contains_key(58) <==> config.dhcp.lease_seconds >= 8,
        sent(reply).contains_key(59) <==> config.dhcp.lease_seconds >= 8,
        config.dhcp.lease_seconds >= 8 ==> {
            let lease = config.dhcp.lease_seconds;
            let renew = (lease / 2) as u32;
            let rebind = (lease * 7 / 8) as u32;
            &&& sent(reply)[58] == options::be32(renew)
            &&& sent(reply)[59] == options::be32(rebind)
            &&& renew == lease / 2
            &&& rebind == lease * 7 / 8
            &&& 0 < renew < rebind < lease
        },
{
    lemma_sent_settings(packet, client, config, server, reply);
    lemma_leading(packet.options, server, reply.message);
    lemma_lease(config.dhcp.lease_seconds);
    lemma_host(client);
    lemma_service(packet.options, config);
    lemma_routes(packet.options, config.client_options.classless_routes@, client.gateway);
    lemma_boot(config.boot.tftp_server, reply.boot_file);
}

/// A NAK holds no settings, no address and no boot file; it is broadcast on the
/// client's network, through the relay if there is one.
pub proof fn law_nak(
    packet: PacketView,
    client: Client,
    config: Config,
    server: Ipv4Addr,
    reply: ReplyView,
)
    requires
        answered(packet, client, config, server, reply),
        reply.message == 6,
    ensures
        forall|c: u8| #[trigger]
            sent(reply).contains_key(c) ==> c == 53 || c == 54 || c == 61 || c == 82,
        reply.boot_file is None,
        reply.bytes.subrange(12, 24) == Seq::new(12, |i: int| 0u8),
        reply.bytes.subrange(108, 236) == Seq::new(128, |i: int| 0u8),
        !packet.giaddr.zero() ==> reply.bytes[10] >= 128,
        packet.giaddr.zero() ==> reply.destination.ip.broadcast_all(),
{
    lemma_sent_nak(packet, client, config, server, reply);
    lemma_header(packet, client, config, server, reply);
    assert(reply.bytes.subrange(12, 24) =~= Seq::new(12, |i: int| 0u8));
    assert(reply.bytes.subrange(108, 236) =~= Seq::new(128, |i: int| 0u8));
    let flags = packet.header[10];
    assert(flags | 0x80 >= 128) by (bit_vector);
}

/// Every answer names its type and this server, and the server identifier is never
/// `0.0.0.0`.
pub proof fn law_server_identifier(
    packet: PacketView,
    client: Client,
    config: Config,
    server: Ipv4Addr,
    reply: ReplyView,
)
    requires
        answered(packet, client, config, server, reply),
    ensures
        reply.message == 2 || reply.message == 5 || reply.message == 6,
        sent(reply).contains_key(53),
        sent(reply)[53] == seq![reply.message],
        sent(reply).contains_key(54),
        sent(reply)[54] == server.bytes(),
        sent(reply)[54] != seq![0u8, 0, 0, 0],
{
    if reply.message == 6 {
        lemma_sent_nak(packet, client, config, server, reply);
    } else {
        lemma_sent_settings(packet, client, config, server, reply);
        lemma_leading(packet.options, server, reply.message);
    }
    let zero = seq![0u8, 0, 0, 0];
    if server.bytes() == zero {
        assert(server.bytes()[0] == zero[0] && server.bytes()[1] == zero[1] && server.bytes()[2]
            == zero[2] && server.bytes()[3] == zero[3]);
    }
}

/// The relay's option 82 comes back unchanged, or not at all where it would not fit.
/// Without a relay no answer holds it.
pub proof fn law_relay_option(
    packet: PacketView,
    client: Client,
    config: Config,
    server: Ipv4Addr,
    reply: ReplyView,
)
    requires
        answered(packet, client, config, server, reply),
    ensures
        sent(reply).contains_key(82) ==> !packet.giaddr.zero() && packet.options.contains_key(82)
            && sent(reply)[82] == packet.options[82],
        !packet.giaddr.zero() && packet.options.contains_key(82) && packet.options[82].len() > 0
            && !sent(reply).contains_key(82) <==> reply.relay_option_omitted,
{
    lemma_sent(packet, client, config, server, reply);
    if reply.message == 6 {
        lemma_sent_nak(packet, client, config, server, reply);
    } else {
        lemma_sent_settings(packet, client, config, server, reply);
    }
}

/// An answer is never longer than the client's limit, and never shorter than the
/// BOOTP minimum.
pub proof fn law_answer_size(
    packet: PacketView,
    client: Client,
    config: Config,
    server: Ipv4Addr,
    reply: ReplyView,
)
    requires
        answered(packet, client, config, server, reply),
    ensures
        300 <= reply.bytes.len() <= reply::maximum(packet.options),
{
}

/// An answer repeats the transaction number, the relay's address and the client's
/// hardware address, and says that it is a reply over Ethernet.
pub proof fn law_echoed_header(
    packet: PacketView,
    client: Client,
    config: Config,
    server: Ipv4Addr,
    reply: ReplyView,
)
    requires
        answered(packet, client, config, server, reply),
        packet.wf(),
    ensures
        reply.bytes.subrange(0, 3) == seq![2u8, 1, 6],
        reply.bytes.subrange(4, 8) == packet.header.subrange(4, 8),
        net::ipv4_at(reply.bytes, 24) == packet.giaddr,
        reply.bytes.subrange(28, 34) == packet.mac,
        reply.bytes.subrange(236, 240) == dhcp::cookie(),
{
    lemma_header(packet, client, config, server, reply);
    assert(reply.bytes.subrange(0, 3) =~= seq![2u8, 1, 6]);
    assert(reply.bytes.subrange(4, 8) =~= packet.header.subrange(4, 8));
    assert(reply.bytes.subrange(28, 34) =~= packet.header.subrange(28, 34));
    assert(reply.bytes.subrange(236, 240) =~= dhcp::cookie());
}

/// A relayed message is answered to the relay, on the server port.
pub proof fn law_relay_destination(
    packet: PacketView,
    client: Client,
    config: Config,
    server: Ipv4Addr,
    reply: ReplyView,
)
    requires
        answered(packet, client, config, server, reply),
        !packet.giaddr.zero(),
    ensures
        reply.destination == (SocketAddrV4 { ip: packet.giaddr, port: 67 }),
{
}

/// A regular operating system gets no boot parameters; iPXE gets its script, so that
/// it is never sent itself again; and a machine's firmware gets the file of the mode
/// that its row is for.
pub proof fn law_boot_file(
    packet: PacketView,
    client: Client,
    config: Config,
    server: Ipv4Addr,
    reply: ReplyView,
)
    requires
        answered(packet, client, config, server, reply),
        reply.message != 6,
    ensures
        dhcp::stage(packet.options).0 == Stage::Os ==> reply.boot_file is None,
        dhcp::stage(packet.options).0 == Stage::Ipxe && reply.boot_file is Some ==> ({
            let files = config::files_of(
                config.boot.architectures@,
                dhcp::arch_name(dhcp::stage(packet.options).1),
            );
            files is Some && reply.boot_file == reply::text_of(files->0.ipxe_file)
        }),
        dhcp::initial(dhcp::stage(packet.options).0) && reply.boot_file is Some ==> ({
            let files = config::files_of(
                config.boot.architectures@,
                dhcp::arch_name(dhcp::stage(packet.options).1),
            );
            files is Some && reply.boot_file == reply::text_of(
                if client.boot_type@ == "bios"@ {
                    files->0.bios_file
                } else {
                    files->0.uefi_file
                },
            )
        }),
        reply.boot_file is None ==> !sent(reply).contains_key(66) && !sent(reply).contains_key(67),
        reply.boot_file is Some ==> net::ipv4_at(reply.bytes, 20) == config.boot.tftp_server,
        reply.boot_file is Some && reply.boot_file->0.len() > 0 ==> sent(reply).contains_key(67)
            && sent(reply)[67] == encode_utf8(reply.boot_file->0),
{
    lemma_sent_settings(packet, client, config, server, reply);
    lemma_leading(packet.options, server, reply.message);
    lemma_lease(config.dhcp.lease_seconds);
    lemma_host(client);
    lemma_service(packet.options, config);
    lemma_routes(packet.options, config.client_options.classless_routes@, client.gateway);
    lemma_boot(config.boot.tftp_server, reply.boot_file);
    lemma_header(packet, client, config, server, reply);
    if reply.boot_file is Some {
        text::lemma_encode_utf8_empty(reply.boot_file->0);
    }
}

/// RELEASE and DECLINE, and messages that name another server, are not answered.
pub proof fn law_unanswered(packet: PacketView, client: Client, config: Config, server: Ipv4Addr)
    requires
        reply::server_ok(server),
        packet.message == 4 || packet.message == 7 || reply::for_another_server(
            packet.options,
            server,
        ),
    ensures
        reply::reply_to(packet, client, config, server) == Ok::<Option<ReplyView>, ReplyError>(
            None,
        ),
{
}

/// A REQUEST that mixes the fields of different states is not answered: a renewal has
/// neither option 50 nor option 54, and a client without an address that names a
/// server names an address too.
pub proof fn law_mixed_request(packet: PacketView, client: Client, config: Config, server: Ipv4Addr)
    requires
        reply::server_ok(server),
        packet.message == 3,
        ({
            ||| !packet.ciaddr.zero() && packet.options.contains_key(50)
            ||| !packet.ciaddr.zero() && packet.options.contains_key(54)
            ||| packet.options.contains_key(54) && !packet.options.contains_key(50)
            ||| packet.ciaddr.zero() && !packet.options.contains_key(50)
        }),
    ensures
        reply::reply_to(packet, client, config, server) == Ok::<Option<ReplyView>, ReplyError>(
            None,
        ),
{
}

// ---------------------------------------------------------------------------
// An offer and the request for it

/// Whether `request` takes up `offer`: it asks the server that sent it for the address
/// in it, on the way that the DISCOVER came.
pub open spec fn takes_up(discover: PacketView, request: PacketView, offer: ReplyView) -> bool {
    &&& discover.message == 1
    &&& request.message == 3
    &&& request.ciaddr.zero()
    &&& request.giaddr == discover.giaddr
    &&& request.options.contains_key(50)
    &&& request.options[50] == offer.bytes.subrange(16, 20)
    &&& request.options.contains_key(54)
    &&& request.options[54] == sent(offer)[54]
}

/// Whether two messages have the same options but for those by which a REQUEST differs
/// from a DISCOVER: its type, the address and the server.
pub open spec fn same_wishes(a: Map<u8, Seq<u8>>, b: Map<u8, Seq<u8>>) -> bool {
    forall|c: u8|
        c != 50 && c != 53 && c != 54 ==> (#[trigger] a.contains_key(c) <==> b.contains_key(c))
            && (a.contains_key(c) ==> a[c] == b[c])
}

pub proof fn lemma_taken_up(
    discover: PacketView,
    request: PacketView,
    client: Client,
    config: Config,
    server: Ipv4Addr,
    offer: ReplyView,
)
    requires
        answered(discover, client, config, server, offer),
        takes_up(discover, request, offer),
    ensures
        offer.message == 2,
        !reply::for_another_server(request.options, server),
        reply::answer_type(request, client.ip) == Some(5u8),
{
    law_assigned_address(discover, client, config, server, offer);
    law_server_identifier(discover, client, config, server, offer);
    let asked = request.options[50];
    let named = request.options[54];
    assert(asked[0] == client.ip.a && asked[1] == client.ip.b && asked[2] == client.ip.c && asked[3]
        == client.ip.d);
    assert(named[0] == server.a && named[1] == server.b && named[2] == server.c && named[3]
        == server.d);
}

/// The address of an OFFER, asked of the server that sent it, is granted: where the
/// REQUEST gets an answer, it is an ACK with that address, and it goes where the OFFER
/// went. With a valid configuration only the length of the ACK can stand in the way.
pub proof fn law_offered_address_is_granted(
    discover: PacketView,
    request: PacketView,
    client: Client,
    config: Config,
    server: Ipv4Addr,
    offer: ReplyView,
)
    requires
        answered(discover, client, config, server, offer),
        takes_up(discover, request, offer),
        discover.ciaddr.zero() || !discover.giaddr.zero(),
    ensures
        match reply::reply_to(request, client, config, server) {
            Ok(Some(ack)) => {
                &&& ack.message == 5
                &&& ack.bytes.subrange(16, 20) == offer.bytes.subrange(16, 20)
                &&& ack.destination == offer.destination
            },
            Ok(None) => false,
            Err(error) => !(error is Server) && forall|filter_ok: bool| #[trigger]
                config::config_fault(config, filter_ok) is None ==> error is TooLong,
        },
{
    lemma_taken_up(discover, request, client, config, server, offer);
    law_assigned_address(discover, client, config, server, offer);
    match reply::reply_to(request, client, config, server) {
        Ok(Some(ack)) => {
            law_assigned_address(request, client, config, server, ack);
        },
        Ok(None) => {},
        Err(error) => {
            assert forall|filter_ok: bool| #[trigger]
                config::config_fault(config, filter_ok) is None implies error is TooLong by {
                law_valid_configurations_answer(request, client, config, filter_ok, server);
            }
        },
    }
}

pub proof fn lemma_leading_len(options: Map<u8, Seq<u8>>, server: Ipv4Addr, message: u8)
    ensures
        options::encode_all(reply::leading_options(options, server, message)).len() == 9
            + if options.contains_key(61) {
            options::encode(61, options[61]).len()
        } else {
            0
        },
{
    let group = reply::leading_options(options, server, message);
    let none = Seq::<(u8, Seq<u8>)>::empty();
    let one = none.push((53u8, seq![message]));
    let two = one.push((54u8, server.bytes()));
    options::lemma_encode_all_push(none, 53, seq![message]);
    options::lemma_encode_all_push(one, 54, server.bytes());
    if options.contains_key(61) {
        options::lemma_encode_all_push(two, 61, options[61]);
        assert(group =~= two.push((61u8, options[61])));
    } else {
        assert(group =~= two);
    }
}

pub proof fn lemma_settings_len(
    packet: PacketView,
    client: Client,
    config: Config,
    server: Ipv4Addr,
    message: u8,
)
    requires
        reply::answer_options(packet, client, config, server, message) is Ok,
        message != 6,
        packet.message != 8,
    ensures
        options::encode_all(own(packet, client, config, server, message)).len()
            == options::encode_all(reply::leading_options(packet.options, server, message)).len()
            + options::encode_all(reply::lease_options(config.dhcp.lease_seconds)).len()
            + options::encode_all(reply::host_options(client)).len() + options::encode_all(
            reply::service_options(packet.options, config),
        ).len() + options::encode_all(
            reply::route_options(
                packet.options,
                config.client_options.classless_routes@,
                client.gateway,
            )->Ok_0,
        ).len() + options::encode_all(
            reply::boot_options(
                config.boot.tftp_server,
                reply::boot_file(packet.options, client.boot_type@, config.boot.architectures@),
            ),
        ).len(),
{
    let leading = reply::leading_options(packet.options, server, message);
    let lease = reply::lease_options(config.dhcp.lease_seconds);
    let host = reply::host_options(client);
    let service = reply::service_options(packet.options, config);
    let routes = reply::route_options(
        packet.options,
        config.client_options.classless_routes@,
        client.gateway,
    )->Ok_0;
    let boot = reply::boot_options(
        config.boot.tftp_server,
        reply::boot_file(packet.options, client.boot_type@, config.boot.architectures@),
    );
    options::lemma_encode_all_add(leading, lease);
    options::lemma_encode_all_add(leading + lease, host);
    options::lemma_encode_all_add(leading + lease + host, service);
    options::lemma_encode_all_add(leading + lease + host + service, routes);
    options::lemma_encode_all_add(leading + lease + host + service + routes, boot);
}

pub proof fn lemma_same_wishes(a: Map<u8, Seq<u8>>, b: Map<u8, Seq<u8>>)
    requires
        same_wishes(a, b),
    ensures
        dhcp::stage(a) == dhcp::stage(b),
        dhcp::classless(a) == dhcp::classless(b),
        dhcp::requests(a, 101) == dhcp::requests(b, 101),
        reply::maximum(a) == reply::maximum(b),
        a.contains_key(61) == b.contains_key(61),
        a.contains_key(61) ==> a[61] == b[61],
        a.contains_key(82) == b.contains_key(82),
        a.contains_key(82) ==> a[82] == b[82],
{
    assert(a.contains_key(55) == b.contains_key(55));
    assert(a.contains_key(57) == b.contains_key(57));
    assert(a.contains_key(60) == b.contains_key(60));
    assert(a.contains_key(61) == b.contains_key(61));
    assert(a.contains_key(77) == b.contains_key(77));
    assert(a.contains_key(82) == b.contains_key(82));
    assert(a.contains_key(93) == b.contains_key(93));
}

pub proof fn lemma_ack_fits(
    discover: PacketView,
    request: PacketView,
    client: Client,
    config: Config,
    server: Ipv4Addr,
    offer: ReplyView,
)
    requires
        answered(discover, client, config, server, offer),
        takes_up(discover, request, offer),
        same_wishes(request.options, discover.options),
    ensures
        reply::reply_to(request, client, config, server) is Ok,
        reply::reply_to(request, client, config, server)->Ok_0 is Some,
        ({
            let ack = reply::reply_to(request, client, config, server)->Ok_0->0;
            &&& ack.message == 5
            &&& ack.bytes.len() == offer.bytes.len()
            &&& ack.boot_file == offer.boot_file
            &&& ack.relay_option_omitted == offer.relay_option_omitted
        }),
{
    lemma_taken_up(discover, request, client, config, server, offer);
    lemma_same_wishes(request.options, discover.options);
    lemma_leading_len(discover.options, server, 2);
    lemma_leading_len(request.options, server, 5);
    lemma_settings_len(discover, client, config, server, 2);
    lemma_settings_len(request, client, config, server, 5);
    let old_list = own(discover, client, config, server, 2);
    let new_list = own(request, client, config, server, 5);
    assert(options::encode_all(old_list).len() == options::encode_all(new_list).len());
    if reply::relayed(discover) {
        options::lemma_encode_all_push(old_list, 82, discover.options[82]);
        options::lemma_encode_all_push(new_list, 82, discover.options[82]);
    }
}

/// A REQUEST that takes up an OFFER and wishes for nothing else gets just what was
/// offered: the ACK is as long, and but for its type it holds the same options.
pub proof fn law_ack_grants_what_was_offered(
    discover: PacketView,
    request: PacketView,
    client: Client,
    config: Config,
    server: Ipv4Addr,
    offer: ReplyView,
)
    requires
        answered(discover, client, config, server, offer),
        takes_up(discover, request, offer),
        same_wishes(request.options, discover.options),
    ensures
        reply::reply_to(request, client, config, server) is Ok,
        reply::reply_to(request, client, config, server)->Ok_0 is Some,
        ({
            let ack = reply::reply_to(request, client, config, server)->Ok_0->0;
            &&& ack.message == 5
            &&& ack.bytes.len() == offer.bytes.len()
            &&& ack.boot_file == offer.boot_file
            &&& ack.relay_option_omitted == offer.relay_option_omitted
            &&& sent(ack) == sent(offer).insert(53, seq![5u8])
        }),
{
    lemma_ack_fits(discover, request, client, config, server, offer);
    let ack = reply::reply_to(request, client, config, server)->Ok_0->0;
    lemma_taken_up(discover, request, client, config, server, offer);
    lemma_same_wishes(request.options, discover.options);
    lemma_sent_settings(discover, client, config, server, offer);
    lemma_sent_settings(request, client, config, server, ack);
    lemma_leading(discover.options, server, 2);
    lemma_leading(request.options, server, 5);
    assert(sent(ack) =~= sent(offer).insert(53, seq![5u8]));
}

// ---------------------------------------------------------------------------
// Specific routes

/// The routes that a client reads in option 121: network, prefix length and gateway.
pub open spec fn read_routes(value: Seq<u8>) -> Option<Seq<(Ipv4Addr, u8, Ipv4Addr)>>
    decreases value.len(),
{
    if value.len() == 0 {
        Some(Seq::empty())
    } else {
        let n = dump::network_len(value[0]);
        if value[0] > 32 || value.len() < 1 + n + 4 {
            None
        } else {
            match read_routes(value.skip(1 + n + 4)) {
                None => None,
                Some(rest) => Some(
                    seq![(dump::network_at(value, 1, n), value[0], net::ipv4_at(value, 1 + n))]
                        + rest,
                ),
            }
        }
    }
}

/// The configured routes through one gateway.
pub open spec fn configured_routes(routes: Seq<String>, gateway: Ipv4Addr) -> Seq<
    (Ipv4Addr, u8, Ipv4Addr),
> {
    Seq::new(
        routes.len(),
        |i: int|
            {
                let (network, prefix) = config::route(encode_utf8(routes[i]@))->Ok_0;
                (network, prefix, gateway)
            },
    )
}

/// A multiple of a network's size is one of the size that its significant bytes leave.
pub proof fn lemma_network_multiple(bits: nat, prefix: u8)
    requires
        1 <= prefix <= 32,
        bits % net::block(prefix as nat) == 0,
    ensures
        bits % pow2((32 - 8 * dump::network_len(prefix)) as nat) == 0,
{
    let n = dump::network_len(prefix);
    let small = pow2((32 - 8 * n) as nat);
    let k = (8 * n - prefix) as nat;
    lemma_pow2_adds((32 - 8 * n) as nat, k);
    lemma_pow2_pos((32 - 8 * n) as nat);
    lemma_pow2_pos(k);
    lemma_mod_mod(bits as int, small as int, pow2(k) as int);
    lemma_small_mod(0, small);
}

pub proof fn lemma_low_bytes(network: Ipv4Addr)
    ensures
        network.bits() % 0x100 == 0 ==> network.d == 0,
        network.bits() % 0x1_0000 == 0 ==> network.c == 0 && network.d == 0,
        network.bits() % 0x100_0000 == 0 ==> network.b == 0 && network.c == 0 && network.d == 0,
{
    let (a, b, c, d) = (network.a as int, network.b as int, network.c as int, network.d as int);
    let bits = network.bits() as int;
    lemma_fundamental_div_mod_converse(bits, 0x100, a * 0x1_0000 + b * 0x100 + c, d);
    lemma_fundamental_div_mod_converse(bits, 0x1_0000, a * 0x100 + b, c * 0x100 + d);
    lemma_fundamental_div_mod_converse(bits, 0x100_0000, a, b * 0x1_0000 + c * 0x100 + d);
}

/// The bytes behind the significant ones of a network are zero.
pub proof fn lemma_network_bytes(network: Ipv4Addr, prefix: u8)
    requires
        1 <= prefix <= 32,
        network.bits() % net::block(prefix as nat) == 0,
    ensures
        dump::network_len(prefix) < 4 ==> network.d == 0,
        dump::network_len(prefix) < 3 ==> network.c == 0,
        dump::network_len(prefix) < 2 ==> network.b == 0,
{
    lemma_network_multiple(network.bits(), prefix);
    lemma_low_bytes(network);
    assert(pow2(8) == 0x100 && pow2(16) == 0x1_0000 && pow2(24) == 0x100_0000) by {
        lemma2_to64();
    }
}

/// What a client reads of one encoded route.
pub proof fn lemma_read_one(network: Ipv4Addr, prefix: u8, gateway: Ipv4Addr, rest: Seq<u8>)
    requires
        1 <= prefix <= 32,
        network.bits() % net::block(prefix as nat) == 0,
        read_routes(rest) is Some,
    ensures
        read_routes(reply::route_bytes(network, prefix, gateway) + rest) == Some(
            seq![(network, prefix, gateway)] + read_routes(rest)->0,
        ),
{
    let n = dump::network_len(prefix);
    let value = reply::route_bytes(network, prefix, gateway) + rest;
    lemma_network_bytes(network, prefix);
    let octets = network.bytes();
    let first = octets.take(n);
    assert(value[0] == prefix);
    assert forall|i: int| 0 <= i < n implies value[1 + i] == octets[i] by {
        assert(first[i] == octets[i]);
    }
    assert forall|i: int| 0 <= i < 4 implies value[1 + n + i] == gateway.bytes()[i] by {
    }
    assert(value.skip(1 + n + 4) =~= rest);
    assert(dump::network_at(value, 1, n) == network) by {
        assert(value[1] == octets[0]);
        if n > 1 {
            assert(value[2] == octets[1]);
        }
        if n > 2 {
            assert(value[3] == octets[2]);
        }
        if n > 3 {
            assert(value[4] == octets[3]);
        }
    }
    assert(net::ipv4_at(value, 1 + n) == gateway) by {
        assert(value[1 + n + 0] == gateway.bytes()[0]);
        assert(value[1 + n + 1] == gateway.bytes()[1]);
        assert(value[1 + n + 2] == gateway.bytes()[2]);
        assert(value[1 + n + 3] == gateway.bytes()[3]);
    }
}

/// Encoded routes followed by others.
#[verifier::rlimit(30)]
pub proof fn lemma_read_many(routes: Seq<String>, gateway: Ipv4Addr, rest: Seq<u8>)
    requires
        config::route_fault(routes) is None,
        read_routes(rest) is Some,
    ensures
        reply::routes_value(routes, gateway) is Ok,
        read_routes(reply::routes_value(routes, gateway)->Ok_0 + rest) == Some(
            configured_routes(routes, gateway) + read_routes(rest)->0,
        ),
    decreases routes.len(),
{
    if routes.len() == 0 {
        let value = reply::routes_value(routes, gateway)->Ok_0;
        assert(value + rest =~= rest);
        assert(configured_routes(routes, gateway) + read_routes(rest)->0 =~= read_routes(rest)->0);
    } else {
        let front = routes.drop_last();
        let last = encode_utf8(routes.last()@);
        let (network, prefix) = config::route(last)->Ok_0;
        assert(reply::route_parts(last) == Ok::<(Ipv4Addr, u8), RouteError>((network, prefix)));
        let piece = reply::route_bytes(network, prefix, gateway);
        lemma_read_one(network, prefix, gateway, rest);
        lemma_read_many(front, gateway, piece + rest);
        let value = reply::routes_value(front, gateway)->Ok_0;
        assert((value + piece) + rest =~= value + (piece + rest));
        let one = seq![(network, prefix, gateway)];
        assert(configured_routes(routes, gateway) =~= configured_routes(front, gateway) + one);
        assert(configured_routes(front, gateway) + (one + read_routes(rest)->0)
            =~= configured_routes(routes, gateway) + read_routes(rest)->0);
    }
}

/// With a valid configuration, option 121 holds just the configured networks, in
/// order, and every one of them through the client's own gateway.
pub proof fn law_specific_routes(config: Config, filter_ok: bool, gateway: Ipv4Addr)
    requires
        config::config_fault(config, filter_ok) is None,
    ensures
        reply::routes_value(config.client_options.classless_routes@, gateway) is Ok,
        read_routes(
            reply::routes_value(config.client_options.classless_routes@, gateway)->Ok_0,
        ) == Some(configured_routes(config.client_options.classless_routes@, gateway)),
{
    let routes = config.client_options.classless_routes@;
    let none = Seq::<u8>::empty();
    lemma_read_many(routes, gateway, none);
    let value = reply::routes_value(routes, gateway)->Ok_0;
    assert(value + none =~= value);
    assert(configured_routes(routes, gateway) + Seq::empty() =~= configured_routes(
        routes,
        gateway,
    ));
}

/// With a valid configuration and a server identifier that is one, a message can only
/// go unanswered because its answer would be too long.
pub proof fn law_valid_configurations_answer(
    packet: PacketView,
    client: Client,
    config: Config,
    filter_ok: bool,
    server: Ipv4Addr,
)
    requires
        config::config_fault(config, filter_ok) is None,
        reply::server_ok(server),
    ensures
        reply::reply_to(packet, client, config, server) matches Err(error) ==> error is TooLong,
{
    law_specific_routes(config, filter_ok, client.gateway);
}

} // verus!
