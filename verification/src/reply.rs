//! The answer to a client's DHCP message.
use crate::clients::Client;
use crate::config;
use crate::config::{Architecture, Config, RouteError};
use crate::dhcp;
use crate::dhcp::{Packet, PacketView, Stage};
use crate::net;
use crate::net::{Ipv4Addr, SocketAddrV4};
use crate::options;
use crate::text;
use vstd::prelude::*;
use vstd::string::*;
use vstd::utf8::*;

verus! {

/// The answer to a client's message.
#[derive(Debug)]
pub struct Reply {
    pub bytes: Vec<u8>,
    pub destination: SocketAddrV4,
    /// The message type, option 53.
    pub message: u8,
    pub boot_file: Option<String>,
    /// Whether the relay's option 82 was left out because it did not fit.
    pub relay_option_omitted: bool,
}

/// Why a message cannot be answered.
#[derive(Debug, Clone, Copy, PartialEq, Eq, Structural)]
pub enum ReplyError {
    /// The server identifier is not the address of one host.
    Server,
    Route(RouteError),
    /// The answer is longer than that maximum of the client.
    TooLong(usize),
}

/// What a `Reply` holds.
#[verifier::ext_equal]
pub struct ReplyView {
    pub bytes: Seq<u8>,
    pub destination: SocketAddrV4,
    pub message: u8,
    pub boot_file: Option<Seq<char>>,
    pub relay_option_omitted: bool,
}

/// The text of an optional string.
pub open spec fn text_of(s: Option<String>) -> Option<Seq<char>> {
    match s {
        Some(t) => Some(t@),
        None => None,
    }
}

impl View for Reply {
    type V = ReplyView;

    open spec fn view(&self) -> ReplyView {
        ReplyView {
            bytes: self.bytes@,
            destination: self.destination,
            message: self.message,
            boot_file: text_of(self.boot_file),
            relay_option_omitted: self.relay_option_omitted,
        }
    }
}

/// Whether `server` can stand in a reply as the server identifier.
pub open spec fn server_ok(server: Ipv4Addr) -> bool {
    !server.zero() && !server.broadcast_all() && !server.multicast()
}

/// Whether a message names another server.
pub open spec fn for_another_server(options: Map<u8, Seq<u8>>, server: Ipv4Addr) -> bool {
    Packet::ip_value(options, 54) is Some && Packet::ip_value(options, 54) != Some(server)
}

/// The address that a REQUEST is about: option 50 for a client that has none yet, the
/// client's own address for one that renews; none where the message mixes the two.
pub open spec fn requested(packet: PacketView) -> Option<Ipv4Addr> {
    let has_address = packet.options.contains_key(50);
    let has_server = packet.options.contains_key(54);
    if !packet.ciaddr.zero() && (has_address || has_server) || has_server && !has_address {
        None
    } else if Packet::ip_value(packet.options, 50) is Some {
        Packet::ip_value(packet.options, 50)
    } else if !packet.ciaddr.zero() {
        Some(packet.ciaddr)
    } else {
        None
    }
}

/// The type of the answer: OFFER, ACK or NAK. Some messages get none.
pub open spec fn answer_type(packet: PacketView, ip: Ipv4Addr) -> Option<u8> {
    if packet.message == 1 {
        Some(2)
    } else if packet.message == 3 {
        match requested(packet) {
            Some(asked) => if asked == ip {
                Some(5)
            } else {
                Some(6)
            },
            None => None,
        }
    } else if packet.message == 8 && !packet.ciaddr.zero() {
        Some(5)
    } else {
        None
    }
}

/// The boot file for the client's stage: the iPXE script for iPXE, and for a
/// machine's firmware the file of the mode that its row is for.
pub open spec fn boot_file(
    options: Map<u8, Seq<u8>>,
    boot_type: Seq<char>,
    architectures: Seq<Architecture>,
) -> Option<Seq<char>> {
    let (stage, arch) = dhcp::stage(options);
    if !dhcp::initial(stage) && stage != Stage::Ipxe {
        None
    } else {
        match config::files_of(architectures, dhcp::arch_name(arch)) {
            None => None,
            Some(files) => if stage == Stage::Ipxe {
                text_of(files.ipxe_file)
            } else if boot_type == "bios"@ {
                text_of(files.bios_file)
            } else {
                text_of(files.uefi_file)
            },
        }
    }
}

/// The bytes of a list of addresses.
pub open spec fn addresses(ips: Seq<Ipv4Addr>) -> Seq<u8>
    decreases ips.len(),
{
    if ips.len() == 0 {
        Seq::empty()
    } else {
        addresses(ips.drop_last()) + ips.last().bytes()
    }
}

/// The network and the prefix length of a configured route.
pub open spec fn route_parts(route: Seq<u8>) -> Result<(Ipv4Addr, u8), RouteError> {
    let (network, prefix) = config::route_halves(route);
    if text::find(route, 47) == route.len() {
        Err(RouteError::Syntax)
    } else if text::number(prefix, 10, 255) is None {
        Err(RouteError::Prefix(text::number_fault(prefix, 10, 255)))
    } else if !(1 <= text::number(prefix, 10, 255)->0 <= 32) {
        Err(RouteError::Range)
    } else if net::ipv4(network) is None {
        Err(RouteError::Network)
    } else {
        Ok((net::ipv4(network)->0, text::number(prefix, 10, 255)->0 as u8))
    }
}

/// One route of option 121: the prefix length, the significant bytes of the network
/// and the gateway.
pub open spec fn route_bytes(network: Ipv4Addr, prefix: u8, gateway: Ipv4Addr) -> Seq<u8> {
    seq![prefix] + network.bytes().take((prefix + 7) / 8) + gateway.bytes()
}

/// The value of option 121.
pub open spec fn routes_value(routes: Seq<String>, gateway: Ipv4Addr) -> Result<
    Seq<u8>,
    RouteError,
>
    decreases routes.len(),
{
    if routes.len() == 0 {
        Ok(Seq::empty())
    } else {
        match routes_value(routes.drop_last(), gateway) {
            Err(error) => Err(error),
            Ok(value) => match route_parts(encode_utf8(routes.last()@)) {
                Err(error) => Err(error),
                Ok((network, prefix)) => Ok(value + route_bytes(network, prefix, gateway)),
            },
        }
    }
}

/// The options that grant a lease: its duration, and where it is long enough also
/// when to renew it and when to ask any server.
pub open spec fn lease_options(lease_seconds: u32) -> Seq<(u8, Seq<u8>)> {
    seq![(51u8, options::be32(lease_seconds))] + if lease_seconds >= 8 {
        seq![
            (58u8, options::be32(lease_seconds / 2)),
            (59u8, options::be32((lease_seconds * 7 / 8) as u32)),
        ]
    } else {
        Seq::empty()
    }
}

/// The options that every configured client gets, whatever it asks for.
pub open spec fn host_options(client: Client) -> Seq<(u8, Seq<u8>)> {
    seq![
        (1u8, options::be32((0x1_0000_0000 - net::block(client.prefix_length as nat)) as u32)),
        (12u8, encode_utf8(client.hostname@)),
        (15u8, encode_utf8(client.domain@)),
    ] + match client.mtu {
        Some(mtu) => seq![(26u8, options::be16(mtu))],
        None => Seq::empty(),
    }
}

/// The time zone, if it is asked for, and the DNS and NTP servers.
pub open spec fn service_options(options: Map<u8, Seq<u8>>, config: Config) -> Seq<(u8, Seq<u8>)> {
    (if dhcp::requests(options, 101) {
        seq![(101u8, encode_utf8(config.client_options.timezone@))]
    } else {
        Seq::empty()
    }) + seq![
        (6u8, addresses(config.client_options.dns@)),
        (42u8, addresses(config.client_options.ntp@)),
    ]
}

/// The specific routes or the default gateway.
pub open spec fn route_options(
    options: Map<u8, Seq<u8>>,
    routes: Seq<String>,
    gateway: Ipv4Addr,
) -> Result<Seq<(u8, Seq<u8>)>, RouteError> {
    if dhcp::classless(options) {
        match routes_value(routes, gateway) {
            Ok(value) => Ok(seq![(121u8, value)]),
            Err(error) => Err(error),
        }
    } else {
        Ok(seq![(3u8, gateway.bytes())])
    }
}

/// The boot server and the boot file.
pub open spec fn boot_options(tftp_server: Ipv4Addr, file: Option<Seq<char>>) -> Seq<
    (u8, Seq<u8>),
> {
    match file {
        Some(name) => seq![
            (66u8, encode_utf8(tftp_server.text())),
            (67u8, encode_utf8(name)),
        ],
        None => Seq::empty(),
    }
}

/// What every answer begins with: its type, the server, and the client identifier
/// that came with the message.
pub open spec fn leading_options(
    options: Map<u8, Seq<u8>>,
    server: Ipv4Addr,
    message: u8,
) -> Seq<(u8, Seq<u8>)> {
    seq![(53u8, seq![message]), (54u8, server.bytes())] + if options.contains_key(61) {
        seq![(61u8, options[61])]
    } else {
        Seq::empty()
    }
}

/// The options of an answer but for the relay's.
pub open spec fn answer_options(
    packet: PacketView,
    client: Client,
    config: Config,
    server: Ipv4Addr,
    message: u8,
) -> Result<Seq<(u8, Seq<u8>)>, RouteError> {
    let leading = leading_options(packet.options, server, message);
    if message == 6 {
        Ok(leading)
    } else {
        let lease = if packet.message == 8 {
            Seq::empty()
        } else {
            lease_options(config.dhcp.lease_seconds)
        };
        match route_options(
            packet.options,
            config.client_options.classless_routes@,
            client.gateway,
        ) {
            Err(error) => Err(error),
            Ok(routes) => Ok(
                leading + lease + host_options(client) + service_options(packet.options, config)
                    + routes + boot_options(
                    config.boot.tftp_server,
                    boot_file(packet.options, client.boot_type@, config.boot.architectures@),
                ),
            ),
        }
    }
}

/// One byte of the fixed part of an answer, up to the options.
pub open spec fn header_byte(
    packet: PacketView,
    message: u8,
    ip: Ipv4Addr,
    tftp_server: Ipv4Addr,
    file: Option<Seq<char>>,
    i: int,
) -> u8 {
    if i < 3 {
        seq![2u8, 1, 6][i]
    } else if 4 <= i < 8 {
        packet.header[i]
    } else if i == 10 && message == 6 && !packet.giaddr.zero() {
        packet.header[10] | 0x80
    } else if 10 <= i < 12 {
        packet.header[i]
    } else if 12 <= i < 16 {
        if message == 6 {
            0
        } else {
            packet.header[i]
        }
    } else if 16 <= i < 20 {
        if message == 6 || packet.message == 8 {
            0
        } else {
            ip.bytes()[i - 16]
        }
    } else if 20 <= i < 24 {
        if file is Some {
            tftp_server.bytes()[i - 20]
        } else {
            0
        }
    } else if 24 <= i < 44 {
        packet.header[i]
    } else if 108 <= i < 236 {
        if file is Some && encode_utf8(file->0).len() < 128 && i - 108 < encode_utf8(
            file->0,
        ).len() {
            encode_utf8(file->0)[i - 108]
        } else {
            0
        }
    } else if 236 <= i < 240 {
        dhcp::cookie()[i - 236]
    } else {
        0
    }
}

/// The fixed part of an answer with the cookie.
pub open spec fn answer_header(
    packet: PacketView,
    message: u8,
    ip: Ipv4Addr,
    tftp_server: Ipv4Addr,
    file: Option<Seq<char>>,
) -> Seq<u8> {
    Seq::new(240, |i: int| header_byte(packet, message, ip, tftp_server, file, i))
}

/// The longest answer that the client takes.
pub open spec fn maximum(options: Map<u8, Seq<u8>>) -> nat {
    if options.contains_key(57) && options[57][0] * 256 + options[57][1] > 576 {
        (options[57][0] * 256 + options[57][1]) as nat
    } else {
        576
    }
}

/// Whether a relay's option 82 came with the message.
pub open spec fn relayed(packet: PacketView) -> bool {
    !packet.giaddr.zero() && packet.options.contains_key(82)
}

/// Whether option 82 fits behind an answer of `len` bytes.
pub open spec fn relay_fits(packet: PacketView, len: nat) -> bool {
    len + options::encode(82, packet.options[82]).len() < maximum(packet.options)
}

/// All options of an answer: the relay's stands last, if it fits.
pub open spec fn with_relay(packet: PacketView, answer: Seq<(u8, Seq<u8>)>) -> Seq<(u8, Seq<u8>)> {
    if relayed(packet) && relay_fits(packet, 240 + options::encode_all(answer).len()) {
        answer.push((82, packet.options[82]))
    } else {
        answer
    }
}

/// `bytes` with zeros up to the length of 300.
pub open spec fn padded(bytes: Seq<u8>) -> Seq<u8> {
    if bytes.len() < 300 {
        bytes + Seq::new((300 - bytes.len()) as nat, |i: int| 0u8)
    } else {
        bytes
    }
}

/// Where an answer goes: to the relay, to the client's own address, or to everybody
/// on the network.
pub open spec fn destination(packet: PacketView, message: u8) -> SocketAddrV4 {
    if !packet.giaddr.zero() {
        SocketAddrV4 { ip: packet.giaddr, port: 67 }
    } else if message != 6 && !packet.ciaddr.zero() {
        SocketAddrV4 { ip: packet.ciaddr, port: 68 }
    } else {
        SocketAddrV4 { ip: Ipv4Addr { a: 255, b: 255, c: 255, d: 255 }, port: 68 }
    }
}

/// The answer of type `message` to a client's message.
pub open spec fn answer(
    packet: PacketView,
    client: Client,
    config: Config,
    server: Ipv4Addr,
    message: u8,
) -> Result<ReplyView, ReplyError> {
    let file = if message == 6 {
        None
    } else {
        boot_file(packet.options, client.boot_type@, config.boot.architectures@)
    };
    let header = answer_header(packet, message, client.ip, config.boot.tftp_server, file);
    match answer_options(packet, client, config, server, message) {
        Err(error) => Err(ReplyError::Route(error)),
        Ok(list) => {
            let bytes = (header + options::encode_all(with_relay(packet, list))).push(255);
            if bytes.len() > maximum(packet.options) {
                Err(ReplyError::TooLong(maximum(packet.options) as usize))
            } else {
                Ok(
                    ReplyView {
                        bytes: padded(bytes),
                        destination: destination(packet, message),
                        message,
                        boot_file: file,
                        relay_option_omitted: relayed(packet) && !relay_fits(
                            packet,
                            240 + options::encode_all(list).len(),
                        ),
                    },
                )
            }
        },
    }
}

/// How a client's message is answered, if it is.
pub open spec fn reply_to(
    packet: PacketView,
    client: Client,
    config: Config,
    server: Ipv4Addr,
) -> Result<Option<ReplyView>, ReplyError> {
    if !server_ok(server) {
        Err(ReplyError::Server)
    } else if for_another_server(packet.options, server) {
        Ok(None)
    } else {
        match answer_type(packet, client.ip) {
            None => Ok(None),
            Some(message) => match answer(packet, client, config, server, message) {
                Ok(reply) => Ok(Some(reply)),
                Err(error) => Err(error),
            },
        }
    }
}

fn encode_addresses(ips: &Vec<Ipv4Addr>) -> (bytes: Vec<u8>)
    ensures
        bytes@ == addresses(ips@),
{
    let mut bytes: Vec<u8> = Vec::new();
    for i in 0..ips.len()
        invariant
            bytes@ == addresses(ips@.take(i as int)),
    {
        let octets: [u8; 4] = ips[i].octets();
        bytes.extend_from_slice(&octets);
        assert(ips@.take(i + 1).drop_last() =~= ips@.take(i as int));
    }
    assert(ips@.take(ips@.len() as int) =~= ips@);
    bytes
}

fn split_route(route: &str) -> (parts: Result<(Ipv4Addr, u8), RouteError>)
    ensures
        parts == route_parts(encode_utf8(route@)),
{
    let bytes: &[u8] = route.as_bytes();
    let slash: usize = text::find_byte(bytes, 47);
    if slash == bytes.len() {
        return Err(RouteError::Syntax);
    }
    let head: &[u8] = &bytes[0..slash];
    let tail: &[u8] = &bytes[slash + 1..bytes.len()];
    assert(head@ =~= config::route_halves(bytes@).0);
    assert(tail@ =~= config::route_halves(bytes@).1);
    let prefix: u8 = match text::read_number(tail, 10, 255) {
        Ok(n) => n as u8,
        Err(fault) => {
            return Err(RouteError::Prefix(fault));
        },
    };
    if prefix < 1 || prefix > 32 {
        return Err(RouteError::Range);
    }
    match net::parse_ipv4(head) {
        Some(network) => Ok((network, prefix)),
        None => Err(RouteError::Network),
    }
}

fn encode_routes(routes: &Vec<String>, gateway: Ipv4Addr) -> (value: Result<Vec<u8>, RouteError>)
    ensures
        match value {
            Ok(bytes) => routes_value(routes@, gateway) == Ok::<Seq<u8>, RouteError>(bytes@),
            Err(error) => routes_value(routes@, gateway) == Err::<Seq<u8>, RouteError>(error),
        },
{
    let mut bytes: Vec<u8> = Vec::new();
    for i in 0..routes.len()
        invariant
            routes_value(routes@.take(i as int), gateway) == Ok::<Seq<u8>, RouteError>(bytes@),
    {
        let ghost start = bytes@;
        assert(routes@.take(i + 1).drop_last() =~= routes@.take(i as int));
        assert(routes@.take(i + 1).last() == routes@[i as int]);
        match split_route(routes[i].as_str()) {
            Ok((network, prefix)) => {
                let octets: [u8; 4] = network.octets();
                let hop: [u8; 4] = gateway.octets();
                let significant: usize = (prefix as usize + 7) / 8;
                bytes.push(prefix);
                bytes.extend_from_slice(&octets[0..significant]);
                bytes.extend_from_slice(&hop);
                assert(bytes@ =~= start + route_bytes(network, prefix, gateway));
            },
            Err(error) => {
                proof {
                    lemma_routes_error(routes@, gateway, i + 1);
                }
                return Err(error);
            },
        }
    }
    assert(routes@.take(routes@.len() as int) =~= routes@);
    Ok(bytes)
}

/// A route that cannot be encoded spoils every list that begins with it.
proof fn lemma_routes_error(routes: Seq<String>, gateway: Ipv4Addr, n: int)
    requires
        0 <= n <= routes.len(),
        routes_value(routes.take(n), gateway) is Err,
    ensures
        routes_value(routes, gateway) == routes_value(routes.take(n), gateway),
    decreases routes.len() - n,
{
    if n == routes.len() {
        assert(routes.take(n) =~= routes);
    } else {
        assert(routes.take(n + 1).drop_last() =~= routes.take(n));
        lemma_routes_error(routes, gateway, n + 1);
    }
}

fn push_leading_options(out: &mut Vec<u8>, packet: &Packet, server: Ipv4Addr, message: u8)
    ensures
        final(out)@ == old(out)@ + options::encode_all(
            leading_options(packet@.options, server, message),
        ),
{
    let ghost start = out@;
    let ghost none = Seq::<(u8, Seq<u8>)>::empty();
    let kind: [u8; 1] = [message];
    assert(kind@ =~= seq![message]);
    options::option(out, 53, &kind);
    let id: [u8; 4] = server.octets();
    options::option(out, 54, &id);
    let ghost two = none.push((53u8, seq![message])).push((54u8, server.bytes()));
    proof {
        options::lemma_encode_all_push(none, 53, seq![message]);
        options::lemma_encode_all_push(none.push((53u8, seq![message])), 54, server.bytes());
        assert(out@ =~= start + options::encode_all(two));
    }
    match packet.options.get(&61) {
        Some(value) => {
            options::option(out, 61, value.as_slice());
            proof {
                options::lemma_encode_all_push(two, 61, value@);
                assert(two.push((61u8, value@)) =~= leading_options(
                    packet@.options,
                    server,
                    message,
                ));
                assert(out@ =~= start + options::encode_all(two.push((61u8, value@))));
            }
        },
        None => {
            assert(two =~= leading_options(packet@.options, server, message));
        },
    }
}

fn push_lease_options(out: &mut Vec<u8>, lease_seconds: u32)
    ensures
        final(out)@ == old(out)@ + options::encode_all(lease_options(lease_seconds)),
{
    let ghost start = out@;
    let ghost none = Seq::<(u8, Seq<u8>)>::empty();
    let lease: [u8; 4] = options::be32_bytes(lease_seconds);
    options::option(out, 51, &lease);
    let ghost one = none.push((51u8, lease@));
    proof {
        options::lemma_encode_all_push(none, 51, lease@);
        assert(out@ =~= start + options::encode_all(one));
    }
    if lease_seconds >= 8 {
        let renew: [u8; 4] = options::be32_bytes(lease_seconds / 2);
        let rebind: [u8; 4] = options::be32_bytes((lease_seconds as u64 * 7 / 8) as u32);
        options::option(out, 58, &renew);
        options::option(out, 59, &rebind);
        proof {
            options::lemma_encode_all_push(one, 58, renew@);
            options::lemma_encode_all_push(one.push((58u8, renew@)), 59, rebind@);
            assert(one.push((58u8, renew@)).push((59u8, rebind@)) =~= lease_options(lease_seconds));
            assert(out@ =~= start + options::encode_all(lease_options(lease_seconds)));
        }
    } else {
        assert(one =~= lease_options(lease_seconds));
    }
}

fn push_host_options(out: &mut Vec<u8>, client: &Client)
    requires
        client.prefix_length <= 32,
    ensures
        final(out)@ == old(out)@ + options::encode_all(host_options(*client)),
{
    let ghost start = out@;
    let ghost none = Seq::<(u8, Seq<u8>)>::empty();
    let mask: [u8; 4] = options::be32_bytes(config::prefix_mask(client.prefix_length));
    options::option(out, 1, &mask);
    options::option(out, 12, client.hostname.as_str().as_bytes());
    options::option(out, 15, client.domain.as_str().as_bytes());
    let ghost hostname = encode_utf8(client.hostname@);
    let ghost domain = encode_utf8(client.domain@);
    let ghost three = none.push((1u8, mask@)).push((12u8, hostname)).push((15u8, domain));
    proof {
        options::lemma_encode_all_push(none, 1, mask@);
        options::lemma_encode_all_push(none.push((1u8, mask@)), 12, hostname);
        options::lemma_encode_all_push(none.push((1u8, mask@)).push((12u8, hostname)), 15, domain);
        assert(out@ =~= start + options::encode_all(three));
    }
    match client.mtu {
        Some(mtu) => {
            let value: [u8; 2] = options::be16_bytes(mtu);
            options::option(out, 26, &value);
            proof {
                options::lemma_encode_all_push(three, 26, value@);
                assert(three.push((26u8, value@)) =~= host_options(*client));
                assert(out@ =~= start + options::encode_all(host_options(*client)));
            }
        },
        None => {
            assert(three =~= host_options(*client));
        },
    }
}

fn push_service_options(out: &mut Vec<u8>, packet: &Packet, config: &Config)
    ensures
        final(out)@ == old(out)@ + options::encode_all(service_options(packet@.options, *config)),
{
    let ghost start = out@;
    let ghost mut list = Seq::<(u8, Seq<u8>)>::empty();
    if packet.requests_option(101) {
        options::option(out, 101, config.client_options.timezone.as_str().as_bytes());
        proof {
            let zone = encode_utf8(config.client_options.timezone@);
            options::lemma_encode_all_push(list, 101, zone);
            list = list.push((101u8, zone));
        }
    }
    assert(out@ =~= start + options::encode_all(list));
    let dns: Vec<u8> = encode_addresses(&config.client_options.dns);
    options::option(out, 6, dns.as_slice());
    let ntp: Vec<u8> = encode_addresses(&config.client_options.ntp);
    options::option(out, 42, ntp.as_slice());
    proof {
        options::lemma_encode_all_push(list, 6, dns@);
        options::lemma_encode_all_push(list.push((6u8, dns@)), 42, ntp@);
        assert(list.push((6u8, dns@)).push((42u8, ntp@)) =~= service_options(
            packet@.options,
            *config,
        ));
        assert(out@ =~= start + options::encode_all(service_options(packet@.options, *config)));
    }
}

fn push_route_options(
    out: &mut Vec<u8>,
    packet: &Packet,
    routes: &Vec<String>,
    gateway: Ipv4Addr,
) -> (done: Result<(), RouteError>)
    ensures
        match done {
            Ok(()) => route_options(packet@.options, routes@, gateway) is Ok && final(out)@ == old(out)@
                + options::encode_all(route_options(packet@.options, routes@, gateway)->Ok_0),
            Err(error) => route_options(packet@.options, routes@, gateway) == Err::<
                Seq<(u8, Seq<u8>)>,
                RouteError,
            >(error) && final(out)@ == old(out)@,
        },
{
    let ghost start = out@;
    let ghost none = Seq::<(u8, Seq<u8>)>::empty();
    if packet.is_classless() {
        match encode_routes(routes, gateway) {
            Ok(value) => {
                options::option(out, 121, value.as_slice());
                proof {
                    options::lemma_encode_all_push(none, 121, value@);
                    assert(none.push((121u8, value@)) =~= seq![(121u8, value@)]);
                    assert(out@ =~= start + options::encode_all(seq![(121u8, value@)]));
                }
            },
            Err(error) => {
                return Err(error);
            },
        }
    } else {
        let hop: [u8; 4] = gateway.octets();
        options::option(out, 3, &hop);
        proof {
            options::lemma_encode_all_push(none, 3, hop@);
            assert(none.push((3u8, hop@)) =~= seq![(3u8, gateway.bytes())]);
            assert(out@ =~= start + options::encode_all(seq![(3u8, gateway.bytes())]));
        }
    }
    Ok(())
}

fn push_boot_options(out: &mut Vec<u8>, tftp_server: Ipv4Addr, file: &Option<String>)
    ensures
        final(out)@ == old(out)@ + options::encode_all(boot_options(tftp_server, text_of(*file))),
{
    let ghost start = out@;
    match file {
        Some(name) => {
            let ghost none = Seq::<(u8, Seq<u8>)>::empty();
            let host: String = tftp_server.to_text();
            options::option(out, 66, host.as_str().as_bytes());
            options::option(out, 67, name.as_str().as_bytes());
            proof {
                let host = encode_utf8(tftp_server.text());
                let name = encode_utf8(name@);
                options::lemma_encode_all_push(none, 66, host);
                options::lemma_encode_all_push(none.push((66u8, host)), 67, name);
                assert(none.push((66u8, host)).push((67u8, name)) =~= boot_options(
                    tftp_server,
                    text_of(*file),
                ));
                assert(out@ =~= start + options::encode_all(
                    boot_options(tftp_server, text_of(*file)),
                ));
            }
        },
        None => {
            assert(out@ =~= start + options::encode_all(boot_options(tftp_server, text_of(*file))));
        },
    }
}

fn copy_name(file: &Option<String>) -> (copy: Option<String>)
    ensures
        text_of(copy) == text_of(*file),
{
    match file {
        Some(name) => Some(name.clone()),
        None => None,
    }
}

fn find_boot_file(packet: &Packet, client: &Client, config: &Config) -> (file: Option<String>)
    ensures
        text_of(file) == boot_file(
            packet@.options,
            client.boot_type@,
            config.boot.architectures@,
        ),
{
    let (stage, arch) = packet.classify();
    if stage != Stage::Bios && stage != Stage::Uefi && stage != Stage::Ipxe {
        return None;
    }
    match config.boot.files(arch.name()) {
        Some(files) => if stage == Stage::Ipxe {
            copy_name(&files.ipxe_file)
        } else if text::str_eq(client.boot_type.as_str(), "bios") {
            copy_name(&files.bios_file)
        } else {
            copy_name(&files.uefi_file)
        },
        None => None,
    }
}

/// The fixed part of an answer with the cookie.
fn make_header(
    packet: &Packet,
    message: u8,
    ip: Ipv4Addr,
    tftp_server: Ipv4Addr,
    file: &Option<String>,
) -> (header: Vec<u8>)
    requires
        packet.header@.len() >= 44,
    ensures
        header@ == answer_header(packet@, message, ip, tftp_server, text_of(*file)),
{
    let request: &[u8] = packet.header.as_slice();
    let nak: bool = message == 6;
    let zero = Ipv4Addr::new(0, 0, 0, 0);
    let ghost expected = answer_header(packet@, message, ip, tftp_server, text_of(*file));
    let mut header: Vec<u8> = Vec::new();
    header.push(2);
    header.push(1);
    header.push(6);
    header.push(0);
    header.extend_from_slice(&request[4..8]);
    assert(header@ =~= expected.take(8));
    header.push(0);
    header.push(0);
    if nak && !packet.giaddr.is_unspecified() {
        header.push(request[10] | 0x80);
    } else {
        header.push(request[10]);
    }
    header.push(request[11]);
    assert(header@ =~= expected.take(12));
    let ciaddr: [u8; 4] = if nak {
        zero.octets()
    } else {
        Ipv4Addr::read(request, 12).octets()
    };
    header.extend_from_slice(&ciaddr);
    assert(header@ =~= expected.take(16));
    let yiaddr: [u8; 4] = if nak || packet.message == 8 {
        zero.octets()
    } else {
        ip.octets()
    };
    header.extend_from_slice(&yiaddr);
    assert(header@ =~= expected.take(20));
    let siaddr: [u8; 4] = if file.is_some() {
        tftp_server.octets()
    } else {
        zero.octets()
    };
    header.extend_from_slice(&siaddr);
    assert(header@ =~= expected.take(24));
    header.extend_from_slice(&request[24..44]);
    assert(header@ =~= expected.take(44));
    header.resize(108, 0);
    assert(header@ =~= expected.take(108));
    match file {
        Some(name) => {
            let name: &[u8] = name.as_str().as_bytes();
            if name.len() < 128 {
                header.extend_from_slice(name);
                assert(header@ =~= expected.take((108 + name@.len()) as int));
            }
        },
        None => {},
    }
    header.resize(236, 0);
    assert(header@ =~= expected.take(236));
    header.push(99);
    header.push(130);
    header.push(83);
    header.push(99);
    assert(header@ =~= expected);
    header
}

fn longest_answer(packet: &Packet) -> (limit: usize)
    requires
        packet@.options.contains_key(57) ==> packet@.options[57].len() >= 2,
    ensures
        limit == maximum(packet@.options),
        limit <= 65535,
{
    match packet.options.get(&57) {
        Some(value) => {
            let asked: usize = value[0] as usize * 256 + value[1] as usize;
            if asked > 576 {
                asked
            } else {
                576
            }
        },
        None => 576,
    }
}

/// Decides on the type of the answer.
fn choose_answer(packet: &Packet, ip: Ipv4Addr) -> (message: Option<u8>)
    ensures
        message == answer_type(packet@, ip),
{
    if packet.message == 1 {
        Some(2)
    } else if packet.message == 3 {
        let has_address: bool = packet.options.contains_key(&50);
        let has_server: bool = packet.options.contains_key(&54);
        let bound: bool = !packet.ciaddr.is_unspecified();
        if bound && (has_address || has_server) || has_server && !has_address {
            return None;
        }
        let asked = match packet.ip_option(50) {
            Some(asked) => asked,
            None => {
                if !bound {
                    return None;
                }
                packet.ciaddr
            },
        };
        if asked == ip {
            Some(5)
        } else {
            Some(6)
        }
    } else if packet.message == 8 && !packet.ciaddr.is_unspecified() {
        Some(5)
    } else {
        None
    }
}

/// Appends the options of an answer but for the relay's.
#[verifier::rlimit(30)]
fn push_answer_options(
    out: &mut Vec<u8>,
    packet: &Packet,
    client: &Client,
    config: &Config,
    server: Ipv4Addr,
    message: u8,
    file: &Option<String>,
) -> (done: Result<(), RouteError>)
    requires
        client.prefix_length <= 32,
        message != 6 ==> text_of(*file) == boot_file(
            packet@.options,
            client.boot_type@,
            config.boot.architectures@,
        ),
    ensures
        match done {
            Ok(()) => answer_options(packet@, *client, *config, server, message) is Ok
                && final(out)@ == old(out)@ + options::encode_all(
                answer_options(packet@, *client, *config, server, message)->Ok_0,
            ),
            Err(error) => answer_options(packet@, *client, *config, server, message) == Err::<
                Seq<(u8, Seq<u8>)>,
                RouteError,
            >(error),
        },
{
    let ghost start = out@;
    let ghost leading = leading_options(packet@.options, server, message);
    push_leading_options(out, packet, server, message);
    if message == 6 {
        return Ok(());
    }
    let ghost lease = if packet.message == 8 {
        Seq::<(u8, Seq<u8>)>::empty()
    } else {
        lease_options(config.dhcp.lease_seconds)
    };
    if packet.message != 8 {
        push_lease_options(out, config.dhcp.lease_seconds);
    }
    proof {
        options::lemma_encode_all_add(leading, lease);
        assert(out@ =~= start + options::encode_all(leading + lease));
    }
    push_host_options(out, client);
    push_service_options(out, packet, config);
    match push_route_options(
        out,
        packet,
        &config.client_options.classless_routes,
        client.gateway,
    ) {
        Ok(()) => {},
        Err(error) => {
            return Err(error);
        },
    }
    push_boot_options(out, config.boot.tftp_server, file);
    proof {
        let host = host_options(*client);
        let service = service_options(packet@.options, *config);
        let routes = route_options(
            packet@.options,
            config.client_options.classless_routes@,
            client.gateway,
        )->Ok_0;
        let boot = boot_options(config.boot.tftp_server, text_of(*file));
        options::lemma_encode_all_add(leading + lease, host);
        options::lemma_encode_all_add(leading + lease + host, service);
        options::lemma_encode_all_add(leading + lease + host + service, routes);
        options::lemma_encode_all_add(leading + lease + host + service + routes, boot);
        assert(out@ =~= start + options::encode_all(
            leading + lease + host + service + routes + boot,
        ));
    }
    Ok(())
}

/// Appends the relay's option 82 if it came with the message and fits, and tells
/// whether it was left out.
fn push_relay_option(out: &mut Vec<u8>, packet: &Packet, limit: usize) -> (omitted: bool)
    requires
        limit == maximum(packet@.options),
        limit <= 65535,
    ensures
        omitted == (relayed(packet@) && !relay_fits(packet@, old(out)@.len())),
        final(out)@ == old(out)@ + if relayed(packet@) && relay_fits(packet@, old(out)@.len()) {
            options::encode(82, packet@.options[82])
        } else {
            Seq::empty()
        },
{
    let ghost start = out@;
    if packet.giaddr.is_unspecified() {
        assert(out@ =~= start + Seq::<u8>::empty());
        return false;
    }
    match packet.options.get(&82) {
        Some(relay) => {
            proof {
                options::lemma_encode_len(82, relay@);
            }
            if out.len() < limit && relay.len() < limit && out.len() + relay.len() + (relay.len()
                + 254) / 255 * 2 < limit {
                options::option(out, 82, relay.as_slice());
                false
            } else {
                assert(out@ =~= start + Seq::<u8>::empty());
                true
            }
        },
        None => {
            assert(out@ =~= start + Seq::<u8>::empty());
            false
        },
    }
}

fn pad(bytes: &mut Vec<u8>)
    ensures
        final(bytes)@ == padded(old(bytes)@),
{
    let ghost start = bytes@;
    if bytes.len() < 300 {
        bytes.resize(300, 0);
    }
    assert(bytes@ =~= padded(start));
}

fn find_destination(packet: &Packet, message: u8) -> (address: SocketAddrV4)
    ensures
        address == destination(packet@, message),
{
    if !packet.giaddr.is_unspecified() {
        SocketAddrV4::new(packet.giaddr, 67)
    } else if message != 6 && !packet.ciaddr.is_unspecified() {
        SocketAddrV4::new(packet.ciaddr, 68)
    } else {
        SocketAddrV4::new(Ipv4Addr::new(255, 255, 255, 255), 68)
    }
}

/// Makes the answer of type `message`.
fn make_answer(
    packet: &Packet,
    client: &Client,
    config: &Config,
    server: Ipv4Addr,
    message: u8,
) -> (result: Result<Reply, ReplyError>)
    requires
        packet.header@.len() >= 44,
        packet@.options.contains_key(57) ==> packet@.options[57].len() >= 2,
        client.prefix_length <= 32,
    ensures
        match result {
            Ok(reply) => answer(packet@, *client, *config, server, message) == Ok::<
                ReplyView,
                ReplyError,
            >(reply@),
            Err(error) => answer(packet@, *client, *config, server, message) == Err::<
                ReplyView,
                ReplyError,
            >(error),
        },
{
    let file: Option<String> = if message == 6 {
        None
    } else {
        find_boot_file(packet, client, config)
    };
    let mut bytes: Vec<u8> = make_header(
        packet,
        message,
        client.ip,
        config.boot.tftp_server,
        &file,
    );
    let ghost header = bytes@;
    match push_answer_options(&mut bytes, packet, client, config, server, message, &file) {
        Ok(()) => {},
        Err(error) => {
            return Err(ReplyError::Route(error));
        },
    }
    let ghost list = answer_options(packet@, *client, *config, server, message)->Ok_0;
    let limit: usize = longest_answer(packet);
    let relay_option_omitted: bool = push_relay_option(&mut bytes, packet, limit);
    bytes.push(255);
    proof {
        options::lemma_encode_all_push(list, 82, packet@.options[82]);
        assert(bytes@ =~= (header + options::encode_all(with_relay(packet@, list))).push(255));
    }
    if bytes.len() > limit {
        return Err(ReplyError::TooLong(limit));
    }
    pad(&mut bytes);
    let destination = find_destination(packet, message);
    Ok(Reply { bytes, destination, message, boot_file: file, relay_option_omitted })
}

/// Answers the message of a configured client.
pub fn reply(packet: &Packet, client: &Client, config: &Config, server: Ipv4Addr) -> (result: Result<
    Option<Reply>,
    ReplyError,
>)
    requires
        packet.header@.len() >= 44,
        packet@.options.contains_key(57) ==> packet@.options[57].len() >= 2,
        client.prefix_length <= 32,
    ensures
        match result {
            Ok(Some(reply)) => reply_to(packet@, *client, *config, server) == Ok::<
                Option<ReplyView>,
                ReplyError,
            >(Some(reply@)),
            Ok(None) => reply_to(packet@, *client, *config, server) == Ok::<
                Option<ReplyView>,
                ReplyError,
            >(None),
            Err(error) => reply_to(packet@, *client, *config, server) == Err::<
                Option<ReplyView>,
                ReplyError,
            >(error),
        },
{
    if server.is_unspecified() || server.is_broadcast() || server.is_multicast() {
        return Err(ReplyError::Server);
    }
    match packet.ip_option(54) {
        Some(ip) => {
            if ip != server {
                return Ok(None);
            }
        },
        None => {},
    }
    match choose_answer(packet, client.ip) {
        Some(message) => match make_answer(packet, client, config, server, message) {
            Ok(reply) => Ok(Some(reply)),
            Err(error) => Err(error),
        },
        None => Ok(None),
    }
}

} // verus!
