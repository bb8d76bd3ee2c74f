//! What a client finds in an answer, in plain bytes, numbers and addresses.
use crate::clients::Client;
use crate::config;
use crate::config::{Architecture, Config};
use crate::dhcp;
use crate::dhcp::{Arch, PacketView, Stage};
use crate::laws;
use crate::net::Ipv4Addr;
use crate::options;
use crate::reply;
use crate::reply::{ReplyError, ReplyView};
use crate::text;
use vstd::arithmetic::power2::*;
use vstd::prelude::*;
use vstd::string::*;
use vstd::utf8::*;

verus! {

/// The address `0.0.0.0`.
pub open spec fn unset() -> Ipv4Addr {
    Ipv4Addr { a: 0, b: 0, c: 0, d: 0 }
}

/// The address `255.255.255.255`.
pub open spec fn everybody() -> Ipv4Addr {
    Ipv4Addr { a: 255, b: 255, c: 255, d: 255 }
}

/// The four bytes of an address.
pub open spec fn octets(ip: Ipv4Addr) -> Seq<u8> {
    seq![ip.a, ip.b, ip.c, ip.d]
}

/// The number in two bytes.
pub open spec fn pair(s: Seq<u8>) -> int {
    s[0] * 256 + s[1]
}

/// The number in four bytes.
pub open spec fn quad(s: Seq<u8>) -> int {
    s[0] * 0x100_0000 + s[1] * 0x1_0000 + s[2] * 0x100 + s[3]
}

/// Whether a server can answer under that address: one host's, or at least no group's.
pub open spec fn usable(server: Ipv4Addr) -> bool {
    server != unset() && server != everybody() && !(224 <= server.a <= 239)
}

// ---------------------------------------------------------------------------
// Where answers go

/// A relayed message is answered to the relay's server port. A direct one is answered to
/// the client port: of the address that the client has, if it has one and is not refused,
/// and else of everybody.
pub proof fn law_destination(
    packet: PacketView,
    client: Client,
    config: Config,
    server: Ipv4Addr,
    reply: ReplyView,
)
    requires
        laws::answered(packet, client, config, server, reply),
    ensures
        packet.giaddr != unset() ==> reply.destination.port == 67 && reply.destination.ip
            == packet.giaddr,
        packet.giaddr == unset() ==> reply.destination.port == 68,
        packet.giaddr == unset() && packet.ciaddr != unset() && reply.message != 6
            ==> reply.destination.ip == packet.ciaddr,
        packet.giaddr == unset() && (packet.ciaddr == unset() || reply.message == 6)
            ==> reply.destination.ip == everybody(),
{
}

// ---------------------------------------------------------------------------
// Which messages are answered, and how

/// Whether a message is answered with that type, unless the answer cannot be built.
pub open spec fn answers_with(answer: Result<Option<ReplyView>, ReplyError>, message: u8) -> bool {
    match answer {
        Ok(Some(reply)) => reply.message == message,
        Ok(None) => false,
        Err(error) => !(error is Server),
    }
}

/// DISCOVER gets an OFFER. A REQUEST for an address gets an ACK if it is the one in the
/// client's row and a NAK if it is not; the address stands in option 50 for a client that
/// has none, and is its own for one that renews. INFORM gets an ACK if the client says
/// its address. Nothing else gets an answer.
pub proof fn law_kind_of_answer(
    packet: PacketView,
    client: Client,
    config: Config,
    server: Ipv4Addr,
)
    requires
        usable(server),
        packet.options.contains_key(54) ==> packet.options[54] == octets(server),
        packet.options.contains_key(50) ==> packet.options[50].len() == 4,
    ensures
        ({
            let answer = reply::reply_to(packet, client, config, server);
            let silence = Ok::<Option<ReplyView>, ReplyError>(None);
            let asks = packet.options.contains_key(50);
            let names = packet.options.contains_key(54);
            let fresh = packet.ciaddr == unset();
            let right = packet.options[50] == octets(client.ip);
            &&& packet.message == 1 ==> answers_with(answer, 2)
            &&& packet.message == 3 && fresh && asks && right ==> answers_with(answer, 5)
            &&& packet.message == 3 && fresh && asks && !right ==> answers_with(answer, 6)
            &&& packet.message == 3 && fresh && !asks ==> answer == silence
            &&& packet.message == 3 && !fresh && (asks || names) ==> answer == silence
            &&& packet.message == 3 && !fresh && !asks && !names && packet.ciaddr == client.ip
                ==> answers_with(answer, 5)
            &&& packet.message == 3 && !fresh && !asks && !names && packet.ciaddr != client.ip
                ==> answers_with(answer, 6)
            &&& packet.message == 8 && !fresh ==> answers_with(answer, 5)
            &&& packet.message == 8 && fresh ==> answer == silence
            &&& packet.message != 1 && packet.message != 3 && packet.message != 8 ==> answer
                == silence
        }),
{
    let named = packet.options[54];
    if packet.options.contains_key(54) {
        assert(named[0] == server.a && named[1] == server.b && named[2] == server.c && named[3]
            == server.d);
    }
    let asked = packet.options[50];
    if packet.options.contains_key(50) {
        assert(asked =~= octets(Ipv4Addr { a: asked[0], b: asked[1], c: asked[2], d: asked[3] }));
        if asked == octets(client.ip) {
            assert(asked[0] == client.ip.a && asked[1] == client.ip.b && asked[2] == client.ip.c
                && asked[3] == client.ip.d);
        }
    }
}

/// A message that names another server is left to it, and no answer goes out under an
/// address that is not one host's.
pub proof fn law_other_servers(
    packet: PacketView,
    client: Client,
    config: Config,
    server: Ipv4Addr,
)
    ensures
        usable(server) && packet.options.contains_key(54) && packet.options[54].len() == 4
            && packet.options[54] != octets(server) ==> reply::reply_to(
            packet,
            client,
            config,
            server,
        ) == Ok::<Option<ReplyView>, ReplyError>(None),
        !usable(server) <==> reply::reply_to(packet, client, config, server) == Err::<
            Option<ReplyView>,
            ReplyError,
        >(ReplyError::Server),
{
    let named = packet.options[54];
    if named.len() == 4 && named != octets(server) {
        assert(named =~= octets(Ipv4Addr { a: named[0], b: named[1], c: named[2], d: named[3] }));
    }
}

// ---------------------------------------------------------------------------
// The fixed part

/// The fixed part of every answer, byte by byte: a reply over Ethernet with the number,
/// the flags, the relay and the hardware address of the message; the client's own address
/// and the assigned one; the boot server and the boot file; and the cookie. A relayed NAK
/// asks for broadcast.
pub proof fn law_fixed_part(
    packet: PacketView,
    client: Client,
    config: Config,
    server: Ipv4Addr,
    reply: ReplyView,
)
    requires
        laws::answered(packet, client, config, server, reply),
    ensures
        ({
            let b = reply.bytes;
            let h = packet.header;
            let refused = reply.message == 6;
            &&& b.len() >= 300
            &&& b[0] == 2 && b[1] == 1 && b[2] == 6 && b[3] == 0
            &&& forall|i: int| 4 <= i < 8 ==> #[trigger] b[i] == h[i]
            &&& b[8] == 0 && b[9] == 0
            &&& !(refused && packet.giaddr != unset()) ==> b[10] == h[10]
            &&& refused && packet.giaddr != unset() ==> b[10] == h[10] | 0x80
            &&& b[11] == h[11]
            &&& forall|i: int| 12 <= i < 16 ==> #[trigger] b[i] == if refused {
                0u8
            } else {
                h[i]
            }
            &&& refused || packet.message == 8 ==> b[16] == 0 && b[17] == 0 && b[18] == 0 && b[19]
                == 0
            &&& !(refused || packet.message == 8) ==> b[16] == client.ip.a && b[17] == client.ip.b
                && b[18] == client.ip.c && b[19] == client.ip.d
            &&& reply.boot_file is None ==> b[20] == 0 && b[21] == 0 && b[22] == 0 && b[23] == 0
            &&& reply.boot_file is Some ==> b[20] == config.boot.tftp_server.a && b[21]
                == config.boot.tftp_server.b && b[22] == config.boot.tftp_server.c && b[23]
                == config.boot.tftp_server.d
            &&& forall|i: int| 24 <= i < 44 ==> #[trigger] b[i] == h[i]
            &&& forall|i: int| 44 <= i < 108 ==> #[trigger] b[i] == 0
            &&& b[236] == 99 && b[237] == 130 && b[238] == 83 && b[239] == 99
        }),
{
    laws::lemma_header(packet, client, config, server, reply);
}

/// The boot file's name stands in the `file` field, with zeros behind it, where it is
/// short enough to end with one; a longer name stands in the options alone.
pub proof fn law_file_field(
    packet: PacketView,
    client: Client,
    config: Config,
    server: Ipv4Addr,
    reply: ReplyView,
    i: int,
)
    requires
        laws::answered(packet, client, config, server, reply),
        0 <= i < 128,
    ensures
        reply.boot_file is None ==> reply.bytes[108 + i] == 0,
        reply.boot_file is Some ==> ({
            let name = encode_utf8(reply.boot_file->0);
            reply.bytes[108 + i] == if name.len() <= 127 && i < name.len() {
                name[i]
            } else {
                0u8
            }
        }),
{
    laws::lemma_header(packet, client, config, server, reply);
}

// ---------------------------------------------------------------------------
// The settings

proof fn lemma_be32(n: u32)
    ensures
        options::be32(n).len() == 4,
        quad(options::be32(n)) == n,
{
}

proof fn lemma_be16(n: u16)
    ensures
        options::be16(n).len() == 2,
        pair(options::be16(n)) == n,
{
}

proof fn lemma_groups(
    packet: PacketView,
    client: Client,
    config: Config,
    server: Ipv4Addr,
    reply: ReplyView,
)
    requires
        laws::answered(packet, client, config, server, reply),
        reply.message != 6,
    ensures
        ({
            let read = laws::sent(reply);
            let lease = reply::lease_options(config.dhcp.lease_seconds);
            let host = options::collect(reply::host_options(client));
            let service = options::collect(reply::service_options(packet.options, config));
            let boot = options::collect(
                reply::boot_options(config.boot.tftp_server, reply.boot_file),
            );
            &&& forall|c: u8|
                c == 1 || c == 12 || c == 15 || c == 26 ==> (#[trigger] read.contains_key(c)
                    <==> host.contains_key(c)) && (host.contains_key(c) ==> read[c] == host[c])
            &&& forall|c: u8|
                c == 101 || c == 6 || c == 42 ==> (#[trigger] read.contains_key(c)
                    <==> service.contains_key(c)) && (service.contains_key(c) ==> read[c]
                    == service[c])
            &&& forall|c: u8|
                c == 66 || c == 67 ==> (#[trigger] read.contains_key(c) <==> boot.contains_key(c))
                    && (boot.contains_key(c) ==> read[c] == boot[c])
        }),
{
    laws::lemma_sent_settings(packet, client, config, server, reply);
    laws::lemma_leading(packet.options, server, reply.message);
    laws::lemma_lease(config.dhcp.lease_seconds);
    laws::lemma_host(client);
    laws::lemma_service(packet.options, config);
    laws::lemma_routes(packet.options, config.client_options.classless_routes@, client.gateway);
    laws::lemma_boot(config.boot.tftp_server, reply.boot_file);
}

/// Every OFFER and ACK tells the client its netmask, and its host name, domain and MTU as
/// far as its row has them.
pub proof fn law_host_settings(
    packet: PacketView,
    client: Client,
    config: Config,
    server: Ipv4Addr,
    reply: ReplyView,
)
    requires
        laws::answered(packet, client, config, server, reply),
        reply.message != 6,
        1 <= client.prefix_length <= 32,
    ensures
        ({
            let read = laws::sent(reply);
            &&& read.contains_key(1) && read[1].len() == 4
            &&& quad(read[1]) == pow2(32) - pow2((32 - client.prefix_length) as nat)
            &&& client.hostname@.len() > 0 ==> read.contains_key(12) && read[12] == encode_utf8(
                client.hostname@,
            )
            &&& client.domain@.len() > 0 ==> read.contains_key(15) && read[15] == encode_utf8(
                client.domain@,
            )
            &&& client.hostname@.len() == 0 ==> !read.contains_key(12)
            &&& client.domain@.len() == 0 ==> !read.contains_key(15)
            &&& client.mtu is None ==> !read.contains_key(26)
            &&& client.mtu is Some ==> read.contains_key(26) && read[26].len() == 2 && pair(
                read[26],
            ) == client.mtu->0
        }),
{
    lemma_groups(packet, client, config, server, reply);
    laws::lemma_host(client);
    crate::net::lemma_block(client.prefix_length as nat);
    lemma2_to64();
    text::lemma_encode_utf8_empty(client.hostname@);
    text::lemma_encode_utf8_empty(client.domain@);
    lemma_be32((0x1_0000_0000 - pow2((32 - client.prefix_length) as nat)) as u32);
    if client.mtu is Some {
        lemma_be16(client.mtu->0);
    }
    assert(laws::sent(reply).contains_key(1));
    assert(laws::sent(reply).contains_key(12) == (encode_utf8(client.hostname@).len() > 0));
    assert(laws::sent(reply).contains_key(15) == (encode_utf8(client.domain@).len() > 0));
    assert(laws::sent(reply).contains_key(26) == (client.mtu is Some));
}

/// Whether `value` is the list of these addresses, four bytes each.
pub open spec fn lists(value: Seq<u8>, ips: Seq<Ipv4Addr>) -> bool {
    &&& value.len() == 4 * ips.len()
    &&& forall|i: int|
        0 <= i < ips.len() ==> value[4 * i] == (#[trigger] ips[i]).a && value[4 * i + 1] == ips[i].b
            && value[4 * i + 2] == ips[i].c && value[4 * i + 3] == ips[i].d
}

proof fn lemma_lists(ips: Seq<Ipv4Addr>)
    ensures
        lists(reply::addresses(ips), ips),
    decreases ips.len(),
{
    if ips.len() > 0 {
        lemma_lists(ips.drop_last());
        let front = reply::addresses(ips.drop_last());
        let all = reply::addresses(ips);
        assert(all == front + ips.last().bytes());
        assert forall|i: int| 0 <= i < ips.len() implies all[4 * i] == (#[trigger] ips[i]).a && all[4
            * i + 1] == ips[i].b && all[4 * i + 2] == ips[i].c && all[4 * i + 3] == ips[i].d by {
            if i < ips.len() - 1 {
                assert(ips.drop_last()[i] == ips[i]);
            }
        }
    }
}

/// Every OFFER and ACK lists the configured DNS and NTP servers in order, and names the
/// time zone to a client that asks for it.
pub proof fn law_service_settings(
    packet: PacketView,
    client: Client,
    config: Config,
    server: Ipv4Addr,
    reply: ReplyView,
)
    requires
        laws::answered(packet, client, config, server, reply),
        reply.message != 6,
    ensures
        ({
            let read = laws::sent(reply);
            let dns = config.client_options.dns@;
            let ntp = config.client_options.ntp@;
            let zone = config.client_options.timezone@;
            let wanted = packet.options.contains_key(55) && exists|i: int|
                0 <= i < packet.options[55].len() && #[trigger] packet.options[55][i] == 101;
            &&& read.contains_key(6) <==> dns.len() > 0
            &&& read.contains_key(6) ==> lists(read[6], dns)
            &&& read.contains_key(42) <==> ntp.len() > 0
            &&& read.contains_key(42) ==> lists(read[42], ntp)
            &&& read.contains_key(101) <==> wanted && zone.len() > 0
            &&& read.contains_key(101) ==> read[101] == encode_utf8(zone)
        }),
{
    lemma_groups(packet, client, config, server, reply);
    laws::lemma_service(packet.options, config);
    lemma_lists(config.client_options.dns@);
    lemma_lists(config.client_options.ntp@);
    text::lemma_encode_utf8_empty(config.client_options.timezone@);
    let list = packet.options[55];
    assert(list.contains(101) <==> exists|i: int| 0 <= i < list.len() && #[trigger] list[i] == 101);
    assert(laws::sent(reply).contains_key(6) == (config.client_options.dns@.len() > 0));
    assert(laws::sent(reply).contains_key(42) == (config.client_options.ntp@.len() > 0));
    assert(laws::sent(reply).contains_key(101) == (dhcp::requests(packet.options, 101)
        && encode_utf8(config.client_options.timezone@).len() > 0));
}

/// A lease lasts the configured time; where that is eight seconds or more it is to be
/// renewed after half of it and rebound after seven eighths. INFORM gets no lease.
pub proof fn law_lease_times(
    packet: PacketView,
    client: Client,
    config: Config,
    server: Ipv4Addr,
    reply: ReplyView,
)
    requires
        laws::answered(packet, client, config, server, reply),
        reply.message != 6,
    ensures
        ({
            let read = laws::sent(reply);
            let lease = config.dhcp.lease_seconds as int;
            &&& read.contains_key(51) <==> packet.message != 8
            &&& read.contains_key(58) <==> packet.message != 8 && lease >= 8
            &&& read.contains_key(59) <==> packet.message != 8 && lease >= 8
            &&& read.contains_key(51) ==> read[51].len() == 4 && quad(read[51]) == lease
            &&& read.contains_key(58) ==> read[58].len() == 4 && quad(read[58]) == lease / 2
            &&& read.contains_key(59) ==> read[59].len() == 4 && quad(read[59]) == lease * 7 / 8
        }),
{
    laws::lemma_sent_settings(packet, client, config, server, reply);
    laws::lemma_leading(packet.options, server, reply.message);
    laws::lemma_lease(config.dhcp.lease_seconds);
    laws::lemma_host(client);
    laws::lemma_service(packet.options, config);
    laws::lemma_routes(packet.options, config.client_options.classless_routes@, client.gateway);
    laws::lemma_boot(config.boot.tftp_server, reply.boot_file);
    let lease = config.dhcp.lease_seconds;
    lemma_be32(lease);
    lemma_be32(lease / 2);
    lemma_be32((lease * 7 / 8) as u32);
}

/// Every answer names its type and the server and gives the client identifier back.
pub proof fn law_named_parties(
    packet: PacketView,
    client: Client,
    config: Config,
    server: Ipv4Addr,
    reply: ReplyView,
)
    requires
        laws::answered(packet, client, config, server, reply),
    ensures
        ({
            let read = laws::sent(reply);
            let identified = packet.options.contains_key(61) && packet.options[61].len() > 0;
            &&& read.contains_key(53) && read[53] == seq![reply.message]
            &&& read.contains_key(54) && read[54] == octets(server)
            &&& read.contains_key(61) <==> identified
            &&& read.contains_key(61) ==> read[61] == packet.options[61]
        }),
{
    laws::lemma_leading(packet.options, server, reply.message);
    assert(server.bytes() =~= octets(server));
    if reply.message == 6 {
        laws::lemma_sent_nak(packet, client, config, server, reply);
    } else {
        laws::lemma_sent_settings(packet, client, config, server, reply);
        laws::lemma_lease(config.dhcp.lease_seconds);
        laws::lemma_host(client);
        laws::lemma_service(packet.options, config);
        laws::lemma_routes(packet.options, config.client_options.classless_routes@, client.gateway);
        laws::lemma_boot(config.boot.tftp_server, reply.boot_file);
        assert(laws::sent(reply).contains_key(61) == options::collect(
            reply::leading_options(packet.options, server, reply.message),
        ).contains_key(61));
    }
}

/// A client that asks for the specific routes and is not a machine's firmware gets them,
/// and no default gateway; any other gets its gateway, and no specific routes.
pub proof fn law_routes_or_gateway(
    packet: PacketView,
    client: Client,
    config: Config,
    server: Ipv4Addr,
    reply: ReplyView,
)
    requires
        laws::answered(packet, client, config, server, reply),
        reply.message != 6,
        config.client_options.classless_routes@.len() > 0,
    ensures
        ({
            let read = laws::sent(reply);
            let stage = dhcp::stage(packet.options).0;
            let wanted = packet.options.contains_key(55) && exists|i: int|
                0 <= i < packet.options[55].len() && #[trigger] packet.options[55][i] == 121;
            let specific = wanted && stage != Stage::Bios && stage != Stage::Uefi;
            &&& read.contains_key(121) <==> specific
            &&& read.contains_key(3) <==> !specific
            &&& read.contains_key(3) ==> read[3] == octets(client.gateway)
        }),
{
    laws::law_route_policy(packet, client, config, server, reply);
    assert(client.gateway.bytes() =~= octets(client.gateway));
    let list = packet.options[55];
    assert(list.contains(121) <==> exists|i: int| 0 <= i < list.len() && #[trigger] list[i] == 121);
}

// ---------------------------------------------------------------------------
// Boot files

/// The text of a file's name, if there is one.
pub open spec fn name_in(file: Option<String>) -> Option<Seq<char>> {
    match file {
        Some(name) => Some(name@),
        None => None,
    }
}

/// Whether `i` is the first architecture of that name.
pub open spec fn first_named(list: Seq<Architecture>, i: int, name: Seq<char>) -> bool {
    &&& 0 <= i < list.len()
    &&& list[i].name@ == name
    &&& forall|j: int| 0 <= j < i ==> (#[trigger] list[j]).name@ != name
}

proof fn lemma_first_named(list: Seq<Architecture>, i: int, name: Seq<char>)
    requires
        first_named(list, i, name),
    ensures
        config::files_of(list, name) == Some(list[i].files),
    decreases list.len(),
{
    if i > 0 {
        assert(list[0].name@ != name);
        let rest = list.skip(1);
        assert forall|j: int| 0 <= j < i - 1 implies (#[trigger] rest[j]).name@ != name by {
            assert(list[j + 1].name@ != name);
        }
        lemma_first_named(rest, i - 1, name);
    }
}

proof fn lemma_none_named(list: Seq<Architecture>, name: Seq<char>)
    requires
        forall|j: int| 0 <= j < list.len() ==> (#[trigger] list[j]).name@ != name,
    ensures
        config::files_of(list, name) is None,
    decreases list.len(),
{
    if list.len() > 0 {
        assert(list[0].name@ != name);
        let rest = list.skip(1);
        assert forall|j: int| 0 <= j < rest.len() implies (#[trigger] rest[j]).name@ != name by {
            assert(list[j + 1].name@ != name);
        }
        lemma_none_named(rest, name);
    }
}

/// An OFFER or ACK names the configured boot file of the client's architecture: to iPXE
/// its script, and to a machine's firmware the file of the mode in its row. An operating
/// system, and a client of which no more is known, gets none.
pub proof fn law_configured_file_is_named(
    packet: PacketView,
    client: Client,
    config: Config,
    server: Ipv4Addr,
    reply: ReplyView,
    i: int,
)
    requires
        laws::answered(packet, client, config, server, reply),
        reply.message != 6,
        dhcp::stage(packet.options).1 == Arch::X86_64 ==> first_named(
            config.boot.architectures@,
            i,
            "x86_64"@,
        ),
        dhcp::stage(packet.options).1 == Arch::Arm64 ==> first_named(
            config.boot.architectures@,
            i,
            "arm64"@,
        ),
    ensures
        ({
            let (stage, arch) = dhcp::stage(packet.options);
            let files = config.boot.architectures@[i].files;
            let known = arch == Arch::X86_64 || arch == Arch::Arm64;
            &&& known && stage == Stage::Ipxe ==> reply.boot_file == name_in(files.ipxe_file)
            &&& known && (stage == Stage::Bios || stage == Stage::Uefi) && client.boot_type@
                == "bios"@ ==> reply.boot_file == name_in(files.bios_file)
            &&& known && (stage == Stage::Bios || stage == Stage::Uefi) && client.boot_type@
                == "uefi"@ ==> reply.boot_file == name_in(files.uefi_file)
            &&& stage == Stage::Os || stage == Stage::Unknown ==> reply.boot_file is None
        }),
{
    let (stage, arch) = dhcp::stage(packet.options);
    if arch == Arch::X86_64 {
        lemma_first_named(config.boot.architectures@, i, "x86_64"@);
    }
    if arch == Arch::Arm64 {
        lemma_first_named(config.boot.architectures@, i, "arm64"@);
    }
    reveal_strlit("bios");
    reveal_strlit("uefi");
    assert("bios"@[0] != "uefi"@[0]);
}

/// A client of an architecture that is not configured gets no boot file.
pub proof fn law_no_file_without_configuration(
    packet: PacketView,
    client: Client,
    config: Config,
    server: Ipv4Addr,
    reply: ReplyView,
)
    requires
        laws::answered(packet, client, config, server, reply),
        forall|j: int|
            0 <= j < config.boot.architectures@.len() ==> (
            #[trigger] config.boot.architectures@[j]).name@ != dhcp::arch_name(
                dhcp::stage(packet.options).1,
            ),
    ensures
        reply.boot_file is None,
{
    lemma_none_named(config.boot.architectures@, dhcp::arch_name(dhcp::stage(packet.options).1));
}

/// The options of a boot file are the boot server and the file's name; without a file the
/// client reads neither.
pub proof fn law_boot_options(
    packet: PacketView,
    client: Client,
    config: Config,
    server: Ipv4Addr,
    reply: ReplyView,
)
    requires
        laws::answered(packet, client, config, server, reply),
        reply.message != 6,
    ensures
        ({
            let read = laws::sent(reply);
            let host = encode_utf8(config.boot.tftp_server.text());
            &&& reply.boot_file is None ==> !read.contains_key(66) && !read.contains_key(67)
            &&& reply.boot_file is Some && host.len() > 0 ==> read.contains_key(66) && read[66]
                == host
            &&& reply.boot_file is Some && reply.boot_file->0.len() > 0 ==> read.contains_key(67)
                && read[67] == encode_utf8(reply.boot_file->0)
        }),
{
    lemma_groups(packet, client, config, server, reply);
    laws::lemma_boot(config.boot.tftp_server, reply.boot_file);
    if reply.boot_file is Some {
        text::lemma_encode_utf8_empty(reply.boot_file->0);
    }
    let boot = options::collect(reply::boot_options(config.boot.tftp_server, reply.boot_file));
    assert(laws::sent(reply).contains_key(66) == boot.contains_key(66));
    assert(laws::sent(reply).contains_key(67) == boot.contains_key(67));
}

// ---------------------------------------------------------------------------
// Lengths

/// How many bytes an option of that length takes: a code and a length in front of each
/// piece of up to 255 bytes.
pub open spec fn taken(n: nat) -> nat {
    n + 2 * ((n + 254) / 255)
}

/// How many bytes the options of a NAK take, with the end but without the relay's.
pub open spec fn bare_len(packet: PacketView) -> nat {
    10 + if packet.options.contains_key(61) {
        taken(packet.options[61].len())
    } else {
        0
    }
}

/// How many bytes the options of an OFFER or ACK take, with the end but without the
/// relay's.
pub open spec fn settings_len(packet: PacketView, client: Client, config: Config) -> nat {
    let stage = dhcp::stage(packet.options).0;
    let file = reply::boot_file(packet.options, client.boot_type@, config.boot.architectures@);
    let wishes = packet.options[55];
    let has_wishes = packet.options.contains_key(55);
    bare_len(packet) + (if packet.message == 8 {
        0
    } else if config.dhcp.lease_seconds >= 8 {
        18nat
    } else {
        6
    }) + 6 + taken(encode_utf8(client.hostname@).len()) + taken(encode_utf8(client.domain@).len())
        + (if client.mtu is Some {
        4nat
    } else {
        0
    }) + (if has_wishes && wishes.contains(101) {
        taken(encode_utf8(config.client_options.timezone@).len())
    } else {
        0
    }) + taken(4 * config.client_options.dns@.len()) + taken(4 * config.client_options.ntp@.len())
        + (if has_wishes && wishes.contains(121) && stage != Stage::Bios && stage != Stage::Uefi {
        taken(
            reply::routes_value(
                config.client_options.classless_routes@,
                client.gateway,
            )->Ok_0.len(),
        )
    } else {
        6
    }) + (match file {
        Some(name) => taken(encode_utf8(config.boot.tftp_server.text()).len()) + taken(
            encode_utf8(name).len(),
        ),
        None => 0,
    })
}

/// The longest answer that the client takes: 576 bytes, or what its option 57 says if
/// that is more.
pub open spec fn limit(packet: PacketView) -> int {
    if packet.options.contains_key(57) && pair(packet.options[57]) > 576 {
        pair(packet.options[57])
    } else {
        576
    }
}

proof fn lemma_one(code: u8, value: Seq<u8>)
    ensures
        options::encode_all(seq![(code, value)]).len() == taken(value.len()),
{
    let none = Seq::<(u8, Seq<u8>)>::empty();
    options::lemma_encode_all_push(none, code, value);
    options::lemma_encode_len(code, value);
    assert(none.push((code, value)) =~= seq![(code, value)]);
}

proof fn lemma_push(list: Seq<(u8, Seq<u8>)>, code: u8, value: Seq<u8>)
    ensures
        options::encode_all(list.push((code, value))).len() == options::encode_all(list).len()
            + taken(value.len()),
{
    options::lemma_encode_all_push(list, code, value);
    options::lemma_encode_len(code, value);
}

proof fn lemma_bare_len(packet: PacketView, server: Ipv4Addr, message: u8)
    ensures
        options::encode_all(reply::leading_options(packet.options, server, message)).len() + 1
            == bare_len(packet),
{
    laws::lemma_leading_len(packet.options, server, message);
    if packet.options.contains_key(61) {
        options::lemma_encode_len(61, packet.options[61]);
    }
}

proof fn lemma_lease_len(lease: u32)
    ensures
        options::encode_all(reply::lease_options(lease)).len() == if lease >= 8 {
            18nat
        } else {
            6
        },
{
    let group = reply::lease_options(lease);
    let none = Seq::<(u8, Seq<u8>)>::empty();
    let one = none.push((51u8, options::be32(lease)));
    lemma_push(none, 51, options::be32(lease));
    if lease >= 8 {
        let renew = options::be32(lease / 2);
        let rebind = options::be32((lease * 7 / 8) as u32);
        lemma_push(one, 58, renew);
        lemma_push(one.push((58u8, renew)), 59, rebind);
        assert(group =~= one.push((58u8, renew)).push((59u8, rebind)));
    } else {
        assert(group =~= one);
    }
}

proof fn lemma_host_len(client: Client)
    ensures
        options::encode_all(reply::host_options(client)).len() == 6 + taken(
            encode_utf8(client.hostname@).len(),
        ) + taken(encode_utf8(client.domain@).len()) + if client.mtu is Some {
            4nat
        } else {
            0
        },
{
    let group = reply::host_options(client);
    let none = Seq::<(u8, Seq<u8>)>::empty();
    let mask = group[0].1;
    let hostname = encode_utf8(client.hostname@);
    let domain = encode_utf8(client.domain@);
    let one = none.push((1u8, mask));
    let two = one.push((12u8, hostname));
    let three = two.push((15u8, domain));
    lemma_push(none, 1, mask);
    lemma_push(one, 12, hostname);
    lemma_push(two, 15, domain);
    match client.mtu {
        Some(mtu) => {
            lemma_push(three, 26, options::be16(mtu));
            assert(group =~= three.push((26u8, options::be16(mtu))));
        },
        None => {
            assert(group =~= three);
        },
    }
}

proof fn lemma_service_len(packet: PacketView, config: Config)
    ensures
        options::encode_all(reply::service_options(packet.options, config)).len() == (
        if packet.options.contains_key(55) && packet.options[55].contains(101) {
            taken(encode_utf8(config.client_options.timezone@).len())
        } else {
            0
        }) + taken(4 * config.client_options.dns@.len()) + taken(
            4 * config.client_options.ntp@.len(),
        ),
{
    let group = reply::service_options(packet.options, config);
    let none = Seq::<(u8, Seq<u8>)>::empty();
    let zone = encode_utf8(config.client_options.timezone@);
    let dns = reply::addresses(config.client_options.dns@);
    let ntp = reply::addresses(config.client_options.ntp@);
    lemma_lists(config.client_options.dns@);
    lemma_lists(config.client_options.ntp@);
    let first = if dhcp::requests(packet.options, 101) {
        none.push((101u8, zone))
    } else {
        none
    };
    lemma_push(none, 101, zone);
    lemma_push(first, 6, dns);
    lemma_push(first.push((6u8, dns)), 42, ntp);
    assert(group =~= first.push((6u8, dns)).push((42u8, ntp)));
}

proof fn lemma_boot_len(tftp_server: Ipv4Addr, file: Option<Seq<char>>)
    ensures
        options::encode_all(reply::boot_options(tftp_server, file)).len() == match file {
            Some(name) => taken(encode_utf8(tftp_server.text()).len()) + taken(
                encode_utf8(name).len(),
            ),
            None => 0,
        },
{
    let group = reply::boot_options(tftp_server, file);
    match file {
        Some(name) => {
            let none = Seq::<(u8, Seq<u8>)>::empty();
            let host = encode_utf8(tftp_server.text());
            lemma_push(none, 66, host);
            lemma_push(none.push((66u8, host)), 67, encode_utf8(name));
            assert(group =~= none.push((66u8, host)).push((67u8, encode_utf8(name))));
        },
        None => {},
    }
}

proof fn lemma_own_len(
    packet: PacketView,
    client: Client,
    config: Config,
    server: Ipv4Addr,
    message: u8,
)
    requires
        message != 6,
        reply::answer_options(packet, client, config, server, message) is Ok,
    ensures
        options::encode_all(laws::own(packet, client, config, server, message)).len() + 1
            == settings_len(packet, client, config),
{
    let leading = reply::leading_options(packet.options, server, message);
    let lease = if packet.message == 8 {
        Seq::empty()
    } else {
        reply::lease_options(config.dhcp.lease_seconds)
    };
    let host = reply::host_options(client);
    let service = reply::service_options(packet.options, config);
    let routes = reply::route_options(
        packet.options,
        config.client_options.classless_routes@,
        client.gateway,
    )->Ok_0;
    let file = reply::boot_file(packet.options, client.boot_type@, config.boot.architectures@);
    let boot = reply::boot_options(config.boot.tftp_server, file);
    options::lemma_encode_all_add(leading, lease);
    options::lemma_encode_all_add(leading + lease, host);
    options::lemma_encode_all_add(leading + lease + host, service);
    options::lemma_encode_all_add(leading + lease + host + service, routes);
    options::lemma_encode_all_add(leading + lease + host + service + routes, boot);
    lemma_bare_len(packet, server, message);
    lemma_lease_len(config.dhcp.lease_seconds);
    lemma_host_len(client);
    lemma_service_len(packet, config);
    lemma_boot_len(config.boot.tftp_server, file);
    lemma_one(3, client.gateway.bytes());
    lemma_one(
        121,
        reply::routes_value(config.client_options.classless_routes@, client.gateway)->Ok_0,
    );
}

/// How many bytes an answer of that type needs, without the relay's option.
pub open spec fn needed(packet: PacketView, client: Client, config: Config, message: u8) -> nat {
    240 + if message == 6 {
        bare_len(packet)
    } else {
        settings_len(packet, client, config)
    }
}

/// A message is answered whenever the answer fits into what the client takes; the relay's
/// option is added whenever it fits too, and only then left out; and no answer is shorter
/// than 300 bytes. A message whose answer does not fit is refused with the limit.
pub proof fn law_answers_that_fit_are_sent(
    packet: PacketView,
    client: Client,
    config: Config,
    server: Ipv4Addr,
    message: u8,
)
    requires
        usable(server),
        packet.options.contains_key(54) ==> packet.options[54] == octets(server),
        reply::answer_type(packet, client.ip) == Some(message),
        message != 6 ==> reply::answer_options(packet, client, config, server, message) is Ok,
    ensures
        ({
            let need = needed(packet, client, config, message) as int;
            let relayed = packet.giaddr != unset() && packet.options.contains_key(82);
            let more = taken(packet.options[82].len()) as int;
            let answer = reply::reply_to(packet, client, config, server);
            &&& need > limit(packet) ==> answer == Err::<Option<ReplyView>, ReplyError>(
                ReplyError::TooLong(limit(packet) as usize),
            )
            &&& need <= limit(packet) ==> answer is Ok && answer->Ok_0 is Some && ({
                let reply = answer->Ok_0->0;
                let whole = if relayed && need + more <= limit(packet) {
                    need + more
                } else {
                    need
                };
                &&& reply.relay_option_omitted == (relayed && need + more > limit(packet))
                &&& reply.bytes.len() == if whole < 300 {
                    300
                } else {
                    whole
                }
            })
        }),
{
    let named = packet.options[54];
    if packet.options.contains_key(54) {
        assert(named[0] == server.a && named[1] == server.b && named[2] == server.c && named[3]
            == server.d);
    }
    let list = laws::own(packet, client, config, server, message);
    if message == 6 {
        lemma_bare_len(packet, server, message);
    } else {
        lemma_own_len(packet, client, config, server, message);
    }
    options::lemma_encode_len(82, packet.options[82]);
    lemma_push(list, 82, packet.options[82]);
}

/// The options of every answer begin with its type and the server and end with the
/// relay's, if it is there; behind them stands the end mark, and behind that nothing but
/// zeros.
pub proof fn law_order_of_options(
    packet: PacketView,
    client: Client,
    config: Config,
    server: Ipv4Addr,
    message: u8,
    reply: ReplyView,
    i: int,
)
    requires
        laws::answered(packet, client, config, server, reply),
        message == reply.message,
    ensures
        ({
            let need = needed(packet, client, config, message) as int;
            let relay = packet.options[82];
            let relayed = packet.giaddr != unset() && packet.options.contains_key(82)
                && !reply.relay_option_omitted;
            let end = if relayed {
                need + taken(relay.len())
            } else {
                need
            };
            &&& end <= reply.bytes.len()
            &&& reply.bytes.subrange(240, 243) == seq![53u8, 1, message]
            &&& reply.bytes.subrange(243, 249) == seq![54u8, 4] + octets(server)
            &&& reply.bytes[end - 1] == 255
            &&& end <= i < reply.bytes.len() ==> reply.bytes[i] == 0
            &&& relayed && 1 <= relay.len() <= 255 ==> reply.bytes.subrange(
                end - 3 - relay.len(),
                end - 1,
            ) == seq![82u8, relay.len() as u8] + relay
        }),
{
    let start = options::encode_all(laws::own(packet, client, config, server, message));
    let header = lemma_shape(packet, client, config, server, reply);
    lemma_needed(packet, client, config, server, message);
    lemma_first_options(packet, client, config, server, message);
    lemma_order(packet, server, reply, header, start, i);
}

proof fn lemma_needed(
    packet: PacketView,
    client: Client,
    config: Config,
    server: Ipv4Addr,
    message: u8,
)
    requires
        message != 6 ==> reply::answer_options(packet, client, config, server, message) is Ok,
    ensures
        241 + options::encode_all(laws::own(packet, client, config, server, message)).len()
            == needed(packet, client, config, message),
{
    if message == 6 {
        lemma_bare_len(packet, server, message);
    } else {
        lemma_own_len(packet, client, config, server, message);
    }
}

proof fn lemma_order(
    packet: PacketView,
    server: Ipv4Addr,
    reply: ReplyView,
    header: Seq<u8>,
    start: Seq<u8>,
    i: int,
)
    requires
        header.len() == 240,
        start.len() >= 9,
        start.take(9) == seq![53u8, 1, reply.message, 54, 4] + octets(server),
        reply.bytes == reply::padded((header + (start + relay_piece(packet, reply))).push(255)),
    ensures
        ({
            let need = 241 + start.len() as int;
            let message = reply.message;
            let relay = packet.options[82];
            let relayed = packet.giaddr != unset() && packet.options.contains_key(82)
                && !reply.relay_option_omitted;
            let end = if relayed {
                need + taken(relay.len())
            } else {
                need
            };
            &&& end <= reply.bytes.len()
            &&& reply.bytes.subrange(240, 243) == seq![53u8, 1, message]
            &&& reply.bytes.subrange(243, 249) == seq![54u8, 4] + octets(server)
            &&& reply.bytes[end - 1] == 255
            &&& end <= i < reply.bytes.len() ==> reply.bytes[i] == 0
            &&& relayed && 1 <= relay.len() <= 255 ==> reply.bytes.subrange(
                end - 3 - relay.len(),
                end - 1,
            ) == seq![82u8, relay.len() as u8] + relay
        }),
{
    let message = reply.message;
    let relay = packet.options[82];
    options::lemma_encode_len(82, relay);
    let relayed = packet.giaddr != unset() && packet.options.contains_key(82)
        && !reply.relay_option_omitted;
    let first = seq![53u8, 1, message, 54, 4] + octets(server);
    let more = relay_piece(packet, reply);
    lemma_layout(header, start, more, first, i);
    assert(first.subrange(0, 3) =~= seq![53u8, 1, message]);
    assert(first.subrange(3, 9) =~= seq![54u8, 4] + octets(server));
    if relayed && 1 <= relay.len() <= 255 {
        assert(more =~= seq![82u8, relay.len() as u8] + relay);
    }
}

/// The bytes of the relay's option in an answer.
spec fn relay_piece(packet: PacketView, reply: ReplyView) -> Seq<u8> {
    if packet.giaddr != unset() && packet.options.contains_key(82) && !reply.relay_option_omitted {
        options::encode(82, packet.options[82])
    } else {
        Seq::empty()
    }
}

proof fn lemma_shape(
    packet: PacketView,
    client: Client,
    config: Config,
    server: Ipv4Addr,
    reply: ReplyView,
) -> (header: Seq<u8>)
    requires
        laws::answered(packet, client, config, server, reply),
    ensures
        reply.message != 6 ==> reply::answer_options(
            packet,
            client,
            config,
            server,
            reply.message,
        ) is Ok,
        header.len() == 240,
        reply.bytes == reply::padded(
            (header + (options::encode_all(
                laws::own(packet, client, config, server, reply.message),
            ) + relay_piece(packet, reply))).push(255),
        ),
{
    let message = reply.message;
    let list = laws::own(packet, client, config, server, message);
    options::lemma_encode_all_push(list, 82, packet.options[82]);
    let start = options::encode_all(list);
    assert(start + Seq::<u8>::empty() =~= start);
    let file = if message == 6 {
        None
    } else {
        reply::boot_file(packet.options, client.boot_type@, config.boot.architectures@)
    };
    reply::answer_header(packet, message, client.ip, config.boot.tftp_server, file)
}

proof fn lemma_layout(header: Seq<u8>, start: Seq<u8>, more: Seq<u8>, first: Seq<u8>, i: int)
    requires
        header.len() == 240,
        first.len() == 9,
        start.len() >= 9,
        start.take(9) == first,
    ensures
        ({
            let bytes = reply::padded((header + (start + more)).push(255));
            let end = 241 + start.len() + more.len();
            &&& end <= bytes.len()
            &&& bytes.subrange(240, 243) == first.subrange(0, 3)
            &&& bytes.subrange(243, 249) == first.subrange(3, 9)
            &&& bytes[end - 1] == 255
            &&& end <= i < bytes.len() ==> bytes[i] == 0
            &&& bytes.subrange(240 + start.len() as int, end - 1) == more
        }),
{
    let bytes = reply::padded((header + (start + more)).push(255));
    assert forall|j: int| 0 <= j < 9 implies bytes[240 + j] == #[trigger] first[j] by {
        assert(start.take(9)[j] == start[j]);
    }
    assert(bytes.subrange(240, 243) =~= first.subrange(0, 3));
    assert forall|j: int| 0 <= j < 6 implies bytes.subrange(243, 249)[j] == first.subrange(3, 9)[j] by {
        assert(bytes[240 + (3 + j)] == first[3 + j]);
    }
    assert(bytes.subrange(243, 249) =~= first.subrange(3, 9));
    assert(bytes.subrange(240 + start.len() as int, 240 + start.len() + more.len() as int) =~= more);
}

proof fn lemma_first_options(
    packet: PacketView,
    client: Client,
    config: Config,
    server: Ipv4Addr,
    message: u8,
)
    requires
        message != 6 ==> reply::answer_options(packet, client, config, server, message) is Ok,
    ensures
        options::encode_all(laws::own(packet, client, config, server, message)).len() >= 9,
        options::encode_all(laws::own(packet, client, config, server, message)).take(9) == seq![
            53u8,
            1,
            message,
            54,
            4,
        ] + octets(server),
{
    let list = laws::own(packet, client, config, server, message);
    let none = Seq::<(u8, Seq<u8>)>::empty();
    let kind = seq![message];
    let name = server.bytes();
    let two = none.push((53u8, kind)).push((54u8, name));
    options::lemma_encode_all_push(none, 53, kind);
    options::lemma_encode_all_push(none.push((53u8, kind)), 54, name);
    assert(options::encode_all(none) =~= Seq::<u8>::empty());
    assert(options::encode(53, kind) =~= seq![53u8, 1, message]);
    assert(options::encode(54, name) =~= seq![54u8, 4] + octets(server));
    let first = seq![53u8, 1, message, 54, 4] + octets(server);
    assert(options::encode_all(two) =~= first);
    let rest = list.skip(2);
    assert(list =~= two + rest);
    options::lemma_encode_all_add(two, rest);
    assert((first + options::encode_all(rest)).take(9) =~= first);
}

/// The relay's option comes back unchanged unless it was left out; a message without a
/// relay is answered without it.
pub proof fn law_relay_option_comes_back(
    packet: PacketView,
    client: Client,
    config: Config,
    server: Ipv4Addr,
    reply: ReplyView,
)
    requires
        laws::answered(packet, client, config, server, reply),
    ensures
        ({
            let relayed = packet.giaddr != unset() && packet.options.contains_key(82)
                && packet.options[82].len() > 0;
            &&& laws::sent(reply).contains_key(82) <==> relayed && !reply.relay_option_omitted
            &&& laws::sent(reply).contains_key(82) ==> laws::sent(reply)[82] == packet.options[82]
        }),
{
    if reply.message == 6 {
        laws::lemma_sent_nak(packet, client, config, server, reply);
    } else {
        laws::lemma_sent_settings(packet, client, config, server, reply);
    }
}

} // verus!
