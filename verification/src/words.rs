//! Messages and errors in words, piece by piece.
use crate::clients::{ClientsErrorView, RowError};
use crate::config::{Config, ConfigError, RouteError};
use crate::datagrams;
use crate::dhcp;
use crate::dhcp::PacketError;
use crate::dump;
use crate::messages;
use crate::net;
use crate::net::{Ipv4Addr, SocketAddrV4};
use crate::notations;
use crate::options;
use crate::options::OptionError;
use crate::reply::ReplyError;
use crate::sync::PollErrorView;
use crate::text;
use crate::text::NumberFault;
use vstd::prelude::*;
use vstd::string::*;

verus! {

// ---------------------------------------------------------------------------
// Bytes

/// A payload is written in two hexadecimal digits for each byte, in order.
pub proof fn law_payloads(bytes: Seq<u8>, i: int)
    requires
        0 <= i < bytes.len(),
    ensures
        dump::hex_text(bytes).len() == 2 * bytes.len(),
        notations::hex_number(dump::hex_text(bytes).subrange(2 * i, 2 * i + 2)) == bytes[i],
    decreases bytes.len(),
{
    let front = bytes.drop_last();
    let b = bytes.last();
    let all = dump::hex_text(bytes);
    lemma_hex_pair(b);
    if front.len() > 0 {
        law_payloads(front, if i < front.len() {
            i
        } else {
            0
        });
    }
    let n = front.len() as int;
    assert(all == dump::hex_text(front) + text::hex(b as nat, 2));
    if i < n {
        assert(all.subrange(2 * i, 2 * i + 2) =~= dump::hex_text(front).subrange(2 * i, 2 * i + 2));
    } else {
        assert(all.subrange(2 * i, 2 * i + 2) =~= text::hex(b as nat, 2));
    }
}

/// Two hexadecimal digits denote a byte.
pub proof fn lemma_hex_pair(b: u8)
    ensures
        text::hex(b as nat, 2).len() == 2,
        notations::hex_number(text::hex(b as nat, 2)) == b,
{
    notations::law_hexadecimal_notation(b as nat, 2);
    reveal_with_fuel(notations::sixteens, 3);
}

/// Bytes are shown as the characters that they are, zero as `^@`, and the others as a
/// backslash, an `x` and two hexadecimal digits.
pub proof fn law_printable_bytes(bytes: Seq<u8>, b: u8)
    ensures
        dump::printable_text(Seq::empty()).len() == 0,
        ({
            let before = dump::printable_text(bytes);
            let after = dump::printable_text(bytes.push(b));
            &&& b == 0 ==> after == before + "^@"@
            &&& 32 <= b <= 126 ==> after == before.push(b as char)
            &&& (1 <= b < 32 || b > 126) ==> after == before + "\\x"@ + text::hex(b as nat, 2)
        }),
{
    assert(bytes.push(b).drop_last() =~= bytes);
    let before = dump::printable_text(bytes);
    if 1 <= b < 32 || b > 126 {
        assert(before + "\\x"@ + text::hex(b as nat, 2) =~= before + ("\\x"@ + text::hex(
            b as nat,
            2,
        )));
    }
}

/// Hardware addresses are shown as pairs of hexadecimal digits with colons between them.
pub proof fn law_colons(bytes: Seq<u8>, b: u8)
    ensures
        dhcp::colon_hex(seq![b]) == text::hex(b as nat, 2),
        bytes.len() > 0 ==> dhcp::colon_hex(bytes.push(b)) == dhcp::colon_hex(bytes) + ":"@
            + text::hex(b as nat, 2),
{
    let f = |b: u8| text::hex(b as nat, 2);
    let one = seq![b].map_values(f);
    assert(one[0] == text::hex(b as nat, 2));
    let all = bytes.push(b).map_values(f);
    assert(all.drop_last() =~= bytes.map_values(f));
    assert(all.last() == text::hex(b as nat, 2));
}

// ---------------------------------------------------------------------------
// Values

/// A list of addresses is shown in dotted decimal notation with commas between them; a
/// value of another length is none.
pub proof fn law_address_lists(value: Seq<u8>, ip: Ipv4Addr)
    ensures
        dump::ip_text(value) is None <==> value.len() == 0 || value.len() % 4 != 0,
        dump::ip_text(seq![ip.a, ip.b, ip.c, ip.d]) == Some(notations::dotted(ip)),
        dump::ip_text(value) is Some ==> dump::ip_text(value + seq![ip.a, ip.b, ip.c, ip.d])
            == Some(dump::ip_text(value)->0 + ", "@ + notations::dotted(ip)),
{
    let last = seq![ip.a, ip.b, ip.c, ip.d];
    notations::law_addresses_are_read_back(ip);
    let one = dump::ip_parts(last);
    assert(net::ipv4_at(last, 0) == ip);
    assert(one[0] == ip.text());
    if dump::ip_text(value) is Some {
        let all = value + last;
        let parts = dump::ip_parts(all);
        let before = dump::ip_parts(value);
        assert(parts.len() == before.len() + 1);
        assert forall|i: int| 0 <= i < before.len() implies parts[i] == before[i] by {
            assert(net::ipv4_at(all, 4 * i) == net::ipv4_at(value, 4 * i));
        }
        let n = before.len() as int;
        assert(4 * n == value.len());
        assert(net::ipv4_at(all, 4 * n) == ip);
        assert(parts.drop_last() =~= before);
        assert(parts.last() == ip.text());
    }
}

/// A route on the wire: the prefix length, as many bytes of the network as it needs, and
/// the gateway.
pub open spec fn wire_route(network: Ipv4Addr, prefix: u8, gateway: Ipv4Addr) -> Seq<u8> {
    let n: int = if prefix == 0 {
        0
    } else if prefix <= 8 {
        1
    } else if prefix <= 16 {
        2
    } else if prefix <= 24 {
        3
    } else {
        4
    };
    seq![prefix] + seq![network.a, network.b, network.c, network.d].take(n) + seq![
        gateway.a,
        gateway.b,
        gateway.c,
        gateway.d,
    ]
}

/// Whether the bytes of a network that do not stand on the wire are zero.
pub open spec fn short_network(network: Ipv4Addr, prefix: u8) -> bool {
    &&& prefix <= 24 ==> network.d == 0
    &&& prefix <= 16 ==> network.c == 0
    &&& prefix <= 8 ==> network.b == 0
    &&& prefix == 0 ==> network.a == 0
}

/// Specific routes are shown one behind the other: the network, a slash, the prefix
/// length, a colon and the gateway.
pub proof fn law_shown_routes(network: Ipv4Addr, prefix: u8, gateway: Ipv4Addr, rest: Seq<u8>)
    requires
        prefix <= 32,
        short_network(network, prefix),
    ensures
        ({
            let shown = notations::dotted(network) + "/"@ + text::decimal(prefix as nat) + ":"@
                + notations::dotted(gateway);
            let parts = dump::route_parts(wire_route(network, prefix, gateway) + rest);
            match dump::route_parts(rest) {
                Some(more) => parts == Some(seq![shown] + more),
                None => parts is None,
            }
        }),
        dump::route_parts(Seq::empty()) == Some(Seq::<Seq<char>>::empty()),
{
    let wire = wire_route(network, prefix, gateway);
    let all = wire + rest;
    let n = dump::network_len(prefix);
    notations::law_addresses_are_read_back(network);
    notations::law_addresses_are_read_back(gateway);
    assert(wire.len() == 1 + n + 4);
    assert(all.skip(1 + n + 4) =~= rest);
    assert(all[0] == prefix);
    let octets = seq![network.a, network.b, network.c, network.d].take(n);
    let tail = seq![gateway.a, gateway.b, gateway.c, gateway.d];
    assert forall|i: int| 0 <= i < n implies all[1 + i] == octets[i] by {
    }
    assert forall|i: int| 0 <= i < 4 implies all[1 + n + i] == tail[i] by {
    }
    if n > 0 {
        assert(all[1int + 0] == octets[0]);
    }
    if n > 1 {
        assert(all[1int + 1] == octets[1]);
    }
    if n > 2 {
        assert(all[1int + 2] == octets[2]);
    }
    if n > 3 {
        assert(all[1int + 3] == octets[3]);
    }
    assert(all[1 + n + 0] == tail[0] && all[1 + n + 1] == tail[1] && all[1 + n + 2] == tail[2]
        && all[1 + n + 3] == tail[3]);
    assert(dump::network_at(all, 1, n) == network);
    assert(net::ipv4_at(all, 1 + n) == gateway);
}

/// How values are shown: addresses as such, texts between quotation marks, and numbers in
/// decimal notation.
pub proof fn law_shown_values(code: u8, value: Seq<u8>)
    ensures
        ({
            let shown = dump::value_text(code, value);
            let addresses = code == 1 || code == 3 || code == 6 || code == 28 || code == 42 || code
                == 50 || code == 54;
            let words = code == 12 || code == 15 || code == 60 || code == 66 || code == 67 || code
                == 77 || code == 101 || code == 252;
            &&& addresses && dump::ip_text(value) is Some ==> shown == dump::ip_text(value)->0
            &&& addresses && dump::ip_text(value) is None ==> shown == dump::printable_text(value)
            &&& words ==> shown == "\""@ + dump::printable_text(value) + "\""@
            &&& (code == 26 || code == 57) && value.len() == 2 ==> shown == text::decimal(
                (value[0] * 256 + value[1]) as nat,
            )
            &&& (code == 51 || code == 58 || code == 59) && value.len() == 4 ==> shown
                == text::decimal(
                (value[0] * 0x100_0000 + value[1] * 0x1_0000 + value[2] * 0x100 + value[3]) as nat,
            )
            &&& code == 61 && value.len() == 7 && value[0] == 1 ==> shown == "ether "@
                + dhcp::colon_hex(value.skip(1))
            &&& (code == 121 || code == 249) && dump::route_parts(value) is Some ==> shown
                == text::join(dump::route_parts(value)->0, ", "@)
            &&& (code == 121 || code == 249) && dump::route_parts(value) is None ==> shown
                == dump::printable_text(value)
        }),
{
}

/// The names of the options.
pub proof fn law_option_names(code: u8)
    ensures
        code == 1 ==> dump::option_text(code) == "Subnet-Mask"@,
        code == 2 ==> dump::option_text(code) == "Time-Zone"@,
        code == 3 ==> dump::option_text(code) == "Default-Gateway"@,
        code == 6 ==> dump::option_text(code) == "Domain-Name-Server"@,
        code == 12 ==> dump::option_text(code) == "Hostname"@,
        code == 15 ==> dump::option_text(code) == "Domain-Name"@,
        code == 26 ==> dump::option_text(code) == "MTU"@,
        code == 28 ==> dump::option_text(code) == "Broadcast-Address"@,
        code == 42 ==> dump::option_text(code) == "NTP"@,
        code == 50 ==> dump::option_text(code) == "Requested-IP"@,
        code == 51 ==> dump::option_text(code) == "Lease-Time"@,
        code == 52 ==> dump::option_text(code) == "Option-Overload"@,
        code == 53 ==> dump::option_text(code) == "DHCP-Message"@,
        code == 54 ==> dump::option_text(code) == "Server-ID"@,
        code == 55 ==> dump::option_text(code) == "Parameter-Request"@,
        code == 57 ==> dump::option_text(code) == "MSZ"@,
        code == 58 ==> dump::option_text(code) == "Renewal-Time"@,
        code == 59 ==> dump::option_text(code) == "Rebinding-Time"@,
        code == 60 ==> dump::option_text(code) == "Vendor-Class"@,
        code == 61 ==> dump::option_text(code) == "Client-ID"@,
        code == 66 ==> dump::option_text(code) == "TFTP-Server-Name"@,
        code == 67 ==> dump::option_text(code) == "Bootfile-Name"@,
        code == 77 ==> dump::option_text(code) == "User-Class"@,
        code == 82 ==> dump::option_text(code) == "Agent-Information"@,
        code == 93 ==> dump::option_text(code) == "Client-System-Architecture"@,
        code == 101 ==> dump::option_text(code) == "TZDB-Timezone"@,
        code == 119 ==> dump::option_text(code) == "Domain-Search"@,
        code == 121 ==> dump::option_text(code) == "Classless-Static-Route"@,
        code == 249 ==> dump::option_text(code) == "Classless-Static-Route-Microsoft"@,
        code == 252 ==> dump::option_text(code) == "Proxy-Autodiscovery"@,
        code != 1 && code != 2 && code != 3 && code != 6 && code != 12 && code != 15 && code
            != 26 && code != 28 && code != 42 && code != 50 && code != 51 && code != 52 && code
            != 53 && code != 54 && code != 55 && code != 57 && code != 58 && code != 59 && code
            != 60 && code != 61 && code != 66 && code != 67 && code != 77 && code != 82 && code
            != 93 && code != 101 && code != 119 && code != 121 && code != 249 && code != 252 ==>
            dump::option_text(code) == "Option"@,
{
}

/// Every option of an area is shown on a line of its own, with its name, code, length and
/// value, and those that follow behind it; padding is passed over.
pub proof fn law_shown_options(code: u8, value: Seq<u8>, rest: Seq<u8>)
    requires
        1 <= code <= 254,
        value.len() <= 255,
    ensures
        code != 82 ==> dump::area_text(datagrams::piece(code, value) + rest) == "\n    "@
            + dump::option_text(code) + " Option "@ + text::decimal(code as nat) + ", length "@
            + text::decimal(value.len()) + ": "@ + dump::value_text(code, value) + dump::area_text(
            rest,
        ),
        dump::area_text(seq![0u8] + rest) == dump::area_text(rest),
        dump::area_text(seq![255u8] + rest).len() == 0,
        dump::area_text(Seq::empty()).len() == 0,
{
    let s = datagrams::piece(code, value) + rest;
    assert(s.subrange(2, 2 + value.len() as int) =~= value);
    assert(s.skip(2 + value.len() as int) =~= rest);
    assert((seq![0u8] + rest).skip(1) =~= rest);
    if code != 82 {
        let line = "\n    "@ + dump::option_text(code) + " Option "@ + text::decimal(code as nat)
            + ", length "@ + text::decimal(value.len()) + ": "@ + dump::value_text(code, value);
        assert(dump::option_lines(code, value) =~= line);
    }
}

/// The first line of a message tells its direction, its length, the hops, the number, the
/// seconds and the flags.
pub proof fn law_first_line(bytes: Seq<u8>)
    requires
        bytes.len() >= 236,
    ensures
        ({
            let line = "BOOTP/DHCP, "@ + (if bytes[0] == 1 {
                "Request"@
            } else if bytes[0] == 2 {
                "Reply"@
            } else {
                "Unknown"@
            }) + ", length "@ + text::decimal(bytes.len()) + ", hops "@ + text::decimal(
                bytes[3] as nat,
            ) + ", xid 0x"@ + text::hex(
                (bytes[4] * 0x100_0000 + bytes[5] * 0x1_0000 + bytes[6] * 0x100
                    + bytes[7]) as nat,
                8,
            ) + ", secs "@ + text::decimal((bytes[8] * 256 + bytes[9]) as nat) + ", Flags ["@ + (
            if bytes[10] / 128 == 1 {
                "Broadcast"@
            } else {
                "none"@
            }) + "]"@;
            &&& line.len() <= dump::packet_text(bytes).len()
            &&& dump::packet_text(bytes).take(line.len() as int) == line
        }),
{
    let line = dump::summary_text(bytes);
    let all = dump::packet_text(bytes);
    lemma_fixed_begins(bytes);
    let fixed = dump::fixed_text(bytes);
    assert(options::u32_at(bytes, 4) == bytes[4] * 0x100_0000 + bytes[5] * 0x1_0000 + bytes[6]
        * 0x100 + bytes[7]);
    assert(all.take(line.len() as int) =~= fixed.take(line.len() as int));
}

proof fn lemma_fixed_begins(bytes: Seq<u8>)
    ensures
        ({
            let line = dump::summary_text(bytes);
            let fixed = dump::fixed_text(bytes);
            line.len() <= fixed.len() && fixed.take(line.len() as int) == line
        }),
{
    let line = dump::summary_text(bytes);
    let fixed = dump::fixed_text(bytes);
    assert(fixed.take(line.len() as int) =~= line);
}

/// A time zone is shown as a signed number, a message by its name in capitals, and lists
/// of numbers and of parameters with commas between them.
pub proof fn law_shown_lists(value: Seq<u8>, a: u8, b: u8)
    ensures
        value.len() == 4 && value[0] < 128 ==> dump::value_text(2, value) == text::decimal(
            (value[0] * 0x100_0000 + value[1] * 0x1_0000 + value[2] * 0x100 + value[3]) as nat,
        ),
        value.len() == 4 && value[0] >= 128 ==> dump::value_text(2, value) == seq!['-']
            + text::decimal(
            (0x1_0000_0000 - (value[0] * 0x100_0000 + value[1] * 0x1_0000 + value[2] * 0x100
                + value[3])) as nat,
        ),
        dump::value_text(93, seq![a, b]) == text::decimal((a * 256 + b) as nat),
        value.len() > 0 && value.len() % 2 == 0 ==> dump::value_text(93, value + seq![a, b])
            == dump::value_text(93, value) + ", "@ + text::decimal((a * 256 + b) as nat),
        dump::value_text(55, seq![a]) == dump::parameter_text(a),
        value.len() > 0 ==> dump::value_text(55, value.push(a)) == dump::value_text(55, value)
            + ", "@ + dump::parameter_text(a),
        dump::option_text(a) != "Option"@ ==> dump::parameter_text(a) == dump::option_text(a),
        dump::option_text(a) == "Option"@ ==> dump::parameter_text(a) == "Option "@
            + text::decimal(a as nat),
{
    assert(options::u32_at(value, 0) == value[0] * 0x100_0000 + value[1] * 0x1_0000 + value[2]
        * 0x100 + value[3]);
    let one = dump::number_parts(seq![a, b]);
    assert(options::u16_at(seq![a, b], 0) == a * 256 + b);
    assert(one =~= seq![text::decimal((a * 256 + b) as nat)]);
    assert(one[0] == text::decimal((a * 256 + b) as nat));
    if value.len() > 0 && value.len() % 2 == 0 {
        let all = value + seq![a, b];
        let n = value.len() as int;
        let parts = dump::number_parts(all);
        assert(all[n] == a && all[n + 1] == b);
        assert(2 * (n / 2) == n);
        assert(options::u16_at(all, n) == a * 256 + b);
        assert forall|i: int| 0 <= i < n / 2 implies parts[i] == dump::number_parts(value)[i] by {
            assert(options::u16_at(all, 2 * i) == options::u16_at(value, 2 * i));
        }
        assert(parts.drop_last() =~= dump::number_parts(value));
        assert(parts.last() == text::decimal((a * 256 + b) as nat));
    }
    let f = |b: u8| dump::parameter_text(b);
    assert(seq![a].map_values(f)[0] == dump::parameter_text(a));
    let names = value.push(a).map_values(f);
    assert(names.drop_last() =~= value.map_values(f));
    assert(names.last() == dump::parameter_text(a));
}

/// The kinds of messages are shown in capitals, letter by letter.
pub proof fn law_shown_kinds(value: Seq<u8>, i: int)
    requires
        value.len() == 1,
        0 <= i < dhcp::message_text(value[0]).len(),
    ensures
        dump::value_text(53, value).len() == dhcp::message_text(value[0]).len(),
        ({
            let small = dhcp::message_text(value[0])[i];
            let shown = dump::value_text(53, value)[i];
            &&& 97 <= small as u32 <= 122 ==> shown as u32 == small as u32 - 32
            &&& !(97 <= small as u32 <= 122) ==> shown == small
        }),
{
    let small = dhcp::message_text(value[0])[i];
    let n = (small as u32) - 32;
    if 'a' <= small <= 'z' {
        assert(65 <= n <= 90);
        assert((n as char) as u32 == n);
    }
}

/// Values that are nothing else, or have another length than they should, are shown as
/// printable bytes.
pub proof fn law_other_values(code: u8, value: Seq<u8>)
    ensures
        ({
            let known = code == 1 || code == 2 || code == 3 || code == 6 || code == 12 || code == 15
                || code == 26 || code == 28 || code == 42 || code == 50 || code == 51 || code == 53
                || code == 54 || code == 55 || code == 57 || code == 58 || code == 59 || code == 60
                || code == 61 || code == 66 || code == 67 || code == 77 || code == 93 || code == 101
                || code == 121 || code == 249 || code == 252;
            let shown = dump::value_text(code, value);
            let bytes = dump::printable_text(value);
            &&& !known ==> shown == bytes
            &&& (code == 26 || code == 57) && value.len() != 2 ==> shown == bytes
            &&& (code == 2 || code == 51 || code == 58 || code == 59) && value.len() != 4 ==> shown
                == bytes
            &&& code == 53 && value.len() != 1 ==> shown == bytes
            &&& code == 61 && (value.len() != 7 || value[0] != 1) ==> shown == bytes
            &&& code == 93 && value.len() % 2 == 1 ==> shown == bytes
        }),
{
}

/// The information of a relay is shown on one line for each part, with its name, code,
/// length and bytes, and a part that is cut off ends it.
pub proof fn law_shown_relays(code: u8, value: Seq<u8>, rest: Seq<u8>, len: u8)
    requires
        value.len() <= 255,
    ensures
        dump::relay_lines(Seq::empty()).len() == 0,
        dump::relay_lines(seq![code]) == seq!["Malformed relay suboption header"@],
        rest.len() < len ==> dump::relay_lines(seq![code, len] + rest) == seq![
            "Malformed relay suboption "@ + text::decimal(code as nat) + ", length "@
                + text::decimal(len as nat),
        ],
        dump::relay_lines(datagrams::piece(code, value) + rest) == seq![
            "      "@ + (if code == 1 {
                "Circuit-ID"@
            } else if code == 2 {
                "Remote-ID"@
            } else {
                "SubOption"@
            }) + " SubOption "@ + text::decimal(code as nat) + ", length "@ + text::decimal(
                value.len(),
            ) + ": "@ + dump::printable_text(value),
        ] + dump::relay_lines(rest),
{
    let s = datagrams::piece(code, value) + rest;
    assert(s.subrange(2, 2 + value.len() as int) =~= value);
    assert(s.skip(2 + value.len() as int) =~= rest);
    let cut = seq![code, len] + rest;
    assert(cut[0] == code && cut[1] == len);
}

/// The lines of a relay stand below that of its option.
pub proof fn law_relay_option(value: Seq<u8>, rest: Seq<u8>)
    requires
        value.len() <= 255,
    ensures
        dump::area_text(datagrams::piece(82, value) + rest) == "\n    Agent-Information"@
            + " Option "@ + text::decimal(82) + ", length "@ + text::decimal(value.len()) + ": "@
            + dump::printable_text(value) + dump::broken(dump::relay_lines(value))
            + dump::area_text(rest),
{
    let s = datagrams::piece(82, value) + rest;
    assert(s.subrange(2, 2 + value.len() as int) =~= value);
    assert(s.skip(2 + value.len() as int) =~= rest);
    reveal_strlit("\n    Agent-Information");
    reveal_strlit("\n    ");
    reveal_strlit("Agent-Information");
    assert("\n    Agent-Information"@ =~= "\n    "@ + "Agent-Information"@);
}

/// An option without its length, or longer than what is left, ends the area.
pub proof fn law_malformed_options(code: u8, len: u8, rest: Seq<u8>)
    requires
        1 <= code <= 254,
        rest.len() < len,
    ensures
        dump::area_text(seq![code]) == "\n    Malformed Option "@ + text::decimal(code as nat)
            + ": missing length"@,
        dump::area_text(seq![code, len] + rest) == "\n    Malformed Option "@ + text::decimal(
            code as nat,
        ) + ", length "@ + text::decimal(len as nat),
{
    let s = seq![code, len] + rest;
    assert(s[0] == code && s[1] == len);
}

/// A line with an address, unless it is zero.
pub open spec fn shown_address(name: Seq<char>, a: u8, b: u8, c: u8, d: u8) -> Seq<char> {
    if a == 0 && b == 0 && c == 0 && d == 0 {
        Seq::empty()
    } else {
        "\n  "@ + name + " "@ + notations::dotted(Ipv4Addr { a, b, c, d })
    }
}

/// The lines of the fixed part: the four addresses that are not zero, the hardware
/// address, and the two names where they are not empty.
pub proof fn law_shown_fields(bytes: Seq<u8>, name: Seq<u8>, file: Seq<u8>)
    requires
        bytes.len() >= 236,
        bytes[2] <= 16,
        name.len() < 64,
        file.len() < 128,
        forall|i: int| 0 <= i < name.len() ==> name[i] != 0,
        forall|i: int| 0 <= i < file.len() ==> file[i] != 0,
        bytes.subrange(44, 45 + name.len() as int) == name.push(0),
        bytes.subrange(108, 109 + file.len() as int) == file.push(0),
    ensures
        dump::fixed_text(bytes) == dump::summary_text(bytes) + shown_address(
            "Client-IP"@,
            bytes[12],
            bytes[13],
            bytes[14],
            bytes[15],
        ) + shown_address("Your-IP"@, bytes[16], bytes[17], bytes[18], bytes[19]) + shown_address(
            "Server-IP"@,
            bytes[20],
            bytes[21],
            bytes[22],
            bytes[23],
        ) + shown_address("Gateway-IP"@, bytes[24], bytes[25], bytes[26], bytes[27])
            + "\n  Client-Ethernet-Address "@ + dhcp::colon_hex(
            bytes.subrange(28, 28 + bytes[2] as int),
        ) + (if name.len() == 0 {
            Seq::empty()
        } else {
            "\n  Server-Name"@ + " \""@ + dump::printable_text(name) + "\""@
        }) + (if file.len() == 0 {
            Seq::empty()
        } else {
            "\n  Bootfile-Name"@ + " \""@ + dump::printable_text(file) + "\""@
        }),
{
    lemma_shown_address("Client-IP"@, bytes, 12);
    lemma_shown_address("Your-IP"@, bytes, 16);
    lemma_shown_address("Server-IP"@, bytes, 20);
    lemma_shown_address("Gateway-IP"@, bytes, 24);
    lemma_field(bytes, 44, 108, name);
    lemma_field(bytes, 108, 236, file);
    assert("\n  Server-Name"@ =~= "\n  "@ + "Server-Name"@) by {
        reveal_strlit("\n  Server-Name");
        reveal_strlit("\n  ");
        reveal_strlit("Server-Name");
    }
    assert("\n  Bootfile-Name"@ =~= "\n  "@ + "Bootfile-Name"@) by {
        reveal_strlit("\n  Bootfile-Name");
        reveal_strlit("\n  ");
        reveal_strlit("Bootfile-Name");
    }
}

proof fn lemma_shown_address(name: Seq<char>, bytes: Seq<u8>, i: int)
    requires
        0 <= i,
        i + 4 <= bytes.len(),
    ensures
        dump::address_line(name, bytes, i) == shown_address(
            name,
            bytes[i],
            bytes[i + 1],
            bytes[i + 2],
            bytes[i + 3],
        ),
{
    let ip = Ipv4Addr { a: bytes[i], b: bytes[i + 1], c: bytes[i + 2], d: bytes[i + 3] };
    assert(net::ipv4_at(bytes, i) == ip);
    notations::law_addresses_are_read_back(ip);
}

proof fn lemma_field(bytes: Seq<u8>, from: int, to: int, value: Seq<u8>)
    requires
        0 <= from,
        from + value.len() < to <= bytes.len(),
        forall|i: int| 0 <= i < value.len() ==> value[i] != 0,
        bytes.subrange(from, from + value.len() + 1) == value.push(0),
    ensures
        dump::field(bytes, from, to) == value,
{
    let area = bytes.subrange(from, to);
    let head = bytes.subrange(from, from + value.len() + 1);
    assert forall|i: int| 0 <= i < value.len() implies area[i] == value[i] by {
        assert(head[i] == value.push(0)[i]);
    }
    assert(head[value.len() as int] == value.push(0)[value.len() as int]);
    assert(area[value.len() as int] == 0);
    lemma_found(area, value.len() as int);
    assert(area.take(value.len() as int) =~= value);
}

proof fn lemma_found(s: Seq<u8>, n: int)
    requires
        0 <= n < s.len(),
        s[n] == 0,
        forall|i: int| 0 <= i < n ==> s[i] != 0,
    ensures
        text::find(s, 0) == n,
    decreases s.len(),
{
    if n > 0 {
        assert(s[0] != 0);
        let rest = s.skip(1);
        assert forall|i: int| 0 <= i < n - 1 implies rest[i] != 0 by {
            assert(rest[i] == s[i + 1]);
        }
        lemma_found(rest, n - 1);
    }
}

/// A message too short is only measured; behind the fixed part of another stand its
/// options, if the cookie comes before them.
pub proof fn law_shown_messages(bytes: Seq<u8>)
    ensures
        bytes.len() < 236 ==> dump::packet_text(bytes) == "Malformed BOOTP/DHCP payload, length "@
            + text::decimal(bytes.len()),
        bytes.len() >= 240 && bytes[236] == 99 && bytes[237] == 130 && bytes[238] == 83
            && bytes[239] == 99 ==> dump::packet_text(bytes) == dump::fixed_text(bytes)
            + "\n  Vendor-rfc1048 Extensions\n    Magic Cookie 0x63825363"@ + dump::area_text(
            bytes.skip(240),
        ),
        236 <= bytes.len() && (bytes.len() < 240 || bytes[236] != 99 || bytes[237] != 130
            || bytes[238] != 83 || bytes[239] != 99) ==> dump::packet_text(bytes)
            == dump::fixed_text(bytes) + "\n  No RFC1048 magic cookie"@,
{
    if bytes.len() >= 240 {
        let four = bytes.subrange(236, 240);
        assert(four[0] == bytes[236] && four[1] == bytes[237] && four[2] == bytes[238] && four[3]
            == bytes[239]);
        if bytes[236] == 99 && bytes[237] == 130 && bytes[238] == 83 && bytes[239] == 99 {
            assert(four =~= dhcp::cookie());
        }
    }
}

/// An address with a port is shown with a colon between the two.
pub proof fn law_shown_ports(address: SocketAddrV4)
    ensures
        address.text() == notations::dotted(address.ip) + ":"@ + text::decimal(
            address.port as nat,
        ),
{
    notations::law_addresses_are_read_back(address.ip);
}

// ---------------------------------------------------------------------------
// Errors

/// A refused table is reported with the line or the number of its fault and the cause; a
/// refused saved table without the cause of a bad row or record.
pub proof fn law_reported_tables(n: u64, why: Seq<char>, fault: RowError, ip: Ipv4Addr)
    ensures
        messages::clients_text(ClientsErrorView::Line(n, fault)) == "CSV line "@ + text::decimal(
            n as nat,
        ) + ": "@ + messages::row_text(fault),
        messages::clients_text(ClientsErrorView::Record(n, why)) == "CSV record "@ + text::decimal(
            n as nat,
        ) + ": "@ + why,
        messages::clients_text(ClientsErrorView::DuplicateMac(n)) == "CSV line "@ + text::decimal(
            n as nat,
        ) + ": duplicate MAC"@,
        messages::clients_text(ClientsErrorView::DuplicateIp(n, ip)) == "CSV line "@
            + text::decimal(n as nat) + ": duplicate IP "@ + notations::dotted(ip),
        messages::clients_place(ClientsErrorView::Line(n, fault)) == "CSV line "@ + text::decimal(
            n as nat,
        ),
        messages::clients_place(ClientsErrorView::Record(n, why)) == "CSV record "@
            + text::decimal(n as nat),
{
    notations::law_addresses_are_read_back(ip);
}

/// A failed poll is reported with its cause.
pub proof fn law_reported_polls(status: u16, why: Seq<char>, error: ClientsErrorView)
    ensures
        messages::poll_text(PollErrorView::HttpError(why)) == why,
        messages::poll_text(PollErrorView::UnexpectedStatus(status))
            == "expected HTTP 200 or cached 304, received "@ + messages::status_text(status),
        messages::poll_text(PollErrorView::NotUtf8(why)) == "CSV is not UTF-8: "@ + why,
        messages::poll_text(PollErrorView::SavedNotUtf8(why)) == why,
        messages::poll_text(PollErrorView::Clients(error)) == messages::clients_text(error),
        messages::poll_text(PollErrorView::SavedClients(error)) == messages::clients_place(error),
{
}

/// What is said of the faults of numbers and rows.
pub proof fn law_faults_of_rows(fault: NumberFault)
    ensures
        messages::number_text(NumberFault::Empty) == "cannot parse integer from empty string"@,
        messages::number_text(NumberFault::Digit) == "invalid digit found in string"@,
        messages::number_text(NumberFault::TooLarge) == "number too large to fit in target type"@,
        messages::row_text(RowError::FieldCount) == "expected seven or nine fields"@,
        messages::row_text(RowError::Location) == "invalid location"@,
        messages::row_text(RowError::Hostname) == "invalid hostname"@,
        messages::row_text(RowError::Domain) == "invalid domain"@,
        messages::row_text(RowError::BootType) == "boot_type must be bios or uefi"@,
        messages::row_text(RowError::Mtu) == "MTU must be in 68..65535"@,
        messages::row_text(RowError::MacParts) == "MAC must contain six colon-separated hex octets"@,
        messages::row_text(RowError::MacOctet) == "invalid MAC octet: invalid digit found in string"@,
        messages::row_text(RowError::MacAddress) == "MAC must be a nonzero unicast address"@,
        messages::row_text(RowError::Ip) == "invalid client IPv4: invalid IPv4 address syntax"@,
        messages::row_text(RowError::PrefixRange) == "prefix must be 1..31; /32 is unsupported for Ethernet assignments"@,
        messages::row_text(RowError::Gateway) == "invalid gateway IPv4: invalid IPv4 address syntax"@,
        messages::row_text(RowError::NotUnicast) == "client and gateway must be unicast IPv4 addresses"@,
        messages::row_text(RowError::GatewayNetwork) == "gateway must belong to client subnet"@,
        messages::row_text(RowError::ClientEdge) == "client IP cannot be network or broadcast"@,
        messages::row_text(RowError::GatewayEdge) == "gateway cannot be network or broadcast"@,
        messages::row_text(RowError::GatewayIsClient) == "gateway cannot equal client IP"@,
        messages::row_text(RowError::Prefix(fault)) == "invalid prefix length: "@
            + messages::number_text(fault),
{
}

/// What is said of the faults of polls that have no cause beside them.
pub proof fn law_faults_of_polls()
    ensures
        messages::poll_text(PollErrorView::NotModified) == "304 received without a previously downloaded snapshot"@,
        messages::poll_text(PollErrorView::TooLarge) == "CSV exceeds size limit"@,
        messages::poll_text(PollErrorView::SavedTooLarge) == "saved CSV exceeds size limit"@,
        messages::poll_text(PollErrorView::Save) == "save client snapshot"@,
{
}

/// What is said of the faults of configurations. A refused route or name is quoted.
pub proof fn law_faults_of_configurations(
    config: Config,
    index: usize,
    fault: NumberFault,
    ip: Ipv4Addr,
)
    requires
        index < config.client_options.classless_routes@.len(),
        index < config.boot.architectures@.len(),
    ensures
        messages::config_text(ConfigError::ListenIp, config) == "dhcp.listen_ip must be wildcard or unicast"@,
        messages::config_text(ConfigError::ServerIdentifier, config) == "dhcp.server_identifier must be a concrete unicast IPv4 address"@,
        messages::config_text(ConfigError::LeaseSeconds, config) == "lease_seconds must be positive"@,
        messages::config_text(ConfigError::HttpPort, config) == "HTTP port must be positive"@,
        messages::config_text(ConfigError::LogLevel, config) == "invalid logging.level"@,
        messages::config_text(ConfigError::PollInterval, config) == "poll_interval_seconds must be positive"@,
        messages::config_text(ConfigError::Timeout, config) == "timeout_seconds must be positive"@,
        messages::config_text(ConfigError::UrlScheme, config) == "clients_source.url must use HTTP or HTTPS"@,
        messages::config_text(ConfigError::Url, config) == "invalid clients_source.url"@,
        messages::config_text(ConfigError::StateFile, config) == "state_file must not be empty"@,
        messages::config_text(ConfigError::Timezone, config) == "invalid timezone"@,
        messages::config_text(ConfigError::NoRoutes, config) == "classless_routes must not be empty"@,
        messages::config_text(ConfigError::TftpServer, config) == "tftp_server must be unicast"@,
        messages::config_text(ConfigError::EmptyArchitecture, config) == "empty architecture name"@,
        messages::config_text(ConfigError::NameOrTimeServer(ip), config)
            == "DNS/NTP addresses must be unicast: "@ + notations::dotted(ip),
        ({
            let route = config.client_options.classless_routes@[index as int]@;
            let name = config.boot.architectures@[index as int].name@;
            &&& messages::config_text(ConfigError::Route(index, RouteError::Syntax), config)
                == "route must use IPv4/prefix syntax"@
            &&& messages::config_text(ConfigError::Route(index, RouteError::Network), config)
                == "invalid route "@ + route
            &&& messages::config_text(ConfigError::Route(index, RouteError::Prefix(fault)), config)
                == "invalid route prefix "@ + route
            &&& messages::config_text(ConfigError::Route(index, RouteError::Range), config)
                == "route "@ + route + ": prefix must be 1..32 (default route is forbidden)"@
            &&& messages::config_text(ConfigError::Route(index, RouteError::HostBits), config)
                == "route "@ + route + ": host bits must be zero"@
            &&& messages::config_text(ConfigError::BootFile(index), config)
                == "invalid boot filename for "@ + name
                + ": expected 1..255 bytes without control characters"@
        }),
{
    notations::law_addresses_are_read_back(ip);
}

/// What is said of messages that are refused or cannot be answered.
pub proof fn law_faults_of_messages(code: u8, maximum: usize, fault: NumberFault)
    ensures
        messages::packet_text(PacketError::Short) == "short DHCP packet"@,
        messages::packet_text(PacketError::NotEthernetRequest) == "expected Ethernet BOOTREQUEST"@,
        messages::packet_text(PacketError::Cookie) == "invalid DHCP cookie"@,
        messages::packet_text(PacketError::Overload) == "invalid option overload"@,
        messages::packet_text(PacketError::ArchitectureList) == "invalid architecture list"@,
        messages::packet_text(PacketError::MissingMessage) == "missing message type"@,
        messages::packet_text(PacketError::UnsupportedMessage) == "unsupported client message type"@,
        messages::packet_text(PacketError::Options(OptionError::MissingLength))
            == "missing option length"@,
        messages::packet_text(PacketError::Options(OptionError::Truncated(code)))
            == "truncated option "@ + text::decimal(code as nat),
        messages::packet_text(PacketError::OptionLength(code)) == "invalid option "@
            + text::decimal(code as nat) + " length"@,
        messages::reply_text(ReplyError::Server) == "invalid server identifier"@,
        messages::reply_text(ReplyError::Route(RouteError::Syntax)) == "route requires prefix"@,
        messages::reply_text(ReplyError::Route(RouteError::Network))
            == "invalid IPv4 address syntax"@,
        messages::reply_text(ReplyError::Route(RouteError::Prefix(fault)))
            == messages::number_text(fault),
        messages::reply_text(ReplyError::Route(RouteError::Range)) == "invalid route prefix"@,
        messages::reply_text(ReplyError::Route(RouteError::HostBits)) == "invalid route prefix"@,
        messages::reply_text(ReplyError::TooLong(maximum))
            == "response exceeds client maximum DHCP size ("@ + text::decimal(maximum as nat)
            + ")"@,
{
}

} // verus!
