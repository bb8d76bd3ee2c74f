//! DHCP messages in words, for the log.
use crate::dhcp;
use crate::net;
use crate::net::Ipv4Addr;
use crate::options;
use crate::text;
use vstd::prelude::*;
use vstd::string::*;

verus! {

/// A letter in upper case; any other character as it is.
pub open spec fn upper(c: char) -> char {
    if 'a' <= c <= 'z' {
        ((c as u32) - 32) as char
    } else {
        c
    }
}

fn push_upper(out: &mut String, s: &str)
    ensures
        final(out)@ == old(out)@ + s@.map_values(|c: char| upper(c)),
{
    for c in it: s.chars()
        invariant
            it.seq() == s@,
            out@ == old(out)@ + s@.take(it.index() as int).map_values(|c: char| upper(c)),
    {
        if 'a' <= c && c <= 'z' {
            out.push((c as u8 - 32) as char);
        } else {
            out.push(c);
        }
        proof {
            let done = s@.take(it.index() as int);
            assert(s@.take(it.index() + 1) =~= done.push(c));
            assert(done.push(c).map_values(|c: char| upper(c)) =~= done.map_values(
                |c: char| upper(c),
            ).push(upper(c)));
        }
    }
    assert(s@.take(s@.len() as int) =~= s@);
}

// ---------------------------------------------------------------------------
// Option values

/// The name of an option.
pub open spec fn option_text(code: u8) -> Seq<char> {
    match code {
        1 => "Subnet-Mask"@,
        2 => "Time-Zone"@,
        3 => "Default-Gateway"@,
        6 => "Domain-Name-Server"@,
        12 => "Hostname"@,
        15 => "Domain-Name"@,
        26 => "MTU"@,
        28 => "Broadcast-Address"@,
        42 => "NTP"@,
        50 => "Requested-IP"@,
        51 => "Lease-Time"@,
        52 => "Option-Overload"@,
        53 => "DHCP-Message"@,
        54 => "Server-ID"@,
        55 => "Parameter-Request"@,
        57 => "MSZ"@,
        58 => "Renewal-Time"@,
        59 => "Rebinding-Time"@,
        60 => "Vendor-Class"@,
        61 => "Client-ID"@,
        66 => "TFTP-Server-Name"@,
        67 => "Bootfile-Name"@,
        77 => "User-Class"@,
        82 => "Agent-Information"@,
        93 => "Client-System-Architecture"@,
        101 => "TZDB-Timezone"@,
        119 => "Domain-Search"@,
        121 => "Classless-Static-Route"@,
        249 => "Classless-Static-Route-Microsoft"@,
        252 => "Proxy-Autodiscovery"@,
        _ => "Option"@,
    }
}

pub fn option_name(code: u8) -> (name: &'static str)
    ensures
        name@ == option_text(code),
{
    match code {
        1 => "Subnet-Mask",
        2 => "Time-Zone",
        3 => "Default-Gateway",
        6 => "Domain-Name-Server",
        12 => "Hostname",
        15 => "Domain-Name",
        26 => "MTU",
        28 => "Broadcast-Address",
        42 => "NTP",
        50 => "Requested-IP",
        51 => "Lease-Time",
        52 => "Option-Overload",
        53 => "DHCP-Message",
        54 => "Server-ID",
        55 => "Parameter-Request",
        57 => "MSZ",
        58 => "Renewal-Time",
        59 => "Rebinding-Time",
        60 => "Vendor-Class",
        61 => "Client-ID",
        66 => "TFTP-Server-Name",
        67 => "Bootfile-Name",
        77 => "User-Class",
        82 => "Agent-Information",
        93 => "Client-System-Architecture",
        101 => "TZDB-Timezone",
        119 => "Domain-Search",
        121 => "Classless-Static-Route",
        249 => "Classless-Static-Route-Microsoft",
        252 => "Proxy-Autodiscovery",
        _ => "Option",
    }
}

/// A byte as text: a printable character, `^@` for zero, or `\\x` and two digits.
pub open spec fn printable_byte(b: u8) -> Seq<char> {
    if b == 0 {
        "^@"@
    } else if 0x20 <= b <= 0x7e {
        seq![b as char]
    } else {
        "\\x"@ + text::hex(b as nat, 2)
    }
}

/// Bytes as text.
pub open spec fn printable_text(bytes: Seq<u8>) -> Seq<char>
    decreases bytes.len(),
{
    if bytes.len() == 0 {
        Seq::empty()
    } else {
        printable_text(bytes.drop_last()) + printable_byte(bytes.last())
    }
}

fn push_printable(out: &mut String, bytes: &[u8])
    ensures
        final(out)@ == old(out)@ + printable_text(bytes@),
{
    assert(out@ =~= old(out)@ + printable_text(bytes@.take(0)));
    for i in 0..bytes.len()
        invariant
            out@ == old(out)@ + printable_text(bytes@.take(i as int)),
    {
        assert(bytes@.take(i + 1).drop_last() =~= bytes@.take(i as int));
        let b: u8 = bytes[i];
        if b == 0 {
            out.append("^@");
        } else if 0x20 <= b && b <= 0x7e {
            out.push(b as char);
        } else {
            out.append("\\x");
            text::push_hex(out, b as u64, 2);
        }
        assert(out@ =~= old(out)@ + printable_text(bytes@.take(i + 1)));
    }
    assert(bytes@.take(bytes@.len() as int) =~= bytes@);
}

pub fn printable(bytes: &[u8]) -> (out: String)
    ensures
        out@ == printable_text(bytes@),
{
    let mut out = String::new();
    push_printable(&mut out, bytes);
    assert(out@ =~= printable_text(bytes@));
    out
}

/// The addresses in a value that consists of addresses.
pub open spec fn ip_parts(value: Seq<u8>) -> Seq<Seq<char>> {
    Seq::new(value.len() / 4, |i: int| net::ipv4_at(value, 4 * i).text())
}

/// A list of addresses, if the value is one.
pub open spec fn ip_text(value: Seq<u8>) -> Option<Seq<char>> {
    if value.len() == 0 || value.len() % 4 != 0 {
        None
    } else {
        Some(text::join(ip_parts(value), ", "@))
    }
}

pub fn ipv4_values(value: &[u8]) -> (out: Option<String>)
    ensures
        match out {
            Some(s) => ip_text(value@) == Some(s@),
            None => ip_text(value@) is None,
        },
{
    if value.len() == 0 || value.len() % 4 != 0 {
        return None;
    }
    let mut out = String::new();
    let ghost parts = ip_parts(value@);
    assert(out@ =~= text::join(parts.take(0), ", "@));
    for i in 0..value.len() / 4
        invariant
            parts == ip_parts(value@),
            out@ == text::join(parts.take(i as int), ", "@),
    {
        proof {
            text::lemma_join_take(parts, ", "@, i as int);
        }
        if i > 0 {
            out.append(", ");
        }
        Ipv4Addr::read(value, 4 * i).push_text(&mut out);
        assert(out@ =~= text::join(parts.take(i + 1), ", "@));
    }
    assert(parts.take(parts.len() as int) =~= parts);
    Some(out)
}

/// How many bytes of a network stand in a route with that prefix length.
pub open spec fn network_len(prefix: u8) -> int {
    (prefix + 7) / 8
}

/// A network whose first bytes stand from `i` on; the others are zero.
pub open spec fn network_at(value: Seq<u8>, i: int, len: int) -> Ipv4Addr {
    Ipv4Addr {
        a: if len > 0 {
            value[i]
        } else {
            0
        },
        b: if len > 1 {
            value[i + 1]
        } else {
            0
        },
        c: if len > 2 {
            value[i + 2]
        } else {
            0
        },
        d: if len > 3 {
            value[i + 3]
        } else {
            0
        },
    }
}

/// One route: the network, its prefix length and the gateway.
pub open spec fn one_route(network: Ipv4Addr, prefix: u8, gateway: Ipv4Addr) -> Seq<char> {
    network.text() + "/"@ + text::decimal(prefix as nat) + ":"@ + gateway.text()
}

fn push_route(out: &mut String, network: Ipv4Addr, prefix: u8, gateway: Ipv4Addr)
    ensures
        final(out)@ == old(out)@ + one_route(network, prefix, gateway),
{
    let ghost start = out@;
    network.push_text(out);
    out.append("/");
    text::push_decimal(out, prefix as u64);
    out.append(":");
    gateway.push_text(out);
    assert(out@ =~= start + one_route(network, prefix, gateway));
}

/// The routes of option 121, if the value consists of routes.
pub open spec fn route_parts(value: Seq<u8>) -> Option<Seq<Seq<char>>>
    decreases value.len(),
{
    if value.len() == 0 {
        Some(Seq::empty())
    } else {
        let n = network_len(value[0]);
        if value[0] > 32 || value.len() < 1 + n + 4 {
            None
        } else {
            match route_parts(value.skip(1 + n + 4)) {
                None => None,
                Some(rest) => Some(
                    seq![
                        one_route(network_at(value, 1, n), value[0], net::ipv4_at(value, 1 + n)),
                    ] + rest,
                ),
            }
        }
    }
}

/// The routes of option 121 as text.
pub open spec fn route_text(value: Seq<u8>) -> Option<Seq<char>> {
    match route_parts(value) {
        Some(parts) => Some(text::join(parts, ", "@)),
        None => None,
    }
}

fn read_network(value: &[u8], i: usize, len: usize) -> (network: Ipv4Addr)
    requires
        len <= 4,
        i + len <= value@.len(),
    ensures
        network == network_at(value@, i as int, len as int),
{
    Ipv4Addr::new(
        if len > 0 {
            value[i]
        } else {
            0
        },
        if len > 1 {
            value[i + 1]
        } else {
            0
        },
        if len > 2 {
            value[i + 2]
        } else {
            0
        },
        if len > 3 {
            value[i + 3]
        } else {
            0
        },
    )
}

/// The route at `i` and where the next one begins.
fn next_route(value: &[u8], i: usize) -> (step: Option<(Ipv4Addr, u8, Ipv4Addr, usize)>)
    requires
        i < value@.len(),
    ensures
        ({
            let rest = value@.skip(i as int);
            let n = network_len(rest[0]);
            match step {
                Some((network, prefix, gateway, next)) => {
                    &&& rest[0] <= 32 && rest.len() >= 1 + n + 4
                    &&& network == network_at(rest, 1, n)
                    &&& prefix == rest[0]
                    &&& gateway == net::ipv4_at(rest, 1 + n)
                    &&& next == i + 1 + n + 4
                    &&& next <= value@.len()
                },
                None => rest[0] > 32 || rest.len() < 1 + n + 4,
            }
        }),
{
    let prefix: u8 = value[i];
    if prefix > 32 {
        return None;
    }
    let n: usize = (prefix as usize + 7) / 8;
    if value.len() - i < 1 + n + 4 {
        return None;
    }
    let network = read_network(value, i + 1, n);
    let gateway = Ipv4Addr::read(value, i + 1 + n);
    Some((network, prefix, gateway, i + 1 + n + 4))
}

proof fn lemma_join_push(parts: Seq<Seq<char>>, part: Seq<char>)
    ensures
        text::join(parts.push(part), ", "@) == if parts.len() == 0 {
            part
        } else {
            text::join(parts, ", "@) + ", "@ + part
        },
{
    assert(parts.push(part).drop_last() =~= parts);
}

pub fn classless_routes(value: &[u8]) -> (out: Option<String>)
    ensures
        match out {
            Some(s) => route_text(value@) == Some(s@),
            None => route_text(value@) is None,
        },
{
    let mut out = String::new();
    let mut i: usize = 0;
    let ghost mut parts: Seq<Seq<char>> = Seq::empty();
    assert(value@.skip(0) =~= value@);
    proof {
        if route_parts(value@) is Some {
            assert(parts + route_parts(value@)->0 =~= route_parts(value@)->0);
        }
    }
    while i < value.len()
        invariant
            i <= value@.len(),
            i > 0 <==> parts.len() > 0,
            out@ == text::join(parts, ", "@),
            match route_parts(value@.skip(i as int)) {
                Some(rest) => route_parts(value@) == Some(parts + rest),
                None => route_parts(value@) is None,
            },
        decreases value.len() - i,
    {
        let ghost rest = value@.skip(i as int);
        let (network, prefix, gateway, next) = match next_route(value, i) {
            Some(step) => step,
            None => {
                return None;
            },
        };
        let ghost part = one_route(network, prefix, gateway);
        let ghost before = out@;
        if i > 0 {
            out.append(", ");
        }
        push_route(&mut out, network, prefix, gateway);
        proof {
            lemma_join_push(parts, part);
            assert(before.len() == 0 ==> before + part =~= part);
            let tail = value@.skip(next as int);
            assert(rest.skip(next - i) =~= tail);
            if route_parts(tail) is Some {
                let more = route_parts(tail)->0;
                assert(parts.push(part) + more =~= parts + (seq![part] + more));
            }
            parts = parts.push(part);
        }
        i = next;
    }
    assert(parts + Seq::empty() =~= parts);
    Some(out)
}

/// What a client asks for with one byte of option 55.
pub open spec fn parameter_text(code: u8) -> Seq<char> {
    if option_text(code) == "Option"@ {
        "Option "@ + text::decimal(code as nat)
    } else {
        option_text(code)
    }
}

/// The two-byte numbers in a value.
pub open spec fn number_parts(value: Seq<u8>) -> Seq<Seq<char>> {
    Seq::new(value.len() / 2, |i: int| text::decimal(options::u16_at(value, 2 * i)))
}

/// A four-byte number with a sign.
pub open spec fn signed(n: nat) -> int {
    if n >= 0x8000_0000 {
        n - 0x1_0000_0000
    } else {
        n as int
    }
}

/// Whether an option holds addresses.
pub open spec fn holds_addresses(code: u8) -> bool {
    code == 1 || code == 3 || code == 6 || code == 28 || code == 42 || code == 50 || code == 54
}

/// Whether an option holds text.
pub open spec fn holds_text(code: u8) -> bool {
    code == 12 || code == 15 || code == 60 || code == 66 || code == 67 || code == 77 || code == 101
        || code == 252
}

/// Text where there is one, and otherwise the bytes.
pub open spec fn or_printable(found: Option<Seq<char>>, value: Seq<u8>) -> Seq<char> {
    match found {
        Some(s) => s,
        None => printable_text(value),
    }
}

/// The value of an option as text.
pub open spec fn value_text(code: u8, value: Seq<u8>) -> Seq<char> {
    if holds_addresses(code) {
        or_printable(ip_text(value), value)
    } else if holds_text(code) {
        "\""@ + printable_text(value) + "\""@
    } else if code == 2 && value.len() == 4 {
        text::signed_decimal(signed(options::u32_at(value, 0)))
    } else if (code == 26 || code == 57) && value.len() == 2 {
        text::decimal(options::u16_at(value, 0))
    } else if (code == 51 || code == 58 || code == 59) && value.len() == 4 {
        text::decimal(options::u32_at(value, 0))
    } else if code == 53 && value.len() == 1 {
        dhcp::message_text(value[0]).map_values(|c: char| upper(c))
    } else if code == 55 {
        text::join(value.map_values(|b: u8| parameter_text(b)), ", "@)
    } else if code == 61 && value.len() == 7 && value[0] == 1 {
        "ether "@ + dhcp::colon_hex(value.skip(1))
    } else if code == 93 && value.len() % 2 == 0 {
        text::join(number_parts(value), ", "@)
    } else if code == 121 || code == 249 {
        or_printable(route_text(value), value)
    } else {
        printable_text(value)
    }
}

fn push_parameters(out: &mut String, value: &[u8])
    ensures
        final(out)@ == old(out)@ + text::join(value@.map_values(|b: u8| parameter_text(b)), ", "@),
{
    let ghost parts = value@.map_values(|b: u8| parameter_text(b));
    assert(out@ =~= old(out)@ + text::join(parts.take(0), ", "@));
    for i in 0..value.len()
        invariant
            parts == value@.map_values(|b: u8| parameter_text(b)),
            out@ == old(out)@ + text::join(parts.take(i as int), ", "@),
    {
        proof {
            text::lemma_join_take(parts, ", "@, i as int);
        }
        if i > 0 {
            out.append(", ");
        }
        let name = option_name(value[i]);
        out.append(name);
        if text::str_eq(name, "Option") {
            out.append(" ");
            text::push_decimal(out, value[i] as u64);
            assert("Option "@ =~= "Option"@ + " "@) by {
                reveal_strlit("Option ");
                reveal_strlit("Option");
                reveal_strlit(" ");
            }
        }
        assert(parts[i as int] == parameter_text(value@[i as int]));
        assert(out@ =~= old(out)@ + text::join(parts.take(i + 1), ", "@));
    }
    assert(parts.take(value@.len() as int) =~= parts);
}

fn push_numbers(out: &mut String, value: &[u8])
    ensures
        final(out)@ == old(out)@ + text::join(number_parts(value@), ", "@),
{
    let ghost parts = number_parts(value@);
    assert(out@ =~= old(out)@ + text::join(parts.take(0), ", "@));
    for i in 0..value.len() / 2
        invariant
            parts == number_parts(value@),
            out@ == old(out)@ + text::join(parts.take(i as int), ", "@),
    {
        proof {
            text::lemma_join_take(parts, ", "@, i as int);
        }
        if i > 0 {
            out.append(", ");
        }
        text::push_decimal(out, options::read_u16(value, 2 * i) as u64);
        assert(out@ =~= old(out)@ + text::join(parts.take(i + 1), ", "@));
    }
    assert(parts.take(parts.len() as int) =~= parts);
}

fn or_printable_string(found: Option<String>, value: &[u8]) -> (out: String)
    ensures
        out@ == or_printable(
            match found {
                Some(s) => Some(s@),
                None => None,
            },
            value@,
        ),
{
    match found {
        Some(s) => s,
        None => printable(value),
    }
}

pub fn option_value(code: u8, value: &[u8]) -> (out: String)
    ensures
        out@ == value_text(code, value@),
{
    let mut out = String::new();
    match code {
        1 | 3 | 6 | 28 | 42 | 50 | 54 => {
            return or_printable_string(ipv4_values(value), value);
        },
        12 | 15 | 60 | 66 | 67 | 77 | 101 | 252 => {
            out.append("\"");
            push_printable(&mut out, value);
            out.append("\"");
        },
        121 | 249 => {
            return or_printable_string(classless_routes(value), value);
        },
        _ => {
            if code == 2 && value.len() == 4 {
                let n: u32 = options::read_u32(value, 0);
                let signed: i64 = if n >= 0x8000_0000 {
                    n as i64 - 0x1_0000_0000
                } else {
                    n as i64
                };
                text::push_signed_decimal(&mut out, signed);
            } else if (code == 26 || code == 57) && value.len() == 2 {
                text::push_decimal(&mut out, options::read_u16(value, 0) as u64);
            } else if (code == 51 || code == 58 || code == 59) && value.len() == 4 {
                text::push_decimal(&mut out, options::read_u32(value, 0) as u64);
            } else if code == 53 && value.len() == 1 {
                push_upper(&mut out, dhcp::message_name(value[0]));
            } else if code == 55 {
                push_parameters(&mut out, value);
            } else if code == 61 && value.len() == 7 && value[0] == 1 {
                out.append("ether ");
                let address: &[u8] = &value[1..7];
                assert(address@ =~= value@.skip(1));
                dhcp::push_colon_hex(&mut out, address);
            } else if code == 93 && value.len() % 2 == 0 {
                push_numbers(&mut out, value);
            } else {
                return printable(value);
            }
        },
    }
    assert(out@ =~= value_text(code, value@));
    out
}

// ---------------------------------------------------------------------------
// Relay information

/// The name of a relay suboption.
pub open spec fn suboption_text(code: u8) -> Seq<char> {
    match code {
        1 => "Circuit-ID"@,
        2 => "Remote-ID"@,
        _ => "SubOption"@,
    }
}

/// One suboption of option 82.
pub open spec fn suboption_line(code: u8, value: Seq<u8>) -> Seq<char> {
    "      "@ + suboption_text(code) + " SubOption "@ + text::decimal(code as nat) + ", length "@
        + text::decimal(value.len()) + ": "@ + printable_text(value)
}

/// The suboptions of option 82, a line each; the first malformed one is the last.
pub open spec fn relay_lines(value: Seq<u8>) -> Seq<Seq<char>>
    decreases value.len(),
{
    if value.len() == 0 {
        Seq::empty()
    } else if value.len() < 2 {
        seq!["Malformed relay suboption header"@]
    } else if value.len() < 2 + value[1] {
        seq![
            "Malformed relay suboption "@ + text::decimal(value[0] as nat) + ", length "@
                + text::decimal(value[1] as nat),
        ]
    } else {
        seq![suboption_line(value[0], value.subrange(2, 2 + value[1]))] + relay_lines(
            value.skip(2 + value[1]),
        )
    }
}

/// The texts of strings.
pub open spec fn texts(lines: Seq<String>) -> Seq<Seq<char>> {
    lines.map_values(|s: String| s@)
}

pub fn relay_information(value: &[u8]) -> (lines: Vec<String>)
    ensures
        texts(lines@) == relay_lines(value@),
{
    let mut lines: Vec<String> = Vec::new();
    let mut i: usize = 0;
    assert(value@.skip(0) =~= value@);
    assert(texts(lines@) + relay_lines(value@) =~= relay_lines(value@));
    while i < value.len()
        invariant
            i <= value@.len(),
            texts(lines@) + relay_lines(value@.skip(i as int)) =~= relay_lines(value@),
        decreases value.len() - i,
    {
        let ghost rest = value@.skip(i as int);
        let ghost before = lines@;
        let mut line = String::new();
        if value.len() - i < 2 {
            line.append("Malformed relay suboption header");
            assert(line@ =~= "Malformed relay suboption header"@);
            lines.push(line);
            assert(texts(lines@) =~= texts(before).push(line@));
            return lines;
        }
        let code: u8 = value[i];
        let length: usize = value[i + 1] as usize;
        if value.len() - i - 2 < length {
            line.append("Malformed relay suboption ");
            text::push_decimal(&mut line, code as u64);
            line.append(", length ");
            text::push_decimal(&mut line, length as u64);
            assert(line@ =~= "Malformed relay suboption "@ + text::decimal(code as nat)
                + ", length "@ + text::decimal(length as nat));
            lines.push(line);
            assert(texts(lines@) =~= texts(before).push(line@));
            return lines;
        }
        let name = match code {
            1 => "Circuit-ID",
            2 => "Remote-ID",
            _ => "SubOption",
        };
        let piece: &[u8] = &value[i + 2..i + 2 + length];
        assert(piece@ =~= rest.subrange(2, 2 + rest[1]));
        line.append("      ");
        line.append(name);
        line.append(" SubOption ");
        text::push_decimal(&mut line, code as u64);
        line.append(", length ");
        text::push_decimal(&mut line, length as u64);
        line.append(": ");
        push_printable(&mut line, piece);
        assert(line@ =~= suboption_line(code, piece@));
        lines.push(line);
        assert(texts(lines@) =~= texts(before).push(line@));
        assert(rest.skip(2 + rest[1]) =~= value@.skip(i + 2 + length));
        i = i + 2 + length;
    }
    assert(texts(lines@) + Seq::empty() =~= texts(lines@));
    lines
}

// ---------------------------------------------------------------------------
// Whole messages

/// The lines, each behind a line break.
pub open spec fn broken(lines: Seq<Seq<char>>) -> Seq<char>
    decreases lines.len(),
{
    if lines.len() == 0 {
        Seq::empty()
    } else {
        broken(lines.drop_last()) + "\n"@ + lines.last()
    }
}

/// One option of a message.
pub open spec fn option_lines(code: u8, value: Seq<u8>) -> Seq<char> {
    "\n    "@ + option_text(code) + " Option "@ + text::decimal(code as nat) + ", length "@
        + text::decimal(value.len()) + ": "@ + value_text(code, value) + if code == 82 {
        broken(relay_lines(value))
    } else {
        Seq::empty()
    }
}

/// An option code that is the last byte.
pub open spec fn missing_length_line(code: u8) -> Seq<char> {
    "\n    Malformed Option "@ + text::decimal(code as nat) + ": missing length"@
}

/// An option whose value is cut off.
pub open spec fn cut_off_line(code: u8, len: u8) -> Seq<char> {
    "\n    Malformed Option "@ + text::decimal(code as nat) + ", length "@ + text::decimal(
        len as nat,
    )
}

/// The options area of a message; the first malformed option is the last.
pub open spec fn area_text(area: Seq<u8>) -> Seq<char>
    decreases area.len(),
{
    if area.len() == 0 || area[0] == 255 {
        Seq::empty()
    } else if area[0] == 0 {
        area_text(area.skip(1))
    } else if area.len() < 2 {
        missing_length_line(area[0])
    } else if area.len() < 2 + area[1] {
        cut_off_line(area[0], area[1])
    } else {
        option_lines(area[0], area.subrange(2, 2 + area[1])) + area_text(area.skip(2 + area[1]))
    }
}

/// The direction of a message.
pub open spec fn operation_text(op: u8) -> Seq<char> {
    match op {
        1 => "Request"@,
        2 => "Reply"@,
        _ => "Unknown"@,
    }
}

/// The first line of a message.
pub open spec fn summary_text(bytes: Seq<u8>) -> Seq<char> {
    "BOOTP/DHCP, "@ + operation_text(bytes[0]) + ", length "@ + text::decimal(bytes.len())
        + ", hops "@ + text::decimal(bytes[3] as nat) + ", xid 0x"@ + text::hex(
        options::u32_at(bytes, 4),
        8,
    ) + ", secs "@ + text::decimal(options::u16_at(bytes, 8)) + ", Flags ["@ + (if bytes[10] >= 128 {
        "Broadcast"@
    } else {
        "none"@
    }) + "]"@
}

/// An address field, if it is not zero.
pub open spec fn address_line(name: Seq<char>, bytes: Seq<u8>, i: int) -> Seq<char> {
    if net::ipv4_at(bytes, i).zero() {
        Seq::empty()
    } else {
        "\n  "@ + name + " "@ + net::ipv4_at(bytes, i).text()
    }
}

/// The text in a field, up to the first zero byte.
pub open spec fn field(bytes: Seq<u8>, from: int, to: int) -> Seq<u8> {
    bytes.subrange(from, to).take(text::find(bytes.subrange(from, to), 0))
}

/// A text field, if it is not empty.
pub open spec fn field_line(name: Seq<char>, value: Seq<u8>) -> Seq<char> {
    if value.len() == 0 {
        Seq::empty()
    } else {
        "\n  "@ + name + " \""@ + printable_text(value) + "\""@
    }
}

/// How many bytes of the hardware address field count.
pub open spec fn hardware_len(bytes: Seq<u8>) -> int {
    if bytes[2] < 16 {
        bytes[2] as int
    } else {
        16
    }
}

/// The fixed part of a message.
pub open spec fn fixed_text(bytes: Seq<u8>) -> Seq<char> {
    summary_text(bytes) + address_line("Client-IP"@, bytes, 12) + address_line(
        "Your-IP"@,
        bytes,
        16,
    ) + address_line("Server-IP"@, bytes, 20) + address_line("Gateway-IP"@, bytes, 24)
        + "\n  Client-Ethernet-Address "@ + dhcp::colon_hex(
        bytes.subrange(28, 28 + hardware_len(bytes)),
    ) + field_line("Server-Name"@, field(bytes, 44, 108)) + field_line(
        "Bootfile-Name"@,
        field(bytes, 108, 236),
    )
}

/// A message in words.
pub open spec fn packet_text(bytes: Seq<u8>) -> Seq<char> {
    if bytes.len() < 236 {
        "Malformed BOOTP/DHCP payload, length "@ + text::decimal(bytes.len())
    } else if bytes.len() < 240 || bytes.subrange(236, 240) != dhcp::cookie() {
        fixed_text(bytes) + "\n  No RFC1048 magic cookie"@
    } else {
        fixed_text(bytes) + "\n  Vendor-rfc1048 Extensions\n    Magic Cookie 0x63825363"@
            + area_text(bytes.skip(240))
    }
}

fn push_lines(out: &mut String, lines: &Vec<String>)
    ensures
        final(out)@ == old(out)@ + broken(texts(lines@)),
{
    let ghost all = texts(lines@);
    assert(out@ =~= old(out)@ + broken(all.take(0)));
    for i in 0..lines.len()
        invariant
            all == texts(lines@),
            out@ == old(out)@ + broken(all.take(i as int)),
    {
        assert(all.take(i + 1).drop_last() =~= all.take(i as int));
        out.append("\n");
        out.append(lines[i].as_str());
        assert(out@ =~= old(out)@ + broken(all.take(i + 1)));
    }
    assert(all.take(lines@.len() as int) =~= all);
}

fn push_option(out: &mut String, code: u8, value: &[u8])
    ensures
        final(out)@ == old(out)@ + option_lines(code, value@),
{
    let ghost start = out@;
    out.append("\n    ");
    out.append(option_name(code));
    out.append(" Option ");
    text::push_decimal(out, code as u64);
    out.append(", length ");
    text::push_decimal(out, value.len() as u64);
    out.append(": ");
    out.append(option_value(code, value).as_str());
    if code == 82 {
        push_lines(out, &relay_information(value));
    }
    assert(out@ =~= start + option_lines(code, value@));
}

fn push_missing_length(out: &mut String, code: u8)
    ensures
        final(out)@ == old(out)@ + missing_length_line(code),
{
    let ghost start = out@;
    out.append("\n    Malformed Option ");
    text::push_decimal(out, code as u64);
    out.append(": missing length");
    assert(out@ =~= start + missing_length_line(code));
}

fn push_cut_off(out: &mut String, code: u8, len: u8)
    ensures
        final(out)@ == old(out)@ + cut_off_line(code, len),
{
    let ghost start = out@;
    out.append("\n    Malformed Option ");
    text::push_decimal(out, code as u64);
    out.append(", length ");
    text::push_decimal(out, len as u64);
    assert(out@ =~= start + cut_off_line(code, len));
}

fn push_area(out: &mut String, area: &[u8])
    ensures
        final(out)@ == old(out)@ + area_text(area@),
{
    let mut i: usize = 0;
    assert(area@.skip(0) =~= area@);
    while i < area.len()
        invariant
            i <= area@.len(),
            out@ + area_text(area@.skip(i as int)) == old(out)@ + area_text(area@),
        decreases area.len() - i,
    {
        let ghost rest = area@.skip(i as int);
        let ghost before = out@;
        let code: u8 = area[i];
        if code == 255 {
            assert(out@ + Seq::<char>::empty() =~= out@);
            return;
        }
        if code == 0 {
            assert(rest.skip(1) =~= area@.skip(i + 1));
            i = i + 1;
            continue;
        }
        if area.len() - i < 2 {
            push_missing_length(out, code);
            return;
        }
        let length: usize = area[i + 1] as usize;
        if area.len() - i - 2 < length {
            push_cut_off(out, code, area[i + 1]);
            return;
        }
        let value: &[u8] = &area[i + 2..i + 2 + length];
        assert(value@ =~= rest.subrange(2, 2 + rest[1]));
        push_option(out, code, value);
        assert(rest.skip(2 + rest[1]) =~= area@.skip(i + 2 + length));
        proof {
            text::lemma_concat(
                before,
                option_lines(code, value@),
                area_text(area@.skip(i + 2 + length)),
            );
        }
        i = i + 2 + length;
    }
    assert(out@ + Seq::<char>::empty() =~= out@);
}

fn push_summary(out: &mut String, bytes: &[u8])
    requires
        bytes@.len() >= 236,
    ensures
        final(out)@ == old(out)@ + summary_text(bytes@),
{
    let ghost start = out@;
    out.append("BOOTP/DHCP, ");
    out.append(
        match bytes[0] {
            1 => "Request",
            2 => "Reply",
            _ => "Unknown",
        },
    );
    out.append(", length ");
    text::push_decimal(out, bytes.len() as u64);
    out.append(", hops ");
    text::push_decimal(out, bytes[3] as u64);
    out.append(", xid 0x");
    text::push_hex(out, options::read_u32(bytes, 4) as u64, 8);
    out.append(", secs ");
    text::push_decimal(out, options::read_u16(bytes, 8) as u64);
    out.append(", Flags [");
    if bytes[10] >= 128 {
        out.append("Broadcast");
    } else {
        out.append("none");
    }
    out.append("]");
    assert(out@ =~= start + summary_text(bytes@));
}

fn push_address(out: &mut String, name: &str, bytes: &[u8], i: usize)
    requires
        i + 4 <= bytes@.len(),
    ensures
        final(out)@ == old(out)@ + address_line(name@, bytes@, i as int),
{
    let ghost start = out@;
    let ip = Ipv4Addr::read(bytes, i);
    if !ip.is_unspecified() {
        out.append("\n  ");
        out.append(name);
        out.append(" ");
        ip.push_text(out);
    }
    assert(out@ =~= start + address_line(name@, bytes@, i as int));
}

fn push_field(out: &mut String, name: &str, bytes: &[u8], from: usize, to: usize)
    requires
        from <= to <= bytes@.len(),
    ensures
        final(out)@ == old(out)@ + field_line(name@, field(bytes@, from as int, to as int)),
{
    let ghost start = out@;
    let whole: &[u8] = &bytes[from..to];
    let n: usize = text::find_byte(whole, 0);
    let value: &[u8] = &whole[0..n];
    assert(value@ =~= field(bytes@, from as int, to as int));
    if value.len() > 0 {
        out.append("\n  ");
        out.append(name);
        out.append(" \"");
        push_printable(out, value);
        out.append("\"");
    }
    assert(out@ =~= start + field_line(name@, value@));
}

fn push_fixed(out: &mut String, bytes: &[u8])
    requires
        bytes@.len() >= 236,
    ensures
        final(out)@ == old(out)@ + fixed_text(bytes@),
{
    let ghost start = out@;
    let ghost s0 = summary_text(bytes@);
    let ghost a1 = address_line("Client-IP"@, bytes@, 12);
    let ghost a2 = address_line("Your-IP"@, bytes@, 16);
    let ghost a3 = address_line("Server-IP"@, bytes@, 20);
    let ghost a4 = address_line("Gateway-IP"@, bytes@, 24);
    let ghost s4 = s0 + a1 + a2 + a3 + a4;
    push_summary(out, bytes);
    push_address(out, "Client-IP", bytes, 12);
    push_address(out, "Your-IP", bytes, 16);
    push_address(out, "Server-IP", bytes, 20);
    push_address(out, "Gateway-IP", bytes, 24);
    proof {
        text::lemma_concat(start, s0, a1);
        text::lemma_concat(start, s0 + a1, a2);
        text::lemma_concat(start, s0 + a1 + a2, a3);
        text::lemma_concat(start, s0 + a1 + a2 + a3, a4);
        assert(out@ == start + s4);
    }
    let ghost mac = "\n  Client-Ethernet-Address "@;
    out.append("\n  Client-Ethernet-Address ");
    let n: usize = if bytes[2] < 16 {
        bytes[2] as usize
    } else {
        16
    };
    let address: &[u8] = &bytes[28..28 + n];
    assert(address@ =~= bytes@.subrange(28, 28 + hardware_len(bytes@)));
    dhcp::push_colon_hex(out, address);
    push_field(out, "Server-Name", bytes, 44, 108);
    push_field(out, "Bootfile-Name", bytes, 108, 236);
    proof {
        let hex = dhcp::colon_hex(address@);
        let f1 = field_line("Server-Name"@, field(bytes@, 44, 108));
        let f2 = field_line("Bootfile-Name"@, field(bytes@, 108, 236));
        text::lemma_concat(start, s4, mac);
        text::lemma_concat(start, s4 + mac, hex);
        text::lemma_concat(start, s4 + mac + hex, f1);
        text::lemma_concat(start, s4 + mac + hex + f1, f2);
    }
}

/// Describes a datagram.
pub fn dhcp_packet_dump(bytes: &[u8]) -> (out: String)
    ensures
        out@ == packet_text(bytes@),
{
    let mut out = String::new();
    if bytes.len() < 236 {
        out.append("Malformed BOOTP/DHCP payload, length ");
        text::push_decimal(&mut out, bytes.len() as u64);
        assert(out@ =~= packet_text(bytes@));
        return out;
    }
    push_fixed(&mut out, bytes);
    if bytes.len() < 240 || bytes[236] != 99 || bytes[237] != 130 || bytes[238] != 83 || bytes[239]
        != 99 {
        out.append("\n  No RFC1048 magic cookie");
        proof {
            if bytes@.len() >= 240 {
                let s = bytes@.subrange(236, 240);
                assert(s[0] != 99 || s[1] != 130 || s[2] != 83 || s[3] != 99);
            }
            assert(out@ =~= packet_text(bytes@));
        }
        return out;
    }
    assert(bytes@.subrange(236, 240) =~= dhcp::cookie());
    out.append("\n  Vendor-rfc1048 Extensions\n    Magic Cookie 0x63825363");
    let area: &[u8] = &bytes[240..bytes.len()];
    assert(area@ =~= bytes@.skip(240));
    push_area(&mut out, area);
    assert(out@ =~= packet_text(bytes@));
    out
}

/// A payload in hexadecimal notation.
pub open spec fn hex_text(bytes: Seq<u8>) -> Seq<char>
    decreases bytes.len(),
{
    if bytes.len() == 0 {
        Seq::empty()
    } else {
        hex_text(bytes.drop_last()) + text::hex(bytes.last() as nat, 2)
    }
}

/// The whole payload in hexadecimal notation.
pub fn hex_payload(bytes: &[u8]) -> (out: String)
    ensures
        out@ == hex_text(bytes@),
{
    let mut out = String::new();
    assert(out@ =~= hex_text(bytes@.take(0)));
    for i in 0..bytes.len()
        invariant
            out@ == hex_text(bytes@.take(i as int)),
    {
        assert(bytes@.take(i + 1).drop_last() =~= bytes@.take(i as int));
        text::push_hex(&mut out, bytes[i] as u64, 2);
    }
    assert(bytes@.take(bytes@.len() as int) =~= bytes@);
    out
}

} // verus!
