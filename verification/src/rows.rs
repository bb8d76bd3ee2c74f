//! Which rows and tables of clients are accepted, and what they yield.
use crate::clients;
use crate::clients::{Client, ClientView, Clients, ClientsErrorView, RecordView, RowError};
use crate::config;
use crate::net;
use crate::net::Ipv4Addr;
use crate::notations;
use crate::server;
use crate::settings;
use crate::text;
use std::sync::Arc;
use vstd::arithmetic::div_mod::*;
use vstd::arithmetic::power2::*;
use vstd::prelude::*;
use vstd::string::*;
use vstd::utf8::*;

verus! {

// ---------------------------------------------------------------------------
// Rows

/// How many addresses a network of that prefix length has.
pub open spec fn size(prefix: int) -> int {
    pow2((32 - prefix) as nat) as int
}

/// Whether a client and its gateway can have these addresses: of two hosts of one network
/// of prefix length 1 to 31, and neither the first nor the last of it, unless it has but
/// two.
pub open spec fn neighbours(ip: Ipv4Addr, prefix: int, gateway: Ipv4Addr) -> bool {
    let (a, b) = (notations::number_of(ip), notations::number_of(gateway));
    &&& 1 <= prefix <= 31
    &&& settings::host_address(ip) && settings::host_address(gateway)
    &&& ip != gateway
    &&& a / size(prefix) == b / size(prefix)
    &&& prefix <= 30 ==> 0 < a % size(prefix) < size(prefix) - 1 && 0 < b % size(prefix) < size(
        prefix,
    ) - 1
}

proof fn lemma_neighbours(ip: Ipv4Addr, prefix: int, gateway: Ipv4Addr)
    requires
        1 <= prefix <= 31,
    ensures
        neighbours(ip, prefix, gateway) <==> clients::address_fault(
            ip,
            prefix as nat,
            gateway,
        ) is None,
{
    let n = size(prefix);
    let a = notations::number_of(ip);
    let b = notations::number_of(gateway);
    lemma_pow2_pos((32 - prefix) as nat);
    lemma_fundamental_div_mod(a, n);
    lemma_fundamental_div_mod(b, n);
    lemma_mod_bound(a, n);
    lemma_mod_bound(b, n);
    assert(a == ip.bits() && b == gateway.bits());
    assert(n == net::block(prefix as nat));
    let qa = a / n;
    let qb = b / n;
    assert(a - a % n == n * qa);
    assert(b - b % n == n * qb);
    if qa != qb {
        assert(n * qa != n * qb) by (nonlinear_arith)
            requires
                qa != qb,
                n > 0,
        ;
    }
    lemma_same_number(ip, gateway);
}

proof fn lemma_same_number(x: Ipv4Addr, y: Ipv4Addr)
    ensures
        notations::number_of(x) == notations::number_of(y) <==> x == y,
{
    assert(notations::number_of(x) == x.bits());
    assert(notations::number_of(y) == y.bits());
    if x.bits() == y.bits() {
        net::lemma_bits_injective(x, y);
    }
}

/// The fields of a row.
pub open spec fn short_row(
    location: Seq<char>,
    hostname: Seq<char>,
    boot_type: Seq<char>,
    mac: Seq<char>,
    ip: Ipv4Addr,
    prefix: nat,
    gateway: Ipv4Addr,
) -> Seq<Seq<char>> {
    seq![
        location,
        hostname,
        boot_type,
        mac,
        notations::dotted(ip),
        text::decimal(prefix),
        notations::dotted(gateway),
    ]
}

/// The fields of a row with a domain and an MTU.
pub open spec fn long_row(
    location: Seq<char>,
    hostname: Seq<char>,
    domain: Seq<char>,
    boot_type: Seq<char>,
    mtu: nat,
    mac: Seq<char>,
    ip: Ipv4Addr,
    prefix: nat,
    gateway: Ipv4Addr,
) -> Seq<Seq<char>> {
    seq![
        location,
        hostname,
        domain,
        boot_type,
        text::decimal(mtu),
        mac,
        notations::dotted(ip),
        text::decimal(prefix),
        notations::dotted(gateway),
    ]
}

/// Whether the names in a row are such: a location of 1 to 64 bytes, a host name and one of
/// the two boot types.
pub open spec fn good_names(location: Seq<char>, hostname: Seq<char>, boot_type: Seq<char>) -> bool {
    &&& 1 <= encode_utf8(location).len() <= 64
    &&& config::hostname_ok(encode_utf8(hostname))
    &&& boot_type == "bios"@ || boot_type == "uefi"@
}

proof fn lemma_addresses(ip: Ipv4Addr, prefix: nat, gateway: Ipv4Addr)
    requires
        neighbours(ip, prefix as int, gateway),
    ensures
        clients::addresses(
            encode_utf8(notations::dotted(ip)),
            encode_utf8(text::decimal(prefix)),
            encode_utf8(notations::dotted(gateway)),
        ) == Ok::<(Ipv4Addr, u8, Ipv4Addr), RowError>((ip, prefix as u8, gateway)),
{
    notations::law_addresses_are_read_back(ip);
    notations::law_addresses_are_read_back(gateway);
    notations::law_numbers_are_read_back(prefix, 255);
    lemma_neighbours(ip, prefix as int, gateway);
}

/// Every row with good names, a hardware address and addresses that a client and its
/// gateway can have is accepted, and yields just what it holds.
pub proof fn law_short_rows_are_accepted(
    location: Seq<char>,
    hostname: Seq<char>,
    boot_type: Seq<char>,
    mac: Seq<char>,
    ip: Ipv4Addr,
    prefix: nat,
    gateway: Ipv4Addr,
)
    requires
        good_names(location, hostname, boot_type),
        clients::mac(encode_utf8(mac)) is Ok,
        neighbours(ip, prefix as int, gateway),
    ensures
        clients::row_client(
            short_row(location, hostname, boot_type, mac, ip, prefix, gateway),
        ) == Ok::<ClientView, RowError>(
            ClientView {
                location,
                mac: clients::mac(encode_utf8(mac))->Ok_0,
                boot_type,
                hostname,
                domain: Seq::empty(),
                mtu: None,
                ip,
                prefix_length: prefix as u8,
                gateway,
            },
        ),
{
    lemma_addresses(ip, prefix, gateway);
    let fields = short_row(location, hostname, boot_type, mac, ip, prefix, gateway);
    assert(fields[0] == location && fields[1] == hostname && fields[2] == boot_type && fields[3]
        == mac && fields[4] == notations::dotted(ip) && fields[5] == text::decimal(prefix)
        && fields[6] == notations::dotted(gateway));
}

/// The same holds of rows with a domain and an MTU from 68 to 65535.
pub proof fn law_long_rows_are_accepted(
    location: Seq<char>,
    hostname: Seq<char>,
    domain: Seq<char>,
    boot_type: Seq<char>,
    mtu: nat,
    mac: Seq<char>,
    ip: Ipv4Addr,
    prefix: nat,
    gateway: Ipv4Addr,
)
    requires
        good_names(location, hostname, boot_type),
        config::hostname_ok(encode_utf8(domain)),
        68 <= mtu <= 65535,
        clients::mac(encode_utf8(mac)) is Ok,
        neighbours(ip, prefix as int, gateway),
    ensures
        clients::row_client(
            long_row(location, hostname, domain, boot_type, mtu, mac, ip, prefix, gateway),
        ) == Ok::<ClientView, RowError>(
            ClientView {
                location,
                mac: clients::mac(encode_utf8(mac))->Ok_0,
                boot_type,
                hostname,
                domain,
                mtu: Some(mtu as u16),
                ip,
                prefix_length: prefix as u8,
                gateway,
            },
        ),
{
    lemma_addresses(ip, prefix, gateway);
    notations::law_numbers_are_read_back(mtu, 65535);
    let fields = long_row(location, hostname, domain, boot_type, mtu, mac, ip, prefix, gateway);
    assert(fields[0] == location && fields[1] == hostname && fields[2] == domain && fields[3]
        == boot_type && fields[4] == text::decimal(mtu) && fields[5] == mac && fields[6]
        == notations::dotted(ip) && fields[7] == text::decimal(prefix) && fields[8]
        == notations::dotted(gateway));
}

/// An accepted row is one of these, but for a plus sign or zeros in front of a number: its
/// fields are what its client holds.
pub proof fn law_accepted_rows(fields: Seq<Seq<char>>)
    ensures
        clients::row_client(fields) matches Ok(c) ==> ({
            let long = fields.len() == 9;
            let at: int = if long {
                5
            } else {
                3
            };
            &&& fields.len() == 7 || fields.len() == 9
            &&& c.location == fields[0] && c.hostname == fields[1]
            &&& c.boot_type == fields[at - (if long {
                2int
            } else {
                1
            })]
            &&& good_names(c.location, c.hostname, c.boot_type)
            &&& !long ==> c.domain.len() == 0 && c.mtu is None
            &&& long ==> c.domain == fields[2] && config::hostname_ok(encode_utf8(c.domain))
            &&& long ==> c.mtu is Some && c.mtu->0 >= 68 && text::number(
                encode_utf8(fields[4]),
                10,
                65535,
            ) == Some(c.mtu->0 as nat)
            &&& clients::mac(encode_utf8(fields[at])) == Ok::<Seq<u8>, RowError>(c.mac)
            &&& fields[at + 1] == notations::dotted(c.ip)
            &&& text::number(encode_utf8(fields[at + 2]), 10, 255) == Some(c.prefix_length as nat)
            &&& fields[at + 3] == notations::dotted(c.gateway)
            &&& neighbours(c.ip, c.prefix_length as int, c.gateway)
        }),
{
    if clients::row_client(fields) is Ok {
        let c = clients::row_client(fields)->Ok_0;
        let at: int = if fields.len() == 9 {
            5
        } else {
            3
        };
        notations::law_only_dotted_decimals_are_addresses(encode_utf8(fields[at + 1]));
        notations::law_only_dotted_decimals_are_addresses(encode_utf8(fields[at + 3]));
        text::lemma_encode_utf8_injective(fields[at + 1], notations::dotted(c.ip));
        text::lemma_encode_utf8_injective(fields[at + 3], notations::dotted(c.gateway));
        lemma_neighbours(c.ip, c.prefix_length as int, c.gateway);
    }
}

/// A row is refused for what is wrong with it.
pub proof fn law_refused_rows(fields: Seq<Seq<char>>)
    ensures
        clients::row_client(fields) matches Err(error) ==> ({
            let long = fields.len() == 9;
            let at: int = if long {
                5
            } else {
                3
            };
            let boot_type = fields[at - (if long {
                2int
            } else {
                1
            })];
            let ip = net::ipv4(encode_utf8(fields[at + 1]));
            let prefix = text::number(encode_utf8(fields[at + 2]), 10, 255);
            let gateway = net::ipv4(encode_utf8(fields[at + 3]));
            let (a, b) = (notations::number_of(ip->0), notations::number_of(gateway->0));
            let n = size(prefix->0 as int);
            match error {
                RowError::FieldCount => fields.len() != 7 && fields.len() != 9,
                RowError::Location => encode_utf8(fields[0]).len() == 0 || encode_utf8(
                    fields[0],
                ).len() > 64,
                RowError::Hostname => !config::hostname_ok(encode_utf8(fields[1])),
                RowError::Domain => long && !config::hostname_ok(encode_utf8(fields[2])),
                RowError::BootType => boot_type != "bios"@ && boot_type != "uefi"@,
                RowError::Mtu => long && (text::number(encode_utf8(fields[4]), 10, 65535) is None
                    || text::number(encode_utf8(fields[4]), 10, 65535)->0 < 68),
                RowError::MacParts => !notations::six_pairs(encode_utf8(fields[at])),
                RowError::MacOctet => !notations::six_pairs(encode_utf8(fields[at])),
                RowError::MacAddress => clients::mac(encode_utf8(fields[at])) is Err,
                RowError::Ip => ip is None,
                RowError::Prefix(_) => prefix is None,
                RowError::PrefixRange => prefix is Some && !(1 <= prefix->0 <= 31),
                RowError::Gateway => gateway is None,
                RowError::NotUnicast => !settings::host_address(ip->0) || !settings::host_address(
                    gateway->0,
                ),
                RowError::GatewayNetwork => a / n != b / n,
                RowError::ClientEdge => prefix->0 <= 30 && (a % n == 0 || a % n == n - 1),
                RowError::GatewayEdge => prefix->0 <= 30 && (b % n == 0 || b % n == n - 1),
                RowError::GatewayIsClient => ip == gateway,
            }
        }),
{
    if clients::row_client(fields) is Err {
        let at: int = if fields.len() == 9 {
            5
        } else {
            3
        };
        notations::law_hardware_addresses(encode_utf8(fields[at]));
        lemma_mac_faults(encode_utf8(fields[at]));
        let ip = net::ipv4(encode_utf8(fields[at + 1]));
        let prefix = text::number(encode_utf8(fields[at + 2]), 10, 255);
        let gateway = net::ipv4(encode_utf8(fields[at + 3]));
        if prefix is Some && 1 <= prefix->0 <= 31 {
            let n = size(prefix->0 as int);
            let a = notations::number_of(ip->0);
            let b = notations::number_of(gateway->0);
            lemma_pow2_pos((32 - prefix->0) as nat);
            lemma_fundamental_div_mod(a, n);
            lemma_fundamental_div_mod(b, n);
            assert(a == ip->0.bits() && b == gateway->0.bits());
            assert(n == net::block(prefix->0));
        }
    }
}

proof fn lemma_mac_faults(s: Seq<u8>)
    ensures
        clients::mac(s) matches Err(error) ==> (error == RowError::MacParts || error
            == RowError::MacOctet ==> !notations::six_pairs(s)) && (error == RowError::MacParts
            || error == RowError::MacOctet || error == RowError::MacAddress),
{
    if notations::six_pairs(s) {
        notations::lemma_six_parts(s);
        let parts = clients::mac_parts(s);
        notations::lemma_pair(parts[0]);
        notations::lemma_pair(parts[1]);
        notations::lemma_pair(parts[2]);
        notations::lemma_pair(parts[3]);
        notations::lemma_pair(parts[4]);
        notations::lemma_pair(parts[5]);
        assert forall|i: int| 0 <= i < 6 implies text::all_digits(#[trigger] parts[i], 16)
            && parts[i].len() == 2 by {
            assert(i == 0 || i == 1 || i == 2 || i == 3 || i == 4 || i == 5);
        }
    }
}

// ---------------------------------------------------------------------------
// Tables

/// Whether a row holds the names of the fields, with or without those of the domain and
/// the MTU.
pub open spec fn names_of_fields(f: Seq<Seq<char>>) -> bool {
    ||| f.len() == 7 && f[0] == "location"@ && f[1] == "hostname"@ && f[2] == "boot_type"@ && f[3]
        == "mac"@ && f[4] == "ip"@ && f[5] == "prefix_length"@ && f[6] == "gateway"@
    ||| f.len() == 9 && f[0] == "location"@ && f[1] == "hostname"@ && f[2] == "domain"@ && f[3]
        == "boot_type"@ && f[4] == "mtu"@ && f[5] == "mac"@ && f[6] == "ip"@ && f[7]
        == "prefix_length"@ && f[8] == "gateway"@
}

/// Whether the record at `i` is passed over: it is the first, and holds the names of the
/// fields.
pub open spec fn passed_over(records: Seq<RecordView>, i: int) -> bool {
    i == 0 && records[0] is Ok && names_of_fields(records[0]->Ok_0.fields)
}

proof fn lemma_passed_over(records: Seq<RecordView>, i: int)
    ensures
        passed_over(records, i) == clients::header_record(records, i),
{
    let f = records[0]->Ok_0.fields;
    let short = seq![
        "location"@,
        "hostname"@,
        "boot_type"@,
        "mac"@,
        "ip"@,
        "prefix_length"@,
        "gateway"@,
    ];
    let long = seq![
        "location"@,
        "hostname"@,
        "domain"@,
        "boot_type"@,
        "mtu"@,
        "mac"@,
        "ip"@,
        "prefix_length"@,
        "gateway"@,
    ];
    if names_of_fields(f) {
        if f.len() == 7 {
            assert(f =~= short);
        } else {
            assert(f =~= long);
        }
    }
}

/// The client in the record at `i`.
pub open spec fn row_at(records: Seq<RecordView>, i: int) -> Result<ClientView, RowError> {
    clients::row_client(records[i]->Ok_0.fields)
}

/// Whether every record but a first one with the names of the fields is an accepted row.
pub open spec fn all_rows(records: Seq<RecordView>) -> bool {
    forall|i: int|
        #![trigger records[i]]
        0 <= i < records.len() && !passed_over(records, i) ==> records[i] is Ok && row_at(
            records,
            i,
        ) is Ok
}

/// Whether no two rows have the same hardware address or the same address.
pub open spec fn all_distinct(records: Seq<RecordView>) -> bool {
    forall|i: int, j: int|
        #![trigger records[i], records[j]]
        0 <= i < j < records.len() && !passed_over(records, i) ==> row_at(records, i)->Ok_0.mac
            != row_at(records, j)->Ok_0.mac && row_at(records, i)->Ok_0.ip != row_at(
            records,
            j,
        )->Ok_0.ip
}

proof fn lemma_front(records: Seq<RecordView>, i: int)
    requires
        0 <= i < records.len() - 1,
    ensures
        records.drop_last()[i] == records[i],
        passed_over(records.drop_last(), i) == passed_over(records, i),
        row_at(records.drop_last(), i) == row_at(records, i),
{
}

/// A table is accepted exactly if all its records are rows and no two rows have the same
/// hardware address or the same address.
pub proof fn law_tables_are_accepted(records: Seq<RecordView>)
    ensures
        clients::table(records) is Ok <==> all_rows(records) && all_distinct(records),
    decreases records.len(),
{
    if all_rows(records) && all_distinct(records) {
        lemma_accepted(records);
    }
    if clients::table(records) is Ok {
        assert forall|i: int|
            #![trigger records[i]]
            0 <= i < records.len() && !passed_over(records, i) implies records[i] is Ok && row_at(
            records,
            i,
        ) is Ok by {
            lemma_passed_over(records, i);
            clients::law_every_row_counts(records, i);
        }
        assert forall|i: int, j: int|
            #![trigger records[i], records[j]]
            0 <= i < j < records.len() && !passed_over(records, i) implies row_at(
            records,
            i,
        )->Ok_0.mac != row_at(records, j)->Ok_0.mac && row_at(records, i)->Ok_0.ip != row_at(
            records,
            j,
        )->Ok_0.ip by {
            lemma_passed_over(records, i);
            lemma_passed_over(records, j);
            clients::law_every_row_counts(records, i);
            clients::law_every_row_counts(records, j);
            let (a, b) = (row_at(records, i)->Ok_0, row_at(records, j)->Ok_0);
            if a.mac == b.mac || a.ip == b.ip {
                clients::law_duplicates_spoil_the_table(records, i, j);
            }
        }
    }
}

proof fn lemma_accepted(records: Seq<RecordView>)
    requires
        all_rows(records),
        all_distinct(records),
    ensures
        clients::table(records) is Ok,
    decreases records.len(),
{
    if records.len() > 0 {
        let front = records.drop_last();
        let last = records.len() - 1;
        assert forall|i: int|
            #![trigger front[i]]
            0 <= i < front.len() && !passed_over(front, i) implies front[i] is Ok && row_at(
            front,
            i,
        ) is Ok by {
            lemma_front(records, i);
            assert(records[i] is Ok);
        }
        assert forall|i: int, j: int|
            #![trigger front[i], front[j]]
            0 <= i < j < front.len() && !passed_over(front, i) implies row_at(front, i)->Ok_0.mac
            != row_at(front, j)->Ok_0.mac && row_at(front, i)->Ok_0.ip != row_at(front, j)->Ok_0.ip by {
            lemma_front(records, i);
            lemma_front(records, j);
            assert(records[i] == front[i] && records[j] == front[j]);
        }
        lemma_accepted(front);
        lemma_passed_over(records, last);
        let before = clients::table(front)->Ok_0;
        assert(records.last() == records[last]);
        if !passed_over(records, last) {
            let client = row_at(records, last)->Ok_0;
            let key = clients::mac_number(client.mac) as u64;
            clients::lemma_row_client_wf(records[last]->Ok_0.fields);
            if before.contains_key(key) {
                let i = lemma_origin(front, key);
                lemma_front(records, i);
                let other = row_at(records, i)->Ok_0;
                clients::lemma_row_client_wf(records[i]->Ok_0.fields);
                clients::lemma_mac_number(other.mac, client.mac);
                clients::lemma_mac_number(client.mac, other.mac);
                assert(records[i] == front[i] && records[last] == records.last());
                assert(false);
            }
            if clients::assigned(before, client.ip) {
                let k = choose|k: u64| #[trigger] before.contains_key(k) && before[k].ip
                    == client.ip;
                let i = lemma_origin(front, k);
                lemma_front(records, i);
                assert(records[i] == front[i] && records[last] == records.last());
                assert(false);
            }
        }
    }
}

/// Every client of a table comes from one of its rows.
proof fn lemma_origin(records: Seq<RecordView>, key: u64) -> (i: int)
    requires
        clients::table(records) is Ok,
        clients::table(records)->Ok_0.contains_key(key),
    ensures
        0 <= i < records.len(),
        !passed_over(records, i),
        records[i] is Ok,
        row_at(records, i) is Ok,
        clients::table(records)->Ok_0[key] == row_at(records, i)->Ok_0,
        key == clients::mac_number(row_at(records, i)->Ok_0.mac) as u64,
    decreases records.len(),
{
    let front = records.drop_last();
    let last = records.len() - 1;
    lemma_passed_over(records, last);
    let before = clients::table(front)->Ok_0;
    if passed_over(records, last) {
        let i = lemma_origin(front, key);
        lemma_front(records, i);
        i
    } else {
        let client = row_at(records, last)->Ok_0;
        if key == clients::mac_number(client.mac) as u64 {
            last
        } else {
            let i = lemma_origin(front, key);
            lemma_front(records, i);
            i
        }
    }
}

/// An accepted table holds the clients of its rows and no others.
pub proof fn law_tables_hold_their_rows(records: Seq<RecordView>, client: ClientView)
    requires
        clients::table(records) is Ok,
    ensures
        clients::table(records)->Ok_0.contains_value(client) <==> exists|i: int|
            #![trigger records[i]]
            0 <= i < records.len() && !passed_over(records, i) && row_at(records, i) == Ok::<
                ClientView,
                RowError,
            >(client),
{
    let t = clients::table(records)->Ok_0;
    if t.contains_value(client) {
        let key = choose|key: u64| t.contains_key(key) && t[key] == client;
        let i = lemma_origin(records, key);
        assert(records[i] is Ok);
    }
    if exists|i: int|
        #![trigger records[i]]
        0 <= i < records.len() && !passed_over(records, i) && row_at(records, i) == Ok::<
            ClientView,
            RowError,
        >(client) {
        let i = choose|i: int|
            #![trigger records[i]]
            0 <= i < records.len() && !passed_over(records, i) && row_at(records, i) == Ok::<
                ClientView,
                RowError,
            >(client);
        lemma_passed_over(records, i);
        clients::law_every_row_counts(records, i);
        let key = clients::mac_number(client.mac) as u64;
        assert(t.contains_key(key) && t[key] == client);
    }
}

/// The line of the record at `i`: the one that was read, or its number.
pub open spec fn line_of(records: Seq<RecordView>, i: int) -> int {
    match records[i]->Ok_0.line {
        Some(line) => line as int,
        None => i + 1,
    }
}

/// Whether the record at `j` is a row with the hardware address of the one at `i`.
pub open spec fn has_mac_of(records: Seq<RecordView>, j: int, i: int) -> bool {
    !passed_over(records, j) && row_at(records, j) is Ok && row_at(records, j)->Ok_0.mac == row_at(
        records,
        i,
    )->Ok_0.mac
}

/// Whether the record at `j` is a row with the address of the one at `i`.
pub open spec fn has_ip_of(records: Seq<RecordView>, j: int, i: int) -> bool {
    !passed_over(records, j) && row_at(records, j) is Ok && row_at(records, j)->Ok_0.ip == row_at(
        records,
        i,
    )->Ok_0.ip
}

/// Whether a row before the one at `i` has its hardware address.
pub open spec fn repeats_mac(records: Seq<RecordView>, i: int) -> bool {
    exists|j: int| 0 <= j < i && #[trigger] has_mac_of(records, j, i)
}

/// Whether a row before the one at `i` has its address.
pub open spec fn repeats_ip(records: Seq<RecordView>, i: int) -> bool {
    exists|j: int| 0 <= j < i && #[trigger] has_ip_of(records, j, i)
}

/// Whether the record at `i` is at fault in that way: it is none, or it is a row that is
/// refused or repeats an address of a row before it; with its number or its line.
pub open spec fn at_fault(records: Seq<RecordView>, i: int, error: ClientsErrorView) -> bool {
    &&& !passed_over(records, i)
    &&& match error {
        ClientsErrorView::Record(n, why) => n == i + 1 && records[i] == Err::<
            clients::RowView,
            Seq<char>,
        >(why),
        ClientsErrorView::Line(line, fault) => records[i] is Ok && line == line_of(records, i)
            && row_at(records, i) == Err::<ClientView, RowError>(fault),
        ClientsErrorView::DuplicateMac(line) => records[i] is Ok && line == line_of(records, i)
            && row_at(records, i) is Ok && repeats_mac(records, i),
        ClientsErrorView::DuplicateIp(line, ip) => records[i] is Ok && line == line_of(records, i)
            && row_at(records, i) is Ok && !repeats_mac(records, i) && repeats_ip(records, i)
            && row_at(records, i)->Ok_0.ip == ip,
    }
}

proof fn lemma_repeats(records: Seq<RecordView>, i: int)
    requires
        0 <= i < records.len() - 1,
    ensures
        repeats_mac(records.drop_last(), i) == repeats_mac(records, i),
        repeats_ip(records.drop_last(), i) == repeats_ip(records, i),
{
    let front = records.drop_last();
    lemma_front(records, i);
    assert forall|j: int| 0 <= j < i implies #[trigger] has_mac_of(front, j, i) == has_mac_of(
        records,
        j,
        i,
    ) by {
        lemma_front(records, j);
    }
    assert forall|j: int| 0 <= j < i implies #[trigger] has_ip_of(front, j, i) == has_ip_of(
        records,
        j,
        i,
    ) by {
        lemma_front(records, j);
    }
    if repeats_mac(records, i) {
        let j = choose|j: int| 0 <= j < i && #[trigger] has_mac_of(records, j, i);
        assert(has_mac_of(front, j, i));
    }
    if repeats_ip(records, i) {
        let j = choose|j: int| 0 <= j < i && #[trigger] has_ip_of(records, j, i);
        assert(has_ip_of(front, j, i));
    }
}

proof fn lemma_last_fault(records: Seq<RecordView>)
    requires
        0 < records.len() < u64::MAX,
        clients::table(records) is Err,
        clients::table(records.drop_last()) is Ok,
    ensures
        at_fault(records, records.len() - 1, clients::table(records)->Err_0),
{
    let front = records.drop_last();
    let last = records.len() - 1;
    let before = clients::table(front)->Ok_0;
    lemma_passed_over(records, last);
    assert(records[last] == records.last());
    if records[last] is Ok && row_at(records, last) is Ok {
        let client = row_at(records, last)->Ok_0;
        let key = clients::mac_number(client.mac) as u64;
        clients::lemma_row_client_wf(records[last]->Ok_0.fields);
        if before.contains_key(key) {
            let j = lemma_origin(front, key);
            lemma_front(records, j);
            clients::lemma_row_client_wf(records[j]->Ok_0.fields);
            clients::lemma_mac_number(row_at(records, j)->Ok_0.mac, client.mac);
            clients::lemma_mac_number(client.mac, client.mac);
            assert(has_mac_of(records, j, last));
        } else {
            if repeats_mac(records, last) {
                let j = choose|j: int| 0 <= j < last && #[trigger] has_mac_of(records, j, last);
                lemma_front(records, j);
                lemma_passed_over(front, j);
                clients::law_every_row_counts(front, j);
            }
            if clients::assigned(before, client.ip) {
                let k = choose|k: u64| #[trigger] before.contains_key(k) && before[k].ip
                    == client.ip;
                let j = lemma_origin(front, k);
                lemma_front(records, j);
                assert(has_ip_of(records, j, last));
            }
        }
    }
}

/// A table is refused for its first fault: every record before it makes a table.
pub proof fn law_refused_tables(records: Seq<RecordView>)
    requires
        records.len() < u64::MAX,
    ensures
        clients::table(records) matches Err(error) ==> exists|i: int|
            0 <= i < records.len() && clients::table(records.take(i)) is Ok && #[trigger] at_fault(
                records,
                i,
                error,
            ),
    decreases records.len(),
{
    if records.len() > 0 && clients::table(records) is Err {
        let front = records.drop_last();
        let last = records.len() - 1;
        let error = clients::table(records)->Err_0;
        if clients::table(front) is Err {
            law_refused_tables(front);
            let i = choose|i: int|
                0 <= i < front.len() && clients::table(front.take(i)) is Ok && #[trigger] at_fault(
                    front,
                    i,
                    error,
                );
            lemma_front(records, i);
            lemma_repeats(records, i);
            assert(records.take(i) =~= front.take(i));
            assert(at_fault(records, i, error));
        } else {
            lemma_last_fault(records);
            assert(records.take(last) =~= front);
        }
    }
}

// ---------------------------------------------------------------------------
// Lookups

/// A client is found by its hardware address, and no other is found under it.
pub proof fn law_clients_are_found(clients: Arc<Clients>, mac: Seq<u8>, key: u64)
    requires
        clients.wf(),
        mac.len() == 6,
    ensures
        server::client_of(Some(clients), mac) matches Some(client) ==> client.mac@ == mac,
        clients.records@.contains_key(key) && clients.records@[key].mac@ == mac
            ==> server::client_of(Some(clients), mac) == Some(clients.records@[key]),
        (forall|k: u64| #[trigger]
            clients.records@.contains_key(k) ==> clients.records@[k].mac@ != mac)
            ==> server::client_of(Some(clients), mac) is None,
{
    let n = clients::mac_number(mac) as u64;
    clients::lemma_mac_number(mac, mac);
    if clients.records@.contains_key(n) {
        assert(clients@.contains_key(n));
        let found = clients.records@[n].mac@;
        assert(clients@[n].wf());
        clients::lemma_mac_number(found, mac);
    }
    if clients.records@.contains_key(key) && clients.records@[key].mac@ == mac {
        assert(clients@.contains_key(key));
        assert(clients::mac_number(clients@[key].mac) == key);
    }
}

} // verus!
