//! The client table.
use crate::config;
use crate::net;
use crate::net::Ipv4Addr;
use crate::text;
use crate::text::NumberFault;
use std::collections::HashMap;
use vstd::prelude::*;
use vstd::string::*;
use vstd::utf8::*;

verus! {

/// One row of the client table.
#[derive(Debug, Clone)]
pub struct Client {
    pub location: String,
    pub mac: [u8; 6],
    /// `bios` or `uefi`.
    pub boot_type: String,
    pub hostname: String,
    /// Empty where the row names none.
    pub domain: String,
    pub mtu: Option<u16>,
    pub ip: Ipv4Addr,
    pub prefix_length: u8,
    pub gateway: Ipv4Addr,
}

/// What a `Client` holds.
#[verifier::ext_equal]
pub struct ClientView {
    pub location: Seq<char>,
    pub mac: Seq<u8>,
    pub boot_type: Seq<char>,
    pub hostname: Seq<char>,
    pub domain: Seq<char>,
    pub mtu: Option<u16>,
    pub ip: Ipv4Addr,
    pub prefix_length: u8,
    pub gateway: Ipv4Addr,
}

impl View for Client {
    type V = ClientView;

    open spec fn view(&self) -> ClientView {
        ClientView {
            location: self.location@,
            mac: self.mac@,
            boot_type: self.boot_type@,
            hostname: self.hostname@,
            domain: self.domain@,
            mtu: self.mtu,
            ip: self.ip,
            prefix_length: self.prefix_length,
            gateway: self.gateway,
        }
    }
}

/// Why a row is refused.
#[derive(Debug, Clone, Copy, PartialEq, Eq, Structural)]
pub enum RowError {
    /// Neither seven nor nine fields.
    FieldCount,
    Location,
    Hostname,
    Domain,
    BootType,
    Mtu,
    /// Not six parts of two characters with colons between them.
    MacParts,
    /// A character that is no hexadecimal digit.
    MacOctet,
    /// Zero, or not the address of one machine.
    MacAddress,
    Ip,
    /// No number up to 255.
    Prefix(NumberFault),
    PrefixRange,
    Gateway,
    NotUnicast,
    /// The gateway is in another network.
    GatewayNetwork,
    /// The client has the first or the last address of its network.
    ClientEdge,
    GatewayEdge,
    GatewayIsClient,
}

// ---------------------------------------------------------------------------
// Hardware addresses

/// A hardware address as a number.
pub open spec fn mac_number(mac: Seq<u8>) -> nat {
    (((((mac[0] * 256 + mac[1]) * 256 + mac[2]) * 256 + mac[3]) * 256 + mac[4]) * 256
        + mac[5]) as nat
}

pub proof fn lemma_mac_number(a: Seq<u8>, b: Seq<u8>)
    requires
        a.len() == 6,
        b.len() == 6,
    ensures
        mac_number(a) < 0x1_0000_0000_0000,
        mac_number(a) == mac_number(b) ==> a == b,
{
    if mac_number(a) == mac_number(b) {
        assert(a =~= b);
    }
}

/// A hardware address as a number.
pub fn mac_key(mac: &[u8; 6]) -> (key: u64)
    ensures
        key == mac_number(mac@),
{
    ((((mac[0] as u64 * 256 + mac[1] as u64) * 256 + mac[2] as u64) * 256 + mac[3] as u64) * 256
        + mac[4] as u64) * 256 + mac[5] as u64
}

/// The parts of a hardware address between its colons.
pub open spec fn mac_parts(s: Seq<u8>) -> Seq<Seq<u8>> {
    text::split(s, 58)
}

/// The hardware address that `s` denotes: six pairs of hexadecimal digits, in upper or
/// lower case, that are not all zero and whose first is even.
pub open spec fn mac(s: Seq<u8>) -> Result<Seq<u8>, RowError> {
    let parts = mac_parts(s);
    if !(parts.len() == 6 && forall|i: int| 0 <= i < 6 ==> (#[trigger] parts[i]).len() == 2) {
        Err(RowError::MacParts)
    } else if exists|i: int| 0 <= i < 6 && !text::all_digits(#[trigger] parts[i], 16) {
        Err(RowError::MacOctet)
    } else {
        let octets = Seq::new(6, |i: int| text::digits_value(parts[i], 16) as u8);
        if octets == Seq::new(6, |i: int| 0u8) || octets[0] % 2 == 1 {
            Err(RowError::MacAddress)
        } else {
            Ok(octets)
        }
    }
}

proof fn lemma_pair_fits(part: Seq<u8>)
    requires
        part.len() == 2,
        text::all_digits(part, 16),
    ensures
        text::digits_value(part, 16) <= 255,
{
    reveal_with_fuel(text::digits_value, 3);
    assert(text::digit_value(part[0], 16) < 16);
    assert(text::digit_value(part[1], 16) < 16);
}

fn parse_octet(part: &[u8]) -> (n: Option<u8>)
    ensures
        n is Some <==> part@.len() > 0 && text::all_digits(part@, 16) && text::digits_value(
            part@,
            16,
        ) <= 255,
        n matches Some(v) ==> v == text::digits_value(part@, 16),
{
    if part.len() > 0 && part[0] == 43 {
        assert(text::digit_value(part@[0], 16) == 16);
        return None;
    }
    match text::parse_number(part, 16, 255) {
        Some(n) => Some(n as u8),
        None => None,
    }
}

fn parse_mac(s: &[u8]) -> (parsed: Result<[u8; 6], RowError>)
    ensures
        match parsed {
            Ok(octets) => mac(s@) == Ok::<Seq<u8>, RowError>(octets@),
            Err(error) => mac(s@) == Err::<Seq<u8>, RowError>(error),
        },
{
    let parts = text::split_bytes(s, 58);
    let ghost views = mac_parts(s@);
    assert(text::views(parts@).len() == parts@.len());
    if parts.len() != 6 {
        return Err(RowError::MacParts);
    }
    assert(forall|i: int| 0 <= i < 6 ==> #[trigger] views[i] == parts@[i]@);
    for i in 0..6
        invariant
            parts@.len() == 6,
            views == mac_parts(s@),
            views.len() == 6,
            forall|j: int| 0 <= j < 6 ==> #[trigger] views[j] == parts@[j]@,
            forall|j: int| 0 <= j < i ==> (#[trigger] views[j]).len() == 2,
    {
        let part: &[u8] = parts[i];
        if part.len() != 2 {
            assert(views[i as int].len() != 2);
            return Err(RowError::MacParts);
        }
    }
    let mut octets: [u8; 6] = [0, 0, 0, 0, 0, 0];
    for i in 0..6
        invariant
            parts@.len() == 6,
            views == mac_parts(s@),
            views.len() == 6,
            forall|j: int| 0 <= j < 6 ==> #[trigger] views[j] == parts@[j]@,
            forall|j: int| 0 <= j < 6 ==> (#[trigger] views[j]).len() == 2,
            forall|j: int| 0 <= j < i ==> text::all_digits(#[trigger] views[j], 16),
            forall|j: int|
                0 <= j < i ==> #[trigger] octets@[j] == text::digits_value(views[j], 16) as u8,
    {
        match parse_octet(parts[i]) {
            Some(octet) => {
                octets[i] = octet;
            },
            None => {
                proof {
                    if text::all_digits(views[i as int], 16) {
                        lemma_pair_fits(views[i as int]);
                    }
                }
                return Err(RowError::MacOctet);
            },
        }
    }
    let ghost expected = Seq::new(6, |i: int| text::digits_value(views[i], 16) as u8);
    assert(octets@ =~= expected);
    if octets[0] == 0 && octets[1] == 0 && octets[2] == 0 && octets[3] == 0 && octets[4] == 0
        && octets[5] == 0 {
        assert(octets@ =~= Seq::new(6, |i: int| 0u8));
        return Err(RowError::MacAddress);
    }
    assert(expected != Seq::new(6, |i: int| 0u8)) by {
        let zeros = Seq::new(6, |i: int| 0u8);
        assert(zeros[0] == 0 && zeros[1] == 0 && zeros[2] == 0 && zeros[3] == 0 && zeros[4] == 0
            && zeros[5] == 0);
    }
    if octets[0] % 2 == 1 {
        return Err(RowError::MacAddress);
    }
    Ok(octets)
}

// ---------------------------------------------------------------------------
// Rows

/// The first address of the network that `bits` is in.
pub open spec fn network(bits: nat, prefix: nat) -> int {
    bits - bits % net::block(prefix)
}

/// Whether this is the first or the last address of its network.
pub open spec fn at_edge(ip: Ipv4Addr, prefix: nat) -> bool {
    ip.bits() % net::block(prefix) == 0 || ip.bits() % net::block(prefix) == net::block(prefix) - 1
}

/// What is wrong with a client's address and gateway, if anything is. In a network of
/// two addresses both can be used; in a larger one the first and the last cannot.
pub open spec fn address_fault(ip: Ipv4Addr, prefix: nat, gateway: Ipv4Addr) -> Option<RowError> {
    if !config::unicast(ip) || !config::unicast(gateway) {
        Some(RowError::NotUnicast)
    } else if network(gateway.bits(), prefix) != network(ip.bits(), prefix) {
        Some(RowError::GatewayNetwork)
    } else if prefix < 31 && at_edge(ip, prefix) {
        Some(RowError::ClientEdge)
    } else if prefix < 31 && at_edge(gateway, prefix) {
        Some(RowError::GatewayEdge)
    } else if ip == gateway {
        Some(RowError::GatewayIsClient)
    } else {
        None
    }
}

/// The addresses of a row: the client's, its prefix length and its gateway.
pub open spec fn addresses(ip: Seq<u8>, prefix: Seq<u8>, gateway: Seq<u8>) -> Result<
    (Ipv4Addr, u8, Ipv4Addr),
    RowError,
> {
    if net::ipv4(ip) is None {
        Err(RowError::Ip)
    } else if text::number(prefix, 10, 255) is None {
        Err(RowError::Prefix(text::number_fault(prefix, 10, 255)))
    } else if !(1 <= text::number(prefix, 10, 255)->0 <= 31) {
        Err(RowError::PrefixRange)
    } else if net::ipv4(gateway) is None {
        Err(RowError::Gateway)
    } else {
        let client = net::ipv4(ip)->0;
        let length = text::number(prefix, 10, 255)->0;
        let router = net::ipv4(gateway)->0;
        match address_fault(client, length, router) {
            Some(error) => Err(error),
            None => Ok((client, length as u8, router)),
        }
    }
}

/// The client that a row denotes. A row of seven fields holds
/// `location,hostname,boot_type,mac,ip,prefix_length,gateway`; one of nine has the
/// domain behind the host name and the MTU behind the boot type.
pub open spec fn row_client(fields: Seq<Seq<char>>) -> Result<ClientView, RowError> {
    let long = fields.len() == 9;
    let boot_type = if long {
        fields[3]
    } else {
        fields[2]
    };
    let mtu = if long {
        text::number(encode_utf8(fields[4]), 10, 65535)
    } else {
        None
    };
    let at: int = if long {
        5
    } else {
        3
    };
    let address = mac(encode_utf8(fields[at]));
    let rest = addresses(
        encode_utf8(fields[at + 1]),
        encode_utf8(fields[at + 2]),
        encode_utf8(fields[at + 3]),
    );
    if fields.len() != 7 && fields.len() != 9 {
        Err(RowError::FieldCount)
    } else if !(1 <= encode_utf8(fields[0]).len() <= 64) {
        Err(RowError::Location)
    } else if !config::hostname_ok(encode_utf8(fields[1])) {
        Err(RowError::Hostname)
    } else if long && !config::hostname_ok(encode_utf8(fields[2])) {
        Err(RowError::Domain)
    } else if boot_type != "bios"@ && boot_type != "uefi"@ {
        Err(RowError::BootType)
    } else if long && (mtu is None || mtu->0 < 68) {
        Err(RowError::Mtu)
    } else if address is Err {
        Err(address->Err_0)
    } else if rest is Err {
        Err(rest->Err_0)
    } else {
        Ok(
            ClientView {
                location: fields[0],
                mac: address->Ok_0,
                boot_type,
                hostname: fields[1],
                domain: if long {
                    fields[2]
                } else {
                    Seq::empty()
                },
                mtu: if long {
                    Some(mtu->0 as u16)
                } else {
                    None
                },
                ip: rest->Ok_0.0,
                prefix_length: rest->Ok_0.1,
                gateway: rest->Ok_0.2,
            },
        )
    }
}

impl ClientView {
    /// What every accepted row keeps to.
    pub open spec fn wf(self) -> bool {
        &&& 1 <= encode_utf8(self.location).len() <= 64
        &&& config::hostname_ok(encode_utf8(self.hostname))
        &&& self.domain.len() > 0 ==> config::hostname_ok(encode_utf8(self.domain))
        &&& self.boot_type == "bios"@ || self.boot_type == "uefi"@
        &&& self.mtu matches Some(mtu) ==> mtu >= 68
        &&& self.mac.len() == 6
        &&& self.mac != Seq::new(6, |i: int| 0u8)
        &&& self.mac[0] % 2 == 0
        &&& 1 <= self.prefix_length <= 31
        &&& address_fault(self.ip, self.prefix_length as nat, self.gateway) is None
    }
}

/// A client that a row denotes is well-formed.
pub proof fn lemma_row_client_wf(fields: Seq<Seq<char>>)
    ensures
        row_client(fields) matches Ok(client) ==> client.wf(),
{
}

fn is_at_edge(ip: Ipv4Addr, prefix: u8) -> (yes: bool)
    requires
        1 <= prefix <= 31,
    ensures
        yes == at_edge(ip, prefix as nat),
{
    let host: u32 = net::host_bits(ip.to_bits(), prefix);
    let last: u32 = 0xffff_ffff - config::prefix_mask(prefix);
    host == 0 || host == last
}

fn find_address_fault(ip: Ipv4Addr, prefix: u8, gateway: Ipv4Addr) -> (fault: Option<RowError>)
    requires
        1 <= prefix <= 31,
    ensures
        fault == address_fault(ip, prefix as nat, gateway),
{
    if !config::is_unicast(ip) || !config::is_unicast(gateway) {
        return Some(RowError::NotUnicast);
    }
    proof {
        net::lemma_block(prefix as nat);
        vstd::arithmetic::div_mod::lemma_mod_bound(ip.bits() as int, net::block(prefix as nat) as int);
        vstd::arithmetic::div_mod::lemma_mod_decreases(ip.bits(), net::block(prefix as nat));
        vstd::arithmetic::div_mod::lemma_mod_decreases(gateway.bits(), net::block(prefix as nat));
    }
    let client_bits: u32 = ip.to_bits();
    let gateway_bits: u32 = gateway.to_bits();
    if gateway_bits - net::host_bits(gateway_bits, prefix) != client_bits - net::host_bits(
        client_bits,
        prefix,
    ) {
        return Some(RowError::GatewayNetwork);
    }
    if prefix < 31 && is_at_edge(ip, prefix) {
        return Some(RowError::ClientEdge);
    }
    if prefix < 31 && is_at_edge(gateway, prefix) {
        return Some(RowError::GatewayEdge);
    }
    if ip == gateway {
        return Some(RowError::GatewayIsClient);
    }
    None
}

fn parse_addresses(ip: &[u8], prefix: &[u8], gateway: &[u8]) -> (parsed: Result<
    (Ipv4Addr, u8, Ipv4Addr),
    RowError,
>)
    ensures
        parsed == addresses(ip@, prefix@, gateway@),
{
    let client = match net::parse_ipv4(ip) {
        Some(ip) => ip,
        None => {
            return Err(RowError::Ip);
        },
    };
    let length: u8 = match text::read_number(prefix, 10, 255) {
        Ok(n) => n as u8,
        Err(fault) => {
            return Err(RowError::Prefix(fault));
        },
    };
    if length < 1 || length > 31 {
        return Err(RowError::PrefixRange);
    }
    let router = match net::parse_ipv4(gateway) {
        Some(ip) => ip,
        None => {
            return Err(RowError::Gateway);
        },
    };
    match find_address_fault(client, length, router) {
        Some(error) => Err(error),
        None => Ok((client, length, router)),
    }
}

/// The texts of a row's fields.
pub open spec fn field_views(fields: Seq<String>) -> Seq<Seq<char>> {
    fields.map_values(|f: String| f@)
}

/// Parses the fields of one row.
pub fn parse_client(fields: &Vec<String>) -> (parsed: Result<Client, RowError>)
    ensures
        match parsed {
            Ok(client) => row_client(field_views(fields@)) == Ok::<ClientView, RowError>(client@)
                && client@.wf(),
            Err(error) => row_client(field_views(fields@)) == Err::<ClientView, RowError>(error),
        },
{
    let ghost views = field_views(fields@);
    if fields.len() != 7 && fields.len() != 9 {
        return Err(RowError::FieldCount);
    }
    let long: bool = fields.len() == 9;
    let location = fields[0].as_str();
    if location.as_bytes().len() < 1 || location.as_bytes().len() > 64 {
        return Err(RowError::Location);
    }
    if !config::valid_hostname(fields[1].as_str()) {
        return Err(RowError::Hostname);
    }
    if long && !config::valid_hostname(fields[2].as_str()) {
        return Err(RowError::Domain);
    }
    let boot_type: &String = if long {
        &fields[3]
    } else {
        &fields[2]
    };
    if !text::str_eq(boot_type.as_str(), "bios") && !text::str_eq(boot_type.as_str(), "uefi") {
        return Err(RowError::BootType);
    }
    let mut mtu: Option<u16> = None;
    if long {
        match text::parse_number(fields[4].as_str().as_bytes(), 10, 65535) {
            Some(n) => {
                if n < 68 {
                    return Err(RowError::Mtu);
                }
                mtu = Some(n as u16);
            },
            None => {
                return Err(RowError::Mtu);
            },
        }
    }
    let at: usize = if long {
        5
    } else {
        3
    };
    let mac = match parse_mac(fields[at].as_str().as_bytes()) {
        Ok(mac) => mac,
        Err(error) => {
            return Err(error);
        },
    };
    let (ip, prefix_length, gateway) = match parse_addresses(
        fields[at + 1].as_str().as_bytes(),
        fields[at + 2].as_str().as_bytes(),
        fields[at + 3].as_str().as_bytes(),
    ) {
        Ok(parsed) => parsed,
        Err(error) => {
            return Err(error);
        },
    };
    let domain: String = if long {
        fields[2].clone()
    } else {
        String::new()
    };
    let client = Client {
        location: fields[0].clone(),
        mac,
        boot_type: boot_type.clone(),
        hostname: fields[1].clone(),
        domain,
        mtu,
        ip,
        prefix_length,
        gateway,
    };
    proof {
        assert(client@ =~= row_client(views)->Ok_0);
        lemma_row_client_wf(views);
    }
    Ok(client)
}

// ---------------------------------------------------------------------------
// Tables

/// One record of a CSV file.
#[derive(Debug, Clone)]
pub struct Row {
    pub fields: Vec<String>,
    /// The line behind the record before it, if that is known.
    pub line: Option<u64>,
}

/// What a `Row` holds.
#[verifier::ext_equal]
pub struct RowView {
    pub fields: Seq<Seq<char>>,
    pub line: Option<u64>,
}

impl View for Row {
    type V = RowView;

    open spec fn view(&self) -> RowView {
        RowView { fields: field_views(self.fields@), line: self.line }
    }
}

/// Why a table is refused.
#[derive(Debug, Clone)]
pub enum ClientsError {
    /// The record with that number is no CSV; the text says why.
    Record(u64, String),
    /// The row on that line is refused.
    Line(u64, RowError),
    /// The row on that line repeats a hardware address.
    DuplicateMac(u64),
    /// The row on that line repeats an address.
    DuplicateIp(u64, Ipv4Addr),
}

/// What a `ClientsError` holds.
pub enum ClientsErrorView {
    Record(u64, Seq<char>),
    Line(u64, RowError),
    DuplicateMac(u64),
    DuplicateIp(u64, Ipv4Addr),
}

impl View for ClientsError {
    type V = ClientsErrorView;

    open spec fn view(&self) -> ClientsErrorView {
        match self {
            ClientsError::Record(number, why) => ClientsErrorView::Record(*number, why@),
            ClientsError::Line(line, error) => ClientsErrorView::Line(*line, *error),
            ClientsError::DuplicateMac(line) => ClientsErrorView::DuplicateMac(*line),
            ClientsError::DuplicateIp(line, ip) => ClientsErrorView::DuplicateIp(*line, *ip),
        }
    }
}

/// A record as it was read: a row, or the reason why there is none.
pub type RecordView = Result<RowView, Seq<char>>;

/// What a record holds.
pub open spec fn record_view(record: Result<Row, String>) -> RecordView {
    match record {
        Ok(row) => Ok(row@),
        Err(why) => Err(why@),
    }
}

/// What records hold.
pub open spec fn record_views(records: Seq<Result<Row, String>>) -> Seq<RecordView> {
    records.map_values(|r: Result<Row, String>| record_view(r))
}

/// The names of the fields, which may stand in the first row.
pub open spec fn is_header(fields: Seq<Seq<char>>) -> bool {
    ||| fields == seq![
        "location"@,
        "hostname"@,
        "boot_type"@,
        "mac"@,
        "ip"@,
        "prefix_length"@,
        "gateway"@,
    ]
    ||| fields == seq![
        "location"@,
        "hostname"@,
        "domain"@,
        "boot_type"@,
        "mtu"@,
        "mac"@,
        "ip"@,
        "prefix_length"@,
        "gateway"@,
    ]
}

/// Whether some client of the table has that address.
pub open spec fn assigned(table: Map<u64, ClientView>, ip: Ipv4Addr) -> bool {
    exists|k: u64| #[trigger] table.contains_key(k) && table[k].ip == ip
}

/// The table with one more record, which is the one with that index.
pub open spec fn add_record(table: Map<u64, ClientView>, record: RecordView, index: nat) -> Result<
    Map<u64, ClientView>,
    ClientsErrorView,
> {
    match record {
        Err(why) => Err(ClientsErrorView::Record((index + 1) as u64, why)),
        Ok(row) => if index == 0 && is_header(row.fields) {
            Ok(table)
        } else {
            let line = match row.line {
                Some(line) => line,
                None => (index + 1) as u64,
            };
            match row_client(row.fields) {
                Err(error) => Err(ClientsErrorView::Line(line, error)),
                Ok(client) => if table.contains_key(mac_number(client.mac) as u64) {
                    Err(ClientsErrorView::DuplicateMac(line))
                } else if assigned(table, client.ip) {
                    Err(ClientsErrorView::DuplicateIp(line, client.ip))
                } else {
                    Ok(table.insert(mac_number(client.mac) as u64, client))
                },
            }
        },
    }
}

/// The table that records make, by hardware address; the first fault spoils all of it.
pub open spec fn table(records: Seq<RecordView>) -> Result<Map<u64, ClientView>, ClientsErrorView>
    decreases records.len(),
{
    if records.len() == 0 {
        Ok(Map::empty())
    } else {
        match table(records.drop_last()) {
            Err(error) => Err(error),
            Ok(before) => add_record(before, records.last(), (records.len() - 1) as nat),
        }
    }
}

/// All clients, by hardware address and by address.
#[derive(Debug, Clone)]
pub struct Clients {
    pub records: HashMap<u64, Client>,
    pub by_ip: HashMap<u32, [u8; 6]>,
}

/// The clients by their hardware addresses. The index by address follows from them: see
/// `Clients::wf`.
impl View for Clients {
    type V = Map<u64, ClientView>;

    open spec fn view(&self) -> Map<u64, ClientView> {
        self.records@.map_values(|c: Client| c@)
    }
}

/// Whether every client of a table is well-formed and stands under its own hardware
/// address, and no two have the same address.
pub open spec fn table_wf(table: Map<u64, ClientView>) -> bool {
    &&& forall|k: u64| #[trigger]
        table.contains_key(k) ==> table[k].wf() && mac_number(table[k].mac) == k
    &&& forall|j: u64, k: u64| #[trigger]
        table.contains_key(j) && #[trigger] table.contains_key(k) && table[j].ip == table[k].ip
            ==> j == k
}

impl Clients {
    /// Whether the two indexes agree on a well-formed table.
    pub open spec fn wf(self) -> bool {
        &&& table_wf(self@)
        &&& forall|k: u64| #[trigger]
            self.records@.contains_key(k) ==> self.by_ip@.contains_key(
                self.records@[k].ip.bits() as u32,
            ) && self.by_ip@[self.records@[k].ip.bits() as u32]@ == self.records@[k].mac@
        &&& forall|b: u32| #[trigger]
            self.by_ip@.contains_key(b) ==> self.records@.contains_key(
                mac_number(self.by_ip@[b]@) as u64,
            ) && self.records@[mac_number(self.by_ip@[b]@) as u64].ip.bits() == b
    }
}

impl Default for Clients {
    fn default() -> (clients: Self)
        ensures
            clients@ == Map::<u64, ClientView>::empty(),
            clients.wf(),
    {
        let clients = Clients { records: HashMap::new(), by_ip: HashMap::new() };
        assert(clients@ =~= Map::<u64, ClientView>::empty());
        clients
    }
}

fn fields_are(fields: &Vec<String>, names: &[&str]) -> (yes: bool)
    ensures
        yes == (field_views(fields@) == names@.map_values(|n: &str| n@)),
{
    let ghost expected = names@.map_values(|n: &str| n@);
    if fields.len() != names.len() {
        assert(field_views(fields@).len() != expected.len());
        return false;
    }
    for i in 0..fields.len()
        invariant
            fields@.len() == names@.len(),
            expected == names@.map_values(|n: &str| n@),
            forall|j: int| 0 <= j < i ==> (#[trigger] field_views(fields@)[j]) == expected[j],
    {
        if !text::str_eq(fields[i].as_str(), names[i]) {
            assert(field_views(fields@)[i as int] != expected[i as int]);
            return false;
        }
    }
    assert(field_views(fields@) =~= expected);
    true
}

fn is_header_row(fields: &Vec<String>) -> (yes: bool)
    ensures
        yes == is_header(field_views(fields@)),
{
    let short: [&str; 7] = [
        "location",
        "hostname",
        "boot_type",
        "mac",
        "ip",
        "prefix_length",
        "gateway",
    ];
    let long: [&str; 9] = [
        "location",
        "hostname",
        "domain",
        "boot_type",
        "mtu",
        "mac",
        "ip",
        "prefix_length",
        "gateway",
    ];
    assert(short@.map_values(|n: &str| n@) =~= seq![
        "location"@,
        "hostname"@,
        "boot_type"@,
        "mac"@,
        "ip"@,
        "prefix_length"@,
        "gateway"@,
    ]);
    assert(long@.map_values(|n: &str| n@) =~= seq![
        "location"@,
        "hostname"@,
        "domain"@,
        "boot_type"@,
        "mtu"@,
        "mac"@,
        "ip"@,
        "prefix_length"@,
        "gateway"@,
    ]);
    fields_are(fields, &short) || fields_are(fields, &long)
}

impl Clients {
    /// The client with that hardware address.
    pub fn get(&self, mac: &[u8; 6]) -> (client: Option<&Client>)
        ensures
            match client {
                Some(c) => self.records@.contains_key(mac_number(mac@) as u64) && *c
                    == self.records@[mac_number(mac@) as u64],
                None => !self.records@.contains_key(mac_number(mac@) as u64),
            },
    {
        let key: u64 = mac_key(mac);
        self.records.get(&key)
    }

    fn insert(&mut self, client: Client)
        requires
            old(self).wf(),
            client@.wf(),
            !old(self)@.contains_key(mac_number(client.mac@) as u64),
            !assigned(old(self)@, client.ip),
        ensures
            final(self).wf(),
            final(self)@ == old(self)@.insert(mac_number(client.mac@) as u64, client@),
    {
        let ghost before = *self;
        let key: u64 = mac_key(&client.mac);
        let bits: u32 = client.ip.to_bits();
        let mac: [u8; 6] = client.mac;
        let ghost added = client;
        self.by_ip.insert(bits, mac);
        self.records.insert(key, client);
        proof {
            assert(self@ =~= before@.insert(key, added@));
            assert forall|k: u64| #[trigger] before.records@.contains_key(k) implies before.records@[
                k
            ].ip.bits() != bits by {
                assert(before@.contains_key(k));
                if before.records@[k].ip.bits() == bits {
                    net::lemma_bits_injective(before.records@[k].ip, added.ip);
                }
            }
            assert forall|k: u64| #[trigger] self.records@.contains_key(k) implies (
            self.by_ip@.contains_key(self.records@[k].ip.bits() as u32)
                && self.by_ip@[self.records@[k].ip.bits() as u32]@ == self.records@[k].mac@) by {
                if k != key {
                    assert(before.records@.contains_key(k));
                }
            }
            assert forall|b: u32| #[trigger] self.by_ip@.contains_key(b) implies (
            self.records@.contains_key(mac_number(self.by_ip@[b]@) as u64) && self.records@[
                mac_number(self.by_ip@[b]@) as u64
            ].ip.bits() == b) by {
                if b != bits {
                    assert(before.by_ip@.contains_key(b));
                }
            }
        }
    }

    /// Adds the record with that index.
    fn add(&mut self, record: &Result<Row, String>, index: usize) -> (added: Result<
        (),
        ClientsError,
    >)
        requires
            old(self).wf(),
            index < usize::MAX,
        ensures
            final(self).wf(),
            match added {
                Ok(()) => add_record(old(self)@, record_view(*record), index as nat) == Ok::<
                    Map<u64, ClientView>,
                    ClientsErrorView,
                >(final(self)@),
                Err(error) => add_record(old(self)@, record_view(*record), index as nat) == Err::<
                    Map<u64, ClientView>,
                    ClientsErrorView,
                >(error@) && final(self)@ == old(self)@,
            },
    {
        let row: &Row = match record {
            Ok(row) => row,
            Err(why) => {
                return Err(ClientsError::Record(index as u64 + 1, why.clone()));
            },
        };
        if index == 0 && is_header_row(&row.fields) {
            return Ok(());
        }
        let line: u64 = match row.line {
            Some(line) => line,
            None => index as u64 + 1,
        };
        let client = match parse_client(&row.fields) {
            Ok(client) => client,
            Err(error) => {
                return Err(ClientsError::Line(line, error));
            },
        };
        let ip = client.ip;
        if self.records.contains_key(&mac_key(&client.mac)) {
            assert(self@.contains_key(mac_number(client.mac@) as u64));
            return Err(ClientsError::DuplicateMac(line));
        }
        assert(!self@.contains_key(mac_number(client.mac@) as u64));
        if self.by_ip.contains_key(&ip.to_bits()) {
            proof {
                let k = mac_number(self.by_ip@[ip.bits() as u32]@) as u64;
                net::lemma_bits_injective(self.records@[k].ip, ip);
                assert(self@.contains_key(k) && self@[k].ip == ip);
            }
            return Err(ClientsError::DuplicateIp(line, ip));
        }
        assert(!assigned(self@, ip)) by {
            if assigned(self@, ip) {
                let k = choose|k: u64| #[trigger] self@.contains_key(k) && self@[k].ip == ip;
                assert(self.records@.contains_key(k));
            }
        }
        self.insert(client);
        Ok(())
    }

    /// Makes the table of the records of a CSV file.
    #[verifier::rlimit(30)]
    pub fn from_records(records: Vec<Result<Row, String>>) -> (made: Result<Self, ClientsError>)
        ensures
            match made {
                Ok(clients) => table(record_views(records@)) == Ok::<
                    Map<u64, ClientView>,
                    ClientsErrorView,
                >(clients@) && clients.wf(),
                Err(error) => table(record_views(records@)) == Err::<
                    Map<u64, ClientView>,
                    ClientsErrorView,
                >(error@),
            },
    {
        let mut clients = Clients::default();
        let ghost views = record_views(records@);
        for i in 0..records.len()
            invariant
                views == record_views(records@),
                clients.wf(),
                table(views.take(i as int)) == Ok::<Map<u64, ClientView>, ClientsErrorView>(
                    clients@,
                ),
        {
            proof {
                assert(views.take(i + 1).drop_last() =~= views.take(i as int));
                assert(views.take(i + 1).last() == record_view(records@[i as int]));
                if table(views.take(i + 1)) is Err {
                    lemma_table_error(views, i + 1);
                }
            }
            match clients.add(&records[i], i) {
                Ok(()) => {},
                Err(error) => {
                    return Err(error);
                },
            }
        }
        assert(views.take(records@.len() as int) =~= views);
        Ok(clients)
    }
}

/// A record that is refused spoils every table that begins with it.
pub proof fn lemma_table_error(records: Seq<RecordView>, n: int)
    requires
        0 <= n <= records.len(),
        table(records.take(n)) is Err,
    ensures
        table(records) == table(records.take(n)),
    decreases records.len() - n,
{
    if n == records.len() {
        assert(records.take(n) =~= records);
    } else {
        assert(records.take(n + 1).drop_last() =~= records.take(n));
        lemma_table_error(records, n + 1);
    }
}

// ---------------------------------------------------------------------------
// CSV files

/// The records that the `csv` crate reads in a text: without headers, with `comment`
/// as the byte that makes a line a comment, and with the white space round every
/// field taken off.
pub uninterp spec fn csv_records(text: Seq<char>, comment: u8) -> Seq<
    Result<RowView, Seq<char>>,
>;

/// The records of a CSV text.
///
/// `csv::ReaderBuilder::from_reader` and the reader's records: they are a function of
/// the text and of the comment byte, and an empty text has none.
#[verifier::external_body]
fn read_records(text: &str, comment: u8) -> (records: Vec<Result<Row, String>>)
    ensures
        record_views(records@) == csv_records(text@, comment),
        text@.len() == 0 ==> records@.len() == 0,
{
    csv::ReaderBuilder::new()
        .has_headers(false)
        .comment(Some(comment))
        .trim(csv::Trim::All)
        .from_reader(text.as_bytes())
        .into_records()
        .map(|record| match record {
            Ok(row) => Ok(Row {
                fields: row.iter().map(str::to_owned).collect(),
                line: row.position().map(|position| position.line()),
            }),
            Err(error) => Err(error.to_string()),
        })
        .collect()
}

impl Clients {
    /// Parses a CSV file of clients. Lines that begin with `#` are comments.
    pub fn parse(text: &str) -> (parsed: Result<Self, ClientsError>)
        ensures
            match parsed {
                Ok(clients) => table(csv_records(text@, 35)) == Ok::<
                    Map<u64, ClientView>,
                    ClientsErrorView,
                >(clients@) && clients.wf(),
                Err(error) => table(csv_records(text@, 35)) == Err::<
                    Map<u64, ClientView>,
                    ClientsErrorView,
                >(error@),
            },
            text@.len() == 0 ==> parsed is Ok && parsed->Ok_0@ == Map::<u64, ClientView>::empty(),
    {
        Clients::from_records(read_records(text, 35))
    }
}

// ---------------------------------------------------------------------------
// Laws

/// Whether a record is the header.
pub open spec fn header_record(records: Seq<RecordView>, i: int) -> bool {
    i == 0 && records[0] is Ok && is_header(records[0]->Ok_0.fields)
}

/// The client in a record.
pub open spec fn record_client(record: RecordView) -> Result<ClientView, RowError> {
    row_client(record->Ok_0.fields)
}

/// Every accepted table is well-formed: each client stands under its own hardware
/// address, and no two have the same address.
pub proof fn law_tables_are_well_formed(records: Seq<RecordView>)
    ensures
        table(records) matches Ok(t) ==> table_wf(t),
    decreases records.len(),
{
    if records.len() > 0 && table(records) is Ok {
        let front = records.drop_last();
        law_tables_are_well_formed(front);
        let before = table(front)->Ok_0;
        let after = table(records)->Ok_0;
        if after != before {
            let client = record_client(records.last())->Ok_0;
            let key = mac_number(client.mac) as u64;
            lemma_row_client_wf(records.last()->Ok_0.fields);
            lemma_mac_number(client.mac, client.mac);
            assert forall|j: u64, k: u64| #[trigger]
                after.contains_key(j) && #[trigger] after.contains_key(k) && after[j].ip
                    == after[k].ip implies j == k by {
                if j != k && j == key {
                    assert(before.contains_key(k) && before[k].ip == client.ip);
                } else if j != k && k == key {
                    assert(before.contains_key(j) && before[j].ip == client.ip);
                }
            }
        }
    }
}

/// A file without rows, with or without a header, is an empty table and no fault.
pub proof fn law_tables_without_rows_are_empty(records: Seq<RecordView>)
    requires
        records.len() == 0 || records.len() == 1 && header_record(records, 0),
    ensures
        table(records) == Ok::<Map<u64, ClientView>, ClientsErrorView>(Map::empty()),
{
    reveal_with_fuel(table, 2);
}

/// If a table is accepted, every one of its rows is valid and stands in it.
pub proof fn law_every_row_counts(records: Seq<RecordView>, i: int)
    requires
        table(records) is Ok,
        0 <= i < records.len(),
        !header_record(records, i),
    ensures
        records[i] is Ok,
        record_client(records[i]) is Ok,
        ({
            let client = record_client(records[i])->Ok_0;
            let key = mac_number(client.mac) as u64;
            table(records)->Ok_0.contains_key(key) && table(records)->Ok_0[key] == client
        }),
    decreases records.len(),
{
    let front = records.drop_last();
    if i < records.len() - 1 {
        law_every_row_counts(front, i);
    }
}

/// One bad row spoils the whole file.
pub proof fn law_one_bad_row_spoils_the_table(records: Seq<RecordView>, i: int)
    requires
        0 <= i < records.len(),
        !header_record(records, i),
        records[i] is Err || record_client(records[i]) is Err,
    ensures
        table(records) is Err,
{
    if table(records) is Ok {
        law_every_row_counts(records, i);
    }
}

/// Two rows with the same hardware address or the same address spoil the whole file;
/// the same host name does not.
#[verifier::rlimit(30)]
pub proof fn law_duplicates_spoil_the_table(records: Seq<RecordView>, i: int, j: int)
    requires
        0 <= i < j < records.len(),
        !header_record(records, i),
        records[i] is Ok && records[j] is Ok,
        record_client(records[i]) is Ok && record_client(records[j]) is Ok,
        ({
            let a = record_client(records[i])->Ok_0;
            let b = record_client(records[j])->Ok_0;
            a.mac == b.mac || a.ip == b.ip
        }),
    ensures
        table(records) is Err,
{
    let upto = records.take(j);
    let with = records.take(j + 1);
    if table(with) is Err {
        lemma_table_error(records, j + 1);
    } else {
        assert(with.drop_last() =~= upto);
        assert(upto[i] == records[i]);
        law_every_row_counts(upto, i);
        let key = mac_number(record_client(records[i])->Ok_0.mac) as u64;
        assert(table(upto)->Ok_0.contains_key(key));
    }
}

/// A letter in lower case; any other byte as it is.
pub open spec fn lower(b: u8) -> u8 {
    if 65 <= b <= 90 {
        (b + 32) as u8
    } else {
        b
    }
}

/// Whether two texts are the same but for the case of letters.
pub open spec fn same_letters(s: Seq<u8>, t: Seq<u8>) -> bool {
    s.len() == t.len() && forall|i: int| 0 <= i < s.len() ==> lower(#[trigger] s[i]) == lower(t[i])
}

proof fn lemma_same_parts(s: Seq<u8>, t: Seq<u8>)
    requires
        same_letters(s, t),
    ensures
        mac_parts(s).len() == mac_parts(t).len(),
        forall|i: int|
            0 <= i < mac_parts(s).len() ==> same_letters(#[trigger] mac_parts(s)[i], mac_parts(t)[i]),
    decreases s.len(),
{
    let n = text::find(s, 58);
    text::lemma_find(s, 58);
    assert forall|j: int| 0 <= j < n implies t[j] != 58 by {
        assert(lower(s[j]) == lower(t[j]));
    }
    if n < s.len() {
        assert(lower(s[n]) == lower(t[n]));
    }
    text::lemma_find_unique(t, 58, n);
    if n < s.len() {
        let a = s.skip(n + 1);
        let b = t.skip(n + 1);
        assert forall|i: int| 0 <= i < a.len() implies lower(#[trigger] a[i]) == lower(b[i]) by {
            assert(lower(s[i + n + 1]) == lower(t[i + n + 1]));
        }
        lemma_same_parts(a, b);
        assert forall|i: int| 0 <= i < mac_parts(s).len() implies same_letters(
            #[trigger] mac_parts(s)[i],
            mac_parts(t)[i],
        ) by {
            if i == 0 {
                assert forall|k: int| 0 <= k < n implies lower(#[trigger] s.take(n)[k]) == lower(
                    t.take(n)[k],
                ) by {
                    assert(lower(s[k]) == lower(t[k]));
                }
            } else {
                assert(mac_parts(s)[i] == mac_parts(a)[i - 1]);
                assert(mac_parts(t)[i] == mac_parts(b)[i - 1]);
            }
        }
    }
}

proof fn lemma_same_digits(s: Seq<u8>, t: Seq<u8>)
    requires
        same_letters(s, t),
        s.len() == 2,
    ensures
        text::all_digits(s, 16) == text::all_digits(t, 16),
        text::digits_value(s, 16) == text::digits_value(t, 16),
{
    assert(lower(s[0]) == lower(t[0]));
    assert(lower(s[1]) == lower(t[1]));
    assert(text::digit_value(s[0], 16) == text::digit_value(t[0], 16));
    assert(text::digit_value(s[1], 16) == text::digit_value(t[1], 16));
    reveal_with_fuel(text::digits_value, 3);
}

/// A hardware address is the same in upper and in lower case.
pub proof fn law_mac_case_does_not_matter(s: Seq<u8>, t: Seq<u8>)
    requires
        same_letters(s, t),
    ensures
        mac(s) == mac(t),
{
    lemma_same_parts(s, t);
    let a = mac_parts(s);
    let b = mac_parts(t);
    assert forall|i: int| 0 <= i < a.len() && (#[trigger] a[i]).len() == 2 implies text::all_digits(
        a[i],
        16,
    ) == text::all_digits(b[i], 16) && text::digits_value(a[i], 16) == text::digits_value(
        b[i],
        16,
    ) by {
        assert(same_letters(a[i], b[i]));
        lemma_same_digits(a[i], b[i]);
    }
    assert(forall|i: int| 0 <= i < a.len() ==> same_letters(#[trigger] a[i], b[i]));
    if a.len() == 6 {
        assert(forall|i: int| 0 <= i < 6 ==> (#[trigger] a[i]).len() == b[i].len());
        if forall|i: int| 0 <= i < 6 ==> (#[trigger] a[i]).len() == 2 {
            assert forall|i: int| 0 <= i < 6 implies (#[trigger] b[i]).len() == 2 by {
                assert(a[i].len() == 2);
            }
            if exists|i: int| 0 <= i < 6 && !text::all_digits(#[trigger] a[i], 16) {
                let i = choose|i: int| 0 <= i < 6 && !text::all_digits(#[trigger] a[i], 16);
                assert(!text::all_digits(b[i], 16));
            }
            if exists|i: int| 0 <= i < 6 && !text::all_digits(#[trigger] b[i], 16) {
                let i = choose|i: int| 0 <= i < 6 && !text::all_digits(#[trigger] b[i], 16);
                assert(!text::all_digits(a[i], 16));
            }
            assert(Seq::new(6, |i: int| text::digits_value(a[i], 16) as u8) =~= Seq::new(
                6,
                |i: int| text::digits_value(b[i], 16) as u8,
            ));
        } else {
            let i = choose|i: int| 0 <= i < 6 && (#[trigger] a[i]).len() != 2;
            assert(b[i].len() != 2);
        }
    }
}

} // verus!
