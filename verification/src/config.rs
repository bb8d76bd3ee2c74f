//! The server's configuration and the rules that it has to keep.
use crate::net;
use crate::net::{Ipv4Addr, SocketAddr};
use crate::text;
use crate::text::NumberFault;
use vstd::arithmetic::power2::*;
use vstd::prelude::*;
use vstd::string::*;
use vstd::utf8::*;

verus! {

#[derive(Debug, Clone)]
pub struct Config {
    pub dhcp: DhcpConfig,
    pub http: HttpConfig,
    pub logging: LoggingConfig,
    pub client_options: ClientOptions,
    pub boot: BootConfig,
    pub clients_source: ClientsSource,
}

#[derive(Debug, Clone)]
pub struct LoggingConfig {
    /// A filter expression such as `info` or `macmapd=debug`.
    pub level: String,
    pub format: LogFormat,
    pub disable_timestamp: bool,
    /// Whether text output is coloured.
    pub color: bool,
    pub dhcp_packet_debug: bool,
}

#[derive(Debug, Clone, Copy, PartialEq, Eq, Structural)]
pub enum LogFormat {
    Json,
    Text,
}

impl Default for LoggingConfig {
    fn default() -> (logging: Self)
        ensures
            logging.level@ == "info"@,
            logging.format == LogFormat::Json,
            !logging.disable_timestamp,
            logging.color,
            !logging.dhcp_packet_debug,
    {
        LoggingConfig {
            level: "info".to_owned(),
            format: LogFormat::Json,
            disable_timestamp: false,
            color: true,
            dhcp_packet_debug: false,
        }
    }
}

impl LoggingConfig {
    /// The filter directive that lets packets be logged whatever the level is.
    pub fn packet_directive(&self) -> (directive: Option<&'static str>)
        ensures
            directive is Some <==> self.dhcp_packet_debug,
            directive matches Some(text) ==> text@ == "macmapd::dhcp=debug"@,
    {
        if self.dhcp_packet_debug {
            Some("macmapd::dhcp=debug")
        } else {
            None
        }
    }
}

#[derive(Debug, Clone)]
pub struct DhcpConfig {
    pub listen_ip: Ipv4Addr,
    pub server_identifier: Option<Ipv4Addr>,
    pub lease_seconds: u32,
}

#[derive(Debug, Clone)]
pub struct HttpConfig {
    pub listen: SocketAddr,
}

#[derive(Debug, Clone)]
pub struct ClientOptions {
    pub dns: Vec<Ipv4Addr>,
    pub ntp: Vec<Ipv4Addr>,
    pub timezone: String,
    /// Networks in prefix notation; every one of them is routed through the
    /// client's own gateway.
    pub classless_routes: Vec<String>,
}

#[derive(Debug, Clone)]
pub struct BootConfig {
    pub tftp_server: Ipv4Addr,
    /// The boot files by architecture.
    pub architectures: Vec<Architecture>,
}

/// The boot files of one architecture.
#[derive(Debug, Clone)]
pub struct Architecture {
    pub name: String,
    pub files: BootFiles,
}

#[derive(Debug, Clone)]
pub struct BootFiles {
    pub bios_file: Option<String>,
    pub uefi_file: Option<String>,
    pub ipxe_file: Option<String>,
}

#[derive(Debug, Clone)]
pub struct ClientsSource {
    pub url: String,
    pub poll_interval_seconds: u64,
    pub timeout_seconds: u64,
    pub state_file: String,
}

/// Why a route is refused.
#[derive(Debug, Clone, Copy, PartialEq, Eq, Structural)]
pub enum RouteError {
    /// There is no slash.
    Syntax,
    /// What stands before the slash is no IPv4 address.
    Network,
    /// What stands behind the slash is no number up to 255.
    Prefix(NumberFault),
    /// The prefix length is not in 1..=32.
    Range,
    /// The address has bits behind the prefix.
    HostBits,
}

/// Why a configuration is refused.
#[derive(Debug, Clone, Copy, PartialEq, Eq, Structural)]
pub enum ConfigError {
    ListenIp,
    ServerIdentifier,
    LeaseSeconds,
    HttpPort,
    LogLevel,
    PollInterval,
    Timeout,
    UrlScheme,
    Url,
    StateFile,
    Timezone,
    /// A DNS or NTP server is not a unicast address.
    NameOrTimeServer(Ipv4Addr),
    NoRoutes,
    /// A classless route is refused; the number is its place in the list.
    Route(usize, RouteError),
    TftpServer,
    EmptyArchitecture,
    /// A boot file of the architecture with that place in the list.
    BootFile(usize),
}

// ---------------------------------------------------------------------------
// Addresses and routes

/// Whether `ip` can be the address of one host.
pub open spec fn unicast(ip: Ipv4Addr) -> bool {
    ip.a < 224 && !ip.zero()
}

pub fn is_unicast(ip: Ipv4Addr) -> (yes: bool)
    ensures
        yes == unicast(ip),
{
    !ip.is_unspecified() && !ip.is_multicast() && !ip.is_broadcast() && ip.a < 240
}

/// The netmask of a prefix: its first `prefix` bits are set and no others.
pub fn prefix_mask(prefix: u8) -> (mask: u32)
    requires
        prefix <= 32,
    ensures
        mask == 0x1_0000_0000 - net::block(prefix as nat),
{
    if prefix == 0 {
        proof {
            lemma2_to64();
        }
        0
    } else {
        let k: u32 = 32 - prefix as u32;
        proof {
            net::lemma_block(prefix as nat);
            assert((0xffff_ffffu32 << k) == 0x1_0000_0000 - (1u32 << k)) by (bit_vector)
                requires
                    k < 32,
            ;
        }
        0xffff_ffffu32 << k
    }
}

/// The two halves of a route, in bytes.
pub open spec fn route_halves(route: Seq<u8>) -> (Seq<u8>, Seq<u8>) {
    (route.take(text::find(route, 47)), route.skip(text::find(route, 47) + 1))
}

/// The route that `route` denotes: an address, a slash and a prefix length in
/// 1..=32, where the address has no bits behind the prefix.
pub open spec fn route(route: Seq<u8>) -> Result<(Ipv4Addr, u8), RouteError> {
    let (network, prefix) = route_halves(route);
    if text::find(route, 47) == route.len() {
        Err(RouteError::Syntax)
    } else if net::ipv4(network) is None {
        Err(RouteError::Network)
    } else if text::number(prefix, 10, 255) is None {
        Err(RouteError::Prefix(text::number_fault(prefix, 10, 255)))
    } else {
        let ip = net::ipv4(network)->0;
        let length = text::number(prefix, 10, 255)->0;
        if !(1 <= length <= 32) {
            Err(RouteError::Range)
        } else if ip.bits() % net::block(length) != 0 {
            Err(RouteError::HostBits)
        } else {
            Ok((ip, length as u8))
        }
    }
}

pub fn parse_route(route: &str) -> (parsed: Result<(Ipv4Addr, u8), RouteError>)
    ensures
        parsed == self::route(encode_utf8(route@)),
{
    let bytes: &[u8] = route.as_bytes();
    let slash: usize = text::find_byte(bytes, 47);
    if slash == bytes.len() {
        return Err(RouteError::Syntax);
    }
    let head: &[u8] = &bytes[0..slash];
    let tail: &[u8] = &bytes[slash + 1..bytes.len()];
    assert(head@ =~= route_halves(bytes@).0);
    assert(tail@ =~= route_halves(bytes@).1);
    let network = match net::parse_ipv4(head) {
        Some(ip) => ip,
        None => {
            return Err(RouteError::Network);
        },
    };
    let prefix: u8 = match text::read_number(tail, 10, 255) {
        Ok(n) => n as u8,
        Err(fault) => {
            return Err(RouteError::Prefix(fault));
        },
    };
    if prefix < 1 || prefix > 32 {
        return Err(RouteError::Range);
    }
    if net::host_bits(network.to_bits(), prefix) != 0 {
        return Err(RouteError::HostBits);
    }
    Ok((network, prefix))
}

// ---------------------------------------------------------------------------
// Names

/// Whether a byte is an ASCII letter or digit.
pub open spec fn alphanumeric(b: u8) -> bool {
    48 <= b <= 57 || 65 <= b <= 90 || 97 <= b <= 122
}

/// One label of a host name: up to 63 letters, digits and hyphens, with no
/// hyphen at either end.
pub open spec fn label_ok(label: Seq<u8>) -> bool {
    &&& 1 <= label.len() <= 63
    &&& label[0] != 45
    &&& label.last() != 45
    &&& forall|i: int| 0 <= i < label.len() ==> alphanumeric(#[trigger] label[i]) || label[i] == 45
}

/// A host name without its optional final dot.
pub open spec fn without_final_dot(name: Seq<u8>) -> Seq<u8> {
    if name.len() > 0 && name.last() == 46 {
        name.drop_last()
    } else {
        name
    }
}

/// A host name: up to 253 bytes of labels with dots between them, and perhaps
/// one final dot.
pub open spec fn hostname_ok(name: Seq<u8>) -> bool {
    let bare = without_final_dot(name);
    let labels = text::split(bare, 46);
    &&& 1 <= bare.len() <= 253
    &&& forall|i: int| 0 <= i < labels.len() ==> label_ok(#[trigger] labels[i])
}

fn is_alphanumeric(b: u8) -> (yes: bool)
    ensures
        yes == alphanumeric(b),
{
    (48 <= b && b <= 57) || (65 <= b && b <= 90) || (97 <= b && b <= 122)
}

fn valid_label(label: &[u8]) -> (yes: bool)
    ensures
        yes == label_ok(label@),
{
    let n: usize = label.len();
    if n < 1 || n > 63 || label[0] == 45 || label[n - 1] == 45 {
        return false;
    }
    for i in 0..n
        invariant
            n == label@.len(),
            forall|j: int|
                0 <= j < i ==> alphanumeric(#[trigger] label@[j]) || label@[j] == 45,
    {
        if !is_alphanumeric(label[i]) && label[i] != 45 {
            assert(!(alphanumeric(label@[i as int]) || label@[i as int] == 45));
            return false;
        }
    }
    true
}

pub fn valid_hostname(name: &str) -> (yes: bool)
    ensures
        yes == hostname_ok(encode_utf8(name@)),
{
    let bytes: &[u8] = name.as_bytes();
    let n: usize = if bytes.len() > 0 && bytes[bytes.len() - 1] == 46 {
        bytes.len() - 1
    } else {
        bytes.len()
    };
    let bare: &[u8] = &bytes[0..n];
    assert(bare@ =~= without_final_dot(bytes@));
    if n < 1 || n > 253 {
        return false;
    }
    let labels = text::split_bytes(bare, 46);
    for i in 0..labels.len()
        invariant
            text::views(labels@) == text::split(bare@, 46),
            bare@ == without_final_dot(encode_utf8(name@)),
            forall|j: int| 0 <= j < i ==> label_ok(#[trigger] text::views(labels@)[j]),
    {
        assert(text::views(labels@)[i as int] == labels@[i as int]@);
        if !valid_label(labels[i]) {
            return false;
        }
    }
    true
}

/// The default of `client_options.timezone`.
pub fn default_timezone() -> (timezone: String)
    ensures
        timezone@ == "Etc/UTC"@,
{
    "Etc/UTC".to_owned()
}

/// One part of a time zone's name: letters, digits, `_`, `-` and `+`.
pub open spec fn timezone_part_ok(part: Seq<u8>) -> bool {
    &&& part.len() >= 1
    &&& forall|i: int|
        0 <= i < part.len() ==> alphanumeric(#[trigger] part[i]) || part[i] == 95 || part[i] == 45
            || part[i] == 43
}

/// A time zone's name: up to 255 bytes of parts with slashes between them.
pub open spec fn timezone_ok(name: Seq<u8>) -> bool {
    let parts = text::split(name, 47);
    &&& 1 <= name.len() <= 255
    &&& forall|i: int| 0 <= i < parts.len() ==> timezone_part_ok(#[trigger] parts[i])
}

fn valid_timezone_part(part: &[u8]) -> (yes: bool)
    ensures
        yes == timezone_part_ok(part@),
{
    if part.len() < 1 {
        return false;
    }
    for i in 0..part.len()
        invariant
            part@.len() >= 1,
            forall|j: int|
                0 <= j < i ==> alphanumeric(#[trigger] part@[j]) || part@[j] == 95 || part@[j] == 45
                    || part@[j] == 43,
    {
        let b: u8 = part[i];
        if !is_alphanumeric(b) && b != 95 && b != 45 && b != 43 {
            assert(!(alphanumeric(part@[i as int]) || part@[i as int] == 95 || part@[i as int] == 45
                || part@[i as int] == 43));
            return false;
        }
    }
    true
}

pub fn valid_timezone(value: &str) -> (yes: bool)
    ensures
        yes == timezone_ok(encode_utf8(value@)),
{
    let bytes: &[u8] = value.as_bytes();
    if bytes.len() < 1 || bytes.len() > 255 {
        return false;
    }
    let parts = text::split_bytes(bytes, 47);
    for i in 0..parts.len()
        invariant
            bytes@ == encode_utf8(value@),
            text::views(parts@) == text::split(bytes@, 47),
            forall|j: int| 0 <= j < i ==> timezone_part_ok(#[trigger] text::views(parts@)[j]),
    {
        assert(text::views(parts@)[i as int] == parts@[i as int]@);
        if !valid_timezone_part(parts[i]) {
            return false;
        }
    }
    true
}

// ---------------------------------------------------------------------------
// Boot files

/// The files of the first architecture with that name.
pub open spec fn files_of(architectures: Seq<Architecture>, name: Seq<char>) -> Option<BootFiles>
    decreases architectures.len(),
{
    if architectures.len() == 0 {
        None
    } else if architectures[0].name@ == name {
        Some(architectures[0].files)
    } else {
        files_of(architectures.skip(1), name)
    }
}

impl BootConfig {
    /// Whether no architecture is listed twice.
    pub open spec fn distinct(self) -> bool {
        forall|i: int, j: int|
            0 <= i < j < self.architectures@.len() ==> (#[trigger] self.architectures@[i]).name@
                != (#[trigger] self.architectures@[j]).name@
    }

    /// The boot files of an architecture.
    pub fn files(&self, name: &str) -> (files: Option<&BootFiles>)
        ensures
            match files {
                Some(found) => files_of(self.architectures@, name@) == Some(*found),
                None => files_of(self.architectures@, name@) is None,
            },
    {
        assert(self.architectures@.skip(0) =~= self.architectures@);
        for i in 0..self.architectures.len()
            invariant
                files_of(self.architectures@.skip(i as int), name@) == files_of(
                    self.architectures@,
                    name@,
                ),
        {
            let ghost rest = self.architectures@.skip(i as int);
            assert(rest[0] == self.architectures@[i as int]);
            if text::str_eq(self.architectures[i].name.as_str(), name) {
                return Some(&self.architectures[i].files);
            }
            assert(rest.skip(1) =~= self.architectures@.skip(i + 1));
        }
        None
    }
}

// ---------------------------------------------------------------------------
// The log filter

/// How many bytes a character has in UTF-8.
pub open spec fn width(c: char) -> nat {
    if (c as u32) < 0x80 {
        1
    } else if (c as u32) < 0x800 {
        2
    } else if (c as u32) < 0x1_0000 {
        3
    } else {
        4
    }
}

/// How many bytes stand before the character at `n`.
pub open spec fn bytes_before(s: Seq<char>, n: int) -> nat
    decreases n,
{
    if n <= 0 {
        0
    } else {
        bytes_before(s, n - 1) + width(s[n - 1])
    }
}

/// Whether the first `bytes` bytes of `s` are whole characters.
pub open spec fn between_chars(s: Seq<char>, bytes: nat) -> bool {
    exists|k: int| 0 <= k <= s.len() && #[trigger] bytes_before(s, k) == bytes
}

/// Where the next `a` or `b` stands from `i` on, or the length where there is none.
pub open spec fn next_of(s: Seq<char>, i: int, a: char, b: char) -> int
    decreases s.len() - i,
{
    if i < 0 || i >= s.len() {
        s.len() as int
    } else if s[i] == a || s[i] == b {
        i
    } else {
        next_of(s, i + 1, a, b)
    }
}

/// Where the first character from `i` on that is not white space stands.
pub open spec fn past_space(s: Seq<char>, i: int) -> int
    decreases s.len() - i,
{
    if i < 0 || i >= s.len() {
        s.len() as int
    } else if text::whitespace(s[i]) {
        past_space(s, i + 1)
    } else {
        i
    }
}

/// Whether a directive may begin with `c`.
pub open spec fn may_begin(c: char) -> bool {
    ||| c as u32 >= 128
    ||| 'a' <= c <= 'z'
    ||| 'A' <= c <= 'Z'
    ||| '0' <= c <= '9'
    ||| c == '-'
    ||| c == ':'
    ||| c == '_'
    ||| c == '['
}

/// Where the level behind an equals sign at `i` begins, if there is that sign.
pub open spec fn level_cut(d: Seq<char>, i: int) -> Seq<int> {
    if i < d.len() && d[i] == '=' {
        seq![i + 1]
    } else {
        Seq::empty()
    }
}

/// Where the parts of a span that begins at `i` begin and end, and the level behind it:
/// the span has a name, fields in braces, or both.
pub open spec fn span_cuts(d: Seq<char>, i: int) -> Seq<int> {
    let j = next_of(d, i, ']', '{');
    if j >= d.len() {
        Seq::empty()
    } else if d[j] == ']' {
        seq![i, j] + level_cut(d, j + 1)
    } else {
        let k = next_of(d, j + 1, '}', '}');
        if k >= d.len() {
            seq![i, j]
        } else {
            seq![i, j, j + 1, k] + if k + 1 < d.len() && d[k + 1] == ']' {
                level_cut(d, k + 2)
            } else {
                Seq::empty()
            }
        }
    }
}

/// Where the filter parser cuts a directive that begins with no white space: around the
/// target, the span, its fields and the level.
pub open spec fn cuts(d: Seq<char>) -> Seq<int> {
    let i = next_of(d, 0, '=', '[');
    if d.len() == 0 || !may_begin(d[0]) || i >= d.len() {
        Seq::empty()
    } else if d[i] == '=' {
        seq![i, i + 1]
    } else {
        seq![i] + span_cuts(d, i + 1)
    }
}

/// Whether the filter parser can read a directive. It finds the parts in the directive
/// without the white space before it, and takes as many bytes from the front of the
/// directive with that space: these have to be whole characters.
pub open spec fn directive_readable(directive: Seq<char>) -> bool {
    let d = directive.skip(past_space(directive, 0));
    forall|n: int|
        0 <= n < cuts(d).len() ==> between_chars(
            directive,
            bytes_before(d, #[trigger] cuts(d)[n]),
        )
}

/// Whether the filter parser can read the directives of `level` from `i` on. Commas
/// separate them.
pub open spec fn readable_from(level: Seq<char>, i: int) -> bool
    decreases level.len() - i,
{
    let n = next_of(level, i, ',', ',');
    &&& directive_readable(level.subrange(i, n))
    &&& i <= n < level.len() ==> readable_from(level, n + 1)
}

/// Whether the filter parser can read `level`.
pub open spec fn filter_readable(level: Seq<char>) -> bool {
    readable_from(level, 0)
}

/// Whether the filter parser accepts `level`.
pub uninterp spec fn filter_accepted(level: Seq<char>) -> bool;

/// `tracing_subscriber::EnvFilter::try_new`: whether it accepts a filter expression is
/// a function of the expression alone, and it accepts the empty one. It panics where it
/// takes a part of a directive that is not made of whole characters, which happens only
/// behind white space at the front of the directive.
#[verifier::external_body]
fn accepts_filter(level: &str) -> (ok: bool)
    requires
        filter_readable(level@),
    ensures
        ok == filter_accepted(level@),
        level@.len() == 0 ==> ok,
{
    tracing_subscriber::EnvFilter::try_new(level).is_ok()
}

fn find_next(s: &[char], from: usize, a: char, b: char) -> (at: usize)
    requires
        from <= s@.len(),
    ensures
        at == next_of(s@, from as int, a, b),
        from <= at <= s@.len(),
{
    let mut i: usize = from;
    while i < s.len()
        invariant
            from <= i <= s@.len(),
            next_of(s@, from as int, a, b) == next_of(s@, i as int, a, b),
        decreases s@.len() - i,
    {
        if s[i] == a || s[i] == b {
            return i;
        }
        i = i + 1;
    }
    i
}

fn find_past_space(s: &[char]) -> (at: usize)
    ensures
        at == past_space(s@, 0),
        at <= s@.len(),
{
    let mut i: usize = 0;
    while i < s.len()
        invariant
            i <= s@.len(),
            past_space(s@, 0) == past_space(s@, i as int),
        decreases s@.len() - i,
    {
        if !text::is_whitespace(s[i]) {
            return i;
        }
        i = i + 1;
    }
    i
}

fn width_of(c: char) -> (n: u128)
    ensures
        n == width(c),
{
    let code: u32 = c as u32;
    if code < 0x80 {
        1
    } else if code < 0x800 {
        2
    } else if code < 0x1_0000 {
        3
    } else {
        4
    }
}

fn count_bytes(s: &[char], n: usize) -> (bytes: u128)
    requires
        n <= s@.len(),
    ensures
        bytes == bytes_before(s@, n as int),
{
    let mut bytes: u128 = 0;
    for i in 0..n
        invariant
            n <= s@.len(),
            bytes == bytes_before(s@, i as int),
            bytes <= 4 * i,
    {
        bytes = bytes + width_of(s[i]);
    }
    bytes
}

fn is_between_chars(s: &[char], bytes: u128) -> (yes: bool)
    ensures
        yes == between_chars(s@, bytes as nat),
{
    let mut passed: u128 = 0;
    for i in 0..s.len()
        invariant
            passed == bytes_before(s@, i as int),
            passed <= 4 * i,
            forall|k: int| 0 <= k < i ==> #[trigger] bytes_before(s@, k) != bytes,
    {
        if passed == bytes {
            return true;
        }
        passed = passed + width_of(s[i]);
    }
    passed == bytes
}

fn can_begin(c: char) -> (yes: bool)
    ensures
        yes == may_begin(c),
{
    c as u32 >= 128 || ('a' <= c && c <= 'z') || ('A' <= c && c <= 'Z') || ('0' <= c && c <= '9')
        || c == '-' || c == ':' || c == '_' || c == '['
}

/// The indices of a list of cuts.
spec fn places(cuts: Seq<usize>) -> Seq<int> {
    cuts.map_values(|i: usize| i as int)
}

fn push_level_cut(d: &[char], i: usize, out: &mut Vec<usize>)
    requires
        i <= d@.len(),
        forall|n: int| 0 <= n < old(out)@.len() ==> #[trigger] old(out)@[n] <= d@.len(),
    ensures
        places(final(out)@) == places(old(out)@) + level_cut(d@, i as int),
        forall|n: int| 0 <= n < final(out)@.len() ==> #[trigger] final(out)@[n] <= d@.len(),
{
    if i < d.len() && d[i] == '=' {
        out.push(i + 1);
    }
    assert(places(out@) =~= places(old(out)@) + level_cut(d@, i as int));
}

fn push_span_cuts(d: &[char], i: usize, out: &mut Vec<usize>)
    requires
        i <= d@.len(),
        forall|n: int| 0 <= n < old(out)@.len() ==> #[trigger] old(out)@[n] <= d@.len(),
    ensures
        places(final(out)@) == places(old(out)@) + span_cuts(d@, i as int),
        forall|n: int| 0 <= n < final(out)@.len() ==> #[trigger] final(out)@[n] <= d@.len(),
{
    let j: usize = find_next(d, i, ']', '{');
    if j >= d.len() {
        assert(places(out@) =~= places(old(out)@) + span_cuts(d@, i as int));
        return;
    }
    out.push(i);
    out.push(j);
    if d[j] == ']' {
        push_level_cut(d, j + 1, out);
        assert(places(out@) =~= places(old(out)@) + span_cuts(d@, i as int));
        return;
    }
    let k: usize = find_next(d, j + 1, '}', '}');
    if k < d.len() {
        out.push(j + 1);
        out.push(k);
        if k + 1 < d.len() && d[k + 1] == ']' {
            push_level_cut(d, k + 2, out);
        }
    }
    assert(places(out@) =~= places(old(out)@) + span_cuts(d@, i as int));
}

fn find_cuts(d: &[char]) -> (found: Vec<usize>)
    ensures
        places(found@) == cuts(d@),
        forall|n: int| 0 <= n < found@.len() ==> #[trigger] found@[n] <= d@.len(),
{
    let mut found: Vec<usize> = Vec::new();
    let i: usize = find_next(d, 0, '=', '[');
    if d.len() > 0 && can_begin(d[0]) && i < d.len() {
        found.push(i);
        if d[i] == '=' {
            found.push(i + 1);
        } else {
            push_span_cuts(d, i + 1, &mut found);
        }
    }
    assert(places(found@) =~= cuts(d@));
    found
}

fn is_directive_readable(directive: &[char]) -> (yes: bool)
    ensures
        yes == directive_readable(directive@),
{
    let space: usize = find_past_space(directive);
    let d: &[char] = &directive[space..directive.len()];
    assert(d@ =~= directive@.skip(past_space(directive@, 0)));
    let found = find_cuts(d);
    let ghost all = cuts(d@);
    assert(found@.len() == all.len());
    for n in 0..found.len()
        invariant
            d@ == directive@.skip(past_space(directive@, 0)),
            all == cuts(d@),
            places(found@) == all,
            found@.len() == all.len(),
            forall|n: int| 0 <= n < found@.len() ==> #[trigger] found@[n] <= d@.len(),
            forall|m: int|
                0 <= m < n ==> between_chars(directive@, bytes_before(d@, #[trigger] all[m])),
    {
        assert(all[n as int] == found@[n as int]);
        let bytes: u128 = count_bytes(d, found[n]);
        if !is_between_chars(directive, bytes) {
            return false;
        }
    }
    true
}

/// Whether the filter parser can read `level`.
pub fn is_filter_readable(level: &str) -> (yes: bool)
    ensures
        yes == filter_readable(level@),
{
    let mut chars: Vec<char> = Vec::new();
    for c in it: level.chars()
        invariant
            it.seq() == level@,
            chars@ == level@.take(it.index() as int),
    {
        chars.push(c);
        assert(chars@ =~= level@.take(it.index() + 1));
    }
    assert(chars@ =~= level@);
    let s: &[char] = chars.as_slice();
    let mut i: usize = 0;
    loop
        invariant
            s@ == level@,
            i <= s@.len(),
            filter_readable(level@) == readable_from(level@, i as int),
        decreases s@.len() - i,
    {
        let n: usize = find_next(s, i, ',', ',');
        let directive: &[char] = &s[i..n];
        assert(directive@ =~= level@.subrange(i as int, n as int));
        if !is_directive_readable(directive) {
            return false;
        }
        if n >= s.len() {
            return true;
        }
        i = n + 1;
    }
}

// ---------------------------------------------------------------------------
// Whole configurations

/// The first address that cannot be that of one host.
pub open spec fn first_not_unicast(ips: Seq<Ipv4Addr>) -> Option<Ipv4Addr>
    decreases ips.len(),
{
    if ips.len() == 0 {
        None
    } else if !unicast(ips[0]) {
        Some(ips[0])
    } else {
        first_not_unicast(ips.skip(1))
    }
}

/// The first route that is refused, and why.
pub open spec fn route_fault(routes: Seq<String>) -> Option<(nat, RouteError)>
    decreases routes.len(),
{
    if routes.len() == 0 {
        None
    } else if route_fault(routes.drop_last()) is Some {
        route_fault(routes.drop_last())
    } else {
        match route(encode_utf8(routes.last()@)) {
            Err(error) => Some(((routes.len() - 1) as nat, error)),
            Ok(_) => None,
        }
    }
}

/// A boot file's name: up to 255 bytes without control characters.
pub open spec fn file_ok(file: Seq<char>) -> bool {
    &&& 1 <= encode_utf8(file).len() <= 255
    &&& !exists|i: int| 0 <= i < file.len() && text::control(#[trigger] file[i])
}

/// A boot file's name, if there is one.
pub open spec fn optional_file_ok(file: Option<String>) -> bool {
    file matches Some(name) ==> file_ok(name@)
}

/// What is wrong with the first architecture that is refused.
pub open spec fn architecture_fault(architectures: Seq<Architecture>) -> Option<ConfigError>
    decreases architectures.len(),
{
    if architectures.len() == 0 {
        None
    } else if architecture_fault(architectures.drop_last()) is Some {
        architecture_fault(architectures.drop_last())
    } else {
        let last = architectures.last();
        if last.name@.len() == 0 {
            Some(ConfigError::EmptyArchitecture)
        } else if !optional_file_ok(last.files.bios_file) || !optional_file_ok(last.files.uefi_file)
            || !optional_file_ok(last.files.ipxe_file) {
            Some(ConfigError::BootFile((architectures.len() - 1) as usize))
        } else {
            None
        }
    }
}

/// Whether a URL uses HTTP, with or without TLS.
pub open spec fn scheme_ok(url: Seq<u8>) -> bool {
    text::has_prefix(url, encode_utf8("https://"@)) || text::has_prefix(
        url,
        encode_utf8("http://"@),
    )
}

/// What stands behind the scheme of a URL.
pub open spec fn behind_scheme(url: Seq<u8>) -> Seq<u8> {
    if text::has_prefix(url, encode_utf8("https://"@)) {
        url.skip(encode_utf8("https://"@).len() as int)
    } else {
        url.skip(encode_utf8("http://"@).len() as int)
    }
}

/// Whether a URL with a scheme has a host and no white space.
pub open spec fn url_ok(url: Seq<char>) -> bool {
    let rest = behind_scheme(encode_utf8(url));
    &&& !exists|i: int| 0 <= i < url.len() && text::whitespace(#[trigger] url[i])
    &&& rest.len() > 0
    &&& rest[0] != 47
}

/// What is wrong with the DHCP and HTTP settings.
pub open spec fn server_fault(config: Config) -> Option<ConfigError> {
    if !config.dhcp.listen_ip.zero() && !unicast(config.dhcp.listen_ip) {
        Some(ConfigError::ListenIp)
    } else if config.dhcp.server_identifier is Some && !unicast(
        config.dhcp.server_identifier->0,
    ) {
        Some(ConfigError::ServerIdentifier)
    } else if config.dhcp.lease_seconds == 0 {
        Some(ConfigError::LeaseSeconds)
    } else if config.http.listen.port == 0 {
        Some(ConfigError::HttpPort)
    } else {
        None
    }
}

/// What is wrong with the source of the client table.
pub open spec fn source_fault(source: ClientsSource) -> Option<ConfigError> {
    if source.poll_interval_seconds == 0 {
        Some(ConfigError::PollInterval)
    } else if source.timeout_seconds == 0 {
        Some(ConfigError::Timeout)
    } else if !scheme_ok(encode_utf8(source.url@)) {
        Some(ConfigError::UrlScheme)
    } else if !url_ok(source.url@) {
        Some(ConfigError::Url)
    } else if source.state_file@.len() == 0 {
        Some(ConfigError::StateFile)
    } else {
        None
    }
}

/// What is wrong with the options for the clients.
pub open spec fn options_fault(options: ClientOptions) -> Option<ConfigError> {
    if !timezone_ok(encode_utf8(options.timezone@)) {
        Some(ConfigError::Timezone)
    } else if first_not_unicast(options.dns@ + options.ntp@) is Some {
        Some(ConfigError::NameOrTimeServer(first_not_unicast(options.dns@ + options.ntp@)->0))
    } else if options.classless_routes@.len() == 0 {
        Some(ConfigError::NoRoutes)
    } else {
        match route_fault(options.classless_routes@) {
            Some((i, error)) => Some(ConfigError::Route(i as usize, error)),
            None => None,
        }
    }
}

/// The first thing that is wrong with a configuration, where `filter_ok` tells whether
/// the filter parser accepts its log level.
pub open spec fn config_fault(config: Config, filter_ok: bool) -> Option<ConfigError> {
    if server_fault(config) is Some {
        server_fault(config)
    } else if !filter_ok {
        Some(ConfigError::LogLevel)
    } else if source_fault(config.clients_source) is Some {
        source_fault(config.clients_source)
    } else if options_fault(config.client_options) is Some {
        options_fault(config.client_options)
    } else if !unicast(config.boot.tftp_server) {
        Some(ConfigError::TftpServer)
    } else {
        architecture_fault(config.boot.architectures@)
    }
}

fn find_not_unicast(ips: &Vec<Ipv4Addr>) -> (found: Option<Ipv4Addr>)
    ensures
        found == first_not_unicast(ips@),
{
    assert(ips@.skip(0) =~= ips@);
    for i in 0..ips.len()
        invariant
            first_not_unicast(ips@.skip(i as int)) == first_not_unicast(ips@),
    {
        assert(ips@.skip(i as int).skip(1) =~= ips@.skip(i + 1));
        if !is_unicast(ips[i]) {
            return Some(ips[i]);
        }
    }
    None
}

proof fn lemma_first_not_unicast_add(a: Seq<Ipv4Addr>, b: Seq<Ipv4Addr>)
    ensures
        first_not_unicast(a + b) == match first_not_unicast(a) {
            Some(ip) => Some(ip),
            None => first_not_unicast(b),
        },
    decreases a.len(),
{
    if a.len() == 0 {
        assert(a + b =~= b);
    } else {
        assert((a + b).skip(1) =~= a.skip(1) + b);
        lemma_first_not_unicast_add(a.skip(1), b);
    }
}

proof fn lemma_route_fault_prefix(routes: Seq<String>, n: int)
    requires
        0 <= n <= routes.len(),
        route_fault(routes.take(n)) is Some,
    ensures
        route_fault(routes) == route_fault(routes.take(n)),
    decreases routes.len() - n,
{
    if n == routes.len() {
        assert(routes.take(n) =~= routes);
    } else {
        assert(routes.take(n + 1).drop_last() =~= routes.take(n));
        lemma_route_fault_prefix(routes, n + 1);
    }
}

fn find_route_fault(routes: &Vec<String>) -> (fault: Option<(usize, RouteError)>)
    ensures
        match fault {
            Some((i, error)) => route_fault(routes@) == Some((i as nat, error)),
            None => route_fault(routes@) is None,
        },
{
    for i in 0..routes.len()
        invariant
            route_fault(routes@.take(i as int)) is None,
    {
        assert(routes@.take(i + 1).drop_last() =~= routes@.take(i as int));
        assert(routes@.take(i + 1).last() == routes@[i as int]);
        match parse_route(routes[i].as_str()) {
            Ok(_) => {},
            Err(error) => {
                proof {
                    lemma_route_fault_prefix(routes@, i + 1);
                }
                return Some((i, error));
            },
        }
    }
    assert(routes@.take(routes@.len() as int) =~= routes@);
    None
}

fn is_file_ok(file: &Option<String>) -> (ok: bool)
    ensures
        ok == optional_file_ok(*file),
{
    match file {
        Some(name) => {
            let bytes: &[u8] = name.as_str().as_bytes();
            1 <= bytes.len() && bytes.len() <= 255 && !text::has_control(name.as_str())
        },
        None => true,
    }
}

proof fn lemma_architecture_fault_prefix(architectures: Seq<Architecture>, n: int)
    requires
        0 <= n <= architectures.len(),
        architecture_fault(architectures.take(n)) is Some,
    ensures
        architecture_fault(architectures) == architecture_fault(architectures.take(n)),
    decreases architectures.len() - n,
{
    if n == architectures.len() {
        assert(architectures.take(n) =~= architectures);
    } else {
        assert(architectures.take(n + 1).drop_last() =~= architectures.take(n));
        lemma_architecture_fault_prefix(architectures, n + 1);
    }
}

fn find_architecture_fault(architectures: &Vec<Architecture>) -> (fault: Option<ConfigError>)
    ensures
        fault == architecture_fault(architectures@),
{
    for i in 0..architectures.len()
        invariant
            architecture_fault(architectures@.take(i as int)) is None,
    {
        let ghost upto = architectures@.take(i + 1);
        assert(upto.drop_last() =~= architectures@.take(i as int));
        assert(upto.last() == architectures@[i as int]);
        proof {
            if architecture_fault(upto) is Some {
                lemma_architecture_fault_prefix(architectures@, i + 1);
            }
        }
        let architecture: &Architecture = &architectures[i];
        if architecture.name.as_str().is_empty() {
            return Some(ConfigError::EmptyArchitecture);
        }
        if !is_file_ok(&architecture.files.bios_file) || !is_file_ok(&architecture.files.uefi_file)
            || !is_file_ok(&architecture.files.ipxe_file) {
            return Some(ConfigError::BootFile(i));
        }
    }
    assert(architectures@.take(architectures@.len() as int) =~= architectures@);
    None
}

fn find_server_fault(config: &Config) -> (fault: Option<ConfigError>)
    ensures
        fault == server_fault(*config),
{
    if !config.dhcp.listen_ip.is_unspecified() && !is_unicast(config.dhcp.listen_ip) {
        return Some(ConfigError::ListenIp);
    }
    match config.dhcp.server_identifier {
        Some(ip) => {
            if !is_unicast(ip) {
                return Some(ConfigError::ServerIdentifier);
            }
        },
        None => {},
    }
    if config.dhcp.lease_seconds == 0 {
        return Some(ConfigError::LeaseSeconds);
    }
    if config.http.listen.port == 0 {
        return Some(ConfigError::HttpPort);
    }
    None
}

fn is_url_ok(url: &str) -> (ok: bool)
    requires
        scheme_ok(encode_utf8(url@)),
    ensures
        ok == url_ok(url@),
{
    let bytes: &[u8] = url.as_bytes();
    let long: &[u8] = "https://".as_bytes();
    let short: &[u8] = "http://".as_bytes();
    let n: usize = if text::starts_with(bytes, long) {
        long.len()
    } else {
        short.len()
    };
    let rest: &[u8] = &bytes[n..bytes.len()];
    assert(rest@ =~= behind_scheme(bytes@));
    !text::has_whitespace(url) && rest.len() > 0 && rest[0] != 47
}

fn find_source_fault(source: &ClientsSource) -> (fault: Option<ConfigError>)
    ensures
        fault == source_fault(*source),
{
    if source.poll_interval_seconds == 0 {
        return Some(ConfigError::PollInterval);
    }
    if source.timeout_seconds == 0 {
        return Some(ConfigError::Timeout);
    }
    let url: &[u8] = source.url.as_str().as_bytes();
    if !text::starts_with(url, "https://".as_bytes()) && !text::starts_with(
        url,
        "http://".as_bytes(),
    ) {
        return Some(ConfigError::UrlScheme);
    }
    if !is_url_ok(source.url.as_str()) {
        return Some(ConfigError::Url);
    }
    if source.state_file.as_str().is_empty() {
        return Some(ConfigError::StateFile);
    }
    None
}

fn find_options_fault(options: &ClientOptions) -> (fault: Option<ConfigError>)
    ensures
        fault == options_fault(*options),
{
    if !valid_timezone(options.timezone.as_str()) {
        return Some(ConfigError::Timezone);
    }
    proof {
        lemma_first_not_unicast_add(options.dns@, options.ntp@);
    }
    match find_not_unicast(&options.dns) {
        Some(ip) => {
            return Some(ConfigError::NameOrTimeServer(ip));
        },
        None => {},
    }
    match find_not_unicast(&options.ntp) {
        Some(ip) => {
            return Some(ConfigError::NameOrTimeServer(ip));
        },
        None => {},
    }
    if options.classless_routes.len() == 0 {
        return Some(ConfigError::NoRoutes);
    }
    match find_route_fault(&options.classless_routes) {
        Some((i, error)) => Some(ConfigError::Route(i, error)),
        None => None,
    }
}

proof fn lemma_route_fault_index(routes: Seq<String>)
    ensures
        route_fault(routes) matches Some((i, _)) ==> i < routes.len(),
    decreases routes.len(),
{
    if routes.len() > 0 {
        lemma_route_fault_index(routes.drop_last());
    }
}

proof fn lemma_architecture_fault_index(architectures: Seq<Architecture>)
    requires
        architectures.len() <= usize::MAX,
    ensures
        architecture_fault(architectures) matches Some(ConfigError::BootFile(i)) ==> i
            < architectures.len(),
        architecture_fault(architectures) !is Some || architecture_fault(architectures)->0 !is Route,
    decreases architectures.len(),
{
    if architectures.len() > 0 {
        lemma_architecture_fault_index(architectures.drop_last());
    }
}

impl Config {
    /// Whether a place that an error names is one in this configuration.
    pub open spec fn names_its_parts(self, error: ConfigError) -> bool {
        match error {
            ConfigError::Route(i, _) => i < self.client_options.classless_routes@.len(),
            ConfigError::BootFile(i) => i < self.boot.architectures@.len(),
            _ => true,
        }
    }

    /// Checks everything, where `filter_ok` tells whether the filter parser accepts the
    /// log level.
    pub fn validate_with(&self, filter_ok: bool) -> (checked: Result<(), ConfigError>)
        ensures
            checked == match config_fault(*self, filter_ok) {
                Some(error) => Err(error),
                None => Ok(()),
            },
            checked matches Err(error) ==> self.names_its_parts(error),
    {
        proof {
            lemma_route_fault_index(self.client_options.classless_routes@);
            assert(self.boot.architectures.len() <= usize::MAX);
            lemma_architecture_fault_index(self.boot.architectures@);
        }
        match find_server_fault(self) {
            Some(error) => {
                return Err(error);
            },
            None => {},
        }
        if !filter_ok {
            return Err(ConfigError::LogLevel);
        }
        match find_source_fault(&self.clients_source) {
            Some(error) => {
                return Err(error);
            },
            None => {},
        }
        match find_options_fault(&self.client_options) {
            Some(error) => {
                return Err(error);
            },
            None => {},
        }
        if !is_unicast(self.boot.tftp_server) {
            return Err(ConfigError::TftpServer);
        }
        match find_architecture_fault(&self.boot.architectures) {
            Some(error) => Err(error),
            None => Ok(()),
        }
    }

    /// Checks everything.
    pub fn validate(&self) -> (checked: Result<(), ConfigError>)
        requires
            filter_readable(self.logging.level@),
        ensures
            checked == match config_fault(*self, filter_accepted(self.logging.level@)) {
                Some(error) => Err(error),
                None => Ok(()),
            },
            checked matches Err(error) ==> self.names_its_parts(error),
    {
        self.validate_with(accepts_filter(self.logging.level.as_str()))
    }

    /// Checks everything; a level that the filter parser cannot read is refused like one
    /// that it does not accept.
    pub fn check(&self) -> (checked: Result<(), ConfigError>)
        ensures
            checked == match config_fault(
                *self,
                filter_readable(self.logging.level@) && filter_accepted(self.logging.level@),
            ) {
                Some(error) => Err(error),
                None => Ok(()),
            },
            checked matches Err(error) ==> self.names_its_parts(error),
    {
        if is_filter_readable(self.logging.level.as_str()) {
            self.validate()
        } else {
            self.validate_with(false)
        }
    }
}

// ---------------------------------------------------------------------------
// Laws

/// In a valid configuration every route is one.
pub proof fn law_valid_routes(config: Config, filter_ok: bool, i: int)
    requires
        config_fault(config, filter_ok) is None,
        0 <= i < config.client_options.classless_routes@.len(),
    ensures
        route(encode_utf8(config.client_options.classless_routes@[i]@)) is Ok,
{
    lemma_no_route_fault(config.client_options.classless_routes@, i);
}

pub proof fn lemma_no_route_fault(routes: Seq<String>, i: int)
    requires
        route_fault(routes) is None,
        0 <= i < routes.len(),
    ensures
        route(encode_utf8(routes[i]@)) is Ok,
    decreases routes.len(),
{
    if i < routes.len() - 1 {
        lemma_no_route_fault(routes.drop_last(), i);
    }
}

/// The default route is never accepted.
pub proof fn law_default_route_is_refused(text: Seq<u8>)
    ensures
        route(text) matches Ok((_, prefix)) ==> 1 <= prefix <= 32,
{
}

/// Where no architecture is listed twice, every one is found under its name.
pub proof fn law_listed_architectures_are_found(boot: BootConfig, i: int)
    requires
        boot.distinct(),
        0 <= i < boot.architectures@.len(),
    ensures
        files_of(boot.architectures@, boot.architectures@[i].name@) == Some(
            boot.architectures@[i].files,
        ),
{
    lemma_files_found(boot.architectures@, i);
}

proof fn lemma_files_found(architectures: Seq<Architecture>, i: int)
    requires
        0 <= i < architectures.len(),
        forall|j: int, k: int|
            0 <= j < k < architectures.len() ==> (#[trigger] architectures[j]).name@ != (
            #[trigger] architectures[k]).name@,
    ensures
        files_of(architectures, architectures[i].name@) == Some(architectures[i].files),
    decreases architectures.len(),
{
    if i > 0 {
        let rest = architectures.skip(1);
        assert(architectures[0].name@ != architectures[i].name@);
        assert forall|j: int, k: int| 0 <= j < k < rest.len() implies (#[trigger] rest[j]).name@
            != (#[trigger] rest[k]).name@ by {
            assert(architectures[j + 1].name@ != architectures[k + 1].name@);
        }
        lemma_files_found(rest, i - 1);
    }
}

} // verus!
