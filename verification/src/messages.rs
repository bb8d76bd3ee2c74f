//! Errors in words.
use crate::clients::{ClientsError, ClientsErrorView, RowError};
use crate::config::{Config, ConfigError, RouteError};
use crate::dhcp::PacketError;
use crate::options::OptionError;
use crate::reply::ReplyError;
use crate::sync::{PollError, PollErrorView};
use crate::text;
use crate::text::NumberFault;
use vstd::prelude::*;
use vstd::string::*;

verus! {

fn numbered(a: &str, n: u64) -> (out: String)
    ensures
        out@ == a@ + text::decimal(n as nat),
{
    let mut out = a.to_owned();
    text::push_decimal(&mut out, n);
    out
}

fn with_number(a: &str, n: u64, b: &str) -> (out: String)
    ensures
        out@ == a@ + text::decimal(n as nat) + b@,
{
    let mut out = numbered(a, n);
    out.append(b);
    out
}

/// Why a text is no number.
pub open spec fn number_text(fault: NumberFault) -> Seq<char> {
    match fault {
        NumberFault::Empty => "cannot parse integer from empty string"@,
        NumberFault::Digit => "invalid digit found in string"@,
        NumberFault::TooLarge => "number too large to fit in target type"@,
    }
}

impl NumberFault {
    pub fn message(&self) -> (message: &'static str)
        ensures
            message@ == number_text(*self),
    {
        match self {
            NumberFault::Empty => "cannot parse integer from empty string",
            NumberFault::Digit => "invalid digit found in string",
            NumberFault::TooLarge => "number too large to fit in target type",
        }
    }
}

/// Why a row is refused.
pub open spec fn row_text(error: RowError) -> Seq<char> {
    match error {
        RowError::FieldCount => "expected seven or nine fields"@,
        RowError::Location => "invalid location"@,
        RowError::Hostname => "invalid hostname"@,
        RowError::Domain => "invalid domain"@,
        RowError::BootType => "boot_type must be bios or uefi"@,
        RowError::Mtu => "MTU must be in 68..65535"@,
        RowError::MacParts => "MAC must contain six colon-separated hex octets"@,
        RowError::MacOctet => "invalid MAC octet: invalid digit found in string"@,
        RowError::MacAddress => "MAC must be a nonzero unicast address"@,
        RowError::Ip => "invalid client IPv4: invalid IPv4 address syntax"@,
        RowError::Prefix(fault) => "invalid prefix length: "@ + number_text(fault),
        RowError::PrefixRange => "prefix must be 1..31; /32 is unsupported for Ethernet assignments"@,
        RowError::Gateway => "invalid gateway IPv4: invalid IPv4 address syntax"@,
        RowError::NotUnicast => "client and gateway must be unicast IPv4 addresses"@,
        RowError::GatewayNetwork => "gateway must belong to client subnet"@,
        RowError::ClientEdge => "client IP cannot be network or broadcast"@,
        RowError::GatewayEdge => "gateway cannot be network or broadcast"@,
        RowError::GatewayIsClient => "gateway cannot equal client IP"@,
    }
}

impl RowError {
    pub fn message(&self) -> (message: String)
        ensures
            message@ == row_text(*self),
    {
        match self {
            RowError::FieldCount => "expected seven or nine fields".to_owned(),
            RowError::Location => "invalid location".to_owned(),
            RowError::Hostname => "invalid hostname".to_owned(),
            RowError::Domain => "invalid domain".to_owned(),
            RowError::BootType => "boot_type must be bios or uefi".to_owned(),
            RowError::Mtu => "MTU must be in 68..65535".to_owned(),
            RowError::MacParts => "MAC must contain six colon-separated hex octets".to_owned(),
            RowError::MacOctet => "invalid MAC octet: invalid digit found in string".to_owned(),
            RowError::MacAddress => "MAC must be a nonzero unicast address".to_owned(),
            RowError::Ip => "invalid client IPv4: invalid IPv4 address syntax".to_owned(),
            RowError::Prefix(fault) => {
                let mut out = "invalid prefix length: ".to_owned();
                out.append(fault.message());
                out
            },
            RowError::PrefixRange => "prefix must be 1..31; /32 is unsupported for Ethernet assignments".to_owned(),
            RowError::Gateway => "invalid gateway IPv4: invalid IPv4 address syntax".to_owned(),
            RowError::NotUnicast => "client and gateway must be unicast IPv4 addresses".to_owned(),
            RowError::GatewayNetwork => "gateway must belong to client subnet".to_owned(),
            RowError::ClientEdge => "client IP cannot be network or broadcast".to_owned(),
            RowError::GatewayEdge => "gateway cannot be network or broadcast".to_owned(),
            RowError::GatewayIsClient => "gateway cannot equal client IP".to_owned(),
        }
    }
}

/// Why a table is refused: the record or the line, and the cause.
pub open spec fn clients_text(error: ClientsErrorView) -> Seq<char> {
    match error {
        ClientsErrorView::Record(number, why) => "CSV record "@ + text::decimal(number as nat)
            + ": "@ + why,
        ClientsErrorView::Line(line, error) => "CSV line "@ + text::decimal(line as nat) + ": "@
            + row_text(error),
        ClientsErrorView::DuplicateMac(line) => "CSV line "@ + text::decimal(line as nat)
            + ": duplicate MAC"@,
        ClientsErrorView::DuplicateIp(line, ip) => "CSV line "@ + text::decimal(line as nat)
            + ": duplicate IP "@ + ip.text(),
    }
}

/// Where a table is refused: the record or the line, and what occurs twice.
pub open spec fn clients_place(error: ClientsErrorView) -> Seq<char> {
    match error {
        ClientsErrorView::Record(number, _) => "CSV record "@ + text::decimal(number as nat),
        ClientsErrorView::Line(line, _) => "CSV line "@ + text::decimal(line as nat),
        other => clients_text(other),
    }
}

impl ClientsError {
    /// Where the table is refused, without the cause of a bad record or row.
    pub fn place(&self) -> (place: String)
        ensures
            place@ == clients_place(self@),
    {
        match self {
            ClientsError::Record(number, _) => numbered("CSV record ", *number),
            ClientsError::Line(line, _) => numbered("CSV line ", *line),
            _ => self.message(),
        }
    }

    pub fn message(&self) -> (message: String)
        ensures
            message@ == clients_text(self@),
    {
        match self {
            ClientsError::Record(number, why) => {
                let mut out = with_number("CSV record ", *number, ": ");
                out.append(why.as_str());
                out
            },
            ClientsError::Line(line, error) => {
                let mut out = with_number("CSV line ", *line, ": ");
                out.append(error.message().as_str());
                out
            },
            ClientsError::DuplicateMac(line) => with_number("CSV line ", *line, ": duplicate MAC"),
            ClientsError::DuplicateIp(line, ip) => {
                let mut out = with_number("CSV line ", *line, ": duplicate IP ");
                ip.push_text(&mut out);
                out
            },
        }
    }
}

/// What `reqwest::StatusCode` displays of a status.
pub uninterp spec fn status_line(status: u16) -> Seq<char>;

/// A status with its reason, such as `204 No Content`.
///
/// `reqwest::StatusCode::from_u16` takes the numbers from 100 to 999. Such a code
/// displays as its number and a reason that the number alone decides; which reason it
/// is, is left unsaid.
#[verifier::external_body]
fn describe_status(status: u16) -> (line: Option<String>)
    ensures
        line is Some <==> 100 <= status <= 999,
        line matches Some(l) ==> l@ == status_line(status) && (text::decimal(status as nat)
            + " "@).is_prefix_of(l@),
{
    reqwest::StatusCode::from_u16(status).ok().map(|code| code.to_string())
}

/// A status with its reason, or its number alone where no status has it.
pub open spec fn status_text(status: u16) -> Seq<char> {
    if 100 <= status <= 999 {
        status_line(status)
    } else {
        text::decimal(status as nat)
    }
}

/// Why a poll failed.
pub open spec fn poll_text(error: PollErrorView) -> Seq<char> {
    match error {
        PollErrorView::NotModified => "304 received without a previously downloaded snapshot"@,
        PollErrorView::HttpError(report) => report,
        PollErrorView::UnexpectedStatus(status) => "expected HTTP 200 or cached 304, received "@
            + status_text(status),
        PollErrorView::TooLarge => "CSV exceeds size limit"@,
        PollErrorView::SavedTooLarge => "saved CSV exceeds size limit"@,
        PollErrorView::NotUtf8(fault) => "CSV is not UTF-8: "@ + fault,
        PollErrorView::SavedNotUtf8(fault) => fault,
        PollErrorView::Clients(error) => clients_text(error),
        PollErrorView::SavedClients(error) => clients_place(error),
        PollErrorView::Save => "save client snapshot"@,
    }
}

impl PollError {
    pub fn message(&self) -> (message: String)
        ensures
            message@ == poll_text(self@),
    {
        match self {
            PollError::NotModified => {
                "304 received without a previously downloaded snapshot".to_owned()
            },
            PollError::HttpError(report) => report.as_str().to_owned(),
            PollError::UnexpectedStatus(status) => {
                let mut out = "expected HTTP 200 or cached 304, received ".to_owned();
                match describe_status(*status) {
                    Some(line) => {
                        out.append(line.as_str());
                    },
                    None => {
                        text::push_decimal(&mut out, *status as u64);
                    },
                }
                out
            },
            PollError::TooLarge => "CSV exceeds size limit".to_owned(),
            PollError::SavedTooLarge => "saved CSV exceeds size limit".to_owned(),
            PollError::NotUtf8(fault) => {
                let mut out = "CSV is not UTF-8: ".to_owned();
                out.append(fault.as_str());
                out
            },
            PollError::SavedNotUtf8(fault) => fault.as_str().to_owned(),
            PollError::Clients(error) => error.message(),
            PollError::SavedClients(error) => error.place(),
            PollError::Save => "save client snapshot".to_owned(),
        }
    }
}

/// Why a route is refused.
pub open spec fn route_text(error: RouteError, route: Seq<char>) -> Seq<char> {
    match error {
        RouteError::Syntax => "route must use IPv4/prefix syntax"@,
        RouteError::Network => "invalid route "@ + route,
        RouteError::Prefix(_) => "invalid route prefix "@ + route,
        RouteError::Range => "route "@ + route
            + ": prefix must be 1..32 (default route is forbidden)"@,
        RouteError::HostBits => "route "@ + route + ": host bits must be zero"@,
    }
}

impl RouteError {
    /// Why that route is refused.
    pub fn message(&self, route: &str) -> (message: String)
        ensures
            message@ == route_text(*self, route@),
    {
        let mut out: String;
        match self {
            RouteError::Syntax => {
                out = "route must use IPv4/prefix syntax".to_owned();
            },
            RouteError::Network => {
                out = "invalid route ".to_owned();
                out.append(route);
            },
            RouteError::Prefix(_) => {
                out = "invalid route prefix ".to_owned();
                out.append(route);
            },
            RouteError::Range => {
                out = "route ".to_owned();
                out.append(route);
                out.append(": prefix must be 1..32 (default route is forbidden)");
            },
            RouteError::HostBits => {
                out = "route ".to_owned();
                out.append(route);
                out.append(": host bits must be zero");
            },
        }
        out
    }
}

/// Why a configuration is refused.
pub open spec fn config_text(error: ConfigError, config: Config) -> Seq<char> {
    match error {
        ConfigError::ListenIp => "dhcp.listen_ip must be wildcard or unicast"@,
        ConfigError::ServerIdentifier => "dhcp.server_identifier must be a concrete unicast IPv4 address"@,
        ConfigError::LeaseSeconds => "lease_seconds must be positive"@,
        ConfigError::HttpPort => "HTTP port must be positive"@,
        ConfigError::LogLevel => "invalid logging.level"@,
        ConfigError::PollInterval => "poll_interval_seconds must be positive"@,
        ConfigError::Timeout => "timeout_seconds must be positive"@,
        ConfigError::UrlScheme => "clients_source.url must use HTTP or HTTPS"@,
        ConfigError::Url => "invalid clients_source.url"@,
        ConfigError::StateFile => "state_file must not be empty"@,
        ConfigError::Timezone => "invalid timezone"@,
        ConfigError::NoRoutes => "classless_routes must not be empty"@,
        ConfigError::TftpServer => "tftp_server must be unicast"@,
        ConfigError::EmptyArchitecture => "empty architecture name"@,
        ConfigError::NameOrTimeServer(ip) => "DNS/NTP addresses must be unicast: "@ + ip.text(),
        ConfigError::Route(index, error) => route_text(
            error,
            config.client_options.classless_routes@[index as int]@,
        ),
        ConfigError::BootFile(index) => "invalid boot filename for "@
            + config.boot.architectures@[index as int].name@
            + ": expected 1..255 bytes without control characters"@,
    }
}

impl ConfigError {
    /// What is wrong with that configuration.
    pub fn message(&self, config: &Config) -> (message: String)
        requires
            self matches ConfigError::Route(index, _) ==> index
                < config.client_options.classless_routes@.len(),
            self matches ConfigError::BootFile(index) ==> index < config.boot.architectures@.len(),
        ensures
            message@ == config_text(*self, *config),
    {
        match self {
            ConfigError::ListenIp => "dhcp.listen_ip must be wildcard or unicast".to_owned(),
            ConfigError::ServerIdentifier => "dhcp.server_identifier must be a concrete unicast IPv4 address".to_owned(),
            ConfigError::LeaseSeconds => "lease_seconds must be positive".to_owned(),
            ConfigError::HttpPort => "HTTP port must be positive".to_owned(),
            ConfigError::LogLevel => "invalid logging.level".to_owned(),
            ConfigError::PollInterval => "poll_interval_seconds must be positive".to_owned(),
            ConfigError::Timeout => "timeout_seconds must be positive".to_owned(),
            ConfigError::UrlScheme => "clients_source.url must use HTTP or HTTPS".to_owned(),
            ConfigError::Url => "invalid clients_source.url".to_owned(),
            ConfigError::StateFile => "state_file must not be empty".to_owned(),
            ConfigError::Timezone => "invalid timezone".to_owned(),
            ConfigError::NoRoutes => "classless_routes must not be empty".to_owned(),
            ConfigError::TftpServer => "tftp_server must be unicast".to_owned(),
            ConfigError::EmptyArchitecture => "empty architecture name".to_owned(),
            ConfigError::NameOrTimeServer(ip) => {
                let mut out = "DNS/NTP addresses must be unicast: ".to_owned();
                ip.push_text(&mut out);
                out
            },
            ConfigError::Route(index, error) => error.message(
                config.client_options.classless_routes[*index].as_str(),
            ),
            ConfigError::BootFile(index) => {
                let mut out = "invalid boot filename for ".to_owned();
                out.append(config.boot.architectures[*index].name.as_str());
                out.append(": expected 1..255 bytes without control characters");
                out
            },
        }
    }
}

/// Why a datagram is no client's message.
pub open spec fn packet_text(error: PacketError) -> Seq<char> {
    match error {
        PacketError::Short => "short DHCP packet"@,
        PacketError::NotEthernetRequest => "expected Ethernet BOOTREQUEST"@,
        PacketError::Cookie => "invalid DHCP cookie"@,
        PacketError::Overload => "invalid option overload"@,
        PacketError::ArchitectureList => "invalid architecture list"@,
        PacketError::MissingMessage => "missing message type"@,
        PacketError::UnsupportedMessage => "unsupported client message type"@,
        PacketError::Options(OptionError::MissingLength) => "missing option length"@,
        PacketError::Options(OptionError::Truncated(code)) => "truncated option "@ + text::decimal(
            code as nat,
        ),
        PacketError::OptionLength(code) => "invalid option "@ + text::decimal(code as nat)
            + " length"@,
    }
}

impl PacketError {
    pub fn message(&self) -> (message: String)
        ensures
            message@ == packet_text(*self),
    {
        match self {
            PacketError::Short => "short DHCP packet".to_owned(),
            PacketError::NotEthernetRequest => "expected Ethernet BOOTREQUEST".to_owned(),
            PacketError::Cookie => "invalid DHCP cookie".to_owned(),
            PacketError::Overload => "invalid option overload".to_owned(),
            PacketError::ArchitectureList => "invalid architecture list".to_owned(),
            PacketError::MissingMessage => "missing message type".to_owned(),
            PacketError::UnsupportedMessage => "unsupported client message type".to_owned(),
            PacketError::Options(OptionError::MissingLength) => "missing option length".to_owned(),
            PacketError::Options(OptionError::Truncated(code)) => numbered(
                "truncated option ",
                *code as u64,
            ),
            PacketError::OptionLength(code) => with_number(
                "invalid option ",
                *code as u64,
                " length",
            ),
        }
    }
}

/// Why a message cannot be answered.
pub open spec fn reply_text(error: ReplyError) -> Seq<char> {
    match error {
        ReplyError::Server => "invalid server identifier"@,
        ReplyError::Route(RouteError::Syntax) => "route requires prefix"@,
        ReplyError::Route(RouteError::Network) => "invalid IPv4 address syntax"@,
        ReplyError::Route(RouteError::Prefix(fault)) => number_text(fault),
        ReplyError::Route(_) => "invalid route prefix"@,
        ReplyError::TooLong(maximum) => "response exceeds client maximum DHCP size ("@
            + text::decimal(maximum as nat) + ")"@,
    }
}

impl ReplyError {
    pub fn message(&self) -> (message: String)
        ensures
            message@ == reply_text(*self),
    {
        match self {
            ReplyError::Server => "invalid server identifier".to_owned(),
            ReplyError::Route(RouteError::Syntax) => "route requires prefix".to_owned(),
            ReplyError::Route(RouteError::Network) => "invalid IPv4 address syntax".to_owned(),
            ReplyError::Route(RouteError::Prefix(fault)) => fault.message().to_owned(),
            ReplyError::Route(_) => "invalid route prefix".to_owned(),
            ReplyError::TooLong(maximum) => with_number(
                "response exceeds client maximum DHCP size (",
                *maximum as u64,
                ")",
            ),
        }
    }
}

} // verus!
