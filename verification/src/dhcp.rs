//! A client's DHCP message and what it shows of the client.
use crate::clients::Client;
use crate::net;
use crate::net::Ipv4Addr;
use crate::options;
use crate::options::OptionError;
use crate::text;
use std::collections::BTreeMap;
use vstd::prelude::*;
use vstd::string::*;
use vstd::utf8::*;

pub use crate::reply::{reply, Reply, ReplyError};

verus! {

/// A client's message.
#[derive(Debug)]
pub struct Packet {
    /// The fixed part, up to the magic cookie.
    pub header: Vec<u8>,
    pub options: BTreeMap<u8, Vec<u8>>,
    /// The client's hardware address.
    pub mac: [u8; 6],
    /// The message type, option 53.
    pub message: u8,
    /// The address that the client already uses.
    pub ciaddr: Ipv4Addr,
    /// The relay's address.
    pub giaddr: Ipv4Addr,
}

/// Why a datagram is no client message.
#[derive(Debug, Clone, Copy, PartialEq, Eq, Structural)]
pub enum PacketError {
    Short,
    /// Not a request, or not from an Ethernet client.
    NotEthernetRequest,
    Cookie,
    Options(OptionError),
    Overload,
    /// The option with that code has a wrong length.
    OptionLength(u8),
    ArchitectureList,
    MissingMessage,
    UnsupportedMessage,
}

/// What a `Packet` holds.
#[verifier::ext_equal]
pub struct PacketView {
    pub header: Seq<u8>,
    pub options: Map<u8, Seq<u8>>,
    pub mac: Seq<u8>,
    pub message: u8,
    pub ciaddr: Ipv4Addr,
    pub giaddr: Ipv4Addr,
}

impl View for Packet {
    type V = PacketView;

    open spec fn view(&self) -> PacketView {
        PacketView {
            header: self.header@,
            options: options::values(self.options@),
            mac: self.mac@,
            message: self.message,
            ciaddr: self.ciaddr,
            giaddr: self.giaddr,
        }
    }
}

// ---------------------------------------------------------------------------
// Parsing

/// The four bytes in front of the options.
pub open spec fn cookie() -> Seq<u8> {
    seq![99u8, 130, 83, 99]
}

/// All options of a message: those behind the cookie, and those in the `file` and
/// `sname` fields where option 52 says that these hold options too.
pub open spec fn all_options(bytes: Seq<u8>) -> Result<Map<u8, Seq<u8>>, PacketError> {
    let (main, end) = options::read(bytes.skip(240), Map::empty());
    if end is Err {
        Err(PacketError::Options(end->Err_0))
    } else if !main.contains_key(52) {
        Ok(main)
    } else if !(main[52].len() == 1 && 1 <= main[52][0] <= 3) {
        Err(PacketError::Overload)
    } else {
        let overload = main[52][0];
        let (with_file, end) = if overload == 1 || overload == 3 {
            options::read(bytes.subrange(108, 236), main)
        } else {
            (main, Ok(()))
        };
        if end is Err {
            Err(PacketError::Options(end->Err_0))
        } else {
            let (with_name, end) = if overload == 2 || overload == 3 {
                options::read(bytes.subrange(44, 108), with_file)
            } else {
                (with_file, Ok(()))
            };
            if end is Err {
                Err(PacketError::Options(end->Err_0))
            } else {
                Ok(with_name)
            }
        }
    }
}

/// Whether the option `code`, if it is there, has that length.
pub open spec fn length_ok(options: Map<u8, Seq<u8>>, code: u8, len: nat) -> bool {
    options.contains_key(code) ==> options[code].len() == len
}

/// Whether a client may send a message of that type.
pub open spec fn client_message(message: u8) -> bool {
    message == 1 || message == 3 || message == 4 || message == 7 || message == 8
}

/// What is wrong with the options of a message, if anything is.
pub open spec fn option_fault(options: Map<u8, Seq<u8>>) -> Option<PacketError> {
    if !length_ok(options, 53, 1) {
        Some(PacketError::OptionLength(53))
    } else if !length_ok(options, 50, 4) {
        Some(PacketError::OptionLength(50))
    } else if !length_ok(options, 54, 4) {
        Some(PacketError::OptionLength(54))
    } else if !length_ok(options, 57, 2) {
        Some(PacketError::OptionLength(57))
    } else if options.contains_key(93) && (options[93].len() == 0 || options[93].len() % 2 != 0) {
        Some(PacketError::ArchitectureList)
    } else if !options.contains_key(53) {
        Some(PacketError::MissingMessage)
    } else if !client_message(options[53][0]) {
        Some(PacketError::UnsupportedMessage)
    } else {
        None
    }
}

/// The message in a datagram.
pub open spec fn packet(bytes: Seq<u8>) -> Result<PacketView, PacketError> {
    if bytes.len() < 240 {
        Err(PacketError::Short)
    } else if !(bytes[0] == 1 && bytes[1] == 1 && bytes[2] == 6) {
        Err(PacketError::NotEthernetRequest)
    } else if bytes.subrange(236, 240) != cookie() {
        Err(PacketError::Cookie)
    } else {
        match all_options(bytes) {
            Err(error) => Err(error),
            Ok(options) => match option_fault(options) {
                Some(error) => Err(error),
                None => Ok(
                    PacketView {
                        header: bytes.take(236),
                        options,
                        mac: bytes.subrange(28, 34),
                        message: options[53][0],
                        ciaddr: net::ipv4_at(bytes, 12),
                        giaddr: net::ipv4_at(bytes, 24),
                    },
                ),
            },
        }
    }
}

impl PacketView {
    /// What every parsed message keeps to.
    pub open spec fn wf(self) -> bool {
        &&& self.header.len() == 236
        &&& self.mac == self.header.subrange(28, 34)
        &&& self.ciaddr == net::ipv4_at(self.header, 12)
        &&& self.giaddr == net::ipv4_at(self.header, 24)
        &&& option_fault(self.options) is None
        &&& self.message == self.options[53][0]
    }
}

fn option_length_is(options: &BTreeMap<u8, Vec<u8>>, code: u8, len: usize) -> (ok: bool)
    ensures
        ok == length_ok(options::values(options@), code, len as nat),
{
    match options.get(&code) {
        Some(value) => value.len() == len,
        None => true,
    }
}

fn read_all_options(bytes: &[u8]) -> (read: Result<BTreeMap<u8, Vec<u8>>, PacketError>)
    requires
        bytes@.len() >= 240,
    ensures
        match read {
            Ok(options) => all_options(bytes@) == Ok::<Map<u8, Seq<u8>>, PacketError>(
                options::values(options@),
            ),
            Err(error) => all_options(bytes@) == Err::<Map<u8, Seq<u8>>, PacketError>(error),
        },
{
    let mut read: BTreeMap<u8, Vec<u8>> = BTreeMap::new();
    assert(options::values(read@) =~= Map::empty());
    let area: &[u8] = &bytes[240..bytes.len()];
    assert(area@ =~= bytes@.skip(240));
    match options::read_options(area, &mut read) {
        Ok(()) => {},
        Err(error) => {
            return Err(PacketError::Options(error));
        },
    }
    let overload: u8 = match read.get(&52) {
        Some(value) => {
            if value.len() != 1 || value[0] < 1 || value[0] > 3 {
                return Err(PacketError::Overload);
            }
            value[0]
        },
        None => {
            return Ok(read);
        },
    };
    if overload == 1 || overload == 3 {
        match options::read_options(&bytes[108..236], &mut read) {
            Ok(()) => {},
            Err(error) => {
                return Err(PacketError::Options(error));
            },
        }
    }
    if overload == 2 || overload == 3 {
        match options::read_options(&bytes[44..108], &mut read) {
            Ok(()) => {},
            Err(error) => {
                return Err(PacketError::Options(error));
            },
        }
    }
    Ok(read)
}

fn find_option_fault(options: &BTreeMap<u8, Vec<u8>>) -> (fault: Option<PacketError>)
    ensures
        fault == option_fault(options::values(options@)),
{
    if !option_length_is(options, 53, 1) {
        return Some(PacketError::OptionLength(53));
    }
    if !option_length_is(options, 50, 4) {
        return Some(PacketError::OptionLength(50));
    }
    if !option_length_is(options, 54, 4) {
        return Some(PacketError::OptionLength(54));
    }
    if !option_length_is(options, 57, 2) {
        return Some(PacketError::OptionLength(57));
    }
    match options.get(&93) {
        Some(value) => {
            if value.len() == 0 || value.len() % 2 != 0 {
                return Some(PacketError::ArchitectureList);
            }
        },
        None => {},
    }
    match options.get(&53) {
        Some(value) => {
            let message: u8 = value[0];
            if message == 1 || message == 3 || message == 4 || message == 7 || message == 8 {
                None
            } else {
                Some(PacketError::UnsupportedMessage)
            }
        },
        None => Some(PacketError::MissingMessage),
    }
}

impl Packet {
    /// Parses a client's message.
    pub fn parse(bytes: &[u8]) -> (parsed: Result<Self, PacketError>)
        ensures
            match parsed {
                Ok(p) => packet(bytes@) == Ok::<PacketView, PacketError>(p@) && p@.wf(),
                Err(error) => packet(bytes@) == Err::<PacketView, PacketError>(error),
            },
    {
        if bytes.len() < 240 {
            return Err(PacketError::Short);
        }
        if bytes[0] != 1 || bytes[1] != 1 || bytes[2] != 6 {
            return Err(PacketError::NotEthernetRequest);
        }
        if bytes[236] != 99 || bytes[237] != 130 || bytes[238] != 83 || bytes[239] != 99 {
            assert(bytes@.subrange(236, 240) != cookie()) by {
                let s = bytes@.subrange(236, 240);
                assert(s[0] != 99 || s[1] != 130 || s[2] != 83 || s[3] != 99);
            }
            return Err(PacketError::Cookie);
        }
        assert(bytes@.subrange(236, 240) =~= cookie());
        let options = match read_all_options(bytes) {
            Ok(options) => options,
            Err(error) => {
                return Err(error);
            },
        };
        match find_option_fault(&options) {
            Some(error) => {
                return Err(error);
            },
            None => {},
        }
        let message: u8 = match options.get(&53) {
            Some(value) => value[0],
            None => {
                return Err(PacketError::MissingMessage);
            },
        };
        let mut header: Vec<u8> = Vec::new();
        header.extend_from_slice(&bytes[0..236]);
        let mac: [u8; 6] = [bytes[28], bytes[29], bytes[30], bytes[31], bytes[32], bytes[33]];
        let parsed = Packet {
            header,
            options,
            mac,
            message,
            ciaddr: Ipv4Addr::read(bytes, 12),
            giaddr: Ipv4Addr::read(bytes, 24),
        };
        proof {
            assert(parsed.header@ =~= bytes@.take(236));
            assert(mac@ =~= bytes@.subrange(28, 34));
            assert(mac@ =~= parsed.header@.subrange(28, 34));
            assert(parsed@ =~= packet(bytes@)->Ok_0);
        }
        Ok(parsed)
    }
}

// ---------------------------------------------------------------------------
// Boot stage and architecture

/// Where in its boot a client is.
#[derive(Debug, Clone, Copy, PartialEq, Eq, Structural)]
pub enum Stage {
    Bios,
    Uefi,
    Ipxe,
    Os,
    Unknown,
}

#[derive(Debug, Clone, Copy, PartialEq, Eq, Structural)]
pub enum Arch {
    X86_64,
    Arm64,
    Unknown,
}

pub open spec fn stage_name(stage: Stage) -> Seq<char> {
    match stage {
        Stage::Bios => "bios"@,
        Stage::Uefi => "uefi"@,
        Stage::Ipxe => "ipxe"@,
        Stage::Os => "os"@,
        Stage::Unknown => "unknown"@,
    }
}

pub open spec fn arch_name(arch: Arch) -> Seq<char> {
    match arch {
        Arch::X86_64 => "x86_64"@,
        Arch::Arm64 => "arm64"@,
        Arch::Unknown => "unknown"@,
    }
}

impl Stage {
    pub fn name(&self) -> (name: &'static str)
        ensures
            name@ == stage_name(*self),
    {
        match self {
            Stage::Bios => "bios",
            Stage::Uefi => "uefi",
            Stage::Ipxe => "ipxe",
            Stage::Os => "os",
            Stage::Unknown => "unknown",
        }
    }
}

impl Arch {
    pub fn name(&self) -> (name: &'static str)
        ensures
            name@ == arch_name(*self),
    {
        match self {
            Arch::X86_64 => "x86_64",
            Arch::Arm64 => "arm64",
            Arch::Unknown => "unknown",
        }
    }
}

/// The first boot stage and the architecture behind a processor architecture code.
pub open spec fn architecture(code: nat) -> Option<(Stage, Arch)> {
    if code == 0 {
        Some((Stage::Bios, Arch::X86_64))
    } else if code == 7 || code == 9 {
        Some((Stage::Uefi, Arch::X86_64))
    } else if code == 11 {
        Some((Stage::Uefi, Arch::Arm64))
    } else {
        None
    }
}

/// The first known code in a list of two-byte codes.
pub open spec fn first_architecture(codes: Seq<u8>) -> Option<(Stage, Arch)>
    decreases codes.len(),
{
    if codes.len() < 2 {
        None
    } else {
        match architecture((codes[0] * 256 + codes[1]) as nat) {
            Some(found) => Some(found),
            None => first_architecture(codes.skip(2)),
        }
    }
}

/// Whether a list of length-prefixed classes holds `iPXE`.
pub open spec fn lists_ipxe(classes: Seq<u8>) -> bool
    decreases classes.len(),
{
    if classes.len() == 0 || classes.len() < 1 + classes[0] {
        false
    } else {
        ||| classes.subrange(1, 1 + classes[0]) == encode_utf8("iPXE"@)
        ||| lists_ipxe(classes.skip(1 + classes[0]))
    }
}

/// Whether the user class, option 77, is `iPXE` or a list that holds it.
pub open spec fn from_ipxe(options: Map<u8, Seq<u8>>) -> bool {
    options.contains_key(77) && (options[77] == encode_utf8("iPXE"@) || lists_ipxe(options[77]))
}

/// Whether the vendor class, option 60, is that of a PXE client.
pub open spec fn from_pxe(options: Map<u8, Seq<u8>>) -> bool {
    options.contains_key(60) && text::has_prefix(options[60], encode_utf8("PXEClient"@))
}

/// The architecture in option 93.
pub open spec fn listed_architecture(options: Map<u8, Seq<u8>>) -> Option<(Stage, Arch)> {
    if options.contains_key(93) {
        first_architecture(options[93])
    } else {
        None
    }
}

/// The architecture in the vendor class: the number in the five bytes behind `Arch:`.
pub open spec fn vendor_architecture(vendor: Seq<u8>) -> Option<(Stage, Arch)> {
    match text::index_of(vendor, encode_utf8("Arch:"@)) {
        Some(i) => if valid_utf8(vendor) && i + 10 <= vendor.len() {
            match text::number(vendor.subrange(i + 5, i + 10), 10, 65535) {
                Some(code) => architecture(code),
                None => None,
            }
        } else {
            None
        },
        None => None,
    }
}

/// The stage and the architecture of a client that is neither iPXE nor an operating
/// system: option 93 counts before the vendor class.
pub open spec fn firmware(options: Map<u8, Seq<u8>>) -> (Stage, Arch) {
    match listed_architecture(options) {
        Some(found) => found,
        None => if options.contains_key(60) && vendor_architecture(options[60]) is Some {
            vendor_architecture(options[60])->0
        } else {
            (Stage::Unknown, Arch::Unknown)
        },
    }
}

/// The stage and the architecture that a client's options show.
pub open spec fn stage(options: Map<u8, Seq<u8>>) -> (Stage, Arch) {
    if from_ipxe(options) {
        (Stage::Ipxe, firmware(options).1)
    } else if from_pxe(options) || listed_architecture(options) is Some {
        firmware(options)
    } else {
        (Stage::Os, Arch::Unknown)
    }
}

/// Whether this is the stage of a machine's firmware.
pub open spec fn initial(stage: Stage) -> bool {
    stage == Stage::Bios || stage == Stage::Uefi
}

/// Whether the client asks for the option `code`.
pub open spec fn requests(options: Map<u8, Seq<u8>>, code: u8) -> bool {
    options.contains_key(55) && options[55].contains(code)
}

/// Whether the client gets the specific routes, option 121, in place of a default
/// gateway: it asks for them, and it is not a machine's firmware.
pub open spec fn classless(options: Map<u8, Seq<u8>>) -> bool {
    !initial(stage(options).0) && requests(options, 121)
}

/// Whether a machine's firmware asks in another mode than the one its row is for.
pub open spec fn mode_mismatch(options: Map<u8, Seq<u8>>, boot_type: Seq<char>) -> bool {
    initial(stage(options).0) && stage_name(stage(options).0) != boot_type
}

fn architecture_of(code: u32) -> (found: Option<(Stage, Arch)>)
    ensures
        found == architecture(code as nat),
{
    if code == 0 {
        Some((Stage::Bios, Arch::X86_64))
    } else if code == 7 || code == 9 {
        Some((Stage::Uefi, Arch::X86_64))
    } else if code == 11 {
        Some((Stage::Uefi, Arch::Arm64))
    } else {
        None
    }
}

fn find_architecture(codes: &[u8]) -> (found: Option<(Stage, Arch)>)
    ensures
        found == first_architecture(codes@),
{
    let mut i: usize = 0;
    assert(codes@.skip(0) =~= codes@);
    while codes.len() - i >= 2
        invariant
            i <= codes@.len(),
            first_architecture(codes@.skip(i as int)) == first_architecture(codes@),
        decreases codes.len() - i,
    {
        let ghost rest = codes@.skip(i as int);
        match architecture_of(codes[i] as u32 * 256 + codes[i + 1] as u32) {
            Some(found) => {
                return Some(found);
            },
            None => {},
        }
        assert(rest.skip(2) =~= codes@.skip(i + 2));
        i = i + 2;
    }
    None
}

fn is_ipxe_class(user: &[u8]) -> (yes: bool)
    ensures
        yes == (user@ == encode_utf8("iPXE"@) || lists_ipxe(user@)),
{
    let tag: &[u8] = "iPXE".as_bytes();
    if text::bytes_eq(user, tag) {
        return true;
    }
    let mut i: usize = 0;
    assert(user@.skip(0) =~= user@);
    while i < user.len()
        invariant
            i <= user@.len(),
            tag@ == encode_utf8("iPXE"@),
            user@ != tag@,
            lists_ipxe(user@.skip(i as int)) == lists_ipxe(user@),
        decreases user.len() - i,
    {
        let ghost rest = user@.skip(i as int);
        let len: usize = user[i] as usize;
        if user.len() - i - 1 < len {
            return false;
        }
        let class: &[u8] = &user[i + 1..i + 1 + len];
        assert(class@ =~= rest.subrange(1, 1 + rest[0]));
        if text::bytes_eq(class, tag) {
            return true;
        }
        assert(rest.skip(1 + rest[0]) =~= user@.skip(i + 1 + len));
        i = i + 1 + len;
    }
    false
}

fn find_vendor_architecture(vendor: &[u8]) -> (found: Option<(Stage, Arch)>)
    ensures
        found == vendor_architecture(vendor@),
{
    if text::from_utf8(vendor).is_err() {
        return None;
    }
    let tag: &[u8] = "Arch:".as_bytes();
    match text::find_bytes(vendor, tag) {
        Some(i) => {
            if vendor.len() - i < 10 {
                return None;
            }
            match text::parse_number(&vendor[i + 5..i + 10], 10, 65535) {
                Some(code) => architecture_of(code),
                None => None,
            }
        },
        None => None,
    }
}

impl Packet {
    /// The address in an option, if it is there and holds just that.
    pub open spec fn ip_value(options: Map<u8, Seq<u8>>, code: u8) -> Option<Ipv4Addr> {
        if options.contains_key(code) && options[code].len() == 4 {
            Some(net::ipv4_at(options[code], 0))
        } else {
            None
        }
    }

    pub fn ip_option(&self, code: u8) -> (ip: Option<Ipv4Addr>)
        ensures
            ip == Self::ip_value(self@.options, code),
    {
        match self.options.get(&code) {
            Some(value) => if value.len() == 4 {
                Some(Ipv4Addr::read(value.as_slice(), 0))
            } else {
                None
            },
            None => None,
        }
    }

    /// The transaction number.
    pub fn xid(&self) -> (xid: u32)
        requires
            self.header@.len() >= 8,
        ensures
            xid == options::u32_at(self.header@, 4),
    {
        options::read_u32(self.header.as_slice(), 4)
    }

    /// The stage and the architecture of the client.
    pub fn classify(&self) -> (found: (Stage, Arch))
        ensures
            found == stage(self@.options),
    {
        let ipxe: bool = match self.options.get(&77) {
            Some(user) => is_ipxe_class(user.as_slice()),
            None => false,
        };
        let listed = match self.options.get(&93) {
            Some(codes) => find_architecture(codes.as_slice()),
            None => None,
        };
        let pxe: bool = match self.options.get(&60) {
            Some(vendor) => text::starts_with(vendor.as_slice(), "PXEClient".as_bytes()),
            None => false,
        };
        if !ipxe && !pxe && listed.is_none() {
            return (Stage::Os, Arch::Unknown);
        }
        let detected = match listed {
            Some(found) => found,
            None => match self.options.get(&60) {
                Some(vendor) => match find_vendor_architecture(vendor.as_slice()) {
                    Some(found) => found,
                    None => (Stage::Unknown, Arch::Unknown),
                },
                None => (Stage::Unknown, Arch::Unknown),
            },
        };
        if ipxe {
            (Stage::Ipxe, detected.1)
        } else {
            detected
        }
    }

    /// The names of the stage and the architecture.
    pub fn stage(&self) -> (names: (&'static str, &'static str))
        ensures
            names.0@ == stage_name(stage(self@.options).0),
            names.1@ == arch_name(stage(self@.options).1),
    {
        let (stage, arch) = self.classify();
        (stage.name(), arch.name())
    }

    pub(crate) fn requests_option(&self, code: u8) -> (yes: bool)
        ensures
            yes == requests(self@.options, code),
    {
        match self.options.get(&55) {
            Some(list) => text::contains_byte(list.as_slice(), code),
            None => false,
        }
    }

    pub(crate) fn is_classless(&self) -> (yes: bool)
        ensures
            yes == classless(self@.options),
    {
        let (stage, _) = self.classify();
        stage != Stage::Bios && stage != Stage::Uefi && self.requests_option(121)
    }

    /// Which kind of routes the client gets.
    pub fn route_mode(&self) -> (mode: &'static str)
        ensures
            mode@ == (if classless(self@.options) {
                "classless"@
            } else {
                "default"@
            }),
    {
        if self.is_classless() {
            "classless"
        } else {
            "default"
        }
    }

    pub fn boot_mode_mismatch(&self, client: &Client) -> (mismatch: bool)
        ensures
            mismatch == mode_mismatch(self@.options, client.boot_type@),
    {
        let (stage, _) = self.classify();
        (stage == Stage::Bios || stage == Stage::Uefi) && !text::str_eq(
            stage.name(),
            client.boot_type.as_str(),
        )
    }
}

// ---------------------------------------------------------------------------
// Names

/// The name of a message type.
pub open spec fn message_text(value: u8) -> Seq<char> {
    match value {
        1 => "discover"@,
        2 => "offer"@,
        3 => "request"@,
        4 => "decline"@,
        5 => "ack"@,
        6 => "nak"@,
        7 => "release"@,
        8 => "inform"@,
        _ => "unknown"@,
    }
}

pub fn message_name(value: u8) -> (name: &'static str)
    ensures
        name@ == message_text(value),
{
    match value {
        1 => "discover",
        2 => "offer",
        3 => "request",
        4 => "decline",
        5 => "ack",
        6 => "nak",
        7 => "release",
        8 => "inform",
        _ => "unknown",
    }
}

/// Bytes in hexadecimal notation, with colons between them.
pub open spec fn colon_hex(bytes: Seq<u8>) -> Seq<char> {
    text::join(bytes.map_values(|b: u8| text::hex(b as nat, 2)), ":"@)
}

pub fn push_colon_hex(out: &mut String, bytes: &[u8])
    ensures
        final(out)@ == old(out)@ + colon_hex(bytes@),
{
    let ghost parts = bytes@.map_values(|b: u8| text::hex(b as nat, 2));
    assert(out@ =~= old(out)@ + text::join(parts.take(0), ":"@));
    for i in 0..bytes.len()
        invariant
            parts == bytes@.map_values(|b: u8| text::hex(b as nat, 2)),
            out@ == old(out)@ + text::join(parts.take(i as int), ":"@),
    {
        proof {
            text::lemma_join_take(parts, ":"@, i as int);
        }
        if i > 0 {
            out.append(":");
        }
        text::push_hex(out, bytes[i] as u64, 2);
        assert(out@ =~= old(out)@ + text::join(parts.take(i + 1), ":"@));
    }
    assert(parts.take(bytes@.len() as int) =~= parts);
}

/// A hardware address in its usual notation.
pub fn format_mac(mac: &[u8; 6]) -> (out: String)
    ensures
        out@ == colon_hex(mac@),
{
    let mut out = String::new();
    push_colon_hex(&mut out, mac);
    assert(out@ =~= colon_hex(mac@));
    out
}

/// A transaction number as `0x` and eight hexadecimal digits.
pub fn format_xid(xid: u32) -> (out: String)
    ensures
        out@ == "0x"@ + text::hex(xid as nat, 8),
{
    let mut out = String::new();
    out.append("0x");
    text::push_hex(&mut out, xid as u64, 8);
    assert(out@ =~= "0x"@ + text::hex(xid as nat, 8));
    out
}

// ---------------------------------------------------------------------------
// Laws

/// The options of a message are those that its sender put behind the cookie, whatever
/// follows them.
pub proof fn law_message_options_are_read_back(
    bytes: Seq<u8>,
    list: Seq<(u8, Seq<u8>)>,
    rest: Seq<u8>,
)
    requires
        bytes.skip(240) == options::encode_all(list) + seq![255u8] + rest,
        forall|i: int| 0 <= i < list.len() ==> 1 <= (#[trigger] list[i]).0 < 255,
        !options::collect(list).contains_key(52),
    ensures
        all_options(bytes) == Ok::<Map<u8, Seq<u8>>, PacketError>(options::collect(list)),
{
    let tail = seq![255u8] + rest;
    assert(bytes.skip(240) =~= options::encode_all(list) + tail);
    options::law_encoded_options_are_read_back(list, tail);
}

/// Every parsed message keeps to what its type promises.
pub proof fn law_parsed_messages_are_well_formed(bytes: Seq<u8>)
    ensures
        packet(bytes) matches Ok(p) ==> p.wf(),
{
    if packet(bytes) is Ok {
        let p = packet(bytes)->Ok_0;
        assert(bytes.take(236).subrange(28, 34) =~= bytes.subrange(28, 34));
    }
}

} // verus!
