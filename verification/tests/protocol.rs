use macmapd::clients::{Client, Clients};
use macmapd::config::{
    Architecture, BootConfig, BootFiles, ClientOptions, ClientsSource, Config, DhcpConfig,
    HttpConfig, LogFormat, LoggingConfig, RouteError,
};
use macmapd::dhcp::{
    format_mac, format_xid, message_name, reply, Packet, PacketError, Reply, ReplyError,
};
use macmapd::net::{IpAddr, Ipv4Addr, SocketAddr};
use macmapd::options::OptionError;
use macmapd::text::NumberFault;
use std::collections::BTreeMap;

const CLIENT_IP: [u8; 4] = [1, 2, 3, 4];
const EXAMPLE: &str = "dc1,host.name1,uefi,AA:BB:CC:DD:EE:FF,1.2.3.4,24,1.2.3.1\n\
                       dc1,host.name2,bios,AA:BB:CC:DD:EE:AA,1.2.3.5,24,1.2.3.1\n";

fn server() -> Ipv4Addr {
    Ipv4Addr::new(192, 0, 2, 10)
}

fn config() -> Config {
    Config {
        dhcp: DhcpConfig {
            listen_ip: Ipv4Addr::new(0, 0, 0, 0),
            server_identifier: Some(server()),
            lease_seconds: 3600,
        },
        http: HttpConfig {
            listen: SocketAddr { ip: IpAddr::V4(Ipv4Addr::new(0, 0, 0, 0)), port: 8080 },
        },
        logging: LoggingConfig {
            level: "info".to_owned(),
            format: LogFormat::Text,
            disable_timestamp: false,
            color: true,
            dhcp_packet_debug: false,
        },
        client_options: ClientOptions {
            dns: vec![Ipv4Addr::new(10, 10, 0, 53), Ipv4Addr::new(10, 10, 0, 54)],
            ntp: vec![Ipv4Addr::new(10, 10, 0, 123)],
            timezone: "Etc/UTC".to_owned(),
            classless_routes: vec!["10.0.0.0/8".to_owned(), "172.16.0.0/12".to_owned()],
        },
        boot: BootConfig {
            tftp_server: Ipv4Addr::new(10, 10, 0, 20),
            architectures: vec![
                Architecture {
                    name: "x86_64".to_owned(),
                    files: BootFiles {
                        bios_file: Some("undionly.kpxe".to_owned()),
                        uefi_file: Some("ipxe-x86_64.efi".to_owned()),
                        ipxe_file: Some("http://10.10.0.20/x86_64/boot.ipxe".to_owned()),
                    },
                },
                Architecture {
                    name: "arm64".to_owned(),
                    files: BootFiles {
                        bios_file: None,
                        uefi_file: Some("ipxe-arm64.efi".to_owned()),
                        ipxe_file: Some("http://10.10.0.20/arm64/boot.ipxe".to_owned()),
                    },
                },
            ],
        },
        clients_source: ClientsSource {
            url: "https://config.example.internal/clients.csv".to_owned(),
            poll_interval_seconds: 60,
            timeout_seconds: 10,
            state_file: "/var/lib/macmapd/clients.csv".to_owned(),
        },
    }
}

fn clients() -> Clients {
    Clients::parse(EXAMPLE).unwrap()
}

fn wire(message: u8, options: &[(u8, &[u8])]) -> Vec<u8> {
    let mut bytes = vec![0; 240];
    bytes[..3].copy_from_slice(&[1, 1, 6]);
    bytes[4..8].copy_from_slice(&[0x12, 0x34, 0x56, 0x78]);
    bytes[28..34].copy_from_slice(&[0xaa, 0xbb, 0xcc, 0xdd, 0xee, 0xff]);
    bytes[236..240].copy_from_slice(&[99, 130, 83, 99]);
    for (code, value) in std::iter::once((53, &[message][..])).chain(options.iter().copied()) {
        bytes.extend([code, value.len() as u8]);
        bytes.extend_from_slice(value);
    }
    bytes.push(255);
    bytes
}

fn answer(packet: &Packet, config: &Config) -> Option<Reply> {
    reply(packet, clients().get(&packet.mac).unwrap(), config, server()).unwrap()
}

fn response_options(bytes: &[u8]) -> BTreeMap<u8, Vec<u8>> {
    let mut options: BTreeMap<u8, Vec<u8>> = BTreeMap::new();
    let mut pos = 240;
    while pos < bytes.len() {
        let code = bytes[pos];
        pos += 1;
        if code == 255 {
            break;
        }
        if code == 0 {
            continue;
        }
        let length = bytes[pos] as usize;
        pos += 1;
        options
            .entry(code)
            .or_default()
            .extend_from_slice(&bytes[pos..pos + length]);
        pos += length;
    }
    options
}

#[test]
fn route_matrix_and_architectures() {
    for (arch, user, vendor, stage, architecture) in [
        (&[0, 0][..], &b""[..], &b"PXEClient"[..], "bios", "x86_64"),
        (&[0, 7][..], &b""[..], &b"PXEClient"[..], "uefi", "x86_64"),
        (&[0, 9][..], &b""[..], &b"PXEClient"[..], "uefi", "x86_64"),
        (&[0, 11][..], &b""[..], &b"PXEClient"[..], "uefi", "arm64"),
        (&[0, 11][..], &b"\x04iPXE"[..], &b"PXEClient"[..], "ipxe", "arm64"),
        (&[0, 9][..], &b"iPXE"[..], &b"PXEClient"[..], "ipxe", "x86_64"),
        (&[][..], &b""[..], &b"ordinary-os"[..], "os", "unknown"),
    ] {
        for requested in [false, true] {
            let prl: &[u8] = if requested { &[1, 3, 6, 121] } else { &[1, 3, 6] };
            let mut input_options = vec![(77, user), (60, vendor), (55, prl)];
            if !arch.is_empty() {
                input_options.push((93, arch));
            }
            let packet = Packet::parse(&wire(1, &input_options)).unwrap();
            assert_eq!(packet.stage(), (stage, architecture));
            let response = answer(&packet, &config()).unwrap();
            let options = response_options(&response.bytes);
            let classless = requested && !matches!(stage, "bios" | "uefi");
            assert_eq!(
                options.contains_key(&121),
                classless,
                "{stage} requested={requested}"
            );
            assert_eq!(options.contains_key(&3), !classless);
            if classless {
                assert_eq!(options[&121], [8, 10, 1, 2, 3, 1, 12, 172, 16, 1, 2, 3, 1]);
            }
            if stage == "os" {
                assert!(response.boot_file.is_none());
            }
            if stage == "ipxe" {
                assert!(response.boot_file.unwrap().ends_with("boot.ipxe"));
            }
        }
    }
}

#[test]
fn request_states_and_relay_echo() {
    for selecting in [false, true] {
        let mut options = vec![(50, &CLIENT_IP[..])];
        let identifier = server().octets();
        if selecting {
            options.push((54, &identifier));
        }
        let packet = Packet::parse(&wire(3, &options)).unwrap();
        assert_eq!(answer(&packet, &config()).unwrap().message, 5);
    }
    let mut bytes = wire(3, &[(82, &[1, 3, b'a', b'b', b'c'])]);
    bytes[12..16].copy_from_slice(&CLIENT_IP);
    let packet = Packet::parse(&bytes).unwrap();
    let response = answer(&packet, &config()).unwrap();
    assert_eq!(response.destination.ip.octets(), CLIENT_IP);
    assert!(!response_options(&response.bytes).contains_key(&82));
    bytes[24..28].copy_from_slice(&[198, 51, 100, 77]);
    let packet = Packet::parse(&bytes).unwrap();
    let response = answer(&packet, &config()).unwrap();
    assert_eq!(response.destination.to_text(), "198.51.100.77:67");
    assert_eq!(
        response_options(&response.bytes)[&82],
        [1, 3, b'a', b'b', b'c']
    );
}

#[test]
fn malformed_request_state_combinations_do_not_acknowledge() {
    // RFC 2131 table 4: renewals have neither 50 nor 54; selecting has
    // both options and zero ciaddr; INIT-REBOOT has 50 and zero ciaddr.
    let identifier = server().octets();
    for (ciaddr, options) in [
        (CLIENT_IP, vec![(50, &CLIENT_IP[..])]),
        (CLIENT_IP, vec![(54, &identifier[..])]),
        (CLIENT_IP, vec![(50, &CLIENT_IP[..]), (54, &identifier[..])]),
        ([0; 4], vec![(54, &identifier[..])]),
        ([0; 4], vec![]),
    ] {
        let mut bytes = wire(3, &options);
        bytes[12..16].copy_from_slice(&ciaddr);
        if let Ok(packet) = Packet::parse(&bytes) {
            let clients = clients();
            let result = reply(&packet, clients.get(&packet.mac).unwrap(), &config(), server());
            assert!(
                !matches!(result, Ok(Some(_))),
                "malformed REQUEST was answered"
            );
        }
    }
}

#[test]
fn inform_nak_and_other_server() {
    let mut bytes = wire(8, &[]);
    bytes[12..16].copy_from_slice(&CLIENT_IP);
    let response = answer(&Packet::parse(&bytes).unwrap(), &config()).unwrap();
    assert_eq!(&response.bytes[16..20], &[0; 4]);
    let options = response_options(&response.bytes);
    for code in [51, 58, 59] {
        assert!(!options.contains_key(&code));
    }
    let mut bytes = wire(3, &[(50, &[1, 2, 3, 99])]);
    bytes[24..28].copy_from_slice(&[198, 51, 100, 2]);
    let response = answer(&Packet::parse(&bytes).unwrap(), &config()).unwrap();
    assert_eq!(response.message, 6);
    assert_ne!(response.bytes[10] & 0x80, 0);
    assert!(!response_options(&response.bytes).contains_key(&1));
    let packet = Packet::parse(&wire(3, &[(50, &CLIENT_IP), (54, &[192, 0, 2, 99])])).unwrap();
    assert!(answer(&packet, &config()).is_none());
    for message in [4, 7] {
        assert!(answer(&Packet::parse(&wire(message, &[])).unwrap(), &config()).is_none());
    }
}

#[test]
fn malformed_options_and_long_routes() {
    for options in [
        vec![(53, &b"\x01"[..])],
        vec![(93, &b"\x00"[..])],
        vec![(54, &b"\x01\x02"[..])],
    ] {
        assert!(Packet::parse(&wire(1, &options)).is_err());
    }
    let mut truncated = wire(1, &[]);
    truncated.pop();
    truncated.extend([200, 4, 1]);
    assert!(Packet::parse(&truncated).is_err());
    let mut cfg = config();
    cfg.client_options.classless_routes = (1..=40).map(|i| format!("10.0.{i}.0/24")).collect();
    let packet = Packet::parse(&wire(1, &[(55, &[121]), (57, &[5, 220])])).unwrap();
    let response = answer(&packet, &cfg).unwrap();
    assert_eq!(response_options(&response.bytes)[&121].len(), 320);
    cfg.client_options.classless_routes = (1..=100).map(|i| format!("10.0.{i}.0/24")).collect();
    let packet = Packet::parse(&wire(1, &[(55, &[121])])).unwrap();
    let clients = clients();
    assert!(reply(&packet, clients.get(&packet.mac).unwrap(), &cfg, server()).is_err());
}

#[test]
fn relay_option_is_omitted_only_when_it_does_not_fit() {
    let mut relay = vec![1, 253];
    relay.extend([b'a'; 253]);
    for (maximum, omitted) in [(576u16, true), (1500, false)] {
        let mut bytes = wire(
            1,
            &[(93, &[0, 9]), (82, &relay), (57, &maximum.to_be_bytes())],
        );
        bytes[24..28].copy_from_slice(&[192, 0, 2, 1]);
        let response = answer(&Packet::parse(&bytes).unwrap(), &config()).unwrap();
        assert_eq!(response.message, 2);
        assert_eq!(response.relay_option_omitted, omitted);
        assert!(response.bytes.len() <= usize::from(maximum));
        let options = response_options(&response.bytes);
        if omitted {
            assert!(!options.contains_key(&82));
        } else {
            assert_eq!(options[&82], relay);
        }
    }
}

#[test]
fn ipxe_uses_vendor_architecture_fallback_and_prefers_option_93() {
    for (architecture, expected) in [(9u16, "x86_64"), (11, "arm64")] {
        let vendor = format!("PXEClient:Arch:{architecture:05}:UNDI:003016");
        let packet = Packet::parse(&wire(1, &[(77, b"iPXE"), (60, vendor.as_bytes())])).unwrap();
        assert_eq!(packet.stage(), ("ipxe", expected));
        let response = answer(&packet, &config()).unwrap();
        assert_eq!(
            response.boot_file,
            config().boot.files(expected).unwrap().ipxe_file
        );
    }
    let packet = Packet::parse(&wire(
        1,
        &[(77, b"iPXE"), (60, b"PXEClient:Arch:00009"), (93, &[0, 11])],
    ))
    .unwrap();
    assert_eq!(packet.stage(), ("ipxe", "arm64"));
}

#[test]
fn relay_discover_request_packets() {
    let localhost = Ipv4Addr::new(127, 0, 0, 1);
    let config = config();
    let clients = clients();
    let client: &Client = clients.records.values().next().unwrap();
    let mut bytes = vec![0u8; 240];
    bytes[..3].copy_from_slice(&[1, 1, 6]);
    bytes[4..8].copy_from_slice(&1234u32.to_be_bytes());
    bytes[24..28].copy_from_slice(&[127, 0, 0, 1]);
    bytes[28..34].copy_from_slice(&client.mac);
    bytes[236..240].copy_from_slice(&[99, 130, 83, 99]);
    bytes.extend([53, 1, 1, 55, 1, 121, 255]);
    let request = Packet::parse(&bytes).unwrap();
    let offer = reply(&request, client, &config, localhost).unwrap().unwrap();
    assert_eq!(offer.destination.ip, localhost);
    assert_eq!(offer.destination.port, 67);
    assert_eq!(&offer.bytes[16..20], &client.ip.octets());
    bytes[242] = 3;
    bytes.pop();
    bytes.extend([50, 4]);
    bytes.extend(client.ip.octets());
    bytes.extend([54, 4]);
    bytes.extend(localhost.octets());
    bytes.push(255);
    let request = Packet::parse(&bytes).unwrap();
    assert_eq!(
        reply(&request, client, &config, localhost).unwrap().unwrap().message,
        5
    );
}

#[test]
fn offered_addresses_are_granted_on_the_same_way() {
    for relay in [[0, 0, 0, 0], [10, 9, 8, 7]] {
        let wishes: [(u8, &[u8]); 3] = [(55, &[121, 101]), (61, b"id"), (82, b"circuit")];
        let mut discover = wire(1, &wishes);
        discover[24..28].copy_from_slice(&relay);
        let offer = answer(&Packet::parse(&discover).unwrap(), &config()).unwrap();
        let mut offered = response_options(&offer.bytes);
        let mut taken = wishes.to_vec();
        taken.push((50, &offer.bytes[16..20]));
        taken.push((54, &offered[&54]));
        let mut request = wire(3, &taken);
        request[24..28].copy_from_slice(&relay);
        let ack = answer(&Packet::parse(&request).unwrap(), &config()).unwrap();
        assert_eq!((offer.message, ack.message), (2, 5));
        assert_eq!(ack.destination, offer.destination);
        assert_eq!(ack.bytes[16..20], CLIENT_IP);
        assert_eq!(ack.bytes.len(), offer.bytes.len());
        assert_eq!(offered.insert(53, vec![5]), Some(vec![2]));
        assert_eq!(response_options(&ack.bytes), offered);
    }
}

#[test]
fn whole_offer_byte_by_byte() {
    let packet = Packet::parse(&wire(1, &[(61, &[1, 2, 3])])).unwrap();
    let response = answer(&packet, &config()).unwrap();
    let mut expected = vec![0u8; 240];
    expected[..3].copy_from_slice(&[2, 1, 6]);
    expected[4..8].copy_from_slice(&[0x12, 0x34, 0x56, 0x78]);
    expected[16..20].copy_from_slice(&CLIENT_IP);
    expected[28..34].copy_from_slice(&[0xaa, 0xbb, 0xcc, 0xdd, 0xee, 0xff]);
    expected[236..240].copy_from_slice(&[99, 130, 83, 99]);
    expected.extend([53, 1, 2, 54, 4, 192, 0, 2, 10, 61, 3, 1, 2, 3]);
    expected.extend([51, 4, 0, 0, 14, 16, 58, 4, 0, 0, 7, 8, 59, 4, 0, 0, 12, 78]);
    expected.extend([1, 4, 255, 255, 255, 0, 12, 10]);
    expected.extend(b"host.name1");
    expected.extend([6, 8, 10, 10, 0, 53, 10, 10, 0, 54, 42, 4, 10, 10, 0, 123]);
    expected.extend([3, 4, 1, 2, 3, 1, 255]);
    assert!(expected.len() > 300);
    assert_eq!(response.bytes, expected);
    assert_eq!(response.message, 2);
    assert_eq!(response.destination.to_text(), "255.255.255.255:68");
    assert_eq!(response.boot_file, None);
    assert!(!response.relay_option_omitted);
}

#[test]
fn nak_is_bare_and_padded() {
    let packet = Packet::parse(&wire(3, &[(50, &[1, 2, 3, 99])])).unwrap();
    let response = answer(&packet, &config()).unwrap();
    assert_eq!(response.message, 6);
    assert_eq!(response.bytes.len(), 300);
    assert_eq!(response.bytes[240..250], [53, 1, 6, 54, 4, 192, 0, 2, 10, 255]);
    assert!(response.bytes[250..].iter().all(|byte| *byte == 0));
    assert_eq!(response.bytes[10], 0);
    assert_eq!(response.destination.to_text(), "255.255.255.255:68");
}

#[test]
fn domain_mtu_and_timezone_come_from_the_row_and_the_configuration() {
    let row = "dc1,host.example,example.internal,uefi,9000,AA:BB:CC:DD:EE:FF,10.0.0.2,24,10.0.0.1\n";
    let clients = Clients::parse(row).unwrap();
    let packet = Packet::parse(&wire(1, &[(55, &[101])])).unwrap();
    let response = reply(&packet, clients.get(&packet.mac).unwrap(), &config(), server())
        .unwrap()
        .unwrap();
    let options = response_options(&response.bytes);
    assert_eq!(options[&15], b"example.internal");
    assert_eq!(options[&26], [0x23, 0x28]);
    assert_eq!(options[&101], b"Etc/UTC");
    let plain = answer(&Packet::parse(&wire(1, &[])).unwrap(), &config()).unwrap();
    let options = response_options(&plain.bytes);
    for code in [15, 26, 101] {
        assert!(!options.contains_key(&code));
    }
}

#[test]
fn firmware_gets_the_file_of_the_mode_in_its_row() {
    let packet = Packet::parse(&wire(1, &[(93, &[0, 7])])).unwrap();
    let response = answer(&packet, &config()).unwrap();
    assert_eq!(response.boot_file.as_deref(), Some("ipxe-x86_64.efi"));
    assert_eq!(response.bytes[20..24], [10, 10, 0, 20]);
    assert_eq!(&response.bytes[108..124], b"ipxe-x86_64.efi\0");
    let options = response_options(&response.bytes);
    assert_eq!(options[&66], b"10.10.0.20");
    assert_eq!(options[&67], b"ipxe-x86_64.efi");
    let mut cfg = config();
    cfg.boot.architectures[0].files.uefi_file = Some("f".repeat(200));
    let response = answer(&packet, &cfg).unwrap();
    assert_eq!(response.bytes[108], 0);
    assert_eq!(response_options(&response.bytes)[&67].len(), 200);
    cfg.boot.architectures[0].files.uefi_file = None;
    assert_eq!(answer(&packet, &cfg).unwrap().boot_file, None);
}

#[test]
fn short_leases_have_no_renewal_times() {
    let mut cfg = config();
    for (lease, timed) in [(7, false), (8, true)] {
        cfg.dhcp.lease_seconds = lease;
        let packet = Packet::parse(&wire(1, &[])).unwrap();
        let options = response_options(&answer(&packet, &cfg).unwrap().bytes);
        assert_eq!(options.contains_key(&58), timed);
        assert_eq!(options.contains_key(&59), timed);
    }
    cfg.dhcp.lease_seconds = u32::MAX;
    let packet = Packet::parse(&wire(1, &[])).unwrap();
    let options = response_options(&answer(&packet, &cfg).unwrap().bytes);
    assert_eq!(options[&59], 3758096383u32.to_be_bytes());
}

#[test]
fn packet_faults() {
    let good = wire(1, &[]);
    let parse = |bytes: &[u8]| Packet::parse(bytes).unwrap_err();
    assert_eq!(parse(&good[..239]), PacketError::Short);
    let mut bytes = good.clone();
    bytes[2] = 5;
    assert_eq!(parse(&bytes), PacketError::NotEthernetRequest);
    let mut bytes = good.clone();
    bytes[239] = 0;
    assert_eq!(parse(&bytes), PacketError::Cookie);
    let mut bytes = good.clone();
    bytes.pop();
    bytes.push(12);
    assert_eq!(parse(&bytes), PacketError::Options(OptionError::MissingLength));
    bytes.extend([2, 65]);
    assert_eq!(parse(&bytes), PacketError::Options(OptionError::Truncated(12)));
    assert_eq!(parse(&wire(1, &[(52, &[4])])), PacketError::Overload);
    assert_eq!(parse(&wire(1, &[(50, &[1])])), PacketError::OptionLength(50));
    assert_eq!(parse(&wire(1, &[(57, &[1])])), PacketError::OptionLength(57));
    assert_eq!(parse(&wire(1, &[(93, &[1])])), PacketError::ArchitectureList);
    assert_eq!(parse(&good[..240]), PacketError::MissingMessage);
    assert_eq!(parse(&wire(2, &[])), PacketError::UnsupportedMessage);
    assert_eq!(
        PacketError::Options(OptionError::Truncated(12)).message(),
        "truncated option 12"
    );
    assert_eq!(PacketError::OptionLength(50).message(), "invalid option 50 length");
}

#[test]
fn overloaded_fields_hold_options() {
    for (overload, expected) in [(1u8, (true, false)), (2, (false, true)), (3, (true, true))] {
        let mut bytes = wire(1, &[(52, &[overload])]);
        bytes[108..112].copy_from_slice(&[12, 1, b'f', 255]);
        bytes[44..48].copy_from_slice(&[15, 1, b's', 255]);
        let packet = Packet::parse(&bytes).unwrap();
        assert_eq!(packet.options.contains_key(&12), expected.0);
        assert_eq!(packet.options.contains_key(&15), expected.1);
    }
}

#[test]
fn split_options_are_joined() {
    let long: Vec<u8> = (0..600).map(|i| i as u8).collect();
    let mut bytes = Vec::new();
    macmapd::options::option(&mut bytes, 43, &long);
    assert_eq!(bytes.len(), 606);
    assert_eq!(bytes[..2], [43, 255]);
    assert_eq!(bytes[514..516], [43, 90]);
    let mut options = BTreeMap::new();
    macmapd::options::read_options(&bytes, &mut options).unwrap();
    assert_eq!(options[&43], long);
    macmapd::options::option(&mut bytes, 44, &[]);
    assert_eq!(bytes.len(), 606);
}

#[test]
fn reply_errors() {
    let clients = clients();
    let packet = Packet::parse(&wire(1, &[(55, &[121])])).unwrap();
    let client = clients.get(&packet.mac).unwrap();
    for server in [
        Ipv4Addr::new(0, 0, 0, 0),
        Ipv4Addr::new(255, 255, 255, 255),
        Ipv4Addr::new(224, 0, 0, 1),
    ] {
        let error = reply(&packet, client, &config(), server).unwrap_err();
        assert_eq!(error, ReplyError::Server);
    }
    for (route, fault) in [
        ("10.0.0.0", RouteError::Syntax),
        ("10.0.0.0/x", RouteError::Prefix(NumberFault::Digit)),
        ("10.0.0.0/0", RouteError::Range),
        ("10.0.0/8", RouteError::Network),
    ] {
        let mut cfg = config();
        cfg.client_options.classless_routes = vec![route.to_owned()];
        let error = reply(&packet, client, &cfg, server()).unwrap_err();
        assert_eq!(error, ReplyError::Route(fault));
    }
    for (fault, message) in [
        (RouteError::Syntax, "route requires prefix"),
        (RouteError::Prefix(NumberFault::Digit), "invalid digit found in string"),
        (RouteError::Range, "invalid route prefix"),
        (RouteError::Network, "invalid IPv4 address syntax"),
    ] {
        assert_eq!(ReplyError::Route(fault).message(), message);
    }
    let mut cfg = config();
    cfg.client_options.classless_routes = vec!["10.0.0.0/8".to_owned(); 60];
    let error = reply(&packet, client, &cfg, server()).unwrap_err();
    assert_eq!(error, ReplyError::TooLong(576));
    assert_eq!(
        error.message(),
        "response exceeds client maximum DHCP size (576)"
    );
}

#[test]
fn stage_and_route_mode() {
    let stage = |options: &[(u8, &[u8])]| Packet::parse(&wire(1, options)).unwrap().stage();
    assert_eq!(stage(&[]), ("os", "unknown"));
    assert_eq!(stage(&[(93, &[0, 1, 0, 11])]), ("uefi", "arm64"));
    assert_eq!(stage(&[(93, &[0, 1])]), ("os", "unknown"));
    assert_eq!(stage(&[(60, b"PXEClient")]), ("unknown", "unknown"));
    assert_eq!(stage(&[(60, b"PXEClient:Arch:00000")]), ("bios", "x86_64"));
    assert_eq!(stage(&[(60, b"PXEClient:Arch:0000")]), ("unknown", "unknown"));
    assert_eq!(stage(&[(60, b"PXEClient:Arch:+0007")]), ("uefi", "x86_64"));
    assert_eq!(stage(&[(60, b"PXEClient:Arch:00007\xff")]), ("unknown", "unknown"));
    assert_eq!(stage(&[(60, b"PXEClient:Arch:00Arch:00007")]), ("unknown", "unknown"));
    assert_eq!(stage(&[(77, b"\x03foo\x04iPXE")]), ("ipxe", "unknown"));
    assert_eq!(stage(&[(77, b"\x09iPXE")]), ("os", "unknown"));
    let mode = |options: &[(u8, &[u8])]| Packet::parse(&wire(1, options)).unwrap().route_mode();
    assert_eq!(mode(&[(55, &[121])]), "classless");
    assert_eq!(mode(&[(55, &[3])]), "default");
    assert_eq!(mode(&[(55, &[121]), (93, &[0, 7])]), "default");
    let clients = clients();
    let client = clients.get(&[0xaa, 0xbb, 0xcc, 0xdd, 0xee, 0xff]).unwrap();
    let mismatch = |options: &[(u8, &[u8])]| {
        Packet::parse(&wire(1, options)).unwrap().boot_mode_mismatch(client)
    };
    assert!(mismatch(&[(93, &[0, 0])]));
    assert!(!mismatch(&[(93, &[0, 7])]));
    assert!(!mismatch(&[(93, &[0, 0]), (77, b"iPXE")]));
}

#[test]
fn names_and_notations() {
    assert_eq!(format_mac(&[0xaa, 0, 1, 2, 3, 0xff]), "aa:00:01:02:03:ff");
    assert_eq!(format_xid(0x27e9542c), "0x27e9542c");
    let names: Vec<&str> = (0..=9).map(message_name).collect();
    assert_eq!(
        names,
        [
            "unknown", "discover", "offer", "request", "decline", "ack", "nak", "release",
            "inform", "unknown"
        ]
    );
    let packet = Packet::parse(&wire(1, &[(50, &CLIENT_IP)])).unwrap();
    assert_eq!(packet.xid(), 0x12345678);
    assert_eq!(packet.ip_option(50), Some(Ipv4Addr::new(1, 2, 3, 4)));
    assert_eq!(packet.ip_option(53), None);
    assert_eq!(packet.ip_option(54), None);
}
