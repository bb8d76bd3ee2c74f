use macmapd::clients::Clients;
use macmapd::config::{
    BootConfig, ClientOptions, ClientsSource, Config, DhcpConfig, HttpConfig, LoggingConfig,
};
use macmapd::dhcp::ReplyError;
use macmapd::net::{IpAddr, Ipv4Addr, SocketAddr};
use macmapd::runtime::Shared;
use macmapd::server::{explicit_server, handle, lacks_boot_file, record_sent, Outcome};
use std::sync::Arc;

const ROW: &str = "dc1,host,uefi,AA:BB:CC:DD:EE:FF,1.2.3.4,24,1.2.3.1\n";

fn config() -> Config {
    Config {
        dhcp: DhcpConfig {
            listen_ip: Ipv4Addr::new(0, 0, 0, 0),
            server_identifier: None,
            lease_seconds: 60,
        },
        http: HttpConfig {
            listen: SocketAddr { ip: IpAddr::V6([0, 0, 0, 0, 0, 0, 0, 1]), port: 8080 },
        },
        logging: LoggingConfig::default(),
        client_options: ClientOptions {
            dns: vec![],
            ntp: vec![],
            timezone: "Etc/UTC".to_owned(),
            classless_routes: vec!["10.0.0.0/8".to_owned()],
        },
        boot: BootConfig { tftp_server: Ipv4Addr::new(10, 0, 0, 1), architectures: vec![] },
        clients_source: ClientsSource {
            url: "http://host/".to_owned(),
            poll_interval_seconds: 1,
            timeout_seconds: 1,
            state_file: "s".to_owned(),
        },
    }
}

fn datagram(options: &[u8]) -> Vec<u8> {
    let mut bytes = vec![0; 240];
    bytes[..3].copy_from_slice(&[1, 1, 6]);
    bytes[28..34].copy_from_slice(&[0xaa, 0xbb, 0xcc, 0xdd, 0xee, 0xff]);
    bytes[236..240].copy_from_slice(&[99, 130, 83, 99]);
    bytes.extend_from_slice(options);
    bytes
}

fn server() -> Ipv4Addr {
    Ipv4Addr::new(192, 0, 2, 10)
}

fn shared() -> Shared {
    let mut shared = Shared::new();
    shared.snapshot = Some(Arc::new(Clients::parse(ROW).unwrap()));
    shared
}

fn labels(shared: &Shared) -> Vec<Vec<&str>> {
    shared
        .request_labels
        .series
        .iter()
        .map(|series| series.labels.iter().map(|label| label.as_str()).collect())
        .collect()
}

#[test]
fn server_identifiers() {
    let mut config = config();
    assert_eq!(explicit_server(&config), None);
    config.dhcp.listen_ip = Ipv4Addr::new(10, 0, 0, 9);
    assert_eq!(explicit_server(&config), Some(Ipv4Addr::new(10, 0, 0, 9)));
    config.dhcp.server_identifier = Some(server());
    assert_eq!(explicit_server(&config), Some(server()));
}

#[test]
fn malformed_datagrams_are_counted() {
    let mut shared = shared();
    let (outcome, request) = handle(&mut shared, &config(), server(), b"short", 1);
    assert!(matches!(outcome, Outcome::Malformed(_)));
    assert!(request.is_none());
    assert_eq!((shared.requests, shared.errors), (1, 1));
    assert_eq!(
        labels(&shared),
        [["unknown", "unknown", "unknown", "unknown", "invalid"]]
    );
}

#[test]
fn unknown_clients_are_counted_and_not_answered() {
    let mut empty = Shared::new();
    let (outcome, request) = handle(&mut empty, &config(), server(), &datagram(&[53, 1, 1, 255]), 1);
    assert!(matches!(outcome, Outcome::Unknown));
    assert!(request.unwrap().client.is_none());
    assert_eq!((empty.requests, empty.unknown, empty.errors), (1, 1, 0));
    assert_eq!(
        labels(&empty),
        [["unknown", "unknown", "os", "default", "discover"]]
    );
    let mut shared = shared();
    let mut bytes = datagram(&[53, 1, 1, 255]);
    bytes[33] = 0;
    let (outcome, _) = handle(&mut shared, &config(), server(), &bytes, 1);
    assert!(matches!(outcome, Outcome::Unknown));
}

#[test]
fn mismatches_are_counted_and_not_answered() {
    let mut shared = shared();
    let bios = datagram(&[53, 1, 1, 93, 2, 0, 0, 255]);
    let (outcome, _) = handle(&mut shared, &config(), server(), &bios, 1);
    assert!(matches!(outcome, Outcome::BootModeMismatch));
    assert_eq!(shared.boot_mode_mismatches, 1);
    let uefi = datagram(&[53, 1, 1, 93, 2, 0, 7, 255]);
    let (outcome, request) = handle(&mut shared, &config(), server(), &uefi, 1);
    let Outcome::Send(reply) = outcome else {
        panic!("not answered");
    };
    assert!(lacks_boot_file(&request.unwrap().packet, &reply));
    assert_eq!(
        labels(&shared),
        [
            ["dc1", "host", "bios", "default", "discover"],
            ["dc1", "host", "uefi", "default", "discover"]
        ]
    );
}

#[test]
fn answers_are_counted_when_they_are_sent() {
    let mut shared = shared();
    let bytes = datagram(&[53, 1, 1, 55, 1, 121, 255]);
    let (outcome, request) = handle(&mut shared, &config(), server(), &bytes, 1);
    let Outcome::Send(reply) = outcome else {
        panic!("not answered");
    };
    let request = request.unwrap();
    assert!(!lacks_boot_file(&request.packet, &reply));
    assert_eq!(request.client.unwrap().hostname, "host");
    assert_eq!(labels(&shared), [["dc1", "host", "os", "classless", "discover"]]);
    assert_eq!(shared.responses, 0);
    record_sent(&mut shared, reply.message, true);
    assert_eq!((shared.responses, shared.errors), (1, 0));
    assert_eq!(shared.response_labels[0].labels, ["offer"]);
    record_sent(&mut shared, reply.message, false);
    assert_eq!((shared.responses, shared.errors), (1, 1));
}

#[test]
fn releases_and_errors() {
    let mut shared = shared();
    let (outcome, _) = handle(&mut shared, &config(), server(), &datagram(&[53, 1, 7, 255]), 1);
    assert!(matches!(outcome, Outcome::NoResponse));
    assert_eq!((shared.requests, shared.errors), (1, 0));
    let zero = Ipv4Addr::new(0, 0, 0, 0);
    let (outcome, _) = handle(&mut shared, &config(), zero, &datagram(&[53, 1, 1, 255]), 1);
    assert!(matches!(outcome, Outcome::Error(ReplyError::Server)));
    assert_eq!((shared.requests, shared.errors), (2, 1));
}

#[test]
fn omitted_relay_options_are_counted() {
    let mut shared = shared();
    let mut options = vec![53, 1, 1, 82, 255];
    options.extend([7; 255]);
    options.extend([82, 255]);
    options.extend([8; 255]);
    options.push(255);
    let mut bytes = datagram(&options);
    bytes[24..28].copy_from_slice(&[192, 0, 2, 1]);
    let (outcome, _) = handle(&mut shared, &config(), server(), &bytes, 1);
    let Outcome::Send(reply) = outcome else {
        panic!("not answered");
    };
    assert!(reply.relay_option_omitted);
    assert_eq!(reply.destination.to_text(), "192.0.2.1:67");
    assert_eq!(shared.errors, 1);
}
