use macmapd::config::{
    default_timezone, is_filter_readable, is_unicast, parse_route, prefix_mask, valid_hostname,
    valid_timezone, Architecture, BootConfig, BootFiles, ClientOptions, ClientsSource, Config,
    ConfigError, DhcpConfig, HttpConfig, LogFormat, LoggingConfig, RouteError,
};
use macmapd::net::{parse_ipv4, IpAddr, Ipv4Addr, SocketAddr};
use macmapd::text::NumberFault;

fn example() -> Config {
    Config {
        dhcp: DhcpConfig {
            listen_ip: Ipv4Addr::new(0, 0, 0, 0),
            server_identifier: Some(Ipv4Addr::new(192, 0, 2, 10)),
            lease_seconds: 3600,
        },
        http: HttpConfig {
            listen: SocketAddr { ip: IpAddr::V4(Ipv4Addr::new(0, 0, 0, 0)), port: 8080 },
        },
        logging: LoggingConfig {
            level: "info".to_owned(),
            format: LogFormat::Text,
            disable_timestamp: false,
            color: true,
            dhcp_packet_debug: false,
        },
        client_options: ClientOptions {
            dns: vec![Ipv4Addr::new(10, 10, 0, 53), Ipv4Addr::new(10, 10, 0, 54)],
            ntp: vec![Ipv4Addr::new(10, 10, 0, 123)],
            timezone: "Etc/UTC".to_owned(),
            classless_routes: vec!["10.0.0.0/8".to_owned(), "172.16.0.0/12".to_owned()],
        },
        boot: BootConfig {
            tftp_server: Ipv4Addr::new(10, 10, 0, 20),
            architectures: vec![Architecture {
                name: "x86_64".to_owned(),
                files: BootFiles {
                    bios_file: Some("undionly.kpxe".to_owned()),
                    uefi_file: Some("ipxe-x86_64.efi".to_owned()),
                    ipxe_file: Some("http://10.10.0.20/x86_64/boot.ipxe".to_owned()),
                },
            }],
        },
        clients_source: ClientsSource {
            url: "https://config.example.internal/clients.csv".to_owned(),
            poll_interval_seconds: 60,
            timeout_seconds: 10,
            state_file: "/var/lib/macmapd/clients.csv".to_owned(),
        },
    }
}

#[test]
fn example_and_wildcard_are_valid() {
    let mut config = example();
    config.dhcp.server_identifier = None;
    config.validate().unwrap();
    config.dhcp.server_identifier = Some(Ipv4Addr::new(0, 0, 0, 0));
    assert!(config.validate().is_err());
}

#[test]
fn logging_config_defaults_and_validation() {
    let config = example();
    assert_eq!(config.logging.level, "info");
    assert_eq!(config.logging.format, LogFormat::Text);
    assert!(!config.logging.disable_timestamp);
    assert!(config.logging.color);
    assert!(!config.logging.dhcp_packet_debug);

    let mut config = example();
    config.logging = LoggingConfig::default();
    assert_eq!(config.logging.level, "info");
    assert_eq!(config.logging.format, LogFormat::Json);
    assert_eq!(config.client_options.timezone, "Etc/UTC");
    config.validate().unwrap();

    let mut config = example();
    config.client_options.timezone = default_timezone();
    assert_eq!(config.client_options.timezone, "Etc/UTC");

    let mut config = example();
    config.logging.format = LogFormat::Json;
    config.logging.disable_timestamp = true;
    assert_eq!(config.logging.format, LogFormat::Json);
    assert!(config.logging.disable_timestamp);
    config.validate().unwrap();

    let mut config = example();
    config.logging.level = "macdack==debug".to_owned();
    assert!(config.validate().is_err());
}

#[test]
fn route_validation() {
    assert!(parse_route("10.0.0.0/8").is_ok());
    assert!(parse_route("10.0.0.1/32").is_ok());
    for route in ["0.0.0.0/0", "10.0.0.1/8", "10.0.0.0/33", "::/8"] {
        assert!(parse_route(route).is_err());
    }
}

#[test]
fn route_values_and_faults() {
    assert_eq!(parse_route("10.0.0.0/8"), Ok((Ipv4Addr::new(10, 0, 0, 0), 8)));
    assert_eq!(parse_route("10.0.0.0/+08"), Ok((Ipv4Addr::new(10, 0, 0, 0), 8)));
    for (route, fault, message) in [
        ("10.0.0.0", RouteError::Syntax, "route must use IPv4/prefix syntax"),
        ("10.0.0/8", RouteError::Network, "invalid route 10.0.0/8"),
        ("10.0.0.0/256", RouteError::Prefix(NumberFault::TooLarge), "invalid route prefix 10.0.0.0/256"),
        (
            "0.0.0.0/0",
            RouteError::Range,
            "route 0.0.0.0/0: prefix must be 1..32 (default route is forbidden)",
        ),
        ("10.0.0.1/8", RouteError::HostBits, "route 10.0.0.1/8: host bits must be zero"),
    ] {
        assert_eq!(parse_route(route), Err(fault));
        assert_eq!(fault.message(route), message);
    }
}

fn fault(change: impl Fn(&mut Config)) -> ConfigError {
    let mut config = example();
    change(&mut config);
    let error = config.validate().unwrap_err();
    assert!(!error.message(&config).is_empty());
    error
}

#[test]
fn configuration_faults() {
    let multicast = Ipv4Addr::new(224, 0, 0, 1);
    assert_eq!(fault(|c| c.dhcp.listen_ip = multicast), ConfigError::ListenIp);
    assert_eq!(
        fault(|c| c.dhcp.server_identifier = Some(multicast)),
        ConfigError::ServerIdentifier
    );
    assert_eq!(fault(|c| c.dhcp.lease_seconds = 0), ConfigError::LeaseSeconds);
    assert_eq!(fault(|c| c.http.listen.port = 0), ConfigError::HttpPort);
    assert_eq!(fault(|c| c.logging.level = "a==b".to_owned()), ConfigError::LogLevel);
    assert_eq!(
        fault(|c| c.clients_source.poll_interval_seconds = 0),
        ConfigError::PollInterval
    );
    assert_eq!(fault(|c| c.clients_source.timeout_seconds = 0), ConfigError::Timeout);
    assert_eq!(
        fault(|c| c.clients_source.url = "ftp://host/x".to_owned()),
        ConfigError::UrlScheme
    );
    for url in ["https://", "http:///x", "http://a b", "http://a\u{3000}"] {
        assert_eq!(fault(|c| c.clients_source.url = url.to_owned()), ConfigError::Url);
    }
    assert_eq!(
        fault(|c| c.clients_source.state_file = String::new()),
        ConfigError::StateFile
    );
    assert_eq!(
        fault(|c| c.client_options.timezone = "Etc//UTC".to_owned()),
        ConfigError::Timezone
    );
    assert_eq!(
        fault(|c| c.client_options.ntp.push(multicast)),
        ConfigError::NameOrTimeServer(multicast)
    );
    assert_eq!(
        fault(|c| c.client_options.classless_routes.clear()),
        ConfigError::NoRoutes
    );
    assert_eq!(
        fault(|c| c.client_options.classless_routes[1] = "10.0.0.1/8".to_owned()),
        ConfigError::Route(1, RouteError::HostBits)
    );
    assert_eq!(fault(|c| c.boot.tftp_server = multicast), ConfigError::TftpServer);
    assert_eq!(
        fault(|c| c.boot.architectures[0].name = String::new()),
        ConfigError::EmptyArchitecture
    );
    for file in ["".to_owned(), "a\tb".to_owned(), "x".repeat(256)] {
        assert_eq!(
            fault(|c| c.boot.architectures[0].files.ipxe_file = Some(file.clone())),
            ConfigError::BootFile(0)
        );
    }
    assert_eq!(
        ConfigError::BootFile(0).message(&example()),
        "invalid boot filename for x86_64: expected 1..255 bytes without control characters"
    );
    assert_eq!(
        ConfigError::NameOrTimeServer(multicast).message(&example()),
        "DNS/NTP addresses must be unicast: 224.0.0.1"
    );
}

#[test]
fn the_log_level_is_the_parsers_to_judge() {
    let mut config = example();
    for level in ["", "debug", "macmapd=debug,tower_http=warn", "off"] {
        config.logging.level = level.to_owned();
        assert_eq!(config.validate(), Ok(()), "{level}");
        assert_eq!(config.check(), Ok(()), "{level}");
    }
    for level in ["macmapd=loud", "größe=info, =x", "info, größe=info"] {
        config.logging.level = level.to_owned();
        assert_eq!(config.validate(), Err(ConfigError::LogLevel), "{level}");
        assert_eq!(config.check(), Err(ConfigError::LogLevel), "{level}");
    }
    for level in [" é", "  [é]", " [é", "warn, é,info", " [x{é=1}]", "größe=info,   é"] {
        assert!(is_filter_readable(level), "{level}");
        config.logging.level = level.to_owned();
        let accepted = level != " [é";
        assert_eq!(config.validate().is_ok(), accepted, "{level}");
        assert_eq!(config.check().is_ok(), accepted, "{level}");
    }
    for level in [" é=info", "  é=info", " [é]", " [xé{a}]", " a[é]", "warn, é=info", "\u{3000}a=info"] {
        assert!(!is_filter_readable(level), "{level}");
        config.logging.level = level.to_owned();
        assert_eq!(config.check(), Err(ConfigError::LogLevel), "{level}");
    }
    for level in ["größe=info,warn", "größe=info, warn", " a=é", "   é=info", " a=info", " \u{3000}"] {
        assert!(is_filter_readable(level), "{level}");
        config.logging.level = level.to_owned();
        assert_eq!(config.check(), config.validate(), "{level}");
    }
    config.logging.level = " größe=info".to_owned();
    assert_eq!(config.check(), Err(ConfigError::LogLevel));
    config.http.listen.port = 0;
    assert_eq!(config.check(), Err(ConfigError::HttpPort));
    config.http.listen.port = 1;
    config.logging.level = "info".to_owned();
    assert_eq!(config.validate_with(true), Ok(()));
    assert_eq!(config.validate_with(false), Err(ConfigError::LogLevel));
    assert!(is_filter_readable("info, warn"));
    assert!(is_filter_readable("größe=info"));
    assert!(is_filter_readable("info, größe=info"));
    assert!(!is_filter_readable("info, é=info"));
    assert!(is_filter_readable("\u{3000}info"));
}

#[test]
fn masks() {
    assert_eq!(prefix_mask(0), 0);
    assert_eq!(prefix_mask(1), 0x80000000);
    assert_eq!(prefix_mask(24), 0xffffff00);
    assert_eq!(prefix_mask(32), 0xffffffff);
    for prefix in 1..=32 {
        assert_eq!(prefix_mask(prefix), u32::MAX << (32 - prefix));
    }
}

#[test]
fn unicast_addresses() {
    for (a, unicast) in [(1, true), (127, true), (223, true), (224, false), (240, false), (255, false)] {
        assert_eq!(is_unicast(Ipv4Addr::new(a, 2, 3, 4)), unicast);
    }
    assert!(!is_unicast(Ipv4Addr::new(0, 0, 0, 0)));
    assert!(is_unicast(Ipv4Addr::new(0, 0, 0, 1)));
}

#[test]
fn hostnames() {
    let label = "a".repeat(63);
    for (name, valid) in [
        ("host.name", true),
        ("host.name.", true),
        ("a-b.c", true),
        ("", false),
        (".", false),
        ("a..b", false),
        ("a.b..", false),
        ("-a", false),
        ("a-", false),
        ("a_b", false),
        ("größe", false),
        (label.as_str(), true),
        (&format!("{label}a"), false),
        (&[label.as_str(); 4].join("."), false),
    ] {
        assert_eq!(valid_hostname(name), valid, "{name}");
    }
    let longest = format!("{}.{}", [label.as_str(); 3].join("."), "b".repeat(61));
    assert_eq!(longest.len(), 253);
    assert!(valid_hostname(&longest));
}

#[test]
fn timezones() {
    for (name, valid) in [
        ("Etc/UTC", true),
        ("America/Argentina/Buenos_Aires", true),
        ("Etc/GMT+1", true),
        ("", false),
        ("/UTC", false),
        ("UTC/", false),
        ("Etc UTC", false),
        ("Etc\u{7f}", false),
    ] {
        assert_eq!(valid_timezone(name), valid, "{name}");
    }
    assert!(valid_timezone(&"a".repeat(255)));
    assert!(!valid_timezone(&"a".repeat(256)));
}

#[test]
fn addresses_from_text() {
    for (text, expected) in [
        ("1.2.3.4", Some([1, 2, 3, 4])),
        ("0.0.0.0", Some([0, 0, 0, 0])),
        ("255.255.255.255", Some([255, 255, 255, 255])),
        ("10.20.30.100", Some([10, 20, 30, 100])),
        ("256.1.1.1", None),
        ("01.2.3.4", None),
        ("00.0.0.0", None),
        ("1.2.3", None),
        ("1.2.3.4.5", None),
        ("1.2.3.", None),
        (".1.2.3", None),
        ("", None),
        ("+1.2.3.4", None),
        ("1.2.3.4 ", None),
        ("a.b.c.d", None),
        ("1..2.3", None),
        ("1.2.3.1000", None),
        ("1.2.3.4/8", None),
    ] {
        assert_eq!(parse_ipv4(text.as_bytes()).map(|ip| ip.octets()), expected, "{text}");
    }
    assert_eq!(Ipv4Addr::new(10, 0, 200, 9).to_text(), "10.0.200.9");
}

#[test]
fn characters_are_classed_as_std_classes_them() {
    for c in '\0'..=char::MAX {
        assert_eq!(macmapd::text::is_whitespace(c), c.is_whitespace(), "{c:?}");
        assert_eq!(macmapd::text::is_control(c), c.is_control(), "{c:?}");
    }
}

#[test]
fn boot_files_by_architecture() {
    let config = example();
    let files = config.boot.files("x86_64").unwrap();
    assert_eq!(files.bios_file.as_deref(), Some("undionly.kpxe"));
    assert!(config.boot.files("arm64").is_none());
}

#[test]
fn packets_are_logged_on_demand() {
    let mut logging = LoggingConfig::default();
    assert_eq!(logging.packet_directive(), None);
    logging.dhcp_packet_debug = true;
    assert_eq!(logging.packet_directive(), Some("macmapd::dhcp=debug"));
}

#[test]
fn packet_debug_enables_dhcp_debug_with_an_info_global_level() {
    let mut config = example();
    config.logging.level = "info".into();
    config.logging.dhcp_packet_debug = true;
    let directive = config.logging.packet_directive().unwrap();
    let filter = tracing_subscriber::EnvFilter::new(config.logging.level.clone())
        .add_directive(directive.parse().unwrap())
        .to_string();
    assert!(filter.contains("macmapd::dhcp=debug"), "{filter}");
}
