use macmapd::clients::{Clients, ClientsError, Row, RowError};
use macmapd::net::Ipv4Addr;
use macmapd::text::{read_number, NumberFault};

const ROW: &str = "dc1,host.name,uefi,AA:BB:CC:DD:EE:FF,1.2.3.4,24,1.2.3.1\n";
const LONG: &str =
    "dc1,host.example,example.internal,uefi,1500,AA:BB:CC:DD:EE:02,10.0.0.2,24,10.0.0.1\n";

#[test]
fn duplicates_and_shared_hostname() {
    let other = "dc1,host.name,bios,AA:BB:CC:DD:EE:AA,1.2.3.5,24,1.2.3.1\n";
    assert_eq!(
        Clients::parse(&format!("{ROW}{other}"))
            .unwrap()
            .records
            .len(),
        2
    );
    assert!(Clients::parse(&format!("{ROW}{}", ROW.to_lowercase())).is_err());
    assert!(Clients::parse(&format!("{ROW}{}", other.replace("1.2.3.5", "1.2.3.4"))).is_err());
}

#[test]
fn invalid_networks_reject_whole_file() {
    for (from, to) in [
        ("1.2.3.4", "1.2.3.0"),
        ("1.2.3.4", "1.2.3.255"),
        ("1.2.3.1", "1.2.4.1"),
        (",24,", ",32,"),
        ("host.name", "bad_name"),
        ("dc1", ""),
    ] {
        assert!(Clients::parse(&ROW.replace(from, to)).is_err(), "{to}");
    }
}

#[test]
fn point_to_point_prefix_is_supported() {
    let row = ROW.replace(",1.2.3.4,24,1.2.3.1", ",1.2.3.4,31,1.2.3.5");
    let clients = Clients::parse(&row).unwrap();
    let client = clients.records.values().next().unwrap();
    assert_eq!(client.prefix_length, 31);
    assert_eq!(client.gateway, Ipv4Addr::new(1, 2, 3, 5));
}

#[test]
fn optional_header_and_example() {
    assert_eq!(
        Clients::parse(&format!(
            "location,hostname,boot_type,mac,ip,prefix_length,gateway\n{ROW}"
        ))
        .unwrap()
        .records
        .len(),
        1
    );
    assert_eq!(
        Clients::parse(
            "dc1,host.name1,uefi,AA:BB:CC:DD:EE:FF,1.2.3.4,24,1.2.3.1\n\
             dc1,host.name2,bios,AA:BB:CC:DD:EE:AA,1.2.3.5,24,1.2.3.1\n"
        )
        .unwrap()
        .records
        .len(),
        2
    );
}

#[test]
fn long_rows_have_a_domain_and_an_mtu() {
    let header = "location,hostname,domain,boot_type,mtu,mac,ip,prefix_length,gateway\n";
    let clients = Clients::parse(&format!("{header}{LONG}")).unwrap();
    let client = clients.get(&[0xaa, 0xbb, 0xcc, 0xdd, 0xee, 2]).unwrap();
    assert_eq!(client.domain, "example.internal");
    assert_eq!(client.mtu, Some(1500));
    assert_eq!(client.boot_type, "uefi");
    assert_eq!(clients.by_ip[&0x0a000002], client.mac);
    assert!(clients.get(&[0xaa, 0xbb, 0xcc, 0xdd, 0xee, 3]).is_none());
    let short = Clients::parse(ROW).unwrap();
    let client = short.get(&[0xaa, 0xbb, 0xcc, 0xdd, 0xee, 0xff]).unwrap();
    assert_eq!((client.domain.as_str(), client.mtu), ("", None));
}

#[test]
fn readme_example_with_comments_and_blank_lines() {
    let text = "# Datacenter clients\n\
        dc1,host.example,example.internal,uefi,1500,AA:BB:CC:DD:EE:FF,10.20.0.10,24,10.20.0.1\n\
        \n\
        dc1,host.example,example.internal,bios,9000,AA:BB:CC:DD:EE:AA,10.20.0.11,24,10.20.0.1\n";
    assert_eq!(Clients::parse(text).unwrap().records.len(), 2);
}

#[test]
fn empty_and_header_only_files_are_empty_tables() {
    for text in [
        "",
        "location,hostname,boot_type,mac,ip,prefix_length,gateway\n",
        "location,hostname,domain,boot_type,mtu,mac,ip,prefix_length,gateway\n",
        "# nothing\n",
    ] {
        assert_eq!(Clients::parse(text).unwrap().records.len(), 0, "{text}");
    }
}

#[test]
fn fields_are_trimmed() {
    let spaced = ROW.replace(',', " , ");
    let clients = Clients::parse(&spaced).unwrap();
    let client = clients.records.values().next().unwrap();
    assert_eq!(client.location, "dc1");
    assert_eq!(client.hostname, "host.name");
}

fn row_fault(row: &str) -> RowError {
    match Clients::parse(row).unwrap_err() {
        ClientsError::Line(line, error) => {
            assert_eq!(line, 1);
            error
        }
        other => panic!("{other:?}"),
    }
}

#[test]
fn row_faults() {
    for (from, to, fault) in [
        (",1.2.3.1", "", RowError::FieldCount),
        ("dc1", "", RowError::Location),
        ("host.name", "-host", RowError::Hostname),
        ("uefi", "UEFI", RowError::BootType),
        ("AA:BB", "AABB", RowError::MacParts),
        ("AA:BB", "AA:B", RowError::MacParts),
        ("AA:BB", "AA:BG", RowError::MacOctet),
        ("AA:BB", "+A:BB", RowError::MacOctet),
        ("AA:BB:CC:DD:EE:FF", "00:00:00:00:00:00", RowError::MacAddress),
        ("AA:BB", "AB:BB", RowError::MacAddress),
        ("1.2.3.4", "1.2.3.04", RowError::Ip),
        (",24,", ",,", RowError::Prefix(NumberFault::Empty)),
        (",24,", ",x,", RowError::Prefix(NumberFault::Digit)),
        (",24,", ",-1,", RowError::Prefix(NumberFault::Digit)),
        (",24,", ",+,", RowError::Prefix(NumberFault::Digit)),
        (",24,", ",25x,", RowError::Prefix(NumberFault::Digit)),
        (",24,", ",256,", RowError::Prefix(NumberFault::TooLarge)),
        (",24,", ",999x,", RowError::Prefix(NumberFault::TooLarge)),
        (",24,", ",0,", RowError::PrefixRange),
        (",24,", ",32,", RowError::PrefixRange),
        (",1.2.3.1", ",1.2.3", RowError::Gateway),
        (",1.2.3.1", ",224.0.0.1", RowError::NotUnicast),
        (",1.2.3.1", ",1.2.4.1", RowError::GatewayNetwork),
        ("1.2.3.4", "1.2.3.255", RowError::ClientEdge),
        (",1.2.3.1", ",1.2.3.0", RowError::GatewayEdge),
        (",1.2.3.1", ",1.2.3.4", RowError::GatewayIsClient),
    ] {
        assert_eq!(row_fault(&ROW.replace(from, to)), fault, "{to}");
    }
    for (from, to, fault) in [
        ("example.internal", "bad_domain", RowError::Domain),
        (",1500,", ",67,", RowError::Mtu),
        (",1500,", ",65536,", RowError::Mtu),
    ] {
        assert_eq!(row_fault(&LONG.replace(from, to)), fault, "{to}");
    }
    for mtu in ["68", "65535"] {
        assert!(Clients::parse(&LONG.replace("1500", mtu)).is_ok());
    }
}

#[test]
fn table_faults_name_their_line() {
    let double = format!("{ROW}{}", ROW.replace("1.2.3.4", "1.2.3.5"));
    let error = Clients::parse(&double).unwrap_err();
    assert_eq!(error.message(), "CSV line 2: duplicate MAC");
    let double = format!("{ROW}{}", ROW.replace("EE:FF", "EE:FE"));
    let error = Clients::parse(&double).unwrap_err();
    assert_eq!(error.message(), "CSV line 2: duplicate IP 1.2.3.4");
    let error = Clients::parse(&format!("{ROW}{LONG}")).unwrap_err();
    match &error {
        ClientsError::Record(number, why) => {
            assert_eq!(*number, 2);
            assert_eq!(error.message(), format!("CSV record 2: {why}"));
        }
        other => panic!("{other:?}"),
    }
    let error = Clients::parse(&ROW.replace("uefi", "efi")).unwrap_err();
    assert_eq!(error.message(), "CSV line 1: boot_type must be bios or uefi");
    for (from, to, message) in [
        ("AA:BB", "+A:BB", "CSV line 1: invalid MAC octet: invalid digit found in string"),
        ("1.2.3.4", "1.2.3", "CSV line 1: invalid client IPv4: invalid IPv4 address syntax"),
        (",1.2.3.1", ",x", "CSV line 1: invalid gateway IPv4: invalid IPv4 address syntax"),
        (",24,", ",,", "CSV line 1: invalid prefix length: cannot parse integer from empty string"),
        (",24,", ",x,", "CSV line 1: invalid prefix length: invalid digit found in string"),
        (
            ",24,",
            ",256,",
            "CSV line 1: invalid prefix length: number too large to fit in target type",
        ),
    ] {
        let error = Clients::parse(&ROW.replace(from, to)).unwrap_err();
        assert_eq!(error.message(), message);
    }
}

#[test]
fn faults_of_numbers_read_as_those_of_std() {
    for text in ["", "+", "-", "x", "25x", "+25x", "256", "999x", "x999", "0000256", "2560"] {
        let fault = read_number(text.as_bytes(), 10, 255).unwrap_err();
        assert_eq!(fault.message(), text.parse::<u8>().unwrap_err().to_string(), "{text}");
    }
    for text in ["0", "255", "+7", "0000255"] {
        let number = read_number(text.as_bytes(), 10, 255).unwrap();
        assert_eq!(number, u32::from(text.parse::<u8>().unwrap()));
    }
}

#[test]
fn records_without_a_line_are_numbered() {
    let fields: Vec<String> = ["dc1", "h", "uefi", "02:00:00:00:00:01", "10.0.0.2", "24", "10.0.0.1"]
        .iter()
        .map(|field| field.to_string())
        .collect();
    let row = Row { fields: fields.clone(), line: None };
    let clients = Clients::from_records(vec![Ok(row.clone())]).unwrap();
    assert_eq!(clients.get(&[2, 0, 0, 0, 0, 1]).unwrap().hostname, "h");
    match Clients::from_records(vec![Ok(row.clone()), Ok(row.clone())]).unwrap_err() {
        ClientsError::DuplicateMac(line) => assert_eq!(line, 2),
        other => panic!("{other:?}"),
    }
    match Clients::from_records(vec![Ok(row), Err("broken".to_owned())]).unwrap_err() {
        ClientsError::Record(number, why) => assert_eq!((number, why.as_str()), (2, "broken")),
        other => panic!("{other:?}"),
    }
    assert_eq!(Clients::default().records.len(), 0);
}

#[test]
fn hardware_addresses_in_either_case_are_the_same() {
    let upper = Clients::parse(ROW).unwrap();
    let lower = Clients::parse(&ROW.replace("AA:BB:CC:DD:EE:FF", "aa:Bb:cC:dd:ee:ff")).unwrap();
    assert_eq!(
        upper.records.keys().collect::<Vec<_>>(),
        lower.records.keys().collect::<Vec<_>>()
    );
    assert_eq!(upper.records.keys().next(), Some(&0xaabbccddeeff));
}
